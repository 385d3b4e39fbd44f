//! Unsigned integers stored as little-endian bytes, so that they have an alignment of `1` and
//! add no padding to the entries of a log.
use vstd::prelude::*;

verus! {

/// The number that little-endian `bytes` stand for.
pub open spec fn le_value(bytes: Seq<u8>) -> nat
    decreases bytes.len(),
{
    if bytes.len() == 0 {
        0
    } else {
        bytes[0] as nat + 256 * le_value(bytes.drop_first())
    }
}

/// `256` to the power of `n`: the first number that `n` bytes cannot hold.
pub open spec fn pow256(n: nat) -> nat
    decreases n,
{
    if n == 0 {
        1
    } else {
        256 * pow256((n - 1) as nat)
    }
}

pub proof fn lemma_le_value_bound(bytes: Seq<u8>)
    ensures
        le_value(bytes) < pow256(bytes.len()),
    decreases bytes.len(),
{
    if bytes.len() > 0 {
        lemma_le_value_bound(bytes.drop_first());
        let rest = le_value(bytes.drop_first());
        let p = pow256((bytes.len() - 1) as nat);
        assert(bytes[0] as nat + 256 * rest < 256 * p) by (nonlinear_arith)
            requires
                bytes[0] < 256,
                rest < p,
        ;
    }
}

pub proof fn lemma_le_value_push(bytes: Seq<u8>, b: u8)
    ensures
        le_value(bytes.push(b)) == le_value(bytes) + pow256(bytes.len()) * b,
    decreases bytes.len(),
{
    if bytes.len() == 0 {
        reveal_with_fuel(le_value, 2);
        assert(seq![b].drop_first() =~= Seq::<u8>::empty());
        assert(bytes.push(b) =~= seq![b]);
        assert(le_value(seq![b]) == b as nat);
        assert(pow256(0) == 1);
        assert(le_value(bytes) == 0);
    } else {
        lemma_le_value_push(bytes.drop_first(), b);
        assert(bytes.push(b).drop_first() =~= bytes.drop_first().push(b));
        let rest = le_value(bytes.drop_first());
        let p = pow256((bytes.len() - 1) as nat);
        assert(pow256(bytes.len()) == 256 * p);
        assert(le_value(bytes.push(b)) == bytes[0] as nat + 256 * (rest + p * b));
        assert(256 * (rest + p * b) == 256 * rest + (256 * p) * b) by (nonlinear_arith);
        assert(le_value(bytes) == bytes[0] as nat + 256 * rest);
    }
}

pub proof fn lemma_pow256_8()
    ensures
        pow256(8) == 0x1_0000_0000_0000_0000,
{
    reveal_with_fuel(pow256, 9);
}

pub proof fn lemma_pow256_monotonic(a: nat, b: nat)
    requires
        a <= b,
    ensures
        pow256(a) <= pow256(b),
    decreases b,
{
    if a < b {
        lemma_pow256_monotonic(a, (b - 1) as nat);
    }
}

/// Reads the number that up to eight little-endian bytes stand for.
pub(crate) fn le_value_of(bytes: &[u8]) -> (value: u64)
    requires
        bytes@.len() <= 8,
    ensures
        value == le_value(bytes@),
{
    let mut value: u64 = 0;
    let mut i = bytes.len();
    proof {
        assert(bytes@.skip(i as int) =~= Seq::<u8>::empty());
    }
    while i > 0
        invariant
            i <= bytes@.len() <= 8,
            value == le_value(bytes@.skip(i as int)),
        decreases i,
    {
        i = i - 1;
        proof {
            assert(bytes@.skip(i as int).drop_first() =~= bytes@.skip(i as int + 1));
            lemma_le_value_bound(bytes@.skip(i as int));
            lemma_pow256_monotonic((bytes@.len() - i) as nat, 8);
            lemma_pow256_8();
            assert(le_value(bytes@.skip(i as int)) == bytes@[i as int] as nat + 256 * value);
        }
        value = value * 256 + bytes[i] as u64;
    }
    proof {
        assert(bytes@.skip(0) =~= bytes@);
    }
    value
}

/// The lowest `n` little-endian bytes of `value`, or `None` when `value` does not fit into
/// them.
pub(crate) fn le_bytes_of(value: u64, n: usize) -> (bytes: Option<Vec<u8>>)
    requires
        n <= 8,
    ensures
        bytes is Some <==> value < pow256(n as nat),
        bytes is Some ==> bytes->Some_0@.len() == n && le_value(bytes->Some_0@) == value,
{
    let mut rest = value;
    let mut bytes: Vec<u8> = Vec::new();
    let mut i: usize = 0;
    proof {
        assert(le_value(bytes@) == 0);
        assert(pow256(0) == 1);
    }
    while i < n
        invariant
            i <= n <= 8,
            bytes@.len() == i,
            value == le_value(bytes@) + pow256(i as nat) * rest,
        decreases n - i,
    {
        let b = (rest % 256) as u8;
        let next = rest / 256;
        proof {
            lemma_le_value_push(bytes@, b);
            let p = pow256(i as nat);
            assert(p * rest == p * b + (256 * p) * next) by (nonlinear_arith)
                requires
                    rest == b + 256 * next,
            ;
        }
        bytes.push(b);
        rest = next;
        i = i + 1;
    }
    proof {
        lemma_le_value_bound(bytes@);
        let l = le_value(bytes@);
        let p = pow256(n as nat);
        assert(rest == 0 <==> value < p) by (nonlinear_arith)
            requires
                value == l + p * rest,
                l < p,
        ;
    }
    if rest == 0 {
        Some(bytes)
    } else {
        None
    }
}

/// An unsigned 16 bit integer with an alignment of `1`.
#[derive(Clone, Copy, PartialEq, Eq, Debug, Hash, Default)]
pub struct PackedU16([u8; 2]);

/// An unsigned 24 bit integer with an alignment of `1`: from `0` up to `16777215`.
#[derive(Clone, Copy, PartialEq, Eq, Debug, Hash, Default)]
pub struct PackedU24([u8; 3]);

/// An unsigned 32 bit integer with an alignment of `1`.
#[derive(Clone, Copy, PartialEq, Eq, Debug, Hash, Default)]
pub struct PackedU32([u8; 4]);

/// An unsigned 40 bit integer with an alignment of `1`: from `0` up to `1099511627775`.
#[derive(Clone, Copy, PartialEq, Eq, Debug, Hash, Default)]
pub struct PackedU40([u8; 5]);

/// An unsigned 48 bit integer with an alignment of `1`.
#[derive(Clone, Copy, PartialEq, Eq, Debug, Hash, Default)]
pub struct PackedU48([u8; 6]);

/// An unsigned 56 bit integer with an alignment of `1`.
#[derive(Clone, Copy, PartialEq, Eq, Debug, Hash, Default)]
pub struct PackedU56([u8; 7]);

/// An unsigned integer of eight bytes, enough for every `usize`, with an alignment of `1`.
#[derive(Clone, Copy, PartialEq, Eq, Debug, Hash, Default)]
pub struct PackedUSize([u8; 8]);

impl PackedU16 {
    /// The number the bytes stand for.
    pub closed spec fn value(self) -> nat {
        le_value(self.0@)
    }

    pub fn into_usize(self) -> (r: usize)
        ensures
            r == self.value(),
    {
        proof {
            lemma_le_value_bound(self.0@);
            reveal_with_fuel(pow256, 3);
        }
        le_value_of(&self.0) as usize
    }

    /// `value` as a packed integer, or `value` back when it does not fit.
    pub fn try_from_usize(value: usize) -> (r: Result<Self, usize>)
        ensures
            r is Ok <==> value < pow256(2),
            r is Ok ==> r->Ok_0.value() == value,
            r is Err ==> r->Err_0 == value,
    {
        match le_bytes_of(value as u64, 2) {
            Some(b) => {
                let packed = PackedU16([b[0], b[1]]);
                proof {
                    assert(packed.0@ =~= b@);
                }
                Ok(packed)
            },
            None => Err(value),
        }
    }
}

impl PackedU24 {
    /// The number the bytes stand for.
    pub closed spec fn value(self) -> nat {
        le_value(self.0@)
    }

    pub fn into_usize(self) -> (r: usize)
        ensures
            r == self.value(),
    {
        proof {
            lemma_le_value_bound(self.0@);
            reveal_with_fuel(pow256, 4);
        }
        le_value_of(&self.0) as usize
    }

    /// `value` as a packed integer, or `value` back when it does not fit.
    pub fn try_from_usize(value: usize) -> (r: Result<Self, usize>)
        ensures
            r is Ok <==> value < pow256(3),
            r is Ok ==> r->Ok_0.value() == value,
            r is Err ==> r->Err_0 == value,
    {
        match le_bytes_of(value as u64, 3) {
            Some(b) => {
                let packed = PackedU24([b[0], b[1], b[2]]);
                proof {
                    assert(packed.0@ =~= b@);
                }
                Ok(packed)
            },
            None => Err(value),
        }
    }
}

impl PackedU32 {
    /// The number the bytes stand for.
    pub closed spec fn value(self) -> nat {
        le_value(self.0@)
    }

    pub fn into_usize(self) -> (r: usize)
        ensures
            r == self.value(),
    {
        proof {
            lemma_le_value_bound(self.0@);
            reveal_with_fuel(pow256, 5);
        }
        le_value_of(&self.0) as usize
    }

    /// `value` as a packed integer, or `value` back when it does not fit.
    pub fn try_from_usize(value: usize) -> (r: Result<Self, usize>)
        ensures
            r is Ok <==> value < pow256(4),
            r is Ok ==> r->Ok_0.value() == value,
            r is Err ==> r->Err_0 == value,
    {
        match le_bytes_of(value as u64, 4) {
            Some(b) => {
                let packed = PackedU32([b[0], b[1], b[2], b[3]]);
                proof {
                    assert(packed.0@ =~= b@);
                }
                Ok(packed)
            },
            None => Err(value),
        }
    }
}

impl PackedU40 {
    /// The number the bytes stand for.
    pub closed spec fn value(self) -> nat {
        le_value(self.0@)
    }

    /// The number as a `usize`; on a machine whose `usize` is narrower, the lowest bytes.
    pub fn into_usize(self) -> (r: usize)
        ensures
            r == self.value() as usize,
    {
        le_value_of(&self.0) as usize
    }

    /// `value` as a packed integer, or `value` back when it does not fit.
    pub fn try_from_usize(value: usize) -> (r: Result<Self, usize>)
        ensures
            r is Ok <==> value < pow256(5),
            r is Ok ==> r->Ok_0.value() == value,
            r is Err ==> r->Err_0 == value,
    {
        match le_bytes_of(value as u64, 5) {
            Some(b) => {
                let packed = PackedU40([b[0], b[1], b[2], b[3], b[4]]);
                proof {
                    assert(packed.0@ =~= b@);
                }
                Ok(packed)
            },
            None => Err(value),
        }
    }
}

impl PackedU48 {
    /// The number the bytes stand for.
    pub closed spec fn value(self) -> nat {
        le_value(self.0@)
    }

    /// The number as a `usize`; on a machine whose `usize` is narrower, the lowest bytes.
    pub fn into_usize(self) -> (r: usize)
        ensures
            r == self.value() as usize,
    {
        le_value_of(&self.0) as usize
    }

    /// `value` as a packed integer, or `value` back when it does not fit.
    pub fn try_from_usize(value: usize) -> (r: Result<Self, usize>)
        ensures
            r is Ok <==> value < pow256(6),
            r is Ok ==> r->Ok_0.value() == value,
            r is Err ==> r->Err_0 == value,
    {
        match le_bytes_of(value as u64, 6) {
            Some(b) => {
                let packed = PackedU48([b[0], b[1], b[2], b[3], b[4], b[5]]);
                proof {
                    assert(packed.0@ =~= b@);
                }
                Ok(packed)
            },
            None => Err(value),
        }
    }
}

impl PackedU56 {
    /// The number the bytes stand for.
    pub closed spec fn value(self) -> nat {
        le_value(self.0@)
    }

    /// The number as a `usize`; on a machine whose `usize` is narrower, the lowest bytes.
    pub fn into_usize(self) -> (r: usize)
        ensures
            r == self.value() as usize,
    {
        le_value_of(&self.0) as usize
    }

    /// `value` as a packed integer, or `value` back when it does not fit.
    pub fn try_from_usize(value: usize) -> (r: Result<Self, usize>)
        ensures
            r is Ok <==> value < pow256(7),
            r is Ok ==> r->Ok_0.value() == value,
            r is Err ==> r->Err_0 == value,
    {
        match le_bytes_of(value as u64, 7) {
            Some(b) => {
                let packed = PackedU56([b[0], b[1], b[2], b[3], b[4], b[5], b[6]]);
                proof {
                    assert(packed.0@ =~= b@);
                }
                Ok(packed)
            },
            None => Err(value),
        }
    }
}

impl PackedUSize {
    /// The number the bytes stand for.
    pub closed spec fn value(self) -> nat {
        le_value(self.0@)
    }

    /// The number as a `usize`; on a machine whose `usize` is narrower, the lowest bytes.
    pub fn into_usize(self) -> (r: usize)
        ensures
            r == self.value() as usize,
    {
        le_value_of(&self.0) as usize
    }

    /// `value` as a packed integer; every `usize` fits.
    pub fn from_usize(value: usize) -> (r: Self)
        ensures
            r.value() == value,
    {
        proof {
            lemma_pow256_8();
        }
        match le_bytes_of(value as u64, 8) {
            Some(b) => {
                let packed = PackedUSize([b[0], b[1], b[2], b[3], b[4], b[5], b[6], b[7]]);
                proof {
                    assert(packed.0@ =~= b@);
                }
                packed
            },
            None => {
                proof {
                    assert(false);
                }
                PackedUSize([0, 0, 0, 0, 0, 0, 0, 0])
            },
        }
    }
}

} // verus!
