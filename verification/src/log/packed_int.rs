//! Signed integers stored as little-endian two's complement bytes, so that they have an
//! alignment of `1` and add no padding to the entries of a log.
use vstd::prelude::*;

use super::packed_uint::{le_bytes_of, le_value, le_value_of, lemma_le_value_bound, pow256};

verus! {

/// The signed number that `n` little-endian two's complement bytes holding `u` stand for.
pub open spec fn signed_value(u: nat, n: nat) -> int {
    if u < pow256(n) / 2 {
        u as int
    } else {
        u - pow256(n)
    }
}

/// A signed 16 bit integer with an alignment of `1`.
#[derive(Clone, Copy, PartialEq, Eq, Debug, Hash, Default)]
pub struct PackedI16([u8; 2]);

/// A signed 32 bit integer with an alignment of `1`.
#[derive(Clone, Copy, PartialEq, Eq, Debug, Hash, Default)]
pub struct PackedI32([u8; 4]);

/// A signed 64 bit integer with an alignment of `1`.
#[derive(Clone, Copy, PartialEq, Eq, Debug, Hash, Default)]
pub struct PackedI64([u8; 8]);

impl PackedI16 {
    /// The number the bytes stand for.
    pub closed spec fn value(self) -> int {
        signed_value(le_value(self.0@), 2)
    }

    pub fn into_i16(self) -> (r: i16)
        ensures
            r == self.value(),
    {
        proof {
            lemma_le_value_bound(self.0@);
            reveal_with_fuel(pow256, 3);
        }
        let u = le_value_of(&self.0) as u16;
        let r = u as i16;
        assert(u < 32768 ==> r as i32 == u as i32) by (bit_vector)
            requires
                r == u as i16,
        ;
        assert(u >= 32768 ==> r as i32 == u as i32 - 65536) by (bit_vector)
            requires
                r == u as i16,
        ;
        r
    }

    pub fn from_i16(value: i16) -> (r: Self)
        ensures
            r.value() == value,
    {
        proof {
            reveal_with_fuel(pow256, 3);
        }
        let u = value as u16;
        assert(value >= 0 ==> u as i32 == value as i32) by (bit_vector)
            requires
                u == value as u16,
        ;
        assert(value < 0 ==> u as i32 == value as i32 + 65536) by (bit_vector)
            requires
                u == value as u16,
        ;
        match le_bytes_of(u as u64, 2) {
            Some(b) => {
                let packed = PackedI16([b[0], b[1]]);
                proof {
                    assert(packed.0@ =~= b@);
                }
                packed
            },
            None => {
                proof {
                    assert(false);
                }
                PackedI16([0, 0])
            },
        }
    }
}

impl PackedI32 {
    /// The number the bytes stand for.
    pub closed spec fn value(self) -> int {
        signed_value(le_value(self.0@), 4)
    }

    pub fn into_i32(self) -> (r: i32)
        ensures
            r == self.value(),
    {
        proof {
            lemma_le_value_bound(self.0@);
            reveal_with_fuel(pow256, 5);
        }
        let u = le_value_of(&self.0) as u32;
        let r = u as i32;
        assert(u < 0x8000_0000 ==> r as i64 == u as i64) by (bit_vector)
            requires
                r == u as i32,
        ;
        assert(u >= 0x8000_0000 ==> r as i64 == u as i64 - 0x1_0000_0000) by (bit_vector)
            requires
                r == u as i32,
        ;
        r
    }

    pub fn from_i32(value: i32) -> (r: Self)
        ensures
            r.value() == value,
    {
        proof {
            reveal_with_fuel(pow256, 5);
        }
        let u = value as u32;
        assert(value >= 0 ==> u as i64 == value as i64) by (bit_vector)
            requires
                u == value as u32,
        ;
        assert(value < 0 ==> u as i64 == value as i64 + 0x1_0000_0000) by (bit_vector)
            requires
                u == value as u32,
        ;
        match le_bytes_of(u as u64, 4) {
            Some(b) => {
                let packed = PackedI32([b[0], b[1], b[2], b[3]]);
                proof {
                    assert(packed.0@ =~= b@);
                }
                packed
            },
            None => {
                proof {
                    assert(false);
                }
                PackedI32([0, 0, 0, 0])
            },
        }
    }
}

impl PackedI64 {
    /// The number the bytes stand for.
    pub closed spec fn value(self) -> int {
        signed_value(le_value(self.0@), 8)
    }

    pub fn into_i64(self) -> (r: i64)
        ensures
            r == self.value(),
    {
        proof {
            lemma_le_value_bound(self.0@);
            reveal_with_fuel(pow256, 9);
        }
        let u = le_value_of(&self.0);
        let r = u as i64;
        assert(u < 0x8000_0000_0000_0000 ==> r as i128 == u as i128) by (bit_vector)
            requires
                r == u as i64,
        ;
        assert(u >= 0x8000_0000_0000_0000 ==> r as i128 == u as i128 - 0x1_0000_0000_0000_0000) by (bit_vector)
            requires
                r == u as i64,
        ;
        r
    }

    pub fn from_i64(value: i64) -> (r: Self)
        ensures
            r.value() == value,
    {
        proof {
            reveal_with_fuel(pow256, 9);
        }
        let u = value as u64;
        assert(value >= 0 ==> u as i128 == value as i128) by (bit_vector)
            requires
                u == value as u64,
        ;
        assert(value < 0 ==> u as i128 == value as i128 + 0x1_0000_0000_0000_0000) by (bit_vector)
            requires
                u == value as u64,
        ;
        match le_bytes_of(u, 8) {
            Some(b) => {
                let packed = PackedI64([b[0], b[1], b[2], b[3], b[4], b[5], b[6], b[7]]);
                proof {
                    assert(packed.0@ =~= b@);
                }
                packed
            },
            None => {
                proof {
                    assert(false);
                }
                PackedI64([0, 0, 0, 0, 0, 0, 0, 0])
            },
        }
    }
}

/// A signed number that does not fit into the bytes of a reduced size packed integer, with the
/// range the packed integer holds, from `range.0` up to and including `range.1`.
#[derive(Debug, PartialEq)]
pub struct ToPackedErr<T> {
    pub value_out_of_range: T,
    pub range: (T, T),
}

/// A signed 24 bit integer with an alignment of `1`: from `-8388608` up to `8388607`.
#[derive(Clone, Copy, PartialEq, Eq, Debug, Hash, Default)]
pub struct PackedI24([u8; 3]);

impl PackedI24 {
    /// The number the bytes stand for.
    pub closed spec fn value(self) -> int {
        signed_value(le_value(self.0@), 3)
    }

    /// The number, its sign extended from the highest stored bit.
    pub fn into_i64(self) -> (r: i64)
        ensures
            r == self.value(),
    {
        proof {
            lemma_le_value_bound(self.0@);
            reveal_with_fuel(pow256, 4);
        }
        let u = le_value_of(&self.0);
        if u >= 0x800000 {
            (u as i64) - 0x1000000
        } else {
            u as i64
        }
    }

    /// `value` as a packed integer, or the error with the range of the packed integer when
    /// `value` lies outside it.
    pub fn try_from_i64(value: i64) -> (r: Result<Self, ToPackedErr<i64>>)
        ensures
            r is Ok <==> -0x800000 <= value < 0x800000,
            r is Ok ==> r->Ok_0.value() == value,
            r is Err ==> r->Err_0 == (ToPackedErr { value_out_of_range: value, range: (-0x800000i64, 0x7fffffi64) }),
    {
        proof {
            reveal_with_fuel(pow256, 4);
        }
        if value < -0x800000 || value > 0x7fffff {
            return Err(ToPackedErr { value_out_of_range: value, range: (-0x800000, 0x7fffff) });
        }
        let u: u64 = if value < 0 {
            (value + 0x1000000) as u64
        } else {
            value as u64
        };
        match le_bytes_of(u, 3) {
            Some(b) => {
                let packed = PackedI24([b[0], b[1], b[2]]);
                proof {
                    assert(packed.0@ =~= b@);
                }
                Ok(packed)
            },
            None => {
                proof {
                    assert(false);
                }
                Ok(PackedI24([0, 0, 0]))
            },
        }
    }
}

/// A signed 40 bit integer with an alignment of `1`: from `-549755813888` up to `549755813887`.
#[derive(Clone, Copy, PartialEq, Eq, Debug, Hash, Default)]
pub struct PackedI40([u8; 5]);

impl PackedI40 {
    /// The number the bytes stand for.
    pub closed spec fn value(self) -> int {
        signed_value(le_value(self.0@), 5)
    }

    /// The number, its sign extended from the highest stored bit.
    pub fn into_i64(self) -> (r: i64)
        ensures
            r == self.value(),
    {
        proof {
            lemma_le_value_bound(self.0@);
            reveal_with_fuel(pow256, 6);
        }
        let u = le_value_of(&self.0);
        if u >= 0x8000000000 {
            (u as i64) - 0x10000000000
        } else {
            u as i64
        }
    }

    /// `value` as a packed integer, or the error with the range of the packed integer when
    /// `value` lies outside it.
    pub fn try_from_i64(value: i64) -> (r: Result<Self, ToPackedErr<i64>>)
        ensures
            r is Ok <==> -0x8000000000 <= value < 0x8000000000,
            r is Ok ==> r->Ok_0.value() == value,
            r is Err ==> r->Err_0 == (ToPackedErr { value_out_of_range: value, range: (-0x8000000000i64, 0x7fffffffffi64) }),
    {
        proof {
            reveal_with_fuel(pow256, 6);
        }
        if value < -0x8000000000 || value > 0x7fffffffff {
            return Err(ToPackedErr { value_out_of_range: value, range: (-0x8000000000, 0x7fffffffff) });
        }
        let u: u64 = if value < 0 {
            (value + 0x10000000000) as u64
        } else {
            value as u64
        };
        match le_bytes_of(u, 5) {
            Some(b) => {
                let packed = PackedI40([b[0], b[1], b[2], b[3], b[4]]);
                proof {
                    assert(packed.0@ =~= b@);
                }
                Ok(packed)
            },
            None => {
                proof {
                    assert(false);
                }
                Ok(PackedI40([0, 0, 0, 0, 0]))
            },
        }
    }
}

/// A signed 48 bit integer with an alignment of `1`: from `-140737488355328` up to `140737488355327`.
#[derive(Clone, Copy, PartialEq, Eq, Debug, Hash, Default)]
pub struct PackedI48([u8; 6]);

impl PackedI48 {
    /// The number the bytes stand for.
    pub closed spec fn value(self) -> int {
        signed_value(le_value(self.0@), 6)
    }

    /// The number, its sign extended from the highest stored bit.
    pub fn into_i64(self) -> (r: i64)
        ensures
            r == self.value(),
    {
        proof {
            lemma_le_value_bound(self.0@);
            reveal_with_fuel(pow256, 7);
        }
        let u = le_value_of(&self.0);
        if u >= 0x800000000000 {
            (u as i64) - 0x1000000000000
        } else {
            u as i64
        }
    }

    /// `value` as a packed integer, or the error with the range of the packed integer when
    /// `value` lies outside it.
    pub fn try_from_i64(value: i64) -> (r: Result<Self, ToPackedErr<i64>>)
        ensures
            r is Ok <==> -0x800000000000 <= value < 0x800000000000,
            r is Ok ==> r->Ok_0.value() == value,
            r is Err ==> r->Err_0 == (ToPackedErr { value_out_of_range: value, range: (-0x800000000000i64, 0x7fffffffffffi64) }),
    {
        proof {
            reveal_with_fuel(pow256, 7);
        }
        if value < -0x800000000000 || value > 0x7fffffffffff {
            return Err(ToPackedErr { value_out_of_range: value, range: (-0x800000000000, 0x7fffffffffff) });
        }
        let u: u64 = if value < 0 {
            (value + 0x1000000000000) as u64
        } else {
            value as u64
        };
        match le_bytes_of(u, 6) {
            Some(b) => {
                let packed = PackedI48([b[0], b[1], b[2], b[3], b[4], b[5]]);
                proof {
                    assert(packed.0@ =~= b@);
                }
                Ok(packed)
            },
            None => {
                proof {
                    assert(false);
                }
                Ok(PackedI48([0, 0, 0, 0, 0, 0]))
            },
        }
    }
}

/// A signed 56 bit integer with an alignment of `1`: from `-36028797018963968` up to `36028797018963967`.
#[derive(Clone, Copy, PartialEq, Eq, Debug, Hash, Default)]
pub struct PackedI56([u8; 7]);

impl PackedI56 {
    /// The number the bytes stand for.
    pub closed spec fn value(self) -> int {
        signed_value(le_value(self.0@), 7)
    }

    /// The number, its sign extended from the highest stored bit.
    pub fn into_i64(self) -> (r: i64)
        ensures
            r == self.value(),
    {
        proof {
            lemma_le_value_bound(self.0@);
            reveal_with_fuel(pow256, 8);
        }
        let u = le_value_of(&self.0);
        if u >= 0x80000000000000 {
            (u as i64) - 0x100000000000000
        } else {
            u as i64
        }
    }

    /// `value` as a packed integer, or the error with the range of the packed integer when
    /// `value` lies outside it.
    pub fn try_from_i64(value: i64) -> (r: Result<Self, ToPackedErr<i64>>)
        ensures
            r is Ok <==> -0x80000000000000 <= value < 0x80000000000000,
            r is Ok ==> r->Ok_0.value() == value,
            r is Err ==> r->Err_0 == (ToPackedErr { value_out_of_range: value, range: (-0x80000000000000i64, 0x7fffffffffffffi64) }),
    {
        proof {
            reveal_with_fuel(pow256, 8);
        }
        if value < -0x80000000000000 || value > 0x7fffffffffffff {
            return Err(ToPackedErr { value_out_of_range: value, range: (-0x80000000000000, 0x7fffffffffffff) });
        }
        let u: u64 = if value < 0 {
            (value + 0x100000000000000) as u64
        } else {
            value as u64
        };
        match le_bytes_of(u, 7) {
            Some(b) => {
                let packed = PackedI56([b[0], b[1], b[2], b[3], b[4], b[5], b[6]]);
                proof {
                    assert(packed.0@ =~= b@);
                }
                Ok(packed)
            },
            None => {
                proof {
                    assert(false);
                }
                Ok(PackedI56([0, 0, 0, 0, 0, 0, 0]))
            },
        }
    }
}

} // verus!
