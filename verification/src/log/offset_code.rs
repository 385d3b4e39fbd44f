//! The byte code in which a frame transition log stores the offsets between the frames it ran at.
//!
//! An offset up to 63 takes one byte `0b00xxxxxx`. A larger one takes a first byte `0b01xxxxxx`
//! with its 6 lowest bits, middle bytes `0b1xxxxxxx` with 7 bits each and a last byte
//! `0b01xxxxxx` with the highest bits, so that the code can be read from either end. A single
//! byte `0b1xxxxxxx` between offsets stands for a run of zero offsets.
use std::collections::VecDeque;
use vstd::prelude::*;

verus! {

/// The bytes after the first one of the code of an offset whose 6 lowest bits are gone.
pub open spec fn encode_rest(x: u64) -> Seq<u8>
    decreases x,
{
    if x <= 63 {
        seq![(x | 64) as u8]
    } else {
        proof {
            lemma_shift_decreases(x);
        }
        seq![((x & 127) | 128) as u8] + encode_rest(x >> 7)
    }
}

/// The code of one offset.
pub open spec fn encode(offset: u64) -> Seq<u8> {
    if offset <= 63 {
        seq![offset as u8]
    } else {
        seq![((offset & 63) | 64) as u8] + encode_rest(offset >> 6)
    }
}

/// The number of bytes of `encode_rest(x)`.
pub open spec fn rest_len(x: u64) -> nat
    decreases x,
{
    if x <= 63 {
        1
    } else {
        proof {
            lemma_shift_decreases(x);
        }
        1 + rest_len(x >> 7)
    }
}

/// The number of bytes of `encode(offset)`.
pub open spec fn encoded_len(offset: u64) -> nat {
    if offset <= 63 {
        1
    } else {
        1 + rest_len(offset >> 6)
    }
}

/// What a byte code holds, one entry per offset or run of zero offsets.
#[derive(Clone, Copy, Debug, PartialEq, Eq, Structural)]
pub enum OffsetToken {
    Offset(u64),
    /// A byte `0b1xxxxxxx` that stands for `257 - byte` zero offsets.
    Zeroes(u8),
}

/// The bytes of one token.
pub open spec fn token_bytes(token: OffsetToken) -> Seq<u8> {
    match token {
        OffsetToken::Offset(o) => encode(o),
        OffsetToken::Zeroes(b) => seq![b],
    }
}

/// A token that the code can hold.
pub open spec fn token_wf(token: OffsetToken) -> bool {
    match token {
        OffsetToken::Offset(_) => true,
        OffsetToken::Zeroes(b) => b >= 128,
    }
}

/// The bytes of a sequence of tokens, in order.
pub open spec fn flatten(tokens: Seq<OffsetToken>) -> Seq<u8>
    decreases tokens.len(),
{
    if tokens.len() == 0 {
        Seq::empty()
    } else {
        token_bytes(tokens[0]) + flatten(tokens.drop_first())
    }
}

/// The tokens of a sequence of offsets.
pub open spec fn offset_tokens(offsets: Seq<u64>) -> Seq<OffsetToken> {
    offsets.map_values(|o: u64| OffsetToken::Offset(o))
}

/// The bytes that a sequence of offsets is stored in.
pub open spec fn encode_all(offsets: Seq<u64>) -> Seq<u8> {
    flatten(offset_tokens(offsets))
}

/// The mask of the bits below `s`.
pub open spec fn low_mask(s: u64) -> u64 {
    !(0xffff_ffff_ffff_ffffu64 << s)
}

pub proof fn lemma_shift_decreases(x: u64)
    requires
        x > 63,
    ensures
        x >> 7 < x,
        x >> 6 < x,
{
    assert(x > 63 ==> x >> 7 < x && x >> 6 < x) by (bit_vector);
}

proof fn lemma_shr_shr(x: u64, a: u64, b: u64)
    requires
        a + b < 64,
        a == 6 || a == 7,
    ensures
        (x >> a) >> b == x >> (a + b),
{
    if a == 6 {
        assert(b < 58 ==> (x >> 6u64) >> b == x >> (b + 6)) by (bit_vector);
    } else {
        assert(b < 57 ==> (x >> 7u64) >> b == x >> (b + 7)) by (bit_vector);
    }
}

/// Byte facts of the three kinds of bytes that the code of an offset holds.
proof fn lemma_byte_kinds(x: u64)
    ensures
        x <= 63 ==> (x as u8) < 64 && (x as u8) as u64 == x,
        x <= 63 ==> 64 <= ((x | 64) as u8) < 128 && (((x | 64) as u8) & 63) as u64 == x,
        128 <= (((x & 127) | 128) as u8) && (((x & 127) | 128) as u8 & 127) as u64 == x & 127,
        64 <= (((x & 63) | 64) as u8) < 128 && ((((x & 63) | 64) as u8) & 63) as u64 == x & 63,
{
    assert(x <= 63 ==> (x as u8) < 64 && (x as u8) as u64 == x) by (bit_vector);
    assert(x <= 63 ==> 64 <= ((x | 64) as u8) < 128 && (((x | 64) as u8) & 63) as u64 == x)
        by (bit_vector);
    assert(128 <= (((x & 127) | 128) as u8) && (((x & 127) | 128) as u8 & 127) as u64 == x & 127)
        by (bit_vector);
    assert(64 <= (((x & 63) | 64) as u8) < 128 && ((((x & 63) | 64) as u8) & 63) as u64 == x & 63)
        by (bit_vector);
}

/// The length of the code after the first byte is at most 9 bytes.
proof fn lemma_rest_len_le(x: u64, j: u64)
    requires
        j <= 8,
        x >> (7 * j) <= 63,
    ensures
        rest_len(x) <= j + 1,
    decreases j,
{
    if x > 63 {
        lemma_shift_decreases(x);
        if j == 0 {
            assert(x >> 0 == x) by (bit_vector);
        } else {
            lemma_shr_shr(x, 7, (7 * (j - 1)) as u64);
            lemma_rest_len_le(x >> 7, (j - 1) as u64);
        }
    }
}

pub proof fn lemma_rest_len_bound(offset: u64)
    ensures
        rest_len(offset >> 6) <= 9,
        encoded_len(offset) <= 10,
        encoded_len(offset) >= 1,
{
    lemma_shr_shr(offset, 6, 56);
    assert((offset >> 62) <= 3) by (bit_vector);
    lemma_rest_len_le(offset >> 6, 8);
}

/// The bytes of `encode_rest(x)` by position.
proof fn lemma_rest_index(x: u64, i: nat)
    requires
        i < rest_len(x),
        rest_len(x) <= 9,
    ensures
        encode_rest(x).len() == rest_len(x),
        i < rest_len(x) - 1 ==> (x >> (7 * i) as u64) > 63 && encode_rest(x)[i as int] == (((x >> (7
            * i) as u64) & 127) | 128) as u8,
        i == rest_len(x) - 1 ==> (x >> (7 * i) as u64) <= 63 && encode_rest(x)[i as int] == ((x >> (7
            * i) as u64) | 64) as u8,
    decreases x,
{
    if x <= 63 {
        assert(x >> 0 == x) by (bit_vector);
    } else {
        lemma_shift_decreases(x);
        let y = x >> 7;
        lemma_rest_len_nonzero(y);
        if i == 0 {
            assert(x >> 0 == x) by (bit_vector);
            lemma_rest_index(y, 0);
        } else {
            lemma_rest_index(y, (i - 1) as nat);
            lemma_shr_shr(x, 7, (7 * (i - 1)) as u64);
            assert(encode_rest(x)[i as int] == encode_rest(y)[i - 1]);
        }
    }
}

proof fn lemma_rest_len_nonzero(x: u64)
    ensures
        rest_len(x) >= 1,
        encode_rest(x).len() == rest_len(x),
    decreases x,
{
    if x > 63 {
        lemma_shift_decreases(x);
        lemma_rest_len_nonzero(x >> 7);
    }
}

/// The length of the code of an offset is `encoded_len`.
pub proof fn lemma_encode_len(offset: u64)
    ensures
        encode(offset).len() == encoded_len(offset),
        1 <= encoded_len(offset) <= 10,
{
    lemma_rest_len_bound(offset);
    lemma_rest_len_nonzero(offset >> 6);
}

/// The bytes of `encode(offset)` by position, as the decoders read them.
pub proof fn lemma_encode_index(offset: u64, k: nat)
    requires
        k < encoded_len(offset),
    ensures
        encode(offset).len() == encoded_len(offset),
        offset <= 63 ==> encode(offset)[0] == offset as u8 && (offset as u8) < 64 && (offset as u8) as u64 == offset,
        offset > 63 && k == 0 ==> 64 <= encode(offset)[0] < 128 && (encode(offset)[0] & 63) as u64 == offset & 63,
        offset > 63 && 0 < k < encoded_len(offset) - 1 ==> 128 <= encode(offset)[k as int] && (
        encode(offset)[k as int] & 127) as u64 == (offset >> (6 + 7 * (k - 1)) as u64) & 127 && (offset >> (6 + 7 * (k - 1)) as u64) > 63,
        offset > 63 && k == encoded_len(offset) - 1 ==> 64 <= encode(offset)[k as int] < 128 && (
        encode(offset)[k as int] & 63) as u64 == offset >> (6 + 7 * (k - 1)) as u64 && (offset >> (6 + 7 * (k - 1)) as u64) <= 63,
{
    lemma_encode_len(offset);
    lemma_byte_kinds(offset);
    if offset > 63 && k > 0 {
        let x = offset >> 6;
        let i = (k - 1) as nat;
        lemma_rest_index(x, i);
        lemma_shr_shr(offset, 6, (7 * i) as u64);
        assert(encode(offset)[k as int] == encode_rest(x)[i as int]);
        lemma_byte_kinds(x >> (7 * i) as u64);
    }
}

/// Reading forward: `frame` holds the bits below `shift`, one 7 bit group more adds 7 bits.
proof fn lemma_forward_step(o: u64, s: u64)
    requires
        s + 7 <= 62,
    ensures
        (o & low_mask(s)) | (((o >> s) & 127) << s) == o & low_mask((s + 7) as u64),
        (o >> s) >> 7 == o >> (s + 7) as u64,
{
    assert(s + 7 <= 62 ==> (o & low_mask(s)) | (((o >> s) & 127) << s) == o & low_mask(
        (s + 7) as u64)) by (bit_vector);
    assert(s + 7 <= 62 ==> (o >> s) >> 7 == o >> (s + 7) as u64) by (bit_vector);
}

/// Reading forward: the bits from `shift` on complete the offset.
proof fn lemma_forward_last(o: u64, s: u64)
    requires
        s < 64,
    ensures
        (o & low_mask(s)) | ((o >> s) << s) == o,
{
    assert(s < 64 ==> (o & low_mask(s)) | ((o >> s) << s) == o) by (bit_vector);
}

/// Reading backward: the bits from `s + 7` on and one 7 bit group give the bits from `s` on.
proof fn lemma_backward_step(o: u64, s: u64)
    requires
        s + 7 < 64,
    ensures
        ((o >> (s + 7) as u64) << 7) | ((o >> s) & 127) == o >> s,
{
    assert(s + 7 < 64 ==> ((o >> (s + 7) as u64) << 7) | ((o >> s) & 127) == o >> s) by (bit_vector);
}

proof fn lemma_backward_last(o: u64)
    ensures
        ((o >> 6) << 6) | (o & 63) == o,
        o & low_mask(6) == o & 63,
{
    assert(((o >> 6) << 6) | (o & 63) == o) by (bit_vector);
    assert(o & low_mask(6) == o & 63) by (bit_vector);
}

/// Reads the offset whose code starts at `pos`; returns it with the length of its code.
pub(crate) fn decode_forward(bytes: &VecDeque<u8>, pos: usize, Ghost(offset): Ghost<u64>) -> (r: (
    u64,
    usize,
))
    requires
        pos + encoded_len(offset) <= bytes@.len(),
        bytes@.subrange(pos as int, pos + encoded_len(offset)) == encode(offset),
    ensures
        r.0 == offset,
        r.1 == encoded_len(offset),
{
    proof {
        lemma_encode_index(offset, 0);
        assert(bytes@[pos as int] == encode(offset)[0]);
    }
    let first = bytes[pos];
    if first < 64 {
        return (first as u64, 1);
    }
    let mut frame: u64 = (first & 63) as u64;
    let mut len: usize = 1;
    let mut shift: u64 = 6;
    let total = bytes.len();
    proof {
        lemma_backward_last(offset);
        lemma_encode_len(offset);
    }
    loop
        invariant
            pos + encoded_len(offset) <= bytes@.len(),
            total == bytes@.len(),
            bytes@.subrange(pos as int, pos + encoded_len(offset)) == encode(offset),
            offset > 63,
            1 <= len < encoded_len(offset),
            encoded_len(offset) <= 10,
            shift == 6 + 7 * (len - 1),
            frame == offset & low_mask(shift),
        decreases encoded_len(offset) - len,
    {
        proof {
            lemma_encode_index(offset, len as nat);
            assert(bytes@[pos + len] == encode(offset)[len as int]);
        }
        let byte = bytes[pos + len];
        len = len + 1;
        if byte < 128 {
            proof {
                lemma_forward_last(offset, shift);
            }
            return (frame | (((byte & 63) as u64) << shift), len);
        }
        proof {
            lemma_forward_step(offset, shift);
        }
        frame = frame | (((byte & 127) as u64) << shift);
        shift = shift + 7;
    }
}

/// Reads the offset whose code ends right before `end`; returns it with the length of its code.
pub(crate) fn decode_backward(bytes: &VecDeque<u8>, end: usize, Ghost(offset): Ghost<u64>) -> (r: (
    u64,
    usize,
))
    requires
        encoded_len(offset) <= end <= bytes@.len(),
        bytes@.subrange(end - encoded_len(offset), end as int) == encode(offset),
    ensures
        r.0 == offset,
        r.1 == encoded_len(offset),
{
    let ghost n = encoded_len(offset);
    proof {
        lemma_encode_index(offset, (n - 1) as nat);
        assert(bytes@[end - 1] == encode(offset)[n - 1]);
    }
    let last = bytes[end - 1];
    if last < 64 {
        return (last as u64, 1);
    }
    let mut frame: u64 = (last & 63) as u64;
    let mut len: usize = 1;
    proof {
        lemma_encode_len(offset);
    }
    loop
        invariant
            encoded_len(offset) <= end <= bytes@.len(),
            bytes@.subrange(end - encoded_len(offset), end as int) == encode(offset),
            n == encoded_len(offset),
            offset > 63,
            1 <= len < n,
            n <= 10,
            frame == offset >> (6 + 7 * (n - 1 - len)) as u64,
        decreases n - len,
    {
        len = len + 1;
        let ghost k = (n - len) as nat;
        proof {
            lemma_encode_index(offset, k);
            assert(bytes@[end - len] == encode(offset)[k as int]);
        }
        let byte = bytes[end - len];
        if byte < 128 {
            proof {
                lemma_backward_last(offset);
            }
            return ((frame << 6) | ((byte & 63) as u64), len);
        }
        proof {
            lemma_backward_step(offset, (6 + 7 * (k - 1)) as u64);
        }
        frame = (frame << 7) | ((byte & 127) as u64);
    }
}

/// Appends the code of `offset` to `bytes`.
pub(crate) fn push_encoded(bytes: &mut VecDeque<u8>, offset: u64)
    ensures
        final(bytes)@ == old(bytes)@ + encode(offset),
{
    if offset <= 63 {
        bytes.push_back(offset as u8);
        proof {
            assert(bytes@ =~= old(bytes)@ + encode(offset));
        }
        return;
    }
    bytes.push_back(((offset & 63) | 64) as u8);
    let mut x = offset >> 6;
    proof {
        assert(bytes@ + encode_rest(x) =~= old(bytes)@ + encode(offset));
    }
    loop
        invariant
            bytes@ + encode_rest(x) == old(bytes)@ + encode(offset),
        decreases x,
    {
        if x <= 63 {
            bytes.push_back((x | 64) as u8);
            proof {
                assert(bytes@ =~= old(bytes)@ + encode(offset));
            }
            return;
        }
        let ghost before = bytes@;
        bytes.push_back(((x & 127) | 128) as u8);
        proof {
            lemma_shift_decreases(x);
            assert(bytes@ + encode_rest(x >> 7) =~= before + encode_rest(x));
        }
        x = x >> 7;
    }
}

/// The bytes of two token sequences one after the other are the bytes of the joined sequence.
pub proof fn lemma_flatten_append(a: Seq<OffsetToken>, b: Seq<OffsetToken>)
    ensures
        flatten(a + b) == flatten(a) + flatten(b),
    decreases a.len(),
{
    if a.len() == 0 {
        assert(a + b =~= b);
        assert(flatten(a) + flatten(b) =~= flatten(b));
    } else {
        lemma_flatten_append(a.drop_first(), b);
        assert((a + b).drop_first() =~= a.drop_first() + b);
        assert(flatten(a + b) =~= flatten(a) + flatten(b));
    }
}

/// The code of a sequence of offsets splits where the sequence splits.
pub proof fn lemma_encode_all_split(offsets: Seq<u64>, m: int)
    requires
        0 <= m <= offsets.len(),
    ensures
        encode_all(offsets) == encode_all(offsets.take(m)) + encode_all(offsets.skip(m)),
{
    assert(offset_tokens(offsets) =~= offset_tokens(offsets.take(m)) + offset_tokens(offsets.skip(m)));
    lemma_flatten_append(offset_tokens(offsets.take(m)), offset_tokens(offsets.skip(m)));
}

/// The code of a nonempty sequence of offsets starts with the code of its first offset.
pub proof fn lemma_encode_all_first(offsets: Seq<u64>)
    requires
        offsets.len() > 0,
    ensures
        encode_all(offsets) == encode(offsets[0]) + encode_all(offsets.drop_first()),
{
    assert(offset_tokens(offsets).drop_first() =~= offset_tokens(offsets.drop_first()));
}

/// The code of a nonempty sequence of offsets ends with the code of its last offset.
pub proof fn lemma_encode_all_last(offsets: Seq<u64>)
    requires
        offsets.len() > 0,
    ensures
        encode_all(offsets) == encode_all(offsets.drop_last()) + encode(offsets.last()),
{
    let n = offsets.len() - 1;
    lemma_encode_all_split(offsets, n);
    assert(offsets.take(n) =~= offsets.drop_last());
    lemma_encode_all_first(offsets.skip(n));
    assert(offsets.skip(n).drop_first() =~= Seq::<u64>::empty());
    assert(encode_all(Seq::<u64>::empty()) =~= Seq::<u8>::empty());
    assert(encode(offsets.last()) + Seq::<u8>::empty() =~= encode(offsets.last()));
}

/// Appending an offset appends its code.
pub proof fn lemma_encode_all_push(offsets: Seq<u64>, offset: u64)
    ensures
        encode_all(offsets.push(offset)) == encode_all(offsets) + encode(offset),
{
    lemma_encode_all_last(offsets.push(offset));
    assert(offsets.push(offset).drop_last() =~= offsets);
}

/// The sum of a sequence of offsets.
pub open spec fn sum(offsets: Seq<u64>) -> int
    decreases offsets.len(),
{
    if offsets.len() == 0 {
        0
    } else {
        sum(offsets.drop_last()) + offsets.last()
    }
}

pub proof fn lemma_sum_append(a: Seq<u64>, b: Seq<u64>)
    ensures
        sum(a + b) == sum(a) + sum(b),
    decreases b.len(),
{
    if b.len() == 0 {
        assert(a + b =~= a);
    } else {
        lemma_sum_append(a, b.drop_last());
        assert((a + b).drop_last() =~= a + b.drop_last());
    }
}

pub proof fn lemma_sum_nonneg(a: Seq<u64>)
    ensures
        sum(a) >= 0,
    decreases a.len(),
{
    if a.len() > 0 {
        lemma_sum_nonneg(a.drop_last());
    }
}

pub proof fn lemma_sum_split(a: Seq<u64>, m: int)
    requires
        0 <= m <= a.len(),
    ensures
        sum(a) == sum(a.take(m)) + sum(a.skip(m)),
        sum(a.take(m)) >= 0,
        sum(a.skip(m)) >= 0,
{
    assert(a =~= a.take(m) + a.skip(m));
    lemma_sum_append(a.take(m), a.skip(m));
    lemma_sum_nonneg(a.take(m));
    lemma_sum_nonneg(a.skip(m));
}

} // verus!

verus! {

/// A token's bytes start with a byte of its kind: an offset up to 63 with a byte below 64, a
/// larger offset with a byte from 64 below 128, a run of zero offsets with a byte from 128 on.
proof fn lemma_token_first_byte(token: OffsetToken)
    requires
        token_wf(token),
    ensures
        token_bytes(token).len() >= 1,
        token matches OffsetToken::Offset(o) ==> (o <= 63 <==> token_bytes(token)[0] < 64),
        token matches OffsetToken::Offset(o) ==> token_bytes(token)[0] < 128,
        token is Zeroes ==> token_bytes(token)[0] >= 128 && token_bytes(token).len() == 1,
{
    if let OffsetToken::Offset(o) = token {
        lemma_encode_len(o);
        lemma_encode_index(o, 0);
    }
}

/// Different values have different codes after their first byte.
proof fn lemma_encode_rest_injective(x1: u64, x2: u64)
    requires
        encode_rest(x1) == encode_rest(x2),
    ensures
        x1 == x2,
    decreases x1,
{
    lemma_rest_len_nonzero(x1);
    lemma_rest_len_nonzero(x2);
    lemma_byte_kinds(x1);
    lemma_byte_kinds(x2);
    assert(encode_rest(x1)[0] == encode_rest(x2)[0]);
    if x1 <= 63 {
        if x2 > 63 {
            assert(encode_rest(x2)[0] == ((x2 & 127) | 128) as u8);
            assert(false);
        }
        assert(encode_rest(x1) == seq![(x1 | 64) as u8]);
        assert(encode_rest(x2) == seq![(x2 | 64) as u8]);
        assert(encode_rest(x1)[0] == (x1 | 64) as u8);
        assert(encode_rest(x2)[0] == (x2 | 64) as u8);
        assert(((x1 | 64) as u8) == ((x2 | 64) as u8));
    } else {
        if x2 <= 63 {
            assert(encode_rest(x1)[0] == ((x1 & 127) | 128) as u8);
            assert(false);
        }
        lemma_shift_decreases(x1);
        lemma_shift_decreases(x2);
        assert(encode_rest(x1) == seq![((x1 & 127) | 128) as u8] + encode_rest(x1 >> 7));
        assert(encode_rest(x2) == seq![((x2 & 127) | 128) as u8] + encode_rest(x2 >> 7));
        assert(encode_rest(x1 >> 7) =~= encode_rest(x1).drop_first());
        assert(encode_rest(x2 >> 7) =~= encode_rest(x2).drop_first());
        lemma_encode_rest_injective(x1 >> 7, x2 >> 7);
        assert(encode_rest(x1)[0] == ((x1 & 127) | 128) as u8);
        assert(encode_rest(x2)[0] == ((x2 & 127) | 128) as u8);
        assert(x1 & 127 == x2 & 127);
        assert(x1 == ((x1 >> 7) << 7) | (x1 & 127)) by (bit_vector);
        assert(x2 == ((x2 >> 7) << 7) | (x2 & 127)) by (bit_vector);
    }
}

/// Different offsets have different codes.
proof fn lemma_encode_injective(o1: u64, o2: u64)
    requires
        encode(o1) == encode(o2),
    ensures
        o1 == o2,
{
    lemma_encode_len(o1);
    lemma_encode_len(o2);
    lemma_encode_index(o1, 0);
    lemma_encode_index(o2, 0);
    lemma_byte_kinds(o1);
    lemma_byte_kinds(o2);
    if o1 <= 63 {
        assert(o2 <= 63);
    } else {
        assert(o2 > 63);
        assert(encode(o1) == seq![((o1 & 63) | 64) as u8] + encode_rest(o1 >> 6));
        assert(encode(o2) == seq![((o2 & 63) | 64) as u8] + encode_rest(o2 >> 6));
        assert(encode_rest(o1 >> 6) =~= encode(o1).drop_first());
        assert(encode_rest(o2 >> 6) =~= encode(o2).drop_first());
        lemma_encode_rest_injective(o1 >> 6, o2 >> 6);
        assert(o1 & 63 == o2 & 63);
        assert(o1 == ((o1 >> 6) << 6) | (o1 & 63)) by (bit_vector);
        assert(o2 == ((o2 >> 6) << 6) | (o2 & 63)) by (bit_vector);
    }
}

/// When the codes of two offsets both start a byte sequence, they are the same code: the code
/// of a larger offset ends at its first byte after the first one that lies below 128.
proof fn lemma_encode_prefix(o1: u64, o2: u64, bytes: Seq<u8>)
    requires
        encoded_len(o1) <= bytes.len(),
        encoded_len(o2) <= bytes.len(),
        bytes.take(encoded_len(o1) as int) == encode(o1),
        bytes.take(encoded_len(o2) as int) == encode(o2),
    ensures
        o1 == o2,
{
    lemma_encode_len(o1);
    lemma_encode_len(o2);
    let n1 = encoded_len(o1);
    let n2 = encoded_len(o2);
    lemma_encode_index(o1, 0);
    lemma_encode_index(o2, 0);
    assert(encode(o1)[0] == bytes[0]);
    assert(encode(o2)[0] == bytes[0]);
    if n1 < n2 {
        lemma_encode_index(o1, (n1 - 1) as nat);
        lemma_encode_index(o2, (n1 - 1) as nat);
        assert(encode(o1)[n1 - 1] == bytes[n1 - 1]);
        assert(encode(o2)[n1 - 1] == bytes[n1 - 1]);
        assert(false);
    }
    if n2 < n1 {
        lemma_encode_index(o1, (n2 - 1) as nat);
        lemma_encode_index(o2, (n2 - 1) as nat);
        assert(encode(o1)[n2 - 1] == bytes[n2 - 1]);
        assert(encode(o2)[n2 - 1] == bytes[n2 - 1]);
        assert(false);
    }
    lemma_encode_injective(o1, o2);
}

/// Every token of `tokens` is one the code can hold.
pub open spec fn tokens_wf(tokens: Seq<OffsetToken>) -> bool {
    forall|i: int| 0 <= i < tokens.len() ==> token_wf(#[trigger] tokens[i])
}

/// A byte code holds one sequence of tokens only: the tokens are the unique parse of their
/// bytes.
pub proof fn lemma_flatten_unique(t1: Seq<OffsetToken>, t2: Seq<OffsetToken>)
    requires
        flatten(t1) == flatten(t2),
        forall|i: int| 0 <= i < t1.len() ==> token_wf(#[trigger] t1[i]),
        forall|i: int| 0 <= i < t2.len() ==> token_wf(#[trigger] t2[i]),
    ensures
        t1 == t2,
    decreases t1.len(),
{
    if t1.len() == 0 || t2.len() == 0 {
        if t1.len() > 0 {
            lemma_token_first_byte(t1[0]);
        }
        if t2.len() > 0 {
            lemma_token_first_byte(t2[0]);
        }
        assert(t1 =~= t2);
        return;
    }
    let bytes = flatten(t1);
    lemma_token_first_byte(t1[0]);
    lemma_token_first_byte(t2[0]);
    let a = token_bytes(t1[0]);
    let b = token_bytes(t2[0]);
    assert(bytes == a + flatten(t1.drop_first()));
    assert(bytes == b + flatten(t2.drop_first()));
    assert(bytes[0] == a[0]);
    assert(bytes[0] == b[0]);
    match t1[0] {
        OffsetToken::Zeroes(z1) => {
            assert(t2[0] is Zeroes);
            assert(t1[0] == t2[0]);
        },
        OffsetToken::Offset(o1) => {
            assert(t2[0] is Offset);
            let o2 = t2[0]->Offset_0;
            lemma_encode_len(o1);
            lemma_encode_len(o2);
            assert(bytes.take(encoded_len(o1) as int) =~= encode(o1));
            assert(bytes.take(encoded_len(o2) as int) =~= encode(o2));
            lemma_encode_prefix(o1, o2, bytes);
        },
    }
    assert(flatten(t1.drop_first()) =~= bytes.skip(a.len() as int));
    assert(flatten(t2.drop_first()) =~= bytes.skip(b.len() as int));
    assert forall|i: int| 0 <= i < t1.drop_first().len() implies token_wf(#[trigger] t1.drop_first()[i]) by {
        assert(t1.drop_first()[i] == t1[i + 1]);
    }
    assert forall|i: int| 0 <= i < t2.drop_first().len() implies token_wf(#[trigger] t2.drop_first()[i]) by {
        assert(t2.drop_first()[i] == t2[i + 1]);
    }
    lemma_flatten_unique(t1.drop_first(), t2.drop_first());
    assert(t1 =~= t2) by {
        assert forall|i: int| 0 <= i < t1.len() implies t1[i] == t2[i] by {
            if i > 0 {
                assert(t1[i] == t1.drop_first()[i - 1]);
                assert(t2[i] == t2.drop_first()[i - 1]);
            }
        }
    }
}

} // verus!
