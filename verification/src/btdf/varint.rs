//! The variable-length integer of the wire format.
//!
//! The first byte holds six bits of the magnitude, a sign flag (0x40) and a
//! continuation flag (0x80). Every further byte holds seven bits, least
//! significant group first, and a continuation flag. A sign flag on a zero
//! magnitude stands for the least 64-bit integer.

use vstd::prelude::*;
use crate::error::TdfError;
use crate::btdf::reader::byte_at;

verus! {

/// The sign flag in the first byte of an integer.
pub const VARSIZE_NEGATIVE: u8 = 0x40;

/// The continuation flag: another byte follows.
pub const VARSIZE_MORE: u8 = 0x80;

/// The value of the continuation bytes from `pos` on, seven bits a byte,
/// and the offset after the last of them.
pub open spec fn varint_tail(bytes: Seq<u8>, pos: int) -> Result<(nat, int), TdfError>
    decreases bytes.len() - pos,
{
    match byte_at(bytes, pos) {
        Err(e) => Err(e),
        Ok(b) => if b < 128 {
            Ok((b as nat, pos + 1))
        } else {
            match varint_tail(bytes, pos + 1) {
                Err(e) => Err(e),
                Ok((high, end)) => Ok(((b - 128) as nat + 128 * high, end)),
            }
        },
    }
}

/// The 64-bit signed integer that is congruent to `x` modulo 2^64.
pub open spec fn wrap_i64(x: int) -> i64 {
    let r = x % 0x1_0000_0000_0000_0000;
    if r < 0x8000_0000_0000_0000 {
        r as i64
    } else {
        (r - 0x1_0000_0000_0000_0000) as i64
    }
}

/// The integer that a sign flag and a magnitude stand for. Magnitudes wrap
/// at 64 bits.
pub open spec fn int_of_varint(negative: bool, magnitude: nat) -> i64 {
    if negative {
        if magnitude % 0x1_0000_0000_0000_0000 == 0 {
            i64::MIN
        } else {
            wrap_i64(-(magnitude as int))
        }
    } else {
        wrap_i64(magnitude as int)
    }
}

/// The magnitude of an integer whose first byte is `first` and whose
/// continuation bytes, if it has any, begin at `next`; and the offset after
/// the integer.
pub open spec fn varint_magnitude(first: u8, bytes: Seq<u8>, next: int) -> Result<
    (nat, int),
    TdfError,
> {
    if first < 128 {
        Ok(((first % 64) as nat, next))
    } else {
        match varint_tail(bytes, next) {
            Err(e) => Err(e),
            Ok((high, end)) => Ok(((first % 64) as nat + 64 * high, end)),
        }
    }
}

/// The integer encoded from `pos` on and the offset after it, or the error
/// of a truncated encoding.
pub open spec fn read_varint(bytes: Seq<u8>, pos: int) -> Result<(i64, int), TdfError> {
    match byte_at(bytes, pos) {
        Err(e) => Err(e),
        Ok(first) => match varint_magnitude(first, bytes, pos + 1) {
            Err(e) => Err(e),
            Ok((magnitude, end)) => Ok((int_of_varint((first / 64) % 2 == 1, magnitude), end)),
        },
    }
}

/// The continuation bytes for the positive value `m`.
pub open spec fn write_tail(m: nat) -> Seq<u8>
    decreases m,
{
    if m < 128 {
        seq![m as u8]
    } else {
        seq![(m % 128 + 128) as u8] + write_tail(m / 128)
    }
}

/// The sign flag and the magnitude that are written for `v`.
pub open spec fn varint_parts(v: i64) -> (bool, nat) {
    if v == i64::MIN {
        (true, 0)
    } else if v < 0 {
        (true, (-v) as nat)
    } else {
        (false, v as nat)
    }
}

/// The encoding of `v`.
pub open spec fn write_varint(v: i64) -> Seq<u8> {
    let (negative, m) = varint_parts(v);
    let sign: nat = if negative { 64 } else { 0 };
    if m < 64 {
        seq![(m + sign) as u8]
    } else {
        seq![(m % 64 + sign + 128) as u8] + write_tail(m / 64)
    }
}

/// The continuation bytes of a value, found between any other bytes, are
/// read back as that value.
pub proof fn lemma_tail_round_trip(m: nat, before: Seq<u8>, after: Seq<u8>)
    ensures
        varint_tail(before + write_tail(m) + after, before.len() as int) == Ok::<
            (nat, int),
            TdfError,
        >((m, (before.len() + write_tail(m).len()) as int)),
    decreases m,
{
    let s = before + write_tail(m) + after;
    let pos = before.len() as int;
    if m < 128 {
        assert(s[pos] == m as u8);
    } else {
        let d = (m % 128 + 128) as u8;
        assert(s[pos] == d);
        lemma_tail_round_trip(m / 128, before.push(d), after);
        assert(before.push(d) + write_tail(m / 128) + after =~= s);
    }
}

/// Varint law: an encoded integer, found between any other bytes, is read
/// back as itself, and the reading ends where the encoding ends.
#[verifier::rlimit(40)]
pub proof fn lemma_varint_round_trip(v: i64, before: Seq<u8>, after: Seq<u8>)
    ensures
        read_varint(before + write_varint(v) + after, before.len() as int) == Ok::<
            (i64, int),
            TdfError,
        >((v, (before.len() + write_varint(v).len()) as int)),
{
    let (negative, m) = varint_parts(v);
    let sign: nat = if negative { 64 } else { 0 };
    let s = before + write_varint(v) + after;
    let pos = before.len() as int;
    assert(m <= 0x7FFF_FFFF_FFFF_FFFF);
    if m < 64 {
        assert(s[pos] == (m + sign) as u8);
    } else {
        let first = (m % 64 + sign + 128) as u8;
        assert(s[pos] == first);
        lemma_tail_round_trip(m / 64, before.push(first), after);
        assert(before.push(first) + write_tail(m / 64) + after =~= s);
    }
}

/// Zero is the single byte 0x00, and the single byte 0x40 is read as the
/// least integer.
pub proof fn lemma_varint_edge_cases()
    ensures
        write_varint(0) == seq![0x00u8],
        read_varint(seq![0x40u8], 0) == Ok::<(i64, int), TdfError>((i64::MIN, 1)),
        write_varint(i64::MIN) == seq![0x40u8],
{
}

} // verus!
