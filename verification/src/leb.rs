//! LEB128 variable-length integers: unsigned and signed decoding, plus
//! canonical encoders used to state and prove the round-trip laws.
//!
//! Decoding is strict: an encoding that continues past the maximum byte
//! count for the target width, or that carries redundant trailing padding
//! (a final byte that adds no information), is rejected as `Leb128Malformed`;
//! a value whose magnitude exceeds the target width is rejected as
//! `Leb128Overflow`.

use vstd::prelude::*;
use vstd::arithmetic::power2::{pow2, lemma2_to64, lemma2_to64_rest, lemma_pow2_adds, lemma_pow2_strictly_increases};
use vstd::arithmetic::div_mod::{lemma_fundamental_div_mod, lemma_fundamental_div_mod_converse, lemma_multiply_divide_lt, lemma_div_is_ordered};
use crate::error::{DecodeError, ErrorKind, spec_err};
use crate::cursor::Cursor;

verus! {

/// Decoding an unsigned LEB128 integer from `s[pos..limit]`, allowing at
/// most `max` more bytes and `width` more value bits.  `first` is false once
/// at least one byte has been consumed; only then can a final zero byte be
/// redundant padding.  Returns the value and the offset one past the final
/// byte, or the error with the offset where it was detected.
pub open spec fn spec_read_uleb(
    s: Seq<u8>,
    pos: int,
    limit: int,
    max: nat,
    width: nat,
    first: bool,
) -> Result<(nat, int), DecodeError>
    decreases max,
{
    if pos < 0 || pos >= limit || limit > s.len() {
        Err(spec_err(ErrorKind::UnexpectedEof, limit))
    } else {
        let b = s[pos];
        if b < 0x80 {
            if !first && b == 0 {
                Err(spec_err(ErrorKind::Leb128Malformed, pos))
            } else if width < 7 && b as nat >= pow2(width) {
                Err(spec_err(ErrorKind::Leb128Overflow, pos))
            } else {
                Ok((b as nat, pos + 1))
            }
        } else {
            if max <= 1 {
                Err(spec_err(ErrorKind::Leb128Malformed, pos))
            } else {
                let subw: nat = if width <= 7 { 0 } else { (width - 7) as nat };
                match spec_read_uleb(s, pos + 1, limit, (max - 1) as nat, subw, false) {
                    Ok((v, p)) => Ok(((b - 0x80) as nat + 0x80 * v, p)),
                    Err(e) => Err(e),
                }
            }
        }
    }
}

/// With no value bits left, a continuation can only end in redundant
/// padding or an overflowing byte, so decoding always fails.
proof fn lemma_uleb_width0_fails(s: Seq<u8>, pos: int, limit: int, max: nat)
    ensures
        spec_read_uleb(s, pos, limit, max, 0, false) is Err,
    decreases max,
{
    lemma2_to64();
    if 0 <= pos < limit <= s.len() {
        let b = s[pos];
        if b >= 0x80 && max > 1 {
            lemma_uleb_width0_fails(s, pos + 1, limit, (max - 1) as nat);
        }
    }
}

/// On success the decoded value fits in `width` bits.
pub proof fn lemma_uleb_fits(s: Seq<u8>, pos: int, limit: int, max: nat, width: nat, first: bool)
    requires
        spec_read_uleb(s, pos, limit, max, width, first) is Ok,
    ensures
        spec_read_uleb(s, pos, limit, max, width, first)->Ok_0.0 < pow2(width),
    decreases max,
{
    let b = s[pos];
    if b < 0x80 {
        if width >= 7 {
            lemma2_to64();
            if width > 7 {
                lemma_pow2_strictly_increases(7, width);
            }
        }
    } else {
        if width <= 7 {
            lemma_uleb_width0_fails(s, pos + 1, limit, (max - 1) as nat);
        } else {
            let subw = (width - 7) as nat;
            lemma_uleb_fits(s, pos + 1, limit, (max - 1) as nat, subw, false);
            let v = spec_read_uleb(s, pos + 1, limit, (max - 1) as nat, subw, false)->Ok_0.0;
            lemma_pow2_adds(7, subw);
            lemma2_to64();
            assert(0x80 * v <= 0x80 * (pow2(subw) - 1)) by (nonlinear_arith)
                requires v <= pow2(subw) - 1;
        }
    }
}

/// A successful unsigned read consumes at least one byte and stays within
/// the limit.
pub proof fn lemma_uleb_advances(s: Seq<u8>, pos: int, limit: int, max: nat, width: nat, first: bool)
    requires
        spec_read_uleb(s, pos, limit, max, width, first) is Ok,
    ensures
        pos + 1 <= spec_read_uleb(s, pos, limit, max, width, first)->Ok_0.1 <= limit,
    decreases max,
{
    let b = s[pos];
    if b >= 0x80 {
        let subw: nat = if width <= 7 { 0 } else { (width - 7) as nat };
        lemma_uleb_advances(s, pos + 1, limit, (max - 1) as nat, subw, false);
    }
}

/// Exponentiation table for small exponents, used by the executable
/// overflow check on a final byte.
fn pow2_small(e: u8) -> (r: u64)
    requires
        e < 7,
    ensures
        r as nat == pow2(e as nat),
        r <= 0x40,
{
    proof {
        lemma2_to64();
    }
    match e {
        0 => 1,
        1 => 2,
        2 => 4,
        3 => 8,
        4 => 16,
        5 => 32,
        _ => 64,
    }
}

/// Reads an unsigned LEB128 integer of at most `max` bytes and `width`
/// value bits, exactly as `spec_read_uleb` describes.  On failure the
/// offset is left where it was.
fn read_uleb(c: &mut Cursor, max: u8, width: u8, first: bool) -> (r: Result<u64, DecodeError>)
    requires
        old(c).wf(),
        1 <= max,
        7 * max - 6 <= width <= 7 * max,
        width <= 64,
    ensures
        final(c).wf(),
        final(c).bytes@ == old(c).bytes@,
        final(c).limit == old(c).limit,
        match r {
            Ok(v) => {
                &&& spec_read_uleb(old(c).bytes@, old(c).pos as int, old(c).limit as int,
                        max as nat, width as nat, first)
                    == Ok::<(nat, int), DecodeError>((v as nat, final(c).pos as int))
                &&& (v as nat) < pow2(width as nat)
                &&& old(c).pos <= final(c).pos <= final(c).limit
            },
            Err(e) => {
                &&& spec_read_uleb(old(c).bytes@, old(c).pos as int, old(c).limit as int,
                        max as nat, width as nat, first)
                    == Err::<(nat, int), DecodeError>(e)
                &&& final(c).pos == old(c).pos
            },
        },
    decreases max,
{
    let start = c.pos;
    let b = match c.read_u8() {
        Ok(b) => b,
        Err(e) => {
            return Err(e);
        },
    };
    if b < 0x80 {
        if !first && b == 0 {
            c.pos = start;
            Err(DecodeError::at(ErrorKind::Leb128Malformed, start))
        } else if width < 7 && b as u64 >= pow2_small(width) {
            c.pos = start;
            Err(DecodeError::at(ErrorKind::Leb128Overflow, start))
        } else {
            proof {
                if width >= 7 {
                    lemma2_to64();
                    if width > 7 {
                        lemma_pow2_strictly_increases(7, width as nat);
                    }
                }
            }
            Ok(b as u64)
        }
    } else {
        if max == 1 {
            c.pos = start;
            Err(DecodeError::at(ErrorKind::Leb128Malformed, start))
        } else {
            match read_uleb(c, max - 1, width - 7, false) {
                Ok(v) => {
                    proof {
                        let subw = (width - 7) as nat;
                        lemma_pow2_adds(7, subw);
                        assert(0x80 * (v as nat) <= 0x80 * (pow2(subw) - 1)) by (nonlinear_arith)
                            requires (v as nat) <= pow2(subw) - 1;
                        lemma2_to64();
                        if width < 64 {
                            lemma_pow2_strictly_increases(width as nat, 64);
                        }
                    }
                    Ok((b - 0x80) as u64 + 0x80 * v)
                },
                Err(e) => {
                    c.pos = start;
                    Err(e)
                },
            }
        }
    }
}

/// Decoding an unsigned 32-bit integer: at most 5 bytes, 32 value bits.
/// The cast is lossless: `lemma_uleb_fits` bounds the value by `pow2(32)`.
pub open spec fn spec_read_u32_leb(s: Seq<u8>, pos: int, limit: int) -> Result<(u32, int), DecodeError> {
    match spec_read_uleb(s, pos, limit, 5, 32, true) {
        Ok((v, p)) => Ok((v as u32, p)),
        Err(e) => Err(e),
    }
}

/// Decoding an unsigned 64-bit integer: at most 10 bytes, 64 value bits.
pub open spec fn spec_read_u64_leb(s: Seq<u8>, pos: int, limit: int) -> Result<(u64, int), DecodeError> {
    match spec_read_uleb(s, pos, limit, 10, 64, true) {
        Ok((v, p)) => Ok((v as u64, p)),
        Err(e) => Err(e),
    }
}

/// Reads an unsigned 32-bit LEB128 integer, exactly as `spec_read_u32_leb`
/// describes; the offset is unchanged on failure.
pub fn read_u32_leb(c: &mut Cursor) -> (r: Result<u32, DecodeError>)
    requires
        old(c).wf(),
    ensures
        final(c).wf(),
        final(c).bytes@ == old(c).bytes@,
        final(c).limit == old(c).limit,
        match r {
            Ok(v) => spec_read_u32_leb(old(c).bytes@, old(c).pos as int, old(c).limit as int)
                == Ok::<(u32, int), DecodeError>((v, final(c).pos as int))
                && old(c).pos <= final(c).pos <= final(c).limit,
            Err(e) => spec_read_u32_leb(old(c).bytes@, old(c).pos as int, old(c).limit as int)
                == Err::<(u32, int), DecodeError>(e)
                && final(c).pos == old(c).pos,
        },
{
    proof {
        lemma2_to64();
    }
    match read_uleb(c, 5, 32, true) {
        Ok(v) => Ok(v as u32),
        Err(e) => Err(e),
    }
}

/// Reads an unsigned 64-bit LEB128 integer, exactly as `spec_read_u64_leb`
/// describes; the offset is unchanged on failure.
pub fn read_u64_leb(c: &mut Cursor) -> (r: Result<u64, DecodeError>)
    requires
        old(c).wf(),
    ensures
        final(c).wf(),
        final(c).bytes@ == old(c).bytes@,
        final(c).limit == old(c).limit,
        match r {
            Ok(v) => spec_read_u64_leb(old(c).bytes@, old(c).pos as int, old(c).limit as int)
                == Ok::<(u64, int), DecodeError>((v, final(c).pos as int))
                && old(c).pos <= final(c).pos <= final(c).limit,
            Err(e) => spec_read_u64_leb(old(c).bytes@, old(c).pos as int, old(c).limit as int)
                == Err::<(u64, int), DecodeError>(e)
                && final(c).pos == old(c).pos,
        },
{
    match read_uleb(c, 10, 64, true) {
        Ok(v) => Ok(v),
        Err(e) => Err(e),
    }
}

/// Decoding a signed LEB128 integer from `s[pos..limit]`: as the unsigned
/// form, but the final byte is sign-extended from its bit 6, and a final
/// byte that merely repeats the sign of the byte before it (`prev_sign`)
/// is redundant padding.
pub open spec fn spec_read_sleb(
    s: Seq<u8>,
    pos: int,
    limit: int,
    max: nat,
    width: nat,
    first: bool,
    prev_sign: bool,
) -> Result<(int, int), DecodeError>
    decreases max,
{
    if pos < 0 || pos >= limit || limit > s.len() {
        Err(spec_err(ErrorKind::UnexpectedEof, limit))
    } else {
        let b = s[pos];
        if b < 0x80 {
            if !first && ((b == 0x00 && !prev_sign) || (b == 0x7f && prev_sign)) {
                Err(spec_err(ErrorKind::Leb128Malformed, pos))
            } else {
                let v7: int = if b < 0x40 { b as int } else { b as int - 0x80 };
                let wbits: nat = if width >= 1 { (width - 1) as nat } else { 0 };
                if width < 7 && !(-(pow2(wbits) as int) <= v7 < pow2(wbits) as int) {
                    Err(spec_err(ErrorKind::Leb128Overflow, pos))
                } else {
                    Ok((v7, pos + 1))
                }
            }
        } else {
            if max <= 1 {
                Err(spec_err(ErrorKind::Leb128Malformed, pos))
            } else {
                let subw: nat = if width <= 7 { 0 } else { (width - 7) as nat };
                match spec_read_sleb(s, pos + 1, limit, (max - 1) as nat, subw, false, b >= 0xC0) {
                    Ok((v, p)) => Ok(((b - 0x80) as int + 0x80 * v, p)),
                    Err(e) => Err(e),
                }
            }
        }
    }
}

/// On success the decoded value fits in `width` signed bits.  The relation
/// between `max` and `width` is the one every decoder call maintains.
pub proof fn lemma_sleb_fits(s: Seq<u8>, pos: int, limit: int, max: nat, width: nat, first: bool, prev_sign: bool)
    requires
        1 <= max,
        7 * max - 6 <= width <= 7 * max,
        spec_read_sleb(s, pos, limit, max, width, first, prev_sign) is Ok,
    ensures
        ({
            let v = spec_read_sleb(s, pos, limit, max, width, first, prev_sign)->Ok_0.0;
            -(pow2((width - 1) as nat) as int) <= v < pow2((width - 1) as nat) as int
        }),
    decreases max,
{
    let b = s[pos];
    if b < 0x80 {
        if width >= 7 {
            lemma2_to64();
            if width - 1 > 6 {
                lemma_pow2_strictly_increases(6, (width - 1) as nat);
            }
        }
    } else {
        let subw = (width - 7) as nat;
        lemma_sleb_fits(s, pos + 1, limit, (max - 1) as nat, subw, false, b >= 0xC0);
        let v = spec_read_sleb(s, pos + 1, limit, (max - 1) as nat, subw, false, b >= 0xC0)->Ok_0.0;
        lemma_pow2_adds(7, (subw - 1) as nat);
        lemma2_to64();
        assert(-(pow2((subw - 1) as nat) as int) <= v <= pow2((subw - 1) as nat) as int - 1);
        assert(0x80 * -(pow2((subw - 1) as nat) as int) <= 0x80 * v <= 0x80 * (pow2((subw - 1) as nat) as int - 1))
            by (nonlinear_arith)
            requires -(pow2((subw - 1) as nat) as int) <= v <= pow2((subw - 1) as nat) as int - 1;
    }
}

/// Reads a signed LEB128 integer of at most `max` bytes and `width` value
/// bits, exactly as `spec_read_sleb` describes.
fn read_sleb(c: &mut Cursor, max: u8, width: u8, first: bool, prev_sign: bool) -> (r: Result<i64, DecodeError>)
    requires
        old(c).wf(),
        1 <= max,
        7 * max - 6 <= width <= 7 * max,
        width <= 64,
    ensures
        final(c).wf(),
        final(c).bytes@ == old(c).bytes@,
        final(c).limit == old(c).limit,
        match r {
            Ok(v) => {
                &&& spec_read_sleb(old(c).bytes@, old(c).pos as int, old(c).limit as int,
                        max as nat, width as nat, first, prev_sign)
                    == Ok::<(int, int), DecodeError>((v as int, final(c).pos as int))
                &&& -(pow2((width - 1) as nat) as int) <= v as int
                &&& (v as int) < pow2((width - 1) as nat) as int
                &&& old(c).pos <= final(c).pos <= final(c).limit
            },
            Err(e) => {
                &&& spec_read_sleb(old(c).bytes@, old(c).pos as int, old(c).limit as int,
                        max as nat, width as nat, first, prev_sign)
                    == Err::<(int, int), DecodeError>(e)
                &&& final(c).pos == old(c).pos
            },
        },
    decreases max,
{
    let start = c.pos;
    let b = match c.read_u8() {
        Ok(b) => b,
        Err(e) => {
            return Err(e);
        },
    };
    if b < 0x80 {
        if !first && ((b == 0x00 && !prev_sign) || (b == 0x7f && prev_sign)) {
            c.pos = start;
            Err(DecodeError::at(ErrorKind::Leb128Malformed, start))
        } else {
            let v7: i64 = if b < 0x40 {
                b as i64
            } else {
                b as i64 - 0x80
            };
            if width < 7 {
                let thr = pow2_small(width - 1) as i64;
                if !(-thr <= v7 && v7 < thr) {
                    c.pos = start;
                    return Err(DecodeError::at(ErrorKind::Leb128Overflow, start));
                }
            }
            proof {
                if width >= 7 {
                    lemma2_to64();
                    if width - 1 > 6 {
                        lemma_pow2_strictly_increases(6, (width - 1) as nat);
                    }
                }
            }
            Ok(v7)
        }
    } else {
        if max == 1 {
            c.pos = start;
            Err(DecodeError::at(ErrorKind::Leb128Malformed, start))
        } else {
            match read_sleb(c, max - 1, width - 7, false, b >= 0xC0) {
                Ok(v) => {
                    proof {
                        let subw = (width - 7) as nat;
                        lemma_pow2_adds(7, (subw - 1) as nat);
                        lemma2_to64();
                        assert(0x80 * -(pow2((subw - 1) as nat) as int) <= 0x80 * (v as int)
                            <= 0x80 * (pow2((subw - 1) as nat) as int - 1))
                            by (nonlinear_arith)
                            requires -(pow2((subw - 1) as nat) as int) <= v as int
                                <= pow2((subw - 1) as nat) as int - 1;
                        if width < 64 {
                            lemma_pow2_strictly_increases((width - 1) as nat, 63);
                        }
                        lemma2_to64_rest();
                    }
                    Ok((b - 0x80) as i64 + 0x80 * v)
                },
                Err(e) => {
                    c.pos = start;
                    Err(e)
                },
            }
        }
    }
}

/// Decoding a signed 32-bit integer: at most 5 bytes, 32 value bits.
/// The cast is lossless: `lemma_sleb_fits` bounds the value's magnitude.
pub open spec fn spec_read_i32_leb(s: Seq<u8>, pos: int, limit: int) -> Result<(i32, int), DecodeError> {
    match spec_read_sleb(s, pos, limit, 5, 32, true, false) {
        Ok((v, p)) => Ok((v as i32, p)),
        Err(e) => Err(e),
    }
}

/// Decoding a signed 64-bit integer: at most 10 bytes, 64 value bits.
pub open spec fn spec_read_i64_leb(s: Seq<u8>, pos: int, limit: int) -> Result<(i64, int), DecodeError> {
    match spec_read_sleb(s, pos, limit, 10, 64, true, false) {
        Ok((v, p)) => Ok((v as i64, p)),
        Err(e) => Err(e),
    }
}

/// Reads a signed 32-bit LEB128 integer, exactly as `spec_read_i32_leb`
/// describes; the offset is unchanged on failure.
pub fn read_i32_leb(c: &mut Cursor) -> (r: Result<i32, DecodeError>)
    requires
        old(c).wf(),
    ensures
        final(c).wf(),
        final(c).bytes@ == old(c).bytes@,
        final(c).limit == old(c).limit,
        match r {
            Ok(v) => spec_read_i32_leb(old(c).bytes@, old(c).pos as int, old(c).limit as int)
                == Ok::<(i32, int), DecodeError>((v, final(c).pos as int))
                && old(c).pos <= final(c).pos <= final(c).limit,
            Err(e) => spec_read_i32_leb(old(c).bytes@, old(c).pos as int, old(c).limit as int)
                == Err::<(i32, int), DecodeError>(e)
                && final(c).pos == old(c).pos,
        },
{
    proof {
        lemma2_to64();
    }
    match read_sleb(c, 5, 32, true, false) {
        Ok(v) => Ok(v as i32),
        Err(e) => Err(e),
    }
}

/// Reads a signed 64-bit LEB128 integer, exactly as `spec_read_i64_leb`
/// describes; the offset is unchanged on failure.
pub fn read_i64_leb(c: &mut Cursor) -> (r: Result<i64, DecodeError>)
    requires
        old(c).wf(),
    ensures
        final(c).wf(),
        final(c).bytes@ == old(c).bytes@,
        final(c).limit == old(c).limit,
        match r {
            Ok(v) => spec_read_i64_leb(old(c).bytes@, old(c).pos as int, old(c).limit as int)
                == Ok::<(i64, int), DecodeError>((v, final(c).pos as int))
                && old(c).pos <= final(c).pos <= final(c).limit,
            Err(e) => spec_read_i64_leb(old(c).bytes@, old(c).pos as int, old(c).limit as int)
                == Err::<(i64, int), DecodeError>(e)
                && final(c).pos == old(c).pos,
        },
{
    match read_sleb(c, 10, 64, true, false) {
        Ok(v) => Ok(v),
        Err(e) => Err(e),
    }
}

/// The canonical (minimal) unsigned LEB128 encoding of `n`: low seven bits
/// first, continuation bit on every byte but the last.
pub open spec fn spec_uleb_encode(n: nat) -> Seq<u8>
    decreases n,
{
    if n < 0x80 {
        seq![n as u8]
    } else {
        seq![(0x80 + n % 0x80) as u8] + spec_uleb_encode(n / 0x80)
    }
}

/// The canonical (minimal) signed LEB128 encoding of `n`: the encoding
/// stops at the first byte whose bit 6 already gives the right sign
/// extension.
pub open spec fn spec_sleb_encode(n: int) -> Seq<u8>
    decreases (if n >= 0 { n } else { -1 - n }),
{
    let low = n % 0x80;
    let rest = n / 0x80;
    if (rest == 0 && low < 0x40) || (rest == -1 && low >= 0x40) {
        seq![low as u8]
    } else {
        seq![(0x80 + low) as u8] + spec_sleb_encode(rest)
    }
}

/// Encodes `n` in canonical unsigned LEB128.
pub fn encode_uleb(n: u64) -> (v: Vec<u8>)
    ensures
        v@ == spec_uleb_encode(n as nat),
    decreases n,
{
    if n < 0x80 {
        let mut v: Vec<u8> = Vec::new();
        v.push(n as u8);
        proof {
            assert(v@ =~= spec_uleb_encode(n as nat));
        }
        v
    } else {
        let mut v: Vec<u8> = Vec::new();
        v.push(0x80 + (n % 0x80) as u8);
        let mut tail = encode_uleb(n / 0x80);
        v.append(&mut tail);
        proof {
            assert(v@ =~= spec_uleb_encode(n as nat));
        }
        v
    }
}

/// Encodes `n` in canonical signed LEB128.
pub fn encode_sleb(n: i64) -> (v: Vec<u8>)
    ensures
        v@ == spec_sleb_encode(n as int),
    decreases (if n >= 0 { n as int } else { -1 - n as int }),
{
    let (low, rest): (u8, i64) = if n >= 0 {
        let m = n as u64;
        proof {
            lemma_fundamental_div_mod(m as int, 0x80);
        }
        ((m % 0x80) as u8, (m / 0x80) as i64)
    } else {
        let p = (-(n + 1)) as u64;
        proof {
            lemma_fundamental_div_mod(p as int, 0x80);
        }
        let q = p / 0x80;
        let r = (p % 0x80) as u8;
        (0x7f - r, -(q as i64) - 1)
    };
    proof {
        lemma_fundamental_div_mod_converse(n as int, 0x80, rest as int, low as int);
    }
    if (rest == 0 && low < 0x40) || (rest == -1 && low >= 0x40) {
        let mut v: Vec<u8> = Vec::new();
        v.push(low);
        proof {
            assert(v@ =~= spec_sleb_encode(n as int));
        }
        v
    } else {
        let mut v: Vec<u8> = Vec::new();
        v.push(0x80 + low);
        let mut tail = encode_sleb(rest);
        v.append(&mut tail);
        proof {
            assert(v@ =~= spec_sleb_encode(n as int));
        }
        v
    }
}

/// Round trip, unsigned, in full generality: wherever the canonical
/// encoding of `n` sits in a buffer, decoding from its start succeeds and
/// yields `n`, consuming exactly the encoding.
pub proof fn lemma_uleb_roundtrip(s: Seq<u8>, pos: int, limit: int, n: nat, max: nat, width: nat, first: bool)
    requires
        0 <= pos,
        pos + spec_uleb_encode(n).len() <= limit <= s.len(),
        s.subrange(pos, pos + spec_uleb_encode(n).len() as int) == spec_uleb_encode(n),
        n < pow2(width),
        width <= 7 * max,
        1 <= max,
        first || 1 <= n,
    ensures
        spec_read_uleb(s, pos, limit, max, width, first)
            == Ok::<(nat, int), DecodeError>((n, pos + spec_uleb_encode(n).len())),
    decreases n,
{
    let e = spec_uleb_encode(n);
    assert(s[pos] == e[0]) by {
        assert(s.subrange(pos, pos + e.len() as int)[0] == s[pos]);
    }
    lemma2_to64();
    if n < 0x80 {
        assert(e.len() == 1);
    } else {
        if width <= 7 {
            if width < 7 {
                lemma_pow2_strictly_increases(width, 7);
            }
            assert(false);
        }
        let n2 = n / 0x80;
        let e2 = spec_uleb_encode(n2);
        assert(e =~= seq![(0x80 + n % 0x80) as u8] + e2);
        assert(s.subrange(pos + 1, pos + 1 + e2.len() as int) =~= e2) by {
            assert forall|i: int| 0 <= i < e2.len() implies
                s.subrange(pos + 1, pos + 1 + e2.len() as int)[i] == e2[i]
            by {
                assert(s.subrange(pos, pos + e.len() as int)[i + 1] == s[pos + 1 + i]);
            }
        }
        lemma_pow2_adds(7, (width - 7) as nat);
        lemma_multiply_divide_lt(n as int, 0x80, pow2((width - 7) as nat) as int);
        assert(1 <= n2) by {
            lemma_div_is_ordered(0x80, n as int, 0x80);
        }
        lemma_uleb_roundtrip(s, pos + 1, limit, n2, (max - 1) as nat, (width - 7) as nat, false);
        lemma_fundamental_div_mod(n as int, 0x80);
    }
}

/// Round trip, signed, in full generality.  `prev_sign` and the exclusion
/// of the two pure sign-extension values reflect the canonical form: those
/// are exactly the cases in which the encoder would not have emitted a
/// further byte.
pub proof fn lemma_sleb_roundtrip(
    s: Seq<u8>,
    pos: int,
    limit: int,
    n: int,
    max: nat,
    width: nat,
    first: bool,
    prev_sign: bool,
)
    requires
        0 <= pos,
        pos + spec_sleb_encode(n).len() <= limit <= s.len(),
        s.subrange(pos, pos + spec_sleb_encode(n).len() as int) == spec_sleb_encode(n),
        -(pow2((width - 1) as nat) as int) <= n < pow2((width - 1) as nat) as int,
        7 * max - 6 <= width <= 7 * max,
        1 <= max,
        !first ==> !((n == 0 && !prev_sign) || (n == -1 && prev_sign)),
    ensures
        spec_read_sleb(s, pos, limit, max, width, first, prev_sign)
            == Ok::<(int, int), DecodeError>((n, pos + spec_sleb_encode(n).len())),
    decreases (if n >= 0 { n } else { -1 - n }),
{
    let e = spec_sleb_encode(n);
    assert(s[pos] == e[0]) by {
        assert(s.subrange(pos, pos + e.len() as int)[0] == s[pos]);
    }
    lemma2_to64();
    let low = n % 0x80;
    let rest = n / 0x80;
    lemma_fundamental_div_mod(n, 0x80);
    if (rest == 0 && low < 0x40) || (rest == -1 && low >= 0x40) {
        assert(e.len() == 1);
        let b = e[0];
        assert(b == low as u8);
    } else {
        if width <= 7 {
            // a value this small would have ended at the first byte
            assert(-0x40 <= n < 0x40) by {
                if width < 7 {
                    lemma_pow2_strictly_increases((width - 1) as nat, 6);
                }
            }
            if 0 <= n {
                lemma_fundamental_div_mod_converse(n, 0x80, 0, n);
            } else {
                lemma_fundamental_div_mod_converse(n, 0x80, -1, n + 0x80);
            }
            assert(false);
        }
        let e2 = spec_sleb_encode(rest);
        assert(e =~= seq![(0x80 + low) as u8] + e2);
        assert(s.subrange(pos + 1, pos + 1 + e2.len() as int) =~= e2) by {
            assert forall|i: int| 0 <= i < e2.len() implies
                s.subrange(pos + 1, pos + 1 + e2.len() as int)[i] == e2[i]
            by {
                assert(s.subrange(pos, pos + e.len() as int)[i + 1] == s[pos + 1 + i]);
            }
        }
        let subw = (width - 7) as nat;
        lemma_pow2_adds(7, (subw - 1) as nat);
        assert(-(pow2((subw - 1) as nat) as int) <= rest < pow2((subw - 1) as nat) as int);
        lemma_sleb_roundtrip(s, pos + 1, limit, rest, (max - 1) as nat, subw, false, low >= 0x40);
    }
}

/// The LEB128 round-trip law, unsigned: decoding the canonical encoding of
/// any 64-bit value yields that value and consumes the whole encoding.
pub proof fn lemma_u64_leb_roundtrip(n: u64)
    ensures
        ({
            let e = spec_uleb_encode(n as nat);
            spec_read_u64_leb(e, 0, e.len() as int) == Ok::<(u64, int), DecodeError>((n, e.len() as int))
        }),
{
    let e = spec_uleb_encode(n as nat);
    lemma2_to64();
    assert(e.subrange(0, e.len() as int) =~= e);
    lemma_uleb_roundtrip(e, 0, e.len() as int, n as nat, 10, 64, true);
}

/// The LEB128 round-trip law, unsigned 32-bit form.
pub proof fn lemma_u32_leb_roundtrip(n: u32)
    ensures
        ({
            let e = spec_uleb_encode(n as nat);
            spec_read_u32_leb(e, 0, e.len() as int) == Ok::<(u32, int), DecodeError>((n, e.len() as int))
        }),
{
    let e = spec_uleb_encode(n as nat);
    lemma2_to64();
    assert(e.subrange(0, e.len() as int) =~= e);
    lemma_uleb_roundtrip(e, 0, e.len() as int, n as nat, 5, 32, true);
}

/// The LEB128 round-trip law, signed: decoding the canonical encoding of
/// any 64-bit signed value yields that value and consumes the whole
/// encoding.
pub proof fn lemma_i64_leb_roundtrip(n: i64)
    ensures
        ({
            let e = spec_sleb_encode(n as int);
            spec_read_i64_leb(e, 0, e.len() as int) == Ok::<(i64, int), DecodeError>((n, e.len() as int))
        }),
{
    let e = spec_sleb_encode(n as int);
    lemma2_to64_rest();
    assert(e.subrange(0, e.len() as int) =~= e);
    lemma_sleb_roundtrip(e, 0, e.len() as int, n as int, 10, 64, true, false);
}

/// The LEB128 round-trip law, signed 32-bit form.
pub proof fn lemma_i32_leb_roundtrip(n: i32)
    ensures
        ({
            let e = spec_sleb_encode(n as int);
            spec_read_i32_leb(e, 0, e.len() as int) == Ok::<(i32, int), DecodeError>((n, e.len() as int))
        }),
{
    let e = spec_sleb_encode(n as int);
    lemma2_to64();
    assert(e.subrange(0, e.len() as int) =~= e);
    lemma_sleb_roundtrip(e, 0, e.len() as int, n as int, 5, 32, true, false);
}

} // verus!
