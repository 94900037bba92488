//! The module decoder: header check, section walk, section-specific
//! decoding, and assembly of the final `Module`.
//!
//! Decoding proceeds header first, then section by section until the
//! input ends; every failure is terminal — an error return, never a
//! partial module — and running out of sections at a section boundary is
//! the only success.
//!
//! Every executable function mirrors a specification function over the
//! byte sequence exactly — same result, same error, same offsets — so the
//! single top-level contract of `decode_module` pins the whole decoding
//! relation.

use vstd::prelude::*;
use crate::error::{DecodeError, ErrorKind, spec_err};
use crate::cursor::{Cursor, spec_read_u8};
use crate::leb::{spec_read_u32_leb, read_u32_leb};
use crate::types::{
    ValueType, Limits, TableType, MemoryType, GlobalType, ExternKind, ExternDesc,
    FuncType, FuncTy, Import, ImportV, Export, ExportV, Module, ModuleV,
};
use crate::strutil::{push_char, char_from_u32};

verus! {

/// The byte-to-value-type table of the binary format.
pub open spec fn spec_valtype(b: u8) -> Option<ValueType> {
    if b == 0x7f {
        Some(ValueType::I32)
    } else if b == 0x7e {
        Some(ValueType::I64)
    } else if b == 0x7d {
        Some(ValueType::F32)
    } else if b == 0x7c {
        Some(ValueType::F64)
    } else if b == 0x7b {
        Some(ValueType::V128)
    } else if b == 0x70 {
        Some(ValueType::FuncRef)
    } else if b == 0x6f {
        Some(ValueType::ExternRef)
    } else {
        None
    }
}

/// Reading one value type: the table above, or `UnknownValueType` carrying
/// the offending byte, reported at its offset.
pub open spec fn spec_read_valtype(s: Seq<u8>, pos: int, limit: int) -> Result<(ValueType, int), DecodeError> {
    match spec_read_u8(s, pos, limit) {
        Err(e) => Err(e),
        Ok((b, p)) => match spec_valtype(b) {
            Some(v) => Ok((v, p)),
            None => Err(spec_err(ErrorKind::UnknownValueType(b), pos)),
        },
    }
}

fn read_valtype(c: &mut Cursor) -> (r: Result<ValueType, DecodeError>)
    requires
        old(c).wf(),
    ensures
        final(c).wf(),
        final(c).bytes@ == old(c).bytes@,
        final(c).limit == old(c).limit,
        old(c).pos <= final(c).pos,
        match r {
            Ok(v) => spec_read_valtype(old(c).bytes@, old(c).pos as int, old(c).limit as int)
                == Ok::<(ValueType, int), DecodeError>((v, final(c).pos as int)),
            Err(e) => spec_read_valtype(old(c).bytes@, old(c).pos as int, old(c).limit as int)
                == Err::<(ValueType, int), DecodeError>(e),
        },
{
    let start = c.pos;
    let b = match c.read_u8() {
        Ok(b) => b,
        Err(e) => {
            return Err(e);
        },
    };
    match b {
        0x7f => Ok(ValueType::I32),
        0x7e => Ok(ValueType::I64),
        0x7d => Ok(ValueType::F32),
        0x7c => Ok(ValueType::F64),
        0x7b => Ok(ValueType::V128),
        0x70 => Ok(ValueType::FuncRef),
        0x6f => Ok(ValueType::ExternRef),
        _ => Err(DecodeError::at(ErrorKind::UnknownValueType(b), start)),
    }
}

/// Reading `n` value types in sequence, accumulating onto `acc`; the
/// executable loop matches this recursion step for step.
pub open spec fn spec_valtype_items(
    s: Seq<u8>,
    pos: int,
    limit: int,
    n: nat,
    acc: Seq<ValueType>,
) -> Result<(Seq<ValueType>, int), DecodeError>
    decreases n,
{
    if n == 0 {
        Ok((acc, pos))
    } else {
        match spec_read_valtype(s, pos, limit) {
            Err(e) => Err(e),
            Ok((v, p)) => spec_valtype_items(s, p, limit, (n - 1) as nat, acc.push(v)),
        }
    }
}

/// Reading a length-prefixed value-type list: the count, a fail-fast
/// allocation bound (`count` may not exceed the bytes remaining, reported
/// at the count's offset), then the items.
pub open spec fn spec_read_valtype_list(s: Seq<u8>, pos: int, limit: int) -> Result<(Seq<ValueType>, int), DecodeError> {
    match spec_read_u32_leb(s, pos, limit) {
        Err(e) => Err(e),
        Ok((n, p)) => if n as int > limit - p {
            Err(spec_err(ErrorKind::AllocationLimitExceeded, pos))
        } else {
            spec_valtype_items(s, p, limit, n as nat, Seq::empty())
        },
    }
}

#[verifier::loop_isolation(false)]
fn read_valtype_list(c: &mut Cursor) -> (r: Result<Vec<ValueType>, DecodeError>)
    requires
        old(c).wf(),
    ensures
        final(c).wf(),
        final(c).bytes@ == old(c).bytes@,
        final(c).limit == old(c).limit,
        old(c).pos <= final(c).pos,
        match r {
            Ok(v) => spec_read_valtype_list(old(c).bytes@, old(c).pos as int, old(c).limit as int)
                == Ok::<(Seq<ValueType>, int), DecodeError>((v@, final(c).pos as int)),
            Err(e) => spec_read_valtype_list(old(c).bytes@, old(c).pos as int, old(c).limit as int)
                == Err::<(Seq<ValueType>, int), DecodeError>(e),
        },
{
    let ghost s = c.bytes@;
    let ghost limit = c.limit as int;
    let start = c.pos;
    let n = match read_u32_leb(c) {
        Ok(n) => n,
        Err(e) => {
            return Err(e);
        },
    };
    if n as usize > c.limit - c.pos {
        c.pos = start;
        return Err(DecodeError::at(ErrorKind::AllocationLimitExceeded, start));
    }
    let ghost p0: int = c.pos as int;
    let mut out: Vec<ValueType> = Vec::new();
    let mut i: u32 = 0;
    while i < n
        invariant
            c.wf(),
            c.bytes@ == s,
            c.limit as int == limit,
            i <= n,
            start <= c.pos,
            spec_read_u32_leb(s, start as int, limit) == Ok::<(u32, int), DecodeError>((n, p0)),
            n as int <= limit - p0,
            spec_valtype_items(s, c.pos as int, limit, (n - i) as nat, out@)
                == spec_valtype_items(s, p0, limit, n as nat, Seq::empty()),
        decreases n - i,
    {
        match read_valtype(c) {
            Ok(v) => {
                out.push(v);
            },
            Err(e) => {
                return Err(e);
            },
        }
        i = i + 1;
    }
    Ok(out)
}

/// Reading a function type: the form byte 0x60, then the parameter and
/// result value-type lists.
pub open spec fn spec_read_functype(s: Seq<u8>, pos: int, limit: int) -> Result<(FuncTy, int), DecodeError> {
    match spec_read_u8(s, pos, limit) {
        Err(e) => Err(e),
        Ok((form, p)) => if form != 0x60 {
            Err(spec_err(ErrorKind::InvalidFuncTypeForm, pos))
        } else {
            match spec_read_valtype_list(s, p, limit) {
                Err(e) => Err(e),
                Ok((params, p2)) => match spec_read_valtype_list(s, p2, limit) {
                    Err(e) => Err(e),
                    Ok((results, p3)) => Ok((FuncTy { params, results }, p3)),
                },
            }
        },
    }
}

fn read_functype(c: &mut Cursor) -> (r: Result<FuncType, DecodeError>)
    requires
        old(c).wf(),
    ensures
        final(c).wf(),
        final(c).bytes@ == old(c).bytes@,
        final(c).limit == old(c).limit,
        old(c).pos <= final(c).pos,
        match r {
            Ok(ft) => spec_read_functype(old(c).bytes@, old(c).pos as int, old(c).limit as int)
                == Ok::<(FuncTy, int), DecodeError>((ft.deep_view(), final(c).pos as int)),
            Err(e) => spec_read_functype(old(c).bytes@, old(c).pos as int, old(c).limit as int)
                == Err::<(FuncTy, int), DecodeError>(e),
        },
{
    let start = c.pos;
    let form = match c.read_u8() {
        Ok(b) => b,
        Err(e) => {
            return Err(e);
        },
    };
    if form != 0x60 {
        c.pos = start;
        return Err(DecodeError::at(ErrorKind::InvalidFuncTypeForm, start));
    }
    let params = match read_valtype_list(c) {
        Ok(v) => v,
        Err(e) => {
            return Err(e);
        },
    };
    let results = match read_valtype_list(c) {
        Ok(v) => v,
        Err(e) => {
            return Err(e);
        },
    };
    Ok(FuncType { params, results })
}

/// Reading limits: a flags byte whose bit 0 says whether a maximum
/// follows, then the minimum and optionally the maximum.
pub open spec fn spec_read_limits(s: Seq<u8>, pos: int, limit: int) -> Result<(Limits, int), DecodeError> {
    match spec_read_u8(s, pos, limit) {
        Err(e) => Err(e),
        Ok((flags, p)) => match spec_read_u32_leb(s, p, limit) {
            Err(e) => Err(e),
            Ok((min, p2)) => if flags % 2 == 1 {
                match spec_read_u32_leb(s, p2, limit) {
                    Err(e) => Err(e),
                    Ok((max, p3)) => Ok((Limits { min, max: Some(max) }, p3)),
                }
            } else {
                Ok((Limits { min, max: None }, p2))
            },
        },
    }
}

fn read_limits(c: &mut Cursor) -> (r: Result<Limits, DecodeError>)
    requires
        old(c).wf(),
    ensures
        final(c).wf(),
        final(c).bytes@ == old(c).bytes@,
        final(c).limit == old(c).limit,
        old(c).pos <= final(c).pos,
        match r {
            Ok(l) => spec_read_limits(old(c).bytes@, old(c).pos as int, old(c).limit as int)
                == Ok::<(Limits, int), DecodeError>((l, final(c).pos as int)),
            Err(e) => spec_read_limits(old(c).bytes@, old(c).pos as int, old(c).limit as int)
                == Err::<(Limits, int), DecodeError>(e),
        },
{
    let flags = match c.read_u8() {
        Ok(b) => b,
        Err(e) => {
            return Err(e);
        },
    };
    let min = match read_u32_leb(c) {
        Ok(n) => n,
        Err(e) => {
            return Err(e);
        },
    };
    if flags % 2 == 1 {
        let max = match read_u32_leb(c) {
            Ok(n) => n,
            Err(e) => {
                return Err(e);
            },
        };
        Ok(Limits { min, max: Some(max) })
    } else {
        Ok(Limits { min, max: None })
    }
}

/// Reading a table type: element value type, then limits.
pub open spec fn spec_read_tabletype(s: Seq<u8>, pos: int, limit: int) -> Result<(TableType, int), DecodeError> {
    match spec_read_valtype(s, pos, limit) {
        Err(e) => Err(e),
        Ok((element, p)) => match spec_read_limits(s, p, limit) {
            Err(e) => Err(e),
            Ok((limits, p2)) => Ok((TableType { element, limits }, p2)),
        },
    }
}

fn read_tabletype(c: &mut Cursor) -> (r: Result<TableType, DecodeError>)
    requires
        old(c).wf(),
    ensures
        final(c).wf(),
        final(c).bytes@ == old(c).bytes@,
        final(c).limit == old(c).limit,
        old(c).pos <= final(c).pos,
        match r {
            Ok(t) => spec_read_tabletype(old(c).bytes@, old(c).pos as int, old(c).limit as int)
                == Ok::<(TableType, int), DecodeError>((t, final(c).pos as int)),
            Err(e) => spec_read_tabletype(old(c).bytes@, old(c).pos as int, old(c).limit as int)
                == Err::<(TableType, int), DecodeError>(e),
        },
{
    let element = match read_valtype(c) {
        Ok(v) => v,
        Err(e) => {
            return Err(e);
        },
    };
    let limits = match read_limits(c) {
        Ok(l) => l,
        Err(e) => {
            return Err(e);
        },
    };
    Ok(TableType { element, limits })
}

/// Reading a global type: content value type, then a mutability byte
/// (nonzero means mutable).
pub open spec fn spec_read_globaltype(s: Seq<u8>, pos: int, limit: int) -> Result<(GlobalType, int), DecodeError> {
    match spec_read_valtype(s, pos, limit) {
        Err(e) => Err(e),
        Ok((content, p)) => match spec_read_u8(s, p, limit) {
            Err(e) => Err(e),
            Ok((flag, p2)) => Ok((GlobalType { content, mutable: flag != 0 }, p2)),
        },
    }
}

fn read_globaltype(c: &mut Cursor) -> (r: Result<GlobalType, DecodeError>)
    requires
        old(c).wf(),
    ensures
        final(c).wf(),
        final(c).bytes@ == old(c).bytes@,
        final(c).limit == old(c).limit,
        old(c).pos <= final(c).pos,
        match r {
            Ok(g) => spec_read_globaltype(old(c).bytes@, old(c).pos as int, old(c).limit as int)
                == Ok::<(GlobalType, int), DecodeError>((g, final(c).pos as int)),
            Err(e) => spec_read_globaltype(old(c).bytes@, old(c).pos as int, old(c).limit as int)
                == Err::<(GlobalType, int), DecodeError>(e),
        },
{
    let content = match read_valtype(c) {
        Ok(v) => v,
        Err(e) => {
            return Err(e);
        },
    };
    let flag = match c.read_u8() {
        Ok(b) => b,
        Err(e) => {
            return Err(e);
        },
    };
    Ok(GlobalType { content, mutable: flag != 0 })
}

/// Whether `b` is a UTF-8 continuation byte.
pub open spec fn spec_utf8_cont(b: u8) -> bool {
    0x80 <= b <= 0xbf
}

/// Decoding one UTF-8 sequence from the front of the nonempty byte
/// sequence `b`: the character and the number of bytes consumed (1 to 4).
/// The lead byte's class fixes the length and the admissible range of the
/// first continuation byte (which also excludes overlong forms, surrogate
/// values, and values above 0x10FFFF).  An invalid lead, or a sequence
/// whose continuation bytes are missing or out of range, contributes one
/// U+FFFD replacement character for the lead byte alone, and decoding
/// resumes at the next byte.
pub open spec fn spec_utf8_step(b: Seq<u8>) -> (char, int) {
    let b0 = b[0];
    if b0 < 0x80 {
        (b0 as char, 1)
    } else if 0xc2 <= b0 && b0 <= 0xdf {
        if b.len() >= 2 && spec_utf8_cont(b[1]) {
            let cp: u32 = ((b0 - 0xc0) * 0x40 + (b[1] - 0x80)) as u32;
            (cp as char, 2)
        } else {
            ('\u{fffd}', 1)
        }
    } else if 0xe0 <= b0 && b0 <= 0xef {
        let lo1: u8 = if b0 == 0xe0 { 0xa0 } else { 0x80 };
        let hi1: u8 = if b0 == 0xed { 0x9f } else { 0xbf };
        if b.len() >= 3 && lo1 <= b[1] && b[1] <= hi1 && spec_utf8_cont(b[2]) {
            let cp: u32 = ((b0 - 0xe0) * 0x1000 + (b[1] - 0x80) * 0x40 + (b[2] - 0x80)) as u32;
            (cp as char, 3)
        } else {
            ('\u{fffd}', 1)
        }
    } else if 0xf0 <= b0 && b0 <= 0xf4 {
        let lo1: u8 = if b0 == 0xf0 { 0x90 } else { 0x80 };
        let hi1: u8 = if b0 == 0xf4 { 0x8f } else { 0xbf };
        if b.len() >= 4 && lo1 <= b[1] && b[1] <= hi1 && spec_utf8_cont(b[2]) && spec_utf8_cont(b[3]) {
            let cp: u32 = ((b0 - 0xf0) * 0x40000 + (b[1] - 0x80) * 0x1000 + (b[2] - 0x80) * 0x40
                + (b[3] - 0x80)) as u32;
            (cp as char, 4)
        } else {
            ('\u{fffd}', 1)
        }
    } else {
        // a stray continuation byte or an invalid lead (0xc0, 0xc1, 0xf5..)
        ('\u{fffd}', 1)
    }
}

/// The characters a byte sequence decodes to under UTF-8 with the
/// replacement policy of `spec_utf8_step`: total over every byte
/// sequence, and the identity of UTF-8 on well-formed input.
pub open spec fn spec_utf8_chars(b: Seq<u8>) -> Seq<char>
    decreases b.len(),
{
    if b.len() == 0 {
        Seq::empty()
    } else {
        let step = spec_utf8_step(b);
        seq![step.0] + spec_utf8_chars(b.skip(step.1))
    }
}

/// The characters a name's bytes decode to: UTF-8, with U+FFFD standing
/// in for invalid sequences.
pub open spec fn spec_name_chars(s: Seq<u8>, pos: int, n: int) -> Seq<char> {
    spec_utf8_chars(s.subrange(pos, pos + n))
}

/// Reading a name: a length-prefixed byte sequence, with the fail-fast
/// allocation bound, decoded as UTF-8.
pub open spec fn spec_read_name(s: Seq<u8>, pos: int, limit: int) -> Result<(Seq<char>, int), DecodeError> {
    match spec_read_u32_leb(s, pos, limit) {
        Err(e) => Err(e),
        Ok((n, p)) => if n as int > limit - p {
            Err(spec_err(ErrorKind::AllocationLimitExceeded, pos))
        } else {
            Ok((spec_name_chars(s, p, n as int), p + n))
        },
    }
}

#[verifier::loop_isolation(false)]
#[verifier::rlimit(60)]
fn read_name(c: &mut Cursor) -> (r: Result<String, DecodeError>)
    requires
        old(c).wf(),
    ensures
        final(c).wf(),
        final(c).bytes@ == old(c).bytes@,
        final(c).limit == old(c).limit,
        old(c).pos <= final(c).pos,
        match r {
            Ok(name) => spec_read_name(old(c).bytes@, old(c).pos as int, old(c).limit as int)
                == Ok::<(Seq<char>, int), DecodeError>((name@, final(c).pos as int)),
            Err(e) => spec_read_name(old(c).bytes@, old(c).pos as int, old(c).limit as int)
                == Err::<(Seq<char>, int), DecodeError>(e),
        },
{
    let ghost s = c.bytes@;
    let start = c.pos;
    let n = match read_u32_leb(c) {
        Ok(n) => n,
        Err(e) => {
            return Err(e);
        },
    };
    if n as usize > c.limit - c.pos {
        c.pos = start;
        return Err(DecodeError::at(ErrorKind::AllocationLimitExceeded, start));
    }
    let p0 = c.pos;
    let end = c.pos + n as usize;
    let ghost w = s.subrange(p0 as int, end as int);
    let mut name = String::new();
    proof {
        assert(w.skip(0) =~= w);
        assert(name@ + spec_utf8_chars(w) =~= spec_utf8_chars(w));
    }
    while c.pos < end
        invariant
            c.wf(),
            c.bytes == old(c).bytes,
            c.limit == old(c).limit,
            p0 <= c.pos <= end <= c.limit,
            name@ + spec_utf8_chars(w.skip(c.pos - p0)) == spec_utf8_chars(w),
        decreases end - c.pos,
    {
        let off = c.pos;
        let ghost rem = w.skip(off - p0);
        proof {
            assert forall|j: int| 0 <= j < rem.len() implies rem[j] == s[off + j] by {
                assert(w[off - p0 + j] == s[off + j]);
            }
        }
        let b0 = c.bytes[off];
        let (ch, step): (char, usize) = if b0 < 0x80 {
            (b0 as char, 1)
        } else if 0xc2 <= b0 && b0 <= 0xdf {
            if end - off >= 2 && 0x80 <= c.bytes[off + 1] && c.bytes[off + 1] <= 0xbf {
                let b1 = c.bytes[off + 1];
                let cp: u32 = ((b0 - 0xc0) as u32) * 0x40 + ((b1 - 0x80) as u32);
                (char_from_u32(cp), 2)
            } else {
                ('\u{fffd}', 1)
            }
        } else if 0xe0 <= b0 && b0 <= 0xef {
            let lo1: u8 = if b0 == 0xe0 { 0xa0 } else { 0x80 };
            let hi1: u8 = if b0 == 0xed { 0x9f } else { 0xbf };
            if end - off >= 3 && lo1 <= c.bytes[off + 1] && c.bytes[off + 1] <= hi1
                && 0x80 <= c.bytes[off + 2] && c.bytes[off + 2] <= 0xbf {
                let b1 = c.bytes[off + 1];
                let b2 = c.bytes[off + 2];
                let cp: u32 = ((b0 - 0xe0) as u32) * 0x1000 + ((b1 - 0x80) as u32) * 0x40
                    + ((b2 - 0x80) as u32);
                (char_from_u32(cp), 3)
            } else {
                ('\u{fffd}', 1)
            }
        } else if 0xf0 <= b0 && b0 <= 0xf4 {
            let lo1: u8 = if b0 == 0xf0 { 0x90 } else { 0x80 };
            let hi1: u8 = if b0 == 0xf4 { 0x8f } else { 0xbf };
            if end - off >= 4 && lo1 <= c.bytes[off + 1] && c.bytes[off + 1] <= hi1
                && 0x80 <= c.bytes[off + 2] && c.bytes[off + 2] <= 0xbf
                && 0x80 <= c.bytes[off + 3] && c.bytes[off + 3] <= 0xbf {
                let b1 = c.bytes[off + 1];
                let b2 = c.bytes[off + 2];
                let b3 = c.bytes[off + 3];
                let cp: u32 = ((b0 - 0xf0) as u32) * 0x40000 + ((b1 - 0x80) as u32) * 0x1000
                    + ((b2 - 0x80) as u32) * 0x40 + ((b3 - 0x80) as u32);
                (char_from_u32(cp), 4)
            } else {
                ('\u{fffd}', 1)
            }
        } else {
            ('\u{fffd}', 1)
        };
        proof {
            assert(spec_utf8_step(rem) == (ch, step as int));
            assert(rem.skip(step as int) =~= w.skip(off + step - p0));
        }
        let ghost prev = name@;
        push_char(&mut name, ch);
        c.pos = off + step;
        proof {
            assert(spec_utf8_chars(rem) == seq![ch] + spec_utf8_chars(w.skip(c.pos - p0)));
            assert(name@ + spec_utf8_chars(w.skip(c.pos - p0)) =~= prev + spec_utf8_chars(rem));
        }
    }
    proof {
        assert(w.skip(end - p0) =~= Seq::<u8>::empty());
        assert(name@ =~= spec_name_chars(s, p0 as int, n as int));
    }
    Ok(name)
}

/// Reading an import descriptor: a kind tag, then the kind-specific body.
/// An unrecognized tag is reported as `UnknownValueType` carrying the tag,
/// the taxonomy's class for an unrecognized classifying byte.
pub open spec fn spec_read_import_desc(s: Seq<u8>, pos: int, limit: int) -> Result<(ExternDesc, int), DecodeError> {
    match spec_read_u8(s, pos, limit) {
        Err(e) => Err(e),
        Ok((tag, p)) => if tag == 0 {
            match spec_read_u32_leb(s, p, limit) {
                Err(e) => Err(e),
                Ok((idx, p2)) => Ok((ExternDesc::Func(idx), p2)),
            }
        } else if tag == 1 {
            match spec_read_tabletype(s, p, limit) {
                Err(e) => Err(e),
                Ok((t, p2)) => Ok((ExternDesc::Table(t), p2)),
            }
        } else if tag == 2 {
            match spec_read_limits(s, p, limit) {
                Err(e) => Err(e),
                Ok((l, p2)) => Ok((ExternDesc::Memory(MemoryType { limits: l }), p2)),
            }
        } else if tag == 3 {
            match spec_read_globaltype(s, p, limit) {
                Err(e) => Err(e),
                Ok((g, p2)) => Ok((ExternDesc::Global(g), p2)),
            }
        } else {
            Err(spec_err(ErrorKind::UnknownValueType(tag), pos))
        },
    }
}

fn read_import_desc(c: &mut Cursor) -> (r: Result<ExternDesc, DecodeError>)
    requires
        old(c).wf(),
    ensures
        final(c).wf(),
        final(c).bytes@ == old(c).bytes@,
        final(c).limit == old(c).limit,
        old(c).pos <= final(c).pos,
        match r {
            Ok(d) => spec_read_import_desc(old(c).bytes@, old(c).pos as int, old(c).limit as int)
                == Ok::<(ExternDesc, int), DecodeError>((d, final(c).pos as int)),
            Err(e) => spec_read_import_desc(old(c).bytes@, old(c).pos as int, old(c).limit as int)
                == Err::<(ExternDesc, int), DecodeError>(e),
        },
{
    let start = c.pos;
    let tag = match c.read_u8() {
        Ok(b) => b,
        Err(e) => {
            return Err(e);
        },
    };
    if tag == 0 {
        match read_u32_leb(c) {
            Ok(idx) => Ok(ExternDesc::Func(idx)),
            Err(e) => Err(e),
        }
    } else if tag == 1 {
        match read_tabletype(c) {
            Ok(t) => Ok(ExternDesc::Table(t)),
            Err(e) => Err(e),
        }
    } else if tag == 2 {
        match read_limits(c) {
            Ok(l) => Ok(ExternDesc::Memory(MemoryType { limits: l })),
            Err(e) => Err(e),
        }
    } else if tag == 3 {
        match read_globaltype(c) {
            Ok(g) => Ok(ExternDesc::Global(g)),
            Err(e) => Err(e),
        }
    } else {
        c.pos = start;
        Err(DecodeError::at(ErrorKind::UnknownValueType(tag), start))
    }
}

/// An export entry as it sits in the Export section, before its index is
/// resolved: the name, the kind tag, the raw index, and the byte offset of
/// the entry (where an out-of-range index is reported).
pub struct RawExport {
    pub name: String,
    pub kind: ExternKind,
    pub index: u32,
    pub at: usize,
}

/// Mathematical view of a `RawExport`.
pub ghost struct RawExportV {
    pub name: Seq<char>,
    pub kind: ExternKind,
    pub index: u32,
    pub at: int,
}

impl DeepView for RawExport {
    type V = RawExportV;

    open spec fn deep_view(&self) -> RawExportV {
        RawExportV { name: self.name@, kind: self.kind, index: self.index, at: self.at as int }
    }
}

/// Reading `n` function types.
pub open spec fn spec_type_items(s: Seq<u8>, pos: int, limit: int, n: nat, acc: Seq<FuncTy>) -> Result<(Seq<FuncTy>, int), DecodeError>
    decreases n,
{
    if n == 0 {
        Ok((acc, pos))
    } else {
        match spec_read_functype(s, pos, limit) {
            Err(e) => Err(e),
            Ok((ft, p)) => spec_type_items(s, p, limit, (n - 1) as nat, acc.push(ft)),
        }
    }
}

/// The Type section: a length-prefixed sequence of function types.
pub open spec fn spec_type_section(s: Seq<u8>, pos: int, limit: int) -> Result<(Seq<FuncTy>, int), DecodeError> {
    match spec_read_u32_leb(s, pos, limit) {
        Err(e) => Err(e),
        Ok((n, p)) => if n as int > limit - p {
            Err(spec_err(ErrorKind::AllocationLimitExceeded, pos))
        } else {
            spec_type_items(s, p, limit, n as nat, Seq::empty())
        },
    }
}

#[verifier::loop_isolation(false)]
fn decode_type_section(c: &mut Cursor) -> (r: Result<Vec<FuncType>, DecodeError>)
    requires
        old(c).wf(),
    ensures
        final(c).wf(),
        final(c).bytes@ == old(c).bytes@,
        final(c).limit == old(c).limit,
        old(c).pos <= final(c).pos,
        match r {
            Ok(v) => spec_type_section(old(c).bytes@, old(c).pos as int, old(c).limit as int)
                == Ok::<(Seq<FuncTy>, int), DecodeError>((v.deep_view(), final(c).pos as int)),
            Err(e) => spec_type_section(old(c).bytes@, old(c).pos as int, old(c).limit as int)
                == Err::<(Seq<FuncTy>, int), DecodeError>(e),
        },
{
    let ghost s = c.bytes@;
    let ghost limit = c.limit as int;
    let start = c.pos;
    let n = match read_u32_leb(c) {
        Ok(n) => n,
        Err(e) => {
            return Err(e);
        },
    };
    if n as usize > c.limit - c.pos {
        c.pos = start;
        return Err(DecodeError::at(ErrorKind::AllocationLimitExceeded, start));
    }
    let ghost p0: int = c.pos as int;
    let mut out: Vec<FuncType> = Vec::new();
    proof {
        assert(out.deep_view() =~= Seq::<FuncTy>::empty());
    }
    let mut i: u32 = 0;
    while i < n
        invariant
            c.wf(),
            c.bytes@ == s,
            c.limit as int == limit,
            i <= n,
            start <= c.pos,
            spec_type_items(s, c.pos as int, limit, (n - i) as nat, out.deep_view())
                == spec_type_items(s, p0, limit, n as nat, Seq::empty()),
        decreases n - i,
    {
        match read_functype(c) {
            Ok(ft) => {
                let ghost prev = out.deep_view();
                let ghost ftv = ft.deep_view();
                out.push(ft);
                proof {
                    assert(out.deep_view() =~= prev.push(ftv));
                }
            },
            Err(e) => {
                return Err(e);
            },
        }
        i = i + 1;
    }
    Ok(out)
}

/// Reading `n` imports; each is two names and a descriptor.
pub open spec fn spec_import_items(s: Seq<u8>, pos: int, limit: int, n: nat, acc: Seq<ImportV>) -> Result<(Seq<ImportV>, int), DecodeError>
    decreases n,
{
    if n == 0 {
        Ok((acc, pos))
    } else {
        match spec_read_name(s, pos, limit) {
            Err(e) => Err(e),
            Ok((module, p)) => match spec_read_name(s, p, limit) {
                Err(e) => Err(e),
                Ok((name, p2)) => match spec_read_import_desc(s, p2, limit) {
                    Err(e) => Err(e),
                    Ok((desc, p3)) => spec_import_items(s, p3, limit, (n - 1) as nat,
                        acc.push(ImportV { module, name, desc })),
                },
            },
        }
    }
}

/// The Import section: a length-prefixed sequence of imports.
pub open spec fn spec_import_section(s: Seq<u8>, pos: int, limit: int) -> Result<(Seq<ImportV>, int), DecodeError> {
    match spec_read_u32_leb(s, pos, limit) {
        Err(e) => Err(e),
        Ok((n, p)) => if n as int > limit - p {
            Err(spec_err(ErrorKind::AllocationLimitExceeded, pos))
        } else {
            spec_import_items(s, p, limit, n as nat, Seq::empty())
        },
    }
}

#[verifier::loop_isolation(false)]
fn decode_import_section(c: &mut Cursor) -> (r: Result<Vec<Import>, DecodeError>)
    requires
        old(c).wf(),
    ensures
        final(c).wf(),
        final(c).bytes@ == old(c).bytes@,
        final(c).limit == old(c).limit,
        old(c).pos <= final(c).pos,
        match r {
            Ok(v) => spec_import_section(old(c).bytes@, old(c).pos as int, old(c).limit as int)
                == Ok::<(Seq<ImportV>, int), DecodeError>((v.deep_view(), final(c).pos as int)),
            Err(e) => spec_import_section(old(c).bytes@, old(c).pos as int, old(c).limit as int)
                == Err::<(Seq<ImportV>, int), DecodeError>(e),
        },
{
    let ghost s = c.bytes@;
    let ghost limit = c.limit as int;
    let start = c.pos;
    let n = match read_u32_leb(c) {
        Ok(n) => n,
        Err(e) => {
            return Err(e);
        },
    };
    if n as usize > c.limit - c.pos {
        c.pos = start;
        return Err(DecodeError::at(ErrorKind::AllocationLimitExceeded, start));
    }
    let ghost p0: int = c.pos as int;
    let mut out: Vec<Import> = Vec::new();
    proof {
        assert(out.deep_view() =~= Seq::<ImportV>::empty());
    }
    let mut i: u32 = 0;
    while i < n
        invariant
            c.wf(),
            c.bytes@ == s,
            c.limit as int == limit,
            i <= n,
            start <= c.pos,
            spec_import_items(s, c.pos as int, limit, (n - i) as nat, out.deep_view())
                == spec_import_items(s, p0, limit, n as nat, Seq::empty()),
        decreases n - i,
    {
        let module = match read_name(c) {
            Ok(m) => m,
            Err(e) => {
                return Err(e);
            },
        };
        let name = match read_name(c) {
            Ok(m) => m,
            Err(e) => {
                return Err(e);
            },
        };
        let desc = match read_import_desc(c) {
            Ok(d) => d,
            Err(e) => {
                return Err(e);
            },
        };
        let ghost prev = out.deep_view();
        let imp = Import { module, name, desc };
        let ghost iv = imp.deep_view();
        out.push(imp);
        proof {
            assert(out.deep_view() =~= prev.push(iv));
        }
        i = i + 1;
    }
    Ok(out)
}

/// Reading `n` type indices (the Function section's entries).
pub open spec fn spec_func_items(s: Seq<u8>, pos: int, limit: int, n: nat, acc: Seq<u32>) -> Result<(Seq<u32>, int), DecodeError>
    decreases n,
{
    if n == 0 {
        Ok((acc, pos))
    } else {
        match spec_read_u32_leb(s, pos, limit) {
            Err(e) => Err(e),
            Ok((idx, p)) => spec_func_items(s, p, limit, (n - 1) as nat, acc.push(idx)),
        }
    }
}

/// The Function section: a length-prefixed sequence of type indices, one
/// per locally declared function.
pub open spec fn spec_func_section(s: Seq<u8>, pos: int, limit: int) -> Result<(Seq<u32>, int), DecodeError> {
    match spec_read_u32_leb(s, pos, limit) {
        Err(e) => Err(e),
        Ok((n, p)) => if n as int > limit - p {
            Err(spec_err(ErrorKind::AllocationLimitExceeded, pos))
        } else {
            spec_func_items(s, p, limit, n as nat, Seq::empty())
        },
    }
}

#[verifier::loop_isolation(false)]
fn decode_func_section(c: &mut Cursor) -> (r: Result<Vec<u32>, DecodeError>)
    requires
        old(c).wf(),
    ensures
        final(c).wf(),
        final(c).bytes@ == old(c).bytes@,
        final(c).limit == old(c).limit,
        old(c).pos <= final(c).pos,
        match r {
            Ok(v) => spec_func_section(old(c).bytes@, old(c).pos as int, old(c).limit as int)
                == Ok::<(Seq<u32>, int), DecodeError>((v@, final(c).pos as int)),
            Err(e) => spec_func_section(old(c).bytes@, old(c).pos as int, old(c).limit as int)
                == Err::<(Seq<u32>, int), DecodeError>(e),
        },
{
    let ghost s = c.bytes@;
    let ghost limit = c.limit as int;
    let start = c.pos;
    let n = match read_u32_leb(c) {
        Ok(n) => n,
        Err(e) => {
            return Err(e);
        },
    };
    if n as usize > c.limit - c.pos {
        c.pos = start;
        return Err(DecodeError::at(ErrorKind::AllocationLimitExceeded, start));
    }
    let ghost p0: int = c.pos as int;
    let mut out: Vec<u32> = Vec::new();
    let mut i: u32 = 0;
    while i < n
        invariant
            c.wf(),
            c.bytes@ == s,
            c.limit as int == limit,
            i <= n,
            start <= c.pos,
            spec_func_items(s, c.pos as int, limit, (n - i) as nat, out@)
                == spec_func_items(s, p0, limit, n as nat, Seq::empty()),
        decreases n - i,
    {
        match read_u32_leb(c) {
            Ok(idx) => {
                out.push(idx);
            },
            Err(e) => {
                return Err(e);
            },
        }
        i = i + 1;
    }
    Ok(out)
}

/// Reading `n` table types.
pub open spec fn spec_table_items(s: Seq<u8>, pos: int, limit: int, n: nat, acc: Seq<TableType>) -> Result<(Seq<TableType>, int), DecodeError>
    decreases n,
{
    if n == 0 {
        Ok((acc, pos))
    } else {
        match spec_read_tabletype(s, pos, limit) {
            Err(e) => Err(e),
            Ok((t, p)) => spec_table_items(s, p, limit, (n - 1) as nat, acc.push(t)),
        }
    }
}

/// The Table section: a length-prefixed sequence of table types.
pub open spec fn spec_table_section(s: Seq<u8>, pos: int, limit: int) -> Result<(Seq<TableType>, int), DecodeError> {
    match spec_read_u32_leb(s, pos, limit) {
        Err(e) => Err(e),
        Ok((n, p)) => if n as int > limit - p {
            Err(spec_err(ErrorKind::AllocationLimitExceeded, pos))
        } else {
            spec_table_items(s, p, limit, n as nat, Seq::empty())
        },
    }
}

#[verifier::loop_isolation(false)]
fn decode_table_section(c: &mut Cursor) -> (r: Result<Vec<TableType>, DecodeError>)
    requires
        old(c).wf(),
    ensures
        final(c).wf(),
        final(c).bytes@ == old(c).bytes@,
        final(c).limit == old(c).limit,
        old(c).pos <= final(c).pos,
        match r {
            Ok(v) => spec_table_section(old(c).bytes@, old(c).pos as int, old(c).limit as int)
                == Ok::<(Seq<TableType>, int), DecodeError>((v@, final(c).pos as int)),
            Err(e) => spec_table_section(old(c).bytes@, old(c).pos as int, old(c).limit as int)
                == Err::<(Seq<TableType>, int), DecodeError>(e),
        },
{
    let ghost s = c.bytes@;
    let ghost limit = c.limit as int;
    let start = c.pos;
    let n = match read_u32_leb(c) {
        Ok(n) => n,
        Err(e) => {
            return Err(e);
        },
    };
    if n as usize > c.limit - c.pos {
        c.pos = start;
        return Err(DecodeError::at(ErrorKind::AllocationLimitExceeded, start));
    }
    let ghost p0: int = c.pos as int;
    let mut out: Vec<TableType> = Vec::new();
    let mut i: u32 = 0;
    while i < n
        invariant
            c.wf(),
            c.bytes@ == s,
            c.limit as int == limit,
            i <= n,
            start <= c.pos,
            spec_table_items(s, c.pos as int, limit, (n - i) as nat, out@)
                == spec_table_items(s, p0, limit, n as nat, Seq::empty()),
        decreases n - i,
    {
        match read_tabletype(c) {
            Ok(t) => {
                out.push(t);
            },
            Err(e) => {
                return Err(e);
            },
        }
        i = i + 1;
    }
    Ok(out)
}

/// Reading `n` memory types.
pub open spec fn spec_mem_items(s: Seq<u8>, pos: int, limit: int, n: nat, acc: Seq<MemoryType>) -> Result<(Seq<MemoryType>, int), DecodeError>
    decreases n,
{
    if n == 0 {
        Ok((acc, pos))
    } else {
        match spec_read_limits(s, pos, limit) {
            Err(e) => Err(e),
            Ok((l, p)) => spec_mem_items(s, p, limit, (n - 1) as nat, acc.push(MemoryType { limits: l })),
        }
    }
}

/// The Memory section: a length-prefixed sequence of memory types.
pub open spec fn spec_mem_section(s: Seq<u8>, pos: int, limit: int) -> Result<(Seq<MemoryType>, int), DecodeError> {
    match spec_read_u32_leb(s, pos, limit) {
        Err(e) => Err(e),
        Ok((n, p)) => if n as int > limit - p {
            Err(spec_err(ErrorKind::AllocationLimitExceeded, pos))
        } else {
            spec_mem_items(s, p, limit, n as nat, Seq::empty())
        },
    }
}

#[verifier::loop_isolation(false)]
fn decode_mem_section(c: &mut Cursor) -> (r: Result<Vec<MemoryType>, DecodeError>)
    requires
        old(c).wf(),
    ensures
        final(c).wf(),
        final(c).bytes@ == old(c).bytes@,
        final(c).limit == old(c).limit,
        old(c).pos <= final(c).pos,
        match r {
            Ok(v) => spec_mem_section(old(c).bytes@, old(c).pos as int, old(c).limit as int)
                == Ok::<(Seq<MemoryType>, int), DecodeError>((v@, final(c).pos as int)),
            Err(e) => spec_mem_section(old(c).bytes@, old(c).pos as int, old(c).limit as int)
                == Err::<(Seq<MemoryType>, int), DecodeError>(e),
        },
{
    let ghost s = c.bytes@;
    let ghost limit = c.limit as int;
    let start = c.pos;
    let n = match read_u32_leb(c) {
        Ok(n) => n,
        Err(e) => {
            return Err(e);
        },
    };
    if n as usize > c.limit - c.pos {
        c.pos = start;
        return Err(DecodeError::at(ErrorKind::AllocationLimitExceeded, start));
    }
    let ghost p0: int = c.pos as int;
    let mut out: Vec<MemoryType> = Vec::new();
    let mut i: u32 = 0;
    while i < n
        invariant
            c.wf(),
            c.bytes@ == s,
            c.limit as int == limit,
            i <= n,
            start <= c.pos,
            spec_mem_items(s, c.pos as int, limit, (n - i) as nat, out@)
                == spec_mem_items(s, p0, limit, n as nat, Seq::empty()),
        decreases n - i,
    {
        match read_limits(c) {
            Ok(l) => {
                out.push(MemoryType { limits: l });
            },
            Err(e) => {
                return Err(e);
            },
        }
        i = i + 1;
    }
    Ok(out)
}

/// Skipping a global's initializer expression structurally: advance to
/// just past the first `end` opcode (0x0B), without interpretation.
pub open spec fn spec_skip_expr(s: Seq<u8>, pos: int, limit: int) -> Result<int, DecodeError>
    decreases limit - pos,
{
    if pos < 0 || pos >= limit || limit > s.len() {
        Err(spec_err(ErrorKind::UnexpectedEof, limit))
    } else if s[pos] == 0x0b {
        Ok(pos + 1)
    } else {
        spec_skip_expr(s, pos + 1, limit)
    }
}

#[verifier::loop_isolation(false)]
fn skip_expr(c: &mut Cursor) -> (r: Result<(), DecodeError>)
    requires
        old(c).wf(),
    ensures
        final(c).wf(),
        final(c).bytes@ == old(c).bytes@,
        final(c).limit == old(c).limit,
        old(c).pos <= final(c).pos,
        match r {
            Ok(()) => spec_skip_expr(old(c).bytes@, old(c).pos as int, old(c).limit as int)
                == Ok::<int, DecodeError>(final(c).pos as int),
            Err(e) => spec_skip_expr(old(c).bytes@, old(c).pos as int, old(c).limit as int)
                == Err::<int, DecodeError>(e),
        },
{
    let ghost s = c.bytes@;
    let ghost limit = c.limit as int;
    while c.pos < c.limit
        invariant
            c.wf(),
            c.bytes@ == s,
            c.limit as int == limit,
            old(c).pos <= c.pos,
            spec_skip_expr(s, c.pos as int, limit) == spec_skip_expr(s, old(c).pos as int, limit),
        decreases c.limit - c.pos,
    {
        let b = c.bytes[c.pos];
        c.pos = c.pos + 1;
        if b == 0x0b {
            return Ok(());
        }
    }
    Err(DecodeError::at(ErrorKind::UnexpectedEof, c.limit))
}

/// Reading `n` globals: each a global type followed by a structurally
/// skipped initializer expression.
pub open spec fn spec_global_items(s: Seq<u8>, pos: int, limit: int, n: nat, acc: Seq<GlobalType>) -> Result<(Seq<GlobalType>, int), DecodeError>
    decreases n,
{
    if n == 0 {
        Ok((acc, pos))
    } else {
        match spec_read_globaltype(s, pos, limit) {
            Err(e) => Err(e),
            Ok((g, p)) => match spec_skip_expr(s, p, limit) {
                Err(e) => Err(e),
                Ok(p2) => spec_global_items(s, p2, limit, (n - 1) as nat, acc.push(g)),
            },
        }
    }
}

/// The Global section: a length-prefixed sequence of globals.
pub open spec fn spec_global_section(s: Seq<u8>, pos: int, limit: int) -> Result<(Seq<GlobalType>, int), DecodeError> {
    match spec_read_u32_leb(s, pos, limit) {
        Err(e) => Err(e),
        Ok((n, p)) => if n as int > limit - p {
            Err(spec_err(ErrorKind::AllocationLimitExceeded, pos))
        } else {
            spec_global_items(s, p, limit, n as nat, Seq::empty())
        },
    }
}

#[verifier::loop_isolation(false)]
fn decode_global_section(c: &mut Cursor) -> (r: Result<Vec<GlobalType>, DecodeError>)
    requires
        old(c).wf(),
    ensures
        final(c).wf(),
        final(c).bytes@ == old(c).bytes@,
        final(c).limit == old(c).limit,
        old(c).pos <= final(c).pos,
        match r {
            Ok(v) => spec_global_section(old(c).bytes@, old(c).pos as int, old(c).limit as int)
                == Ok::<(Seq<GlobalType>, int), DecodeError>((v@, final(c).pos as int)),
            Err(e) => spec_global_section(old(c).bytes@, old(c).pos as int, old(c).limit as int)
                == Err::<(Seq<GlobalType>, int), DecodeError>(e),
        },
{
    let ghost s = c.bytes@;
    let ghost limit = c.limit as int;
    let start = c.pos;
    let n = match read_u32_leb(c) {
        Ok(n) => n,
        Err(e) => {
            return Err(e);
        },
    };
    if n as usize > c.limit - c.pos {
        c.pos = start;
        return Err(DecodeError::at(ErrorKind::AllocationLimitExceeded, start));
    }
    let ghost p0: int = c.pos as int;
    let mut out: Vec<GlobalType> = Vec::new();
    let mut i: u32 = 0;
    while i < n
        invariant
            c.wf(),
            c.bytes@ == s,
            c.limit as int == limit,
            i <= n,
            start <= c.pos,
            spec_global_items(s, c.pos as int, limit, (n - i) as nat, out@)
                == spec_global_items(s, p0, limit, n as nat, Seq::empty()),
        decreases n - i,
    {
        let g = match read_globaltype(c) {
            Ok(g) => g,
            Err(e) => {
                return Err(e);
            },
        };
        match skip_expr(c) {
            Ok(()) => {},
            Err(e) => {
                return Err(e);
            },
        }
        out.push(g);
        i = i + 1;
    }
    Ok(out)
}

/// Reading `n` export entries; each is a name, a kind tag (an
/// unrecognized tag is reported as `UnknownValueType`), and a raw index,
/// recorded together with the entry's offset.
pub open spec fn spec_export_items(s: Seq<u8>, pos: int, limit: int, n: nat, acc: Seq<RawExportV>) -> Result<(Seq<RawExportV>, int), DecodeError>
    decreases n,
{
    if n == 0 {
        Ok((acc, pos))
    } else {
        match spec_read_name(s, pos, limit) {
            Err(e) => Err(e),
            Ok((name, p)) => match spec_read_u8(s, p, limit) {
                Err(e) => Err(e),
                Ok((tag, p2)) => {
                    let kind = if tag == 0 {
                        Some(ExternKind::Func)
                    } else if tag == 1 {
                        Some(ExternKind::Table)
                    } else if tag == 2 {
                        Some(ExternKind::Memory)
                    } else if tag == 3 {
                        Some(ExternKind::Global)
                    } else {
                        None
                    };
                    match kind {
                        None => Err(spec_err(ErrorKind::UnknownValueType(tag), p)),
                        Some(kind) => match spec_read_u32_leb(s, p2, limit) {
                            Err(e) => Err(e),
                            Ok((index, p3)) => spec_export_items(s, p3, limit, (n - 1) as nat,
                                acc.push(RawExportV { name, kind, index, at: pos })),
                        },
                    }
                },
            },
        }
    }
}

/// The Export section: a length-prefixed sequence of export entries.
pub open spec fn spec_export_section(s: Seq<u8>, pos: int, limit: int) -> Result<(Seq<RawExportV>, int), DecodeError> {
    match spec_read_u32_leb(s, pos, limit) {
        Err(e) => Err(e),
        Ok((n, p)) => if n as int > limit - p {
            Err(spec_err(ErrorKind::AllocationLimitExceeded, pos))
        } else {
            spec_export_items(s, p, limit, n as nat, Seq::empty())
        },
    }
}

#[verifier::loop_isolation(false)]
fn decode_export_section(c: &mut Cursor) -> (r: Result<Vec<RawExport>, DecodeError>)
    requires
        old(c).wf(),
    ensures
        final(c).wf(),
        final(c).bytes@ == old(c).bytes@,
        final(c).limit == old(c).limit,
        old(c).pos <= final(c).pos,
        match r {
            Ok(v) => spec_export_section(old(c).bytes@, old(c).pos as int, old(c).limit as int)
                == Ok::<(Seq<RawExportV>, int), DecodeError>((v.deep_view(), final(c).pos as int)),
            Err(e) => spec_export_section(old(c).bytes@, old(c).pos as int, old(c).limit as int)
                == Err::<(Seq<RawExportV>, int), DecodeError>(e),
        },
{
    let ghost s = c.bytes@;
    let ghost limit = c.limit as int;
    let start = c.pos;
    let n = match read_u32_leb(c) {
        Ok(n) => n,
        Err(e) => {
            return Err(e);
        },
    };
    if n as usize > c.limit - c.pos {
        c.pos = start;
        return Err(DecodeError::at(ErrorKind::AllocationLimitExceeded, start));
    }
    let ghost p0: int = c.pos as int;
    let mut out: Vec<RawExport> = Vec::new();
    proof {
        assert(out.deep_view() =~= Seq::<RawExportV>::empty());
    }
    let mut i: u32 = 0;
    while i < n
        invariant
            c.wf(),
            c.bytes@ == s,
            c.limit as int == limit,
            i <= n,
            start <= c.pos,
            spec_export_items(s, c.pos as int, limit, (n - i) as nat, out.deep_view())
                == spec_export_items(s, p0, limit, n as nat, Seq::empty()),
        decreases n - i,
    {
        let at = c.pos;
        let name = match read_name(c) {
            Ok(m) => m,
            Err(e) => {
                return Err(e);
            },
        };
        let tagpos = c.pos;
        let tag = match c.read_u8() {
            Ok(b) => b,
            Err(e) => {
                return Err(e);
            },
        };
        let kind = if tag == 0 {
            ExternKind::Func
        } else if tag == 1 {
            ExternKind::Table
        } else if tag == 2 {
            ExternKind::Memory
        } else if tag == 3 {
            ExternKind::Global
        } else {
            return Err(DecodeError::at(ErrorKind::UnknownValueType(tag), tagpos));
        };
        let index = match read_u32_leb(c) {
            Ok(x) => x,
            Err(e) => {
                return Err(e);
            },
        };
        let ghost prev = out.deep_view();
        let raw = RawExport { name, kind, index, at };
        let ghost rv = raw.deep_view();
        out.push(raw);
        proof {
            assert(out.deep_view() =~= prev.push(rv));
        }
        i = i + 1;
    }
    Ok(out)
}

/// What has been decoded so far while walking the sections: one flag and
/// one contents field per recognized singleton section.
pub ghost struct Builder {
    pub seen_types: bool,
    pub seen_imports: bool,
    pub seen_funcs: bool,
    pub seen_tables: bool,
    pub seen_mems: bool,
    pub seen_globals: bool,
    pub seen_exports: bool,
    pub types: Seq<FuncTy>,
    pub imports: Seq<ImportV>,
    pub funcs: Seq<u32>,
    pub tables: Seq<TableType>,
    pub mems: Seq<MemoryType>,
    pub globals: Seq<GlobalType>,
    pub raw_exports: Seq<RawExportV>,
}

impl Builder {
    /// The state before any section has been seen.
    pub open spec fn empty() -> Builder {
        Builder {
            seen_types: false,
            seen_imports: false,
            seen_funcs: false,
            seen_tables: false,
            seen_mems: false,
            seen_globals: false,
            seen_exports: false,
            types: Seq::empty(),
            imports: Seq::empty(),
            funcs: Seq::empty(),
            tables: Seq::empty(),
            mems: Seq::empty(),
            globals: Seq::empty(),
            raw_exports: Seq::empty(),
        }
    }
}

/// The descriptors the imports of kind `k` contribute to that kind's
/// index space, in declaration order.
pub open spec fn spec_import_space(imports: Seq<ImportV>, k: ExternKind) -> Seq<ExternDesc>
    decreases imports.len(),
{
    if imports.len() == 0 {
        Seq::empty()
    } else {
        let init = spec_import_space(imports.drop_last(), k);
        if imports.last().desc.kind() == k {
            init.push(imports.last().desc)
        } else {
            init
        }
    }
}

/// The function index space: imported functions, then local ones (each
/// carrying its type index).
pub open spec fn spec_func_space(b: Builder) -> Seq<ExternDesc> {
    spec_import_space(b.imports, ExternKind::Func) + b.funcs.map(|i: int, t: u32| ExternDesc::Func(t))
}

/// The table index space: imported tables, then local ones.
pub open spec fn spec_table_space(b: Builder) -> Seq<ExternDesc> {
    spec_import_space(b.imports, ExternKind::Table) + b.tables.map(|i: int, t: TableType| ExternDesc::Table(t))
}

/// The memory index space: imported memories, then local ones.
pub open spec fn spec_mem_space(b: Builder) -> Seq<ExternDesc> {
    spec_import_space(b.imports, ExternKind::Memory) + b.mems.map(|i: int, m: MemoryType| ExternDesc::Memory(m))
}

/// The global index space: imported globals, then local ones.
pub open spec fn spec_global_space(b: Builder) -> Seq<ExternDesc> {
    spec_import_space(b.imports, ExternKind::Global) + b.globals.map(|i: int, g: GlobalType| ExternDesc::Global(g))
}

/// Resolving raw exports in order against the four index spaces: each
/// export takes the descriptor at its index in the space of its kind, or
/// the whole decode fails with `ExportIndexOutOfRange` at that entry.
pub open spec fn spec_resolve(
    raws: Seq<RawExportV>,
    fs: Seq<ExternDesc>,
    ts: Seq<ExternDesc>,
    ms: Seq<ExternDesc>,
    gs: Seq<ExternDesc>,
    acc: Seq<ExportV>,
) -> Result<Seq<ExportV>, DecodeError>
    decreases raws.len(),
{
    if raws.len() == 0 {
        Ok(acc)
    } else {
        let r = raws.first();
        let space = match r.kind {
            ExternKind::Func => fs,
            ExternKind::Table => ts,
            ExternKind::Memory => ms,
            ExternKind::Global => gs,
        };
        if (r.index as int) < space.len() {
            spec_resolve(raws.drop_first(), fs, ts, ms, gs,
                acc.push(ExportV { name: r.name, desc: space[r.index as int] }))
        } else {
            Err(spec_err(ErrorKind::ExportIndexOutOfRange, r.at))
        }
    }
}

/// Assembling the final module: build the four index spaces and resolve
/// every export against them.
pub open spec fn spec_finalize(b: Builder) -> Result<ModuleV, DecodeError> {
    match spec_resolve(b.raw_exports, spec_func_space(b), spec_table_space(b), spec_mem_space(b),
        spec_global_space(b), Seq::empty()) {
        Err(e) => Err(e),
        Ok(exports) => Ok(ModuleV {
            types: b.types,
            imports: b.imports,
            funcs: b.funcs,
            tables: b.tables,
            mems: b.mems,
            globals: b.globals,
            exports,
        }),
    }
}

/// Walking the sections from `pos`: read the id byte and the declared
/// size, bound the section to exactly that many bytes, dispatch the seven
/// recognized ids (each allowed once), skip any other id, and require each
/// recognized section to consume its bytes exactly.  At the end of input,
/// assemble the module.
pub open spec fn spec_sections(s: Seq<u8>, pos: int, limit: int, b: Builder) -> Result<ModuleV, DecodeError>
    decreases limit - pos,
{
    if pos >= limit {
        spec_finalize(b)
    } else if limit > s.len() || pos < 0 {
        Err(spec_err(ErrorKind::UnexpectedEof, limit))
    } else {
        let id = s[pos];
        match spec_read_u32_leb(s, pos + 1, limit) {
            Err(e) => Err(e),
            // the first two disjuncts never hold (a successful read moves
            // forward and stays inside the limit); they make the walk's
            // termination measure self-evident
            Ok((size, p2)) => if p2 <= pos + 1 || p2 > limit || size as int > limit - p2 {
                Err(spec_err(ErrorKind::UnexpectedEof, limit))
            } else {
                let end = p2 + size;
                if id == 1 {
                    if b.seen_types {
                        Err(spec_err(ErrorKind::DuplicateSection, pos))
                    } else {
                        match spec_type_section(s, p2, end) {
                            Err(e) => Err(e),
                            Ok((tys, p3)) => if p3 != end {
                                Err(spec_err(ErrorKind::SectionLengthMismatch, p3))
                            } else {
                                spec_sections(s, end, limit, Builder { seen_types: true, types: tys, ..b })
                            },
                        }
                    }
                } else if id == 2 {
                    if b.seen_imports {
                        Err(spec_err(ErrorKind::DuplicateSection, pos))
                    } else {
                        match spec_import_section(s, p2, end) {
                            Err(e) => Err(e),
                            Ok((imps, p3)) => if p3 != end {
                                Err(spec_err(ErrorKind::SectionLengthMismatch, p3))
                            } else {
                                spec_sections(s, end, limit, Builder { seen_imports: true, imports: imps, ..b })
                            },
                        }
                    }
                } else if id == 3 {
                    if b.seen_funcs {
                        Err(spec_err(ErrorKind::DuplicateSection, pos))
                    } else {
                        match spec_func_section(s, p2, end) {
                            Err(e) => Err(e),
                            Ok((fns, p3)) => if p3 != end {
                                Err(spec_err(ErrorKind::SectionLengthMismatch, p3))
                            } else {
                                spec_sections(s, end, limit, Builder { seen_funcs: true, funcs: fns, ..b })
                            },
                        }
                    }
                } else if id == 4 {
                    if b.seen_tables {
                        Err(spec_err(ErrorKind::DuplicateSection, pos))
                    } else {
                        match spec_table_section(s, p2, end) {
                            Err(e) => Err(e),
                            Ok((tbs, p3)) => if p3 != end {
                                Err(spec_err(ErrorKind::SectionLengthMismatch, p3))
                            } else {
                                spec_sections(s, end, limit, Builder { seen_tables: true, tables: tbs, ..b })
                            },
                        }
                    }
                } else if id == 5 {
                    if b.seen_mems {
                        Err(spec_err(ErrorKind::DuplicateSection, pos))
                    } else {
                        match spec_mem_section(s, p2, end) {
                            Err(e) => Err(e),
                            Ok((mms, p3)) => if p3 != end {
                                Err(spec_err(ErrorKind::SectionLengthMismatch, p3))
                            } else {
                                spec_sections(s, end, limit, Builder { seen_mems: true, mems: mms, ..b })
                            },
                        }
                    }
                } else if id == 6 {
                    if b.seen_globals {
                        Err(spec_err(ErrorKind::DuplicateSection, pos))
                    } else {
                        match spec_global_section(s, p2, end) {
                            Err(e) => Err(e),
                            Ok((gls, p3)) => if p3 != end {
                                Err(spec_err(ErrorKind::SectionLengthMismatch, p3))
                            } else {
                                spec_sections(s, end, limit, Builder { seen_globals: true, globals: gls, ..b })
                            },
                        }
                    }
                } else if id == 7 {
                    if b.seen_exports {
                        Err(spec_err(ErrorKind::DuplicateSection, pos))
                    } else {
                        match spec_export_section(s, p2, end) {
                            Err(e) => Err(e),
                            Ok((exs, p3)) => if p3 != end {
                                Err(spec_err(ErrorKind::SectionLengthMismatch, p3))
                            } else {
                                spec_sections(s, end, limit, Builder { seen_exports: true, raw_exports: exs, ..b })
                            },
                        }
                    }
                } else {
                    spec_sections(s, end, limit, b)
                }
            },
        }
    }
}

/// The whole decoding relation: the 4-byte magic, the 4-byte version
/// (which must be 1), then the sections.
pub open spec fn spec_decode(s: Seq<u8>) -> Result<ModuleV, DecodeError> {
    let limit = s.len() as int;
    if limit < 4 {
        Err(spec_err(ErrorKind::UnexpectedEof, limit))
    } else if !(s[0] == 0x00 && s[1] == 0x61 && s[2] == 0x73 && s[3] == 0x6d) {
        Err(spec_err(ErrorKind::BadMagic, 0))
    } else if limit < 8 {
        Err(spec_err(ErrorKind::UnexpectedEof, limit))
    } else if !(s[4] == 0x01 && s[5] == 0x00 && s[6] == 0x00 && s[7] == 0x00) {
        Err(spec_err(ErrorKind::UnsupportedVersion, 4))
    } else {
        spec_sections(s, 8, limit, Builder::empty())
    }
}

/// Builds the four index spaces of a builder state: for each kind, the
/// imported descriptors in order, then the locally declared ones.
#[verifier::loop_isolation(false)]
fn build_spaces(
    imports: &Vec<Import>,
    funcs: &Vec<u32>,
    tables: &Vec<TableType>,
    mems: &Vec<MemoryType>,
    globals: &Vec<GlobalType>,
    Ghost(b): Ghost<Builder>,
) -> (r: (Vec<ExternDesc>, Vec<ExternDesc>, Vec<ExternDesc>, Vec<ExternDesc>))
    requires
        b.imports == imports.deep_view(),
        b.funcs == funcs@,
        b.tables == tables@,
        b.mems == mems@,
        b.globals == globals@,
    ensures
        r.0@ == spec_func_space(b),
        r.1@ == spec_table_space(b),
        r.2@ == spec_mem_space(b),
        r.3@ == spec_global_space(b),
{
    let ghost idv = imports.deep_view();
    let mut fs: Vec<ExternDesc> = Vec::new();
    let mut ts: Vec<ExternDesc> = Vec::new();
    let mut ms: Vec<ExternDesc> = Vec::new();
    let mut gs: Vec<ExternDesc> = Vec::new();
    let mut i: usize = 0;
    proof {
        assert(idv.take(0) =~= Seq::<ImportV>::empty());
    }
    while i < imports.len()
        invariant
            i <= imports.len(),
            fs@ == spec_import_space(idv.take(i as int), ExternKind::Func),
            ts@ == spec_import_space(idv.take(i as int), ExternKind::Table),
            ms@ == spec_import_space(idv.take(i as int), ExternKind::Memory),
            gs@ == spec_import_space(idv.take(i as int), ExternKind::Global),
        decreases imports.len() - i,
    {
        let desc = imports[i].desc;
        proof {
            assert(idv.take(i + 1).drop_last() =~= idv.take(i as int));
            assert(idv.take(i + 1).last() == idv[i as int]);
            assert(idv[i as int].desc == desc);
        }
        match desc {
            ExternDesc::Func(_) => fs.push(desc),
            ExternDesc::Table(_) => ts.push(desc),
            ExternDesc::Memory(_) => ms.push(desc),
            ExternDesc::Global(_) => gs.push(desc),
        }
        i = i + 1;
    }
    proof {
        assert(idv.take(imports.len() as int) =~= idv);
    }
    let mut j: usize = 0;
    while j < funcs.len()
        invariant
            j <= funcs.len(),
            fs@ == spec_import_space(idv, ExternKind::Func)
                + funcs@.take(j as int).map(|i: int, t: u32| ExternDesc::Func(t)),
        decreases funcs.len() - j,
    {
        let ghost prev = fs@;
        fs.push(ExternDesc::Func(funcs[j]));
        proof {
            assert(funcs@.take(j + 1).map(|i: int, t: u32| ExternDesc::Func(t))
                =~= funcs@.take(j as int).map(|i: int, t: u32| ExternDesc::Func(t))
                    .push(ExternDesc::Func(funcs@[j as int])));
        }
        j = j + 1;
    }
    let mut j: usize = 0;
    while j < tables.len()
        invariant
            j <= tables.len(),
            ts@ == spec_import_space(idv, ExternKind::Table)
                + tables@.take(j as int).map(|i: int, t: TableType| ExternDesc::Table(t)),
        decreases tables.len() - j,
    {
        ts.push(ExternDesc::Table(tables[j]));
        proof {
            assert(tables@.take(j + 1).map(|i: int, t: TableType| ExternDesc::Table(t))
                =~= tables@.take(j as int).map(|i: int, t: TableType| ExternDesc::Table(t))
                    .push(ExternDesc::Table(tables@[j as int])));
        }
        j = j + 1;
    }
    let mut j: usize = 0;
    while j < mems.len()
        invariant
            j <= mems.len(),
            ms@ == spec_import_space(idv, ExternKind::Memory)
                + mems@.take(j as int).map(|i: int, m: MemoryType| ExternDesc::Memory(m)),
        decreases mems.len() - j,
    {
        ms.push(ExternDesc::Memory(mems[j]));
        proof {
            assert(mems@.take(j + 1).map(|i: int, m: MemoryType| ExternDesc::Memory(m))
                =~= mems@.take(j as int).map(|i: int, m: MemoryType| ExternDesc::Memory(m))
                    .push(ExternDesc::Memory(mems@[j as int])));
        }
        j = j + 1;
    }
    let mut j: usize = 0;
    while j < globals.len()
        invariant
            j <= globals.len(),
            gs@ == spec_import_space(idv, ExternKind::Global)
                + globals@.take(j as int).map(|i: int, g: GlobalType| ExternDesc::Global(g)),
        decreases globals.len() - j,
    {
        gs.push(ExternDesc::Global(globals[j]));
        proof {
            assert(globals@.take(j + 1).map(|i: int, g: GlobalType| ExternDesc::Global(g))
                =~= globals@.take(j as int).map(|i: int, g: GlobalType| ExternDesc::Global(g))
                    .push(ExternDesc::Global(globals@[j as int])));
        }
        j = j + 1;
    }
    proof {
        assert(funcs@.take(funcs@.len() as int) =~= funcs@);
        assert(tables@.take(tables@.len() as int) =~= tables@);
        assert(mems@.take(mems@.len() as int) =~= mems@);
        assert(globals@.take(globals@.len() as int) =~= globals@);
    }
    (fs, ts, ms, gs)
}

/// Assembles the final module from the accumulated sections, exactly as
/// `spec_finalize` describes: an export whose index is outside its space
/// fails the decode at that entry's offset.
#[verifier::loop_isolation(false)]
fn finalize(
    types: Vec<FuncType>,
    imports: Vec<Import>,
    funcs: Vec<u32>,
    tables: Vec<TableType>,
    mems: Vec<MemoryType>,
    globals: Vec<GlobalType>,
    raws: Vec<RawExport>,
    Ghost(b): Ghost<Builder>,
) -> (r: Result<Module, DecodeError>)
    requires
        b.types == types.deep_view(),
        b.imports == imports.deep_view(),
        b.funcs == funcs@,
        b.tables == tables@,
        b.mems == mems@,
        b.globals == globals@,
        b.raw_exports == raws.deep_view(),
    ensures
        match r {
            Ok(m) => spec_finalize(b) == Ok::<ModuleV, DecodeError>(m.deep_view()),
            Err(e) => spec_finalize(b) == Err::<ModuleV, DecodeError>(e),
        },
{
    let (fs, ts, ms, gs) = build_spaces(&imports, &funcs, &tables, &mems, &globals, Ghost(b));
    let ghost rdv = raws.deep_view();
    let mut exports: Vec<Export> = Vec::new();
    let mut k: usize = 0;
    proof {
        assert(rdv.skip(0) =~= rdv);
        assert(exports.deep_view() =~= Seq::<ExportV>::empty());
    }
    while k < raws.len()
        invariant
            k <= raws.len(),
            spec_resolve(rdv.skip(k as int), fs@, ts@, ms@, gs@, exports.deep_view())
                == spec_resolve(rdv, fs@, ts@, ms@, gs@, Seq::empty()),
        decreases raws.len() - k,
    {
        proof {
            assert(rdv.skip(k as int).first() == rdv[k as int]);
            assert(rdv.skip(k as int).drop_first() =~= rdv.skip(k + 1));
        }
        let space: &Vec<ExternDesc> = match raws[k].kind {
            ExternKind::Func => &fs,
            ExternKind::Table => &ts,
            ExternKind::Memory => &ms,
            ExternKind::Global => &gs,
        };
        if (raws[k].index as usize) < space.len() {
            let desc = space[raws[k].index as usize];
            let ghost prev = exports.deep_view();
            let exp = Export { name: raws[k].name.clone(), desc };
            let ghost ev = exp.deep_view();
            exports.push(exp);
            proof {
                assert(exports.deep_view() =~= prev.push(ev));
            }
        } else {
            return Err(DecodeError::at(ErrorKind::ExportIndexOutOfRange, raws[k].at));
        }
        k = k + 1;
    }
    proof {
        assert(rdv.skip(k as int) =~= Seq::<RawExportV>::empty());
        assert(spec_resolve(rdv.skip(k as int), fs@, ts@, ms@, gs@, exports.deep_view())
            == Ok::<Seq<ExportV>, DecodeError>(exports.deep_view()));
        assert(spec_resolve(rdv, fs@, ts@, ms@, gs@, Seq::empty())
            == Ok::<Seq<ExportV>, DecodeError>(exports.deep_view()));
    }
    let m = Module { types, imports, funcs, tables, mems, globals, exports };
    proof {
        let mv = spec_finalize(b)->Ok_0;
        assert(m.deep_view().types == mv.types);
        assert(m.deep_view().imports == mv.imports);
        assert(m.deep_view().funcs == mv.funcs);
        assert(m.deep_view().tables == mv.tables);
        assert(m.deep_view().mems == mv.mems);
        assert(m.deep_view().globals == mv.globals);
        assert(m.deep_view().exports == mv.exports);
        assert(m.deep_view() == mv);
    }
    Ok(m)
}

/// Decodes a whole module from its raw bytes, exactly as `spec_decode`
/// describes: on success the returned module's view is the one the
/// specification assigns to these bytes; on failure the error, with its
/// kind and offset, is the one the specification assigns.  No partial
/// module is ever returned.
#[verifier::loop_isolation(false)]
pub fn decode_module(bytes: &[u8]) -> (r: Result<Module, DecodeError>)
    ensures
        match r {
            Ok(m) => spec_decode(bytes@) == Ok::<ModuleV, DecodeError>(m.deep_view()),
            Err(e) => spec_decode(bytes@) == Err::<ModuleV, DecodeError>(e),
        },
{
    let ghost s = bytes@;
    let len = bytes.len();
    if len < 4 {
        return Err(DecodeError::at(ErrorKind::UnexpectedEof, len));
    }
    if !(bytes[0] == 0x00 && bytes[1] == 0x61 && bytes[2] == 0x73 && bytes[3] == 0x6d) {
        return Err(DecodeError::at(ErrorKind::BadMagic, 0));
    }
    if len < 8 {
        return Err(DecodeError::at(ErrorKind::UnexpectedEof, len));
    }
    if !(bytes[4] == 0x01 && bytes[5] == 0x00 && bytes[6] == 0x00 && bytes[7] == 0x00) {
        return Err(DecodeError::at(ErrorKind::UnsupportedVersion, 4));
    }
    let mut c = Cursor::new(bytes);
    c.pos = 8;
    let ghost limit = c.limit as int;
    let mut types: Vec<FuncType> = Vec::new();
    let mut imports: Vec<Import> = Vec::new();
    let mut funcs: Vec<u32> = Vec::new();
    let mut tables: Vec<TableType> = Vec::new();
    let mut mems: Vec<MemoryType> = Vec::new();
    let mut globals: Vec<GlobalType> = Vec::new();
    let mut raws: Vec<RawExport> = Vec::new();
    let mut seen_types = false;
    let mut seen_imports = false;
    let mut seen_funcs = false;
    let mut seen_tables = false;
    let mut seen_mems = false;
    let mut seen_globals = false;
    let mut seen_exports = false;
    proof {
        assert(types.deep_view() =~= Seq::<FuncTy>::empty());
        assert(imports.deep_view() =~= Seq::<ImportV>::empty());
        assert(raws.deep_view() =~= Seq::<RawExportV>::empty());
        let b0 = Builder {
            seen_types, seen_imports, seen_funcs, seen_tables, seen_mems, seen_globals, seen_exports,
            types: types.deep_view(), imports: imports.deep_view(), funcs: funcs@,
            tables: tables@, mems: mems@, globals: globals@, raw_exports: raws.deep_view(),
        };
        assert(b0 == Builder::empty());
    }
    while c.pos < c.limit
        invariant
            c.wf(),
            c.bytes@ == s,
            c.limit as int == limit,
            8 <= c.pos,
            spec_sections(s, c.pos as int, limit, Builder {
                seen_types, seen_imports, seen_funcs, seen_tables, seen_mems, seen_globals, seen_exports,
                types: types.deep_view(), imports: imports.deep_view(), funcs: funcs@,
                tables: tables@, mems: mems@, globals: globals@, raw_exports: raws.deep_view(),
            }) == spec_sections(s, 8, limit, Builder::empty()),
        decreases c.limit - c.pos,
    {
        let ghost bcur = Builder {
            seen_types, seen_imports, seen_funcs, seen_tables, seen_mems, seen_globals, seen_exports,
            types: types.deep_view(), imports: imports.deep_view(), funcs: funcs@,
            tables: tables@, mems: mems@, globals: globals@, raw_exports: raws.deep_view(),
        };
        let id_pos = c.pos;
        let id = c.bytes[c.pos];
        c.pos = c.pos + 1;
        let size = match read_u32_leb(&mut c) {
            Ok(x) => x,
            Err(e) => {
                return Err(e);
            },
        };
        proof {
            crate::leb::lemma_uleb_advances(s, id_pos + 1, limit, 5, 32, true);
        }
        let mut sub = match c.slice(size as usize) {
            Ok(sub) => sub,
            Err(e) => {
                return Err(e);
            },
        };
        let end = sub.limit;
        if id >= 1 && id <= 7 {
            let dup = match id {
                1 => seen_types,
                2 => seen_imports,
                3 => seen_funcs,
                4 => seen_tables,
                5 => seen_mems,
                6 => seen_globals,
                _ => seen_exports,
            };
            if dup {
                return Err(DecodeError::at(ErrorKind::DuplicateSection, id_pos));
            }
            match id {
                1 => {
                    match decode_type_section(&mut sub) {
                        Ok(v) => {
                            if sub.pos != end {
                                return Err(DecodeError::at(ErrorKind::SectionLengthMismatch, sub.pos));
                            }
                            types = v;
                            seen_types = true;
                        },
                        Err(e) => {
                            return Err(e);
                        },
                    }
                },
                2 => {
                    match decode_import_section(&mut sub) {
                        Ok(v) => {
                            if sub.pos != end {
                                return Err(DecodeError::at(ErrorKind::SectionLengthMismatch, sub.pos));
                            }
                            imports = v;
                            seen_imports = true;
                        },
                        Err(e) => {
                            return Err(e);
                        },
                    }
                },
                3 => {
                    match decode_func_section(&mut sub) {
                        Ok(v) => {
                            if sub.pos != end {
                                return Err(DecodeError::at(ErrorKind::SectionLengthMismatch, sub.pos));
                            }
                            funcs = v;
                            seen_funcs = true;
                        },
                        Err(e) => {
                            return Err(e);
                        },
                    }
                },
                4 => {
                    match decode_table_section(&mut sub) {
                        Ok(v) => {
                            if sub.pos != end {
                                return Err(DecodeError::at(ErrorKind::SectionLengthMismatch, sub.pos));
                            }
                            tables = v;
                            seen_tables = true;
                        },
                        Err(e) => {
                            return Err(e);
                        },
                    }
                },
                5 => {
                    match decode_mem_section(&mut sub) {
                        Ok(v) => {
                            if sub.pos != end {
                                return Err(DecodeError::at(ErrorKind::SectionLengthMismatch, sub.pos));
                            }
                            mems = v;
                            seen_mems = true;
                        },
                        Err(e) => {
                            return Err(e);
                        },
                    }
                },
                6 => {
                    match decode_global_section(&mut sub) {
                        Ok(v) => {
                            if sub.pos != end {
                                return Err(DecodeError::at(ErrorKind::SectionLengthMismatch, sub.pos));
                            }
                            globals = v;
                            seen_globals = true;
                        },
                        Err(e) => {
                            return Err(e);
                        },
                    }
                },
                _ => {
                    match decode_export_section(&mut sub) {
                        Ok(v) => {
                            if sub.pos != end {
                                return Err(DecodeError::at(ErrorKind::SectionLengthMismatch, sub.pos));
                            }
                            raws = v;
                            seen_exports = true;
                        },
                        Err(e) => {
                            return Err(e);
                        },
                    }
                },
            }
        }
    }
    let ghost bfin = Builder {
        seen_types, seen_imports, seen_funcs, seen_tables, seen_mems, seen_globals, seen_exports,
        types: types.deep_view(), imports: imports.deep_view(), funcs: funcs@,
        tables: tables@, mems: mems@, globals: globals@, raw_exports: raws.deep_view(),
    };
    finalize(types, imports, funcs, tables, mems, globals, raws, Ghost(bfin))
}

} // verus!
