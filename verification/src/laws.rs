//! The truncation law: cutting a buffer that decodes successfully never
//! yields a different module or a surprising error.  A cut that lands
//! strictly inside a section (or the header) surfaces as `UnexpectedEof`
//! reported at the cut; a cut at a section boundary decodes to the
//! prefix's own complete module — except that a module whose Export
//! section precedes the sections building its index spaces can leave an
//! export unresolvable, which surfaces as `ExportIndexOutOfRange`.
//!
//! The supporting lemmas show that every decoding function reads only
//! `s[pos..limit)`, so decoding a prefix agrees with decoding the whole
//! buffer until the cut is actually reached.

use vstd::prelude::*;
use crate::error::{DecodeError, ErrorKind, spec_err};
use crate::cursor::spec_read_u8;
use crate::leb::{spec_read_uleb, spec_read_u32_leb, lemma_uleb_advances};
use crate::types::{ExportV, ModuleV};
use crate::decode::{
    spec_read_valtype, spec_valtype_items, spec_read_valtype_list, spec_read_functype,
    spec_read_limits, spec_read_tabletype, spec_read_globaltype, spec_name_chars, spec_read_name,
    spec_read_import_desc, spec_skip_expr, spec_type_items, spec_type_section, spec_import_items,
    spec_import_section, spec_func_items, spec_func_section, spec_table_items, spec_table_section,
    spec_mem_items, spec_mem_section, spec_global_items, spec_global_section, spec_export_items,
    spec_export_section, spec_resolve, spec_finalize, spec_sections, spec_decode, Builder,
    RawExportV,
};

verus! {

/// The agreement two buffers need for decoding below `limit` to coincide.
spec fn agree(s1: Seq<u8>, s2: Seq<u8>, limit: int) -> bool {
    &&& limit <= s1.len()
    &&& limit <= s2.len()
    &&& forall|i: int| 0 <= i < limit ==> s1[i] == s2[i]
}

proof fn ext_read_u8(s1: Seq<u8>, s2: Seq<u8>, pos: int, limit: int)
    requires
        agree(s1, s2, limit),
    ensures
        spec_read_u8(s1, pos, limit) == spec_read_u8(s2, pos, limit),
{
    if 0 <= pos < limit {
        assert(s1[pos] == s2[pos]);
    }
}

proof fn ext_uleb(s1: Seq<u8>, s2: Seq<u8>, pos: int, limit: int, max: nat, width: nat, first: bool)
    requires
        agree(s1, s2, limit),
    ensures
        spec_read_uleb(s1, pos, limit, max, width, first)
            == spec_read_uleb(s2, pos, limit, max, width, first),
    decreases max,
{
    if 0 <= pos < limit {
        assert(s1[pos] == s2[pos]);
        if s1[pos] >= 0x80 && max > 1 {
            let subw: nat = if width <= 7 { 0 } else { (width - 7) as nat };
            ext_uleb(s1, s2, pos + 1, limit, (max - 1) as nat, subw, false);
        }
    }
}

proof fn ext_u32_leb(s1: Seq<u8>, s2: Seq<u8>, pos: int, limit: int)
    requires
        agree(s1, s2, limit),
    ensures
        spec_read_u32_leb(s1, pos, limit) == spec_read_u32_leb(s2, pos, limit),
{
    ext_uleb(s1, s2, pos, limit, 5, 32, true);
}

proof fn ext_valtype(s1: Seq<u8>, s2: Seq<u8>, pos: int, limit: int)
    requires
        agree(s1, s2, limit),
    ensures
        spec_read_valtype(s1, pos, limit) == spec_read_valtype(s2, pos, limit),
{
    ext_read_u8(s1, s2, pos, limit);
}

proof fn ext_valtype_items(s1: Seq<u8>, s2: Seq<u8>, pos: int, limit: int, n: nat, acc: Seq<crate::types::ValueType>)
    requires
        agree(s1, s2, limit),
    ensures
        spec_valtype_items(s1, pos, limit, n, acc) == spec_valtype_items(s2, pos, limit, n, acc),
    decreases n,
{
    if n > 0 {
        ext_valtype(s1, s2, pos, limit);
        match spec_read_valtype(s1, pos, limit) {
            Ok((v, p)) => ext_valtype_items(s1, s2, p, limit, (n - 1) as nat, acc.push(v)),
            Err(_) => {},
        }
    }
}

proof fn ext_valtype_list(s1: Seq<u8>, s2: Seq<u8>, pos: int, limit: int)
    requires
        agree(s1, s2, limit),
    ensures
        spec_read_valtype_list(s1, pos, limit) == spec_read_valtype_list(s2, pos, limit),
{
    ext_u32_leb(s1, s2, pos, limit);
    match spec_read_u32_leb(s1, pos, limit) {
        Ok((n, p)) => ext_valtype_items(s1, s2, p, limit, n as nat, Seq::empty()),
        Err(_) => {},
    }
}

proof fn ext_functype(s1: Seq<u8>, s2: Seq<u8>, pos: int, limit: int)
    requires
        agree(s1, s2, limit),
    ensures
        spec_read_functype(s1, pos, limit) == spec_read_functype(s2, pos, limit),
{
    ext_read_u8(s1, s2, pos, limit);
    match spec_read_u8(s1, pos, limit) {
        Ok((form, p)) => {
            ext_valtype_list(s1, s2, p, limit);
            match spec_read_valtype_list(s1, p, limit) {
                Ok((_, p2)) => ext_valtype_list(s1, s2, p2, limit),
                Err(_) => {},
            }
        },
        Err(_) => {},
    }
}

proof fn ext_limits(s1: Seq<u8>, s2: Seq<u8>, pos: int, limit: int)
    requires
        agree(s1, s2, limit),
    ensures
        spec_read_limits(s1, pos, limit) == spec_read_limits(s2, pos, limit),
{
    ext_read_u8(s1, s2, pos, limit);
    match spec_read_u8(s1, pos, limit) {
        Ok((_, p)) => {
            ext_u32_leb(s1, s2, p, limit);
            match spec_read_u32_leb(s1, p, limit) {
                Ok((_, p2)) => ext_u32_leb(s1, s2, p2, limit),
                Err(_) => {},
            }
        },
        Err(_) => {},
    }
}

proof fn ext_tabletype(s1: Seq<u8>, s2: Seq<u8>, pos: int, limit: int)
    requires
        agree(s1, s2, limit),
    ensures
        spec_read_tabletype(s1, pos, limit) == spec_read_tabletype(s2, pos, limit),
{
    ext_valtype(s1, s2, pos, limit);
    match spec_read_valtype(s1, pos, limit) {
        Ok((_, p)) => ext_limits(s1, s2, p, limit),
        Err(_) => {},
    }
}

proof fn ext_globaltype(s1: Seq<u8>, s2: Seq<u8>, pos: int, limit: int)
    requires
        agree(s1, s2, limit),
    ensures
        spec_read_globaltype(s1, pos, limit) == spec_read_globaltype(s2, pos, limit),
{
    ext_valtype(s1, s2, pos, limit);
    match spec_read_valtype(s1, pos, limit) {
        Ok((_, p)) => ext_read_u8(s1, s2, p, limit),
        Err(_) => {},
    }
}

proof fn ext_name(s1: Seq<u8>, s2: Seq<u8>, pos: int, limit: int)
    requires
        agree(s1, s2, limit),
    ensures
        spec_read_name(s1, pos, limit) == spec_read_name(s2, pos, limit),
{
    ext_u32_leb(s1, s2, pos, limit);
    match spec_read_u32_leb(s1, pos, limit) {
        Ok((n, p)) => {
            if !(n as int > limit - p) {
                lemma_uleb_advances(s1, pos, limit, 5, 32, true);
                assert(s1.subrange(p, p + n) =~= s2.subrange(p, p + n));
                assert(spec_name_chars(s1, p, n as int) == spec_name_chars(s2, p, n as int));
            }
        },
        Err(_) => {},
    }
}

proof fn ext_import_desc(s1: Seq<u8>, s2: Seq<u8>, pos: int, limit: int)
    requires
        agree(s1, s2, limit),
    ensures
        spec_read_import_desc(s1, pos, limit) == spec_read_import_desc(s2, pos, limit),
{
    ext_read_u8(s1, s2, pos, limit);
    match spec_read_u8(s1, pos, limit) {
        Ok((tag, p)) => {
            if tag == 0 {
                ext_u32_leb(s1, s2, p, limit);
            } else if tag == 1 {
                ext_tabletype(s1, s2, p, limit);
            } else if tag == 2 {
                ext_limits(s1, s2, p, limit);
            } else if tag == 3 {
                ext_globaltype(s1, s2, p, limit);
            }
        },
        Err(_) => {},
    }
}

proof fn ext_skip_expr(s1: Seq<u8>, s2: Seq<u8>, pos: int, limit: int)
    requires
        agree(s1, s2, limit),
    ensures
        spec_skip_expr(s1, pos, limit) == spec_skip_expr(s2, pos, limit),
    decreases limit - pos,
{
    if 0 <= pos < limit {
        assert(s1[pos] == s2[pos]);
        if s1[pos] != 0x0b {
            ext_skip_expr(s1, s2, pos + 1, limit);
        }
    }
}

proof fn ext_type_items(s1: Seq<u8>, s2: Seq<u8>, pos: int, limit: int, n: nat, acc: Seq<crate::types::FuncTy>)
    requires
        agree(s1, s2, limit),
    ensures
        spec_type_items(s1, pos, limit, n, acc) == spec_type_items(s2, pos, limit, n, acc),
    decreases n,
{
    if n > 0 {
        ext_functype(s1, s2, pos, limit);
        match spec_read_functype(s1, pos, limit) {
            Ok((ft, p)) => ext_type_items(s1, s2, p, limit, (n - 1) as nat, acc.push(ft)),
            Err(_) => {},
        }
    }
}

proof fn ext_import_items(s1: Seq<u8>, s2: Seq<u8>, pos: int, limit: int, n: nat, acc: Seq<crate::types::ImportV>)
    requires
        agree(s1, s2, limit),
    ensures
        spec_import_items(s1, pos, limit, n, acc) == spec_import_items(s2, pos, limit, n, acc),
    decreases n,
{
    if n > 0 {
        ext_name(s1, s2, pos, limit);
        match spec_read_name(s1, pos, limit) {
            Ok((module, p)) => {
                ext_name(s1, s2, p, limit);
                match spec_read_name(s1, p, limit) {
                    Ok((name, p2)) => {
                        ext_import_desc(s1, s2, p2, limit);
                        match spec_read_import_desc(s1, p2, limit) {
                            Ok((desc, p3)) => ext_import_items(s1, s2, p3, limit, (n - 1) as nat,
                                acc.push(crate::types::ImportV { module, name, desc })),
                            Err(_) => {},
                        }
                    },
                    Err(_) => {},
                }
            },
            Err(_) => {},
        }
    }
}

proof fn ext_func_items(s1: Seq<u8>, s2: Seq<u8>, pos: int, limit: int, n: nat, acc: Seq<u32>)
    requires
        agree(s1, s2, limit),
    ensures
        spec_func_items(s1, pos, limit, n, acc) == spec_func_items(s2, pos, limit, n, acc),
    decreases n,
{
    if n > 0 {
        ext_u32_leb(s1, s2, pos, limit);
        match spec_read_u32_leb(s1, pos, limit) {
            Ok((idx, p)) => ext_func_items(s1, s2, p, limit, (n - 1) as nat, acc.push(idx)),
            Err(_) => {},
        }
    }
}

proof fn ext_table_items(s1: Seq<u8>, s2: Seq<u8>, pos: int, limit: int, n: nat, acc: Seq<crate::types::TableType>)
    requires
        agree(s1, s2, limit),
    ensures
        spec_table_items(s1, pos, limit, n, acc) == spec_table_items(s2, pos, limit, n, acc),
    decreases n,
{
    if n > 0 {
        ext_tabletype(s1, s2, pos, limit);
        match spec_read_tabletype(s1, pos, limit) {
            Ok((t, p)) => ext_table_items(s1, s2, p, limit, (n - 1) as nat, acc.push(t)),
            Err(_) => {},
        }
    }
}

proof fn ext_mem_items(s1: Seq<u8>, s2: Seq<u8>, pos: int, limit: int, n: nat, acc: Seq<crate::types::MemoryType>)
    requires
        agree(s1, s2, limit),
    ensures
        spec_mem_items(s1, pos, limit, n, acc) == spec_mem_items(s2, pos, limit, n, acc),
    decreases n,
{
    if n > 0 {
        ext_limits(s1, s2, pos, limit);
        match spec_read_limits(s1, pos, limit) {
            Ok((l, p)) => ext_mem_items(s1, s2, p, limit, (n - 1) as nat,
                acc.push(crate::types::MemoryType { limits: l })),
            Err(_) => {},
        }
    }
}

proof fn ext_global_items(s1: Seq<u8>, s2: Seq<u8>, pos: int, limit: int, n: nat, acc: Seq<crate::types::GlobalType>)
    requires
        agree(s1, s2, limit),
    ensures
        spec_global_items(s1, pos, limit, n, acc) == spec_global_items(s2, pos, limit, n, acc),
    decreases n,
{
    if n > 0 {
        ext_globaltype(s1, s2, pos, limit);
        match spec_read_globaltype(s1, pos, limit) {
            Ok((g, p)) => {
                ext_skip_expr(s1, s2, p, limit);
                match spec_skip_expr(s1, p, limit) {
                    Ok(p2) => ext_global_items(s1, s2, p2, limit, (n - 1) as nat, acc.push(g)),
                    Err(_) => {},
                }
            },
            Err(_) => {},
        }
    }
}

proof fn ext_export_items(s1: Seq<u8>, s2: Seq<u8>, pos: int, limit: int, n: nat, acc: Seq<RawExportV>)
    requires
        agree(s1, s2, limit),
    ensures
        spec_export_items(s1, pos, limit, n, acc) == spec_export_items(s2, pos, limit, n, acc),
    decreases n,
{
    if n > 0 {
        ext_name(s1, s2, pos, limit);
        match spec_read_name(s1, pos, limit) {
            Ok((name, p)) => {
                ext_read_u8(s1, s2, p, limit);
                match spec_read_u8(s1, p, limit) {
                    Ok((tag, p2)) => {
                        ext_u32_leb(s1, s2, p2, limit);
                        let kind = if tag == 0 {
                            Some(crate::types::ExternKind::Func)
                        } else if tag == 1 {
                            Some(crate::types::ExternKind::Table)
                        } else if tag == 2 {
                            Some(crate::types::ExternKind::Memory)
                        } else if tag == 3 {
                            Some(crate::types::ExternKind::Global)
                        } else {
                            None
                        };
                        match kind {
                            Some(kind) => {
                                match spec_read_u32_leb(s1, p2, limit) {
                                    Ok((index, p3)) => ext_export_items(s1, s2, p3, limit,
                                        (n - 1) as nat,
                                        acc.push(RawExportV { name, kind, index, at: pos })),
                                    Err(_) => {},
                                }
                            },
                            None => {},
                        }
                    },
                    Err(_) => {},
                }
            },
            Err(_) => {},
        }
    }
}

proof fn ext_type_section(s1: Seq<u8>, s2: Seq<u8>, pos: int, limit: int)
    requires
        agree(s1, s2, limit),
    ensures
        spec_type_section(s1, pos, limit) == spec_type_section(s2, pos, limit),
{
    ext_u32_leb(s1, s2, pos, limit);
    match spec_read_u32_leb(s1, pos, limit) {
        Ok((n, p)) => ext_type_items(s1, s2, p, limit, n as nat, Seq::empty()),
        Err(_) => {},
    }
}

proof fn ext_import_section(s1: Seq<u8>, s2: Seq<u8>, pos: int, limit: int)
    requires
        agree(s1, s2, limit),
    ensures
        spec_import_section(s1, pos, limit) == spec_import_section(s2, pos, limit),
{
    ext_u32_leb(s1, s2, pos, limit);
    match spec_read_u32_leb(s1, pos, limit) {
        Ok((n, p)) => ext_import_items(s1, s2, p, limit, n as nat, Seq::empty()),
        Err(_) => {},
    }
}

proof fn ext_func_section(s1: Seq<u8>, s2: Seq<u8>, pos: int, limit: int)
    requires
        agree(s1, s2, limit),
    ensures
        spec_func_section(s1, pos, limit) == spec_func_section(s2, pos, limit),
{
    ext_u32_leb(s1, s2, pos, limit);
    match spec_read_u32_leb(s1, pos, limit) {
        Ok((n, p)) => ext_func_items(s1, s2, p, limit, n as nat, Seq::empty()),
        Err(_) => {},
    }
}

proof fn ext_table_section(s1: Seq<u8>, s2: Seq<u8>, pos: int, limit: int)
    requires
        agree(s1, s2, limit),
    ensures
        spec_table_section(s1, pos, limit) == spec_table_section(s2, pos, limit),
{
    ext_u32_leb(s1, s2, pos, limit);
    match spec_read_u32_leb(s1, pos, limit) {
        Ok((n, p)) => ext_table_items(s1, s2, p, limit, n as nat, Seq::empty()),
        Err(_) => {},
    }
}

proof fn ext_mem_section(s1: Seq<u8>, s2: Seq<u8>, pos: int, limit: int)
    requires
        agree(s1, s2, limit),
    ensures
        spec_mem_section(s1, pos, limit) == spec_mem_section(s2, pos, limit),
{
    ext_u32_leb(s1, s2, pos, limit);
    match spec_read_u32_leb(s1, pos, limit) {
        Ok((n, p)) => ext_mem_items(s1, s2, p, limit, n as nat, Seq::empty()),
        Err(_) => {},
    }
}

proof fn ext_global_section(s1: Seq<u8>, s2: Seq<u8>, pos: int, limit: int)
    requires
        agree(s1, s2, limit),
    ensures
        spec_global_section(s1, pos, limit) == spec_global_section(s2, pos, limit),
{
    ext_u32_leb(s1, s2, pos, limit);
    match spec_read_u32_leb(s1, pos, limit) {
        Ok((n, p)) => ext_global_items(s1, s2, p, limit, n as nat, Seq::empty()),
        Err(_) => {},
    }
}

proof fn ext_export_section(s1: Seq<u8>, s2: Seq<u8>, pos: int, limit: int)
    requires
        agree(s1, s2, limit),
    ensures
        spec_export_section(s1, pos, limit) == spec_export_section(s2, pos, limit),
{
    ext_u32_leb(s1, s2, pos, limit);
    match spec_read_u32_leb(s1, pos, limit) {
        Ok((n, p)) => ext_export_items(s1, s2, p, limit, n as nat, Seq::empty()),
        Err(_) => {},
    }
}

/// The only error assembling a module can produce is an out-of-range
/// export index.
proof fn lemma_resolve_err_kind(
    raws: Seq<RawExportV>,
    fs: Seq<crate::types::ExternDesc>,
    ts: Seq<crate::types::ExternDesc>,
    ms: Seq<crate::types::ExternDesc>,
    gs: Seq<crate::types::ExternDesc>,
    acc: Seq<ExportV>,
)
    ensures
        match spec_resolve(raws, fs, ts, ms, gs, acc) {
            Ok(_) => true,
            Err(e) => e.kind == ErrorKind::ExportIndexOutOfRange,
        },
    decreases raws.len(),
{
    if raws.len() > 0 {
        let r = raws.first();
        let space = match r.kind {
            crate::types::ExternKind::Func => fs,
            crate::types::ExternKind::Table => ts,
            crate::types::ExternKind::Memory => ms,
            crate::types::ExternKind::Global => gs,
        };
        if (r.index as int) < space.len() {
            lemma_resolve_err_kind(raws.drop_first(), fs, ts, ms, gs,
                acc.push(ExportV { name: r.name, desc: space[r.index as int] }));
        }
    }
}

/// Truncating an unsigned read: if the whole read ends at or before the
/// cut it is unaffected; otherwise the prefix read runs out of bytes.
proof fn trunc_uleb(s: Seq<u8>, k: int, pos: int, limit: int, max: nat, width: nat, first: bool)
    requires
        spec_read_uleb(s, pos, limit, max, width, first) is Ok,
        0 <= k <= s.len(),
        limit <= s.len(),
    ensures
        ({
            let (v, p) = spec_read_uleb(s, pos, limit, max, width, first)->Ok_0;
            if p <= k {
                spec_read_uleb(s.take(k), pos, k, max, width, first)
                    == Ok::<(nat, int), DecodeError>((v, p))
            } else {
                spec_read_uleb(s.take(k), pos, k, max, width, first)
                    == Err::<(nat, int), DecodeError>(spec_err(ErrorKind::UnexpectedEof, k))
            }
        }),
    decreases max,
{
    lemma_uleb_advances(s, pos, limit, max, width, first);
    if pos >= k {
        // nothing of the encoding survives the cut
    } else {
        assert(s.take(k)[pos] == s[pos]);
        let b = s[pos];
        if b >= 0x80 {
            let subw: nat = if width <= 7 { 0 } else { (width - 7) as nat };
            trunc_uleb(s, k, pos + 1, limit, (max - 1) as nat, subw, false);
        }
    }
}

/// Truncating the section walk: the prefix walk agrees until the cut is
/// reached, then either finishes (the cut sat at a section boundary) or
/// runs out of bytes; finishing can only fail by an unresolvable export.
proof fn trunc_sections(s: Seq<u8>, k: int, pos: int, b: Builder)
    requires
        spec_sections(s, pos, s.len() as int, b) is Ok,
        0 <= pos <= s.len(),
        0 <= k <= s.len(),
    ensures
        spec_sections(s.take(k), pos, k, b) is Ok
            || spec_sections(s.take(k), pos, k, b)
                == Err::<ModuleV, DecodeError>(spec_err(ErrorKind::UnexpectedEof, k))
            || (spec_sections(s.take(k), pos, k, b) is Err
                && spec_sections(s.take(k), pos, k, b)->Err_0.kind == ErrorKind::ExportIndexOutOfRange),
    decreases s.len() - pos,
{
    let limit = s.len() as int;
    let t = s.take(k);
    if pos >= k {
        // the prefix walk is already finished: it assembles what it has
        lemma_resolve_err_kind(b.raw_exports, crate::decode::spec_func_space(b),
            crate::decode::spec_table_space(b), crate::decode::spec_mem_space(b),
            crate::decode::spec_global_space(b), Seq::empty());
    } else {
        assert(t[pos] == s[pos]);
        let id = s[pos];
        ext_uleb(s, t, pos + 1, k, 5, 32, true);
        let full_size = spec_read_u32_leb(s, pos + 1, limit);
        assert(full_size is Ok);
        let (size, p2) = full_size->Ok_0;
        lemma_uleb_advances(s, pos + 1, limit, 5, 32, true);
        trunc_uleb(s, k, pos + 1, limit, 5, 32, true);
        if p2 > k {
            // the cut falls inside the size field
        } else {
            if size as int > k - p2 {
                // the cut falls inside the section body
            } else {
                let end = p2 + size;
                assert(agree(s, t, end));
                if id == 1 {
                    ext_type_section(s, t, p2, end);
                    trunc_sections(s, k, end, Builder {
                        seen_types: true,
                        types: crate::decode::spec_type_section(s, p2, end)->Ok_0.0,
                        ..b
                    });
                } else if id == 2 {
                    ext_import_section(s, t, p2, end);
                    trunc_sections(s, k, end, Builder {
                        seen_imports: true,
                        imports: crate::decode::spec_import_section(s, p2, end)->Ok_0.0,
                        ..b
                    });
                } else if id == 3 {
                    ext_func_section(s, t, p2, end);
                    trunc_sections(s, k, end, Builder {
                        seen_funcs: true,
                        funcs: crate::decode::spec_func_section(s, p2, end)->Ok_0.0,
                        ..b
                    });
                } else if id == 4 {
                    ext_table_section(s, t, p2, end);
                    trunc_sections(s, k, end, Builder {
                        seen_tables: true,
                        tables: crate::decode::spec_table_section(s, p2, end)->Ok_0.0,
                        ..b
                    });
                } else if id == 5 {
                    ext_mem_section(s, t, p2, end);
                    trunc_sections(s, k, end, Builder {
                        seen_mems: true,
                        mems: crate::decode::spec_mem_section(s, p2, end)->Ok_0.0,
                        ..b
                    });
                } else if id == 6 {
                    ext_global_section(s, t, p2, end);
                    trunc_sections(s, k, end, Builder {
                        seen_globals: true,
                        globals: crate::decode::spec_global_section(s, p2, end)->Ok_0.0,
                        ..b
                    });
                } else if id == 7 {
                    ext_export_section(s, t, p2, end);
                    trunc_sections(s, k, end, Builder {
                        seen_exports: true,
                        raw_exports: crate::decode::spec_export_section(s, p2, end)->Ok_0.0,
                        ..b
                    });
                } else {
                    trunc_sections(s, k, end, b);
                }
            }
        }
    }
}

/// The index space a raw export of kind `k` is resolved against.
pub open spec fn spec_space_of(b: Builder, k: crate::types::ExternKind) -> Seq<crate::types::ExternDesc> {
    match k {
        crate::types::ExternKind::Func => crate::decode::spec_func_space(b),
        crate::types::ExternKind::Table => crate::decode::spec_table_space(b),
        crate::types::ExternKind::Memory => crate::decode::spec_mem_space(b),
        crate::types::ExternKind::Global => crate::decode::spec_global_space(b),
    }
}

/// Whether a raw export's index lies inside its kind's index space.
pub open spec fn spec_export_in_range(b: Builder, r: RawExportV) -> bool {
    (r.index as int) < spec_space_of(b, r.kind).len()
}

proof fn lemma_resolve_first_failure(
    b: Builder,
    raws: Seq<RawExportV>,
    acc: Seq<ExportV>,
    i: int,
)
    requires
        0 <= i < raws.len(),
        forall|j: int| 0 <= j < i ==> spec_export_in_range(b, #[trigger] raws[j]),
        !spec_export_in_range(b, raws[i]),
    ensures
        spec_resolve(raws, crate::decode::spec_func_space(b), crate::decode::spec_table_space(b),
            crate::decode::spec_mem_space(b), crate::decode::spec_global_space(b), acc)
            == Err::<Seq<ExportV>, DecodeError>(spec_err(ErrorKind::ExportIndexOutOfRange, raws[i].at)),
    decreases i,
{
    let r = raws.first();
    if i == 0 {
    } else {
        let space = spec_space_of(b, r.kind);
        let rest = raws.drop_first();
        assert(forall|j: int| 0 <= j < i - 1 ==> #[trigger] rest[j] == raws[j + 1]);
        lemma_resolve_first_failure(b, rest,
            acc.push(ExportV { name: r.name, desc: space[r.index as int] }), i - 1);
    }
}

/// An export whose index lies at or beyond the size of its kind's index
/// space — imports of that kind followed by its local declarations —
/// fails module assembly with `ExportIndexOutOfRange` reported at that
/// export entry's recorded byte offset, provided every entry before it
/// resolves.  This holds for any accumulated section state.
pub proof fn lemma_export_index_out_of_range(b: Builder, i: int)
    requires
        0 <= i < b.raw_exports.len(),
        forall|j: int| 0 <= j < i ==> spec_export_in_range(b, #[trigger] b.raw_exports[j]),
        !spec_export_in_range(b, b.raw_exports[i]),
    ensures
        spec_finalize(b) == Err::<ModuleV, DecodeError>(
            spec_err(ErrorKind::ExportIndexOutOfRange, b.raw_exports[i].at)),
{
    lemma_resolve_first_failure(b, b.raw_exports, Seq::empty(), i);
}

/// Whether the walk state records the recognized singleton section `id`
/// as already seen.
pub open spec fn spec_singleton_seen(b: Builder, id: u8) -> bool {
    if id == 1 {
        b.seen_types
    } else if id == 2 {
        b.seen_imports
    } else if id == 3 {
        b.seen_funcs
    } else if id == 4 {
        b.seen_tables
    } else if id == 5 {
        b.seen_mems
    } else if id == 6 {
        b.seen_globals
    } else if id == 7 {
        b.seen_exports
    } else {
        false
    }
}

/// A second section with a recognized singleton id — Type, Import,
/// Function, Table, Memory, Global, or Export — fails the walk with
/// `DuplicateSection` reported at that section's id byte, whatever the
/// section holds, as soon as its size field reads back and fits.
pub proof fn lemma_duplicate_section(s: Seq<u8>, pos: int, b: Builder)
    requires
        0 <= pos < s.len(),
        1 <= s[pos] <= 7,
        spec_singleton_seen(b, s[pos]),
        spec_read_u32_leb(s, pos + 1, s.len() as int) is Ok,
        ({
            let (size, p2) = spec_read_u32_leb(s, pos + 1, s.len() as int)->Ok_0;
            size + p2 <= s.len()
        }),
    ensures
        spec_sections(s, pos, s.len() as int, b)
            == Err::<ModuleV, DecodeError>(spec_err(ErrorKind::DuplicateSection, pos)),
{
    lemma_uleb_advances(s, pos + 1, s.len() as int, 5, 32, true);
}

/// A module of only the 8-byte header — magic and version, no sections —
/// decodes to the empty module: no types, imports, declarations, or
/// exports.
pub proof fn lemma_header_only_module()
    ensures
        spec_decode(seq![0x00u8, 0x61, 0x73, 0x6d, 0x01, 0x00, 0x00, 0x00])
            == Ok::<ModuleV, DecodeError>(ModuleV::empty()),
{
    let h = seq![0x00u8, 0x61, 0x73, 0x6d, 0x01, 0x00, 0x00, 0x00];
    assert(spec_sections(h, 8, 8, Builder::empty()) == spec_finalize(Builder::empty()));
    assert(crate::decode::spec_import_space(Seq::empty(), crate::types::ExternKind::Func) =~= Seq::<crate::types::ExternDesc>::empty());
    assert(spec_finalize(Builder::empty()) == Ok::<ModuleV, DecodeError>(ModuleV::empty()));
}

/// Decoding a truncated buffer never yields a different module and never
/// fails in a surprising way: a cut strictly inside the header, a section
/// header, or a section body surfaces as `UnexpectedEof` reported at the
/// cut; a cut at a section boundary decodes to the prefix's own complete
/// module, except that a module whose Export section precedes the
/// sections building its index spaces can leave an export unresolvable
/// (`ExportIndexOutOfRange`) — which cannot happen with the format's
/// standard section order.  That no input can make the decoder panic or
/// return a partial module is part of `decode_module`'s own contract.
pub proof fn lemma_truncation(s: Seq<u8>, k: int)
    requires
        spec_decode(s) is Ok,
        0 <= k <= s.len(),
    ensures
        spec_decode(s.take(k)) is Ok
            || spec_decode(s.take(k)) == Err::<ModuleV, DecodeError>(spec_err(ErrorKind::UnexpectedEof, k))
            || (spec_decode(s.take(k)) is Err
                && spec_decode(s.take(k))->Err_0.kind == ErrorKind::ExportIndexOutOfRange),
        spec_decode(s.take(k)) is Ok ==> 8 <= k,
{
    let t = s.take(k);
    if k >= 4 {
        assert(t[0] == s[0] && t[1] == s[1] && t[2] == s[2] && t[3] == s[3]);
    }
    if k >= 8 {
        assert(t[4] == s[4] && t[5] == s[5] && t[6] == s[6] && t[7] == s[7]);
        trunc_sections(s, k, 8, Builder::empty());
    }
}

} // verus!
