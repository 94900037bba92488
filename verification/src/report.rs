//! The interface reporter: renders each import and export of a decoded
//! module as one human-readable descriptor line.
//!
//! The exact text of every line is fixed by specification functions over
//! the module's view, so two runs over equal bytes produce equal lines.

use vstd::prelude::*;
use crate::types::{ValueType, Limits, ExternDesc, Import, Export, Module, ModuleV, ImportV, ExportV};
use crate::strutil::push_char;
use crate::decode::spec_decode;

verus! {

/// The decimal digit character for `d`.
pub open spec fn spec_digit(d: nat) -> char {
    if d == 0 {
        '0'
    } else if d == 1 {
        '1'
    } else if d == 2 {
        '2'
    } else if d == 3 {
        '3'
    } else if d == 4 {
        '4'
    } else if d == 5 {
        '5'
    } else if d == 6 {
        '6'
    } else if d == 7 {
        '7'
    } else if d == 8 {
        '8'
    } else {
        '9'
    }
}

/// The decimal rendering of `n`, most significant digit first.
pub open spec fn spec_dec(n: nat) -> Seq<char>
    decreases n,
{
    if n < 10 {
        seq![spec_digit(n)]
    } else {
        spec_dec(n / 10).push(spec_digit(n % 10))
    }
}

fn digit_char(d: u64) -> (c: char)
    requires
        d < 10,
    ensures
        c == spec_digit(d as nat),
{
    match d {
        0 => '0',
        1 => '1',
        2 => '2',
        3 => '3',
        4 => '4',
        5 => '5',
        6 => '6',
        7 => '7',
        8 => '8',
        _ => '9',
    }
}

/// Renders `n` in decimal, exactly as `spec_dec` describes.
pub fn dec_str(n: u64) -> (r: String)
    ensures
        r@ == spec_dec(n as nat),
    decreases n,
{
    if n < 10 {
        let mut s = String::new();
        push_char(&mut s, digit_char(n));
        proof {
            assert(s@ =~= spec_dec(n as nat));
        }
        s
    } else {
        let mut s = dec_str(n / 10);
        push_char(&mut s, digit_char(n % 10));
        s
    }
}

/// The name of a value type.
pub open spec fn spec_valtype_name(v: ValueType) -> Seq<char> {
    match v {
        ValueType::I32 => "i32"@,
        ValueType::I64 => "i64"@,
        ValueType::F32 => "f32"@,
        ValueType::F64 => "f64"@,
        ValueType::V128 => "v128"@,
        ValueType::FuncRef => "funcref"@,
        ValueType::ExternRef => "externref"@,
    }
}

fn valtype_name(v: &ValueType) -> (r: &'static str)
    ensures
        r@ == spec_valtype_name(*v),
{
    match v {
        ValueType::I32 => "i32",
        ValueType::I64 => "i64",
        ValueType::F32 => "f32",
        ValueType::F64 => "f64",
        ValueType::V128 => "v128",
        ValueType::FuncRef => "funcref",
        ValueType::ExternRef => "externref",
    }
}

/// Comma-joined value-type names.
pub open spec fn spec_join_params(ps: Seq<ValueType>) -> Seq<char>
    decreases ps.len(),
{
    if ps.len() == 0 {
        Seq::empty()
    } else if ps.len() == 1 {
        spec_valtype_name(ps[0])
    } else {
        spec_valtype_name(ps[0]) + ", "@ + spec_join_params(ps.drop_first())
    }
}

#[verifier::loop_isolation(false)]
fn join_params_from(ps: &Vec<ValueType>, i: usize) -> (r: String)
    requires
        i <= ps@.len(),
    ensures
        r@ == spec_join_params(ps@.skip(i as int)),
    decreases ps@.len() - i,
{
    if i == ps.len() {
        proof {
            assert(ps@.skip(i as int) =~= Seq::<ValueType>::empty());
        }
        String::new()
    } else {
        let mut s = String::from_str(valtype_name(&ps[i]));
        proof {
            assert(ps@.skip(i as int)[0] == ps@[i as int]);
            assert(ps@.skip(i as int).drop_first() =~= ps@.skip(i + 1));
        }
        if i + 1 < ps.len() {
            s.append(", ");
            let tail = join_params_from(ps, i + 1);
            s.append(tail.as_str());
        }
        s
    }
}

/// What a function's parameter list renders to: the comma-joined
/// parameter type names of its function type, or nothing when the type
/// index lies outside the type space (the reporter is total; a structural
/// decoder does not check type indices of imports).
pub open spec fn spec_func_params(m: ModuleV, idx: u32) -> Seq<char> {
    if (idx as int) < m.types.len() {
        spec_join_params(m.types[idx as int].params)
    } else {
        Seq::empty()
    }
}

fn func_params(m: &Module, idx: u32) -> (r: String)
    ensures
        r@ == spec_func_params(m.deep_view(), idx),
{
    if (idx as usize) < m.types.len() {
        proof {
            assert(m.deep_view().types[idx as int] == m.types@[idx as int].deep_view());
        }
        let ft = &m.types[idx as usize];
        let r = join_params_from(&ft.params, 0);
        proof {
            assert(ft.params@.skip(0) =~= ft.params@);
        }
        r
    } else {
        String::new()
    }
}

/// `min = <n>, max = <n|∞>` for a limits pair.
pub open spec fn spec_limits_str(l: Limits) -> Seq<char> {
    "min = "@ + spec_dec(l.min as nat) + ", max = "@ + match l.max {
        Some(m) => spec_dec(m as nat),
        None => "∞"@,
    }
}

fn limits_str(l: &Limits) -> (r: String)
    ensures
        r@ == spec_limits_str(*l),
{
    let mut s = String::from_str("min = ");
    let mn = dec_str(l.min as u64);
    s.append(mn.as_str());
    s.append(", max = ");
    match l.max {
        Some(m) => {
            let mx = dec_str(m as u64);
            s.append(mx.as_str());
        },
        None => {
            s.append("∞");
        },
    }
    s
}

/// The kind word of a descriptor, as the report prints it.
pub open spec fn spec_kind_name(d: ExternDesc) -> Seq<char> {
    match d {
        ExternDesc::Func(_) => "function"@,
        ExternDesc::Table(_) => "table"@,
        ExternDesc::Memory(_) => "memory"@,
        ExternDesc::Global(_) => "global"@,
    }
}

fn kind_name(d: &ExternDesc) -> (r: &'static str)
    ensures
        r@ == spec_kind_name(*d),
{
    match d {
        ExternDesc::Func(_) => "function",
        ExternDesc::Table(_) => "table",
        ExternDesc::Memory(_) => "memory",
        ExternDesc::Global(_) => "global",
    }
}

/// The type-specific detail string of a descriptor.
pub open spec fn spec_desc_extra(m: ModuleV, d: ExternDesc) -> Seq<char> {
    match d {
        ExternDesc::Func(idx) => spec_func_params(m, idx),
        ExternDesc::Table(t) => spec_limits_str(t.limits) + ", reftype = "@ + spec_valtype_name(t.element),
        ExternDesc::Memory(mt) => spec_limits_str(mt.limits),
        ExternDesc::Global(g) => spec_valtype_name(g.content) + ", mutable = "@
            + (if g.mutable { "true"@ } else { "false"@ }),
    }
}

fn desc_extra(m: &Module, d: &ExternDesc) -> (r: String)
    ensures
        r@ == spec_desc_extra(m.deep_view(), *d),
{
    match d {
        ExternDesc::Func(idx) => func_params(m, *idx),
        ExternDesc::Table(t) => {
            let mut s = limits_str(&t.limits);
            s.append(", reftype = ");
            s.append(valtype_name(&t.element));
            s
        },
        ExternDesc::Memory(mt) => limits_str(&mt.limits),
        ExternDesc::Global(g) => {
            let mut s = String::from_str(valtype_name(&g.content));
            s.append(", mutable = ");
            if g.mutable {
                s.append("true");
            } else {
                s.append("false");
            }
            s
        },
    }
}

/// One import's descriptor line:
/// `<kind> <module>.<name>(<detail>)`.
pub open spec fn spec_import_line(m: ModuleV, i: ImportV) -> Seq<char> {
    spec_kind_name(i.desc) + " "@ + i.module + "."@ + i.name + "("@ + spec_desc_extra(m, i.desc) + ")"@
}

/// Renders one import, exactly as `spec_import_line` describes.
pub fn import_line(m: &Module, i: &Import) -> (r: String)
    ensures
        r@ == spec_import_line(m.deep_view(), i.deep_view()),
{
    let mut s = String::from_str(kind_name(&i.desc));
    s.append(" ");
    s.append(i.module.as_str());
    s.append(".");
    s.append(i.name.as_str());
    s.append("(");
    let extra = desc_extra(m, &i.desc);
    s.append(extra.as_str());
    s.append(")");
    s
}

/// One export's descriptor line: `<kind> <name>(<detail>)`.
pub open spec fn spec_export_line(m: ModuleV, e: ExportV) -> Seq<char> {
    spec_kind_name(e.desc) + " "@ + e.name + "("@ + spec_desc_extra(m, e.desc) + ")"@
}

/// Renders one export, exactly as `spec_export_line` describes.
pub fn export_line(m: &Module, e: &Export) -> (r: String)
    ensures
        r@ == spec_export_line(m.deep_view(), e.deep_view()),
{
    let mut s = String::from_str(kind_name(&e.desc));
    s.append(" ");
    s.append(e.name.as_str());
    s.append("(");
    let extra = desc_extra(m, &e.desc);
    s.append(extra.as_str());
    s.append(")");
    s
}

/// The import lines of a module, in declaration order.
pub open spec fn spec_import_lines(m: ModuleV) -> Seq<Seq<char>> {
    m.imports.map(|j: int, i: ImportV| spec_import_line(m, i))
}

/// The export lines of a module, in declaration order.
pub open spec fn spec_export_lines(m: ModuleV) -> Seq<Seq<char>> {
    m.exports.map(|j: int, e: ExportV| spec_export_line(m, e))
}

/// Renders every import, exactly as `spec_import_lines` describes.
#[verifier::loop_isolation(false)]
pub fn import_lines(m: &Module) -> (r: Vec<String>)
    ensures
        r.deep_view() == spec_import_lines(m.deep_view()),
{
    let mut out: Vec<String> = Vec::new();
    let mut i: usize = 0;
    proof {
        assert(out.deep_view() =~= spec_import_lines(m.deep_view()).take(0));
    }
    while i < m.imports.len()
        invariant
            i <= m.imports@.len(),
            out.deep_view() == spec_import_lines(m.deep_view()).take(i as int),
        decreases m.imports@.len() - i,
    {
        proof {
            assert(m.deep_view().imports[i as int] == m.imports@[i as int].deep_view());
        }
        let line = import_line(m, &m.imports[i]);
        out.push(line);
        proof {
            assert(out.deep_view() =~= spec_import_lines(m.deep_view()).take(i + 1));
        }
        i = i + 1;
    }
    proof {
        assert(spec_import_lines(m.deep_view()).take(m.imports@.len() as int)
            =~= spec_import_lines(m.deep_view()));
    }
    out
}

/// Renders every export, exactly as `spec_export_lines` describes.
#[verifier::loop_isolation(false)]
pub fn export_lines(m: &Module) -> (r: Vec<String>)
    ensures
        r.deep_view() == spec_export_lines(m.deep_view()),
{
    let mut out: Vec<String> = Vec::new();
    let mut i: usize = 0;
    proof {
        assert(out.deep_view() =~= spec_export_lines(m.deep_view()).take(0));
    }
    while i < m.exports.len()
        invariant
            i <= m.exports@.len(),
            out.deep_view() == spec_export_lines(m.deep_view()).take(i as int),
        decreases m.exports@.len() - i,
    {
        proof {
            assert(m.deep_view().exports[i as int] == m.exports@[i as int].deep_view());
        }
        let line = export_line(m, &m.exports[i]);
        out.push(line);
        proof {
            assert(out.deep_view() =~= spec_export_lines(m.deep_view()).take(i + 1));
        }
        i = i + 1;
    }
    proof {
        assert(spec_export_lines(m.deep_view()).take(m.exports@.len() as int)
            =~= spec_export_lines(m.deep_view()));
    }
    out
}

/// Decode-then-report is deterministic: the decoded module, and with it
/// every import and export line, is a function of the byte sequence
/// alone, so two runs over equal bytes yield equal ordered line lists.
/// (`decode_module`, `import_lines` and `export_lines` each pin their
/// result to these specification functions.)
pub proof fn lemma_decode_report_deterministic(a: Seq<u8>, b: Seq<u8>)
    requires
        a == b,
    ensures
        spec_decode(a) == spec_decode(b),
        spec_decode(a) is Ok ==> spec_import_lines(spec_decode(a)->Ok_0)
            == spec_import_lines(spec_decode(b)->Ok_0),
        spec_decode(a) is Ok ==> spec_export_lines(spec_decode(a)->Ok_0)
            == spec_export_lines(spec_decode(b)->Ok_0),
{
}

} // verus!
