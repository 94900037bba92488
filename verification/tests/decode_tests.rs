use wasm_interface::decode::decode_module;
use wasm_interface::error::ErrorKind;
use wasm_interface::leb::encode_uleb;
use wasm_interface::types::{ExternDesc, ValueType};

fn header() -> Vec<u8> {
    vec![0x00, 0x61, 0x73, 0x6d, 0x01, 0x00, 0x00, 0x00]
}

fn section(id: u8, body: &[u8]) -> Vec<u8> {
    let mut out = vec![id];
    out.extend_from_slice(&encode_uleb(body.len() as u64));
    out.extend_from_slice(body);
    out
}

#[test]
fn minimal_module_decodes_empty() {
    // only the 8-byte header: magic + version, no sections
    let bytes = header();
    let m = decode_module(&bytes).expect("a bare header is a valid module");
    assert_eq!(m.types.len(), 0);
    assert_eq!(m.imports.len(), 0);
    assert_eq!(m.funcs.len(), 0);
    assert_eq!(m.tables.len(), 0);
    assert_eq!(m.mems.len(), 0);
    assert_eq!(m.globals.len(), 0);
    assert_eq!(m.exports.len(), 0);
}

#[test]
fn empty_input_is_eof() {
    let e = decode_module(&[]).expect_err("no header");
    assert_eq!(e.kind, ErrorKind::UnexpectedEof);
    assert_eq!(e.offset, 0);
}

#[test]
fn bad_magic_is_rejected_at_zero() {
    let e = decode_module(&[0x01, 0x02, 0x03, 0x04, 0x01, 0x00, 0x00, 0x00]).expect_err("bad magic");
    assert_eq!(e.kind, ErrorKind::BadMagic);
    assert_eq!(e.offset, 0);
}

#[test]
fn unsupported_version_is_rejected_at_four() {
    let e = decode_module(&[0x00, 0x61, 0x73, 0x6d, 0x02, 0x00, 0x00, 0x00]).expect_err("version 2");
    assert_eq!(e.kind, ErrorKind::UnsupportedVersion);
    assert_eq!(e.offset, 4);
}

#[test]
fn duplicate_type_section_is_rejected() {
    // two Type sections, each empty; the second starts at offset 11
    let mut bytes = header();
    bytes.extend_from_slice(&section(1, &[0x00]));
    bytes.extend_from_slice(&section(1, &[0x00]));
    let e = decode_module(&bytes).expect_err("two Type sections");
    assert_eq!(e.kind, ErrorKind::DuplicateSection);
    assert_eq!(e.offset, 11);
}

#[test]
fn export_index_out_of_range_at_entry_offset() {
    // a function space of size 3 (three local functions of type 0), and an
    // export naming function index 5
    let mut bytes = header();
    bytes.extend_from_slice(&section(1, &[0x01, 0x60, 0x00, 0x00]));
    bytes.extend_from_slice(&section(3, &[0x03, 0x00, 0x00, 0x00]));
    // export body: count 1, then the entry: name "f", kind func, index 5
    bytes.extend_from_slice(&section(7, &[0x01, 0x01, 0x66, 0x00, 0x05]));
    // header(8) + type section(6) + function section(6) + id/len(2) + count(1)
    let entry_offset = 8 + 6 + 6 + 2 + 1;
    let e = decode_module(&bytes).expect_err("function index 5 in a space of 3");
    assert_eq!(e.kind, ErrorKind::ExportIndexOutOfRange);
    assert_eq!(e.offset, entry_offset);
}

#[test]
fn export_of_last_function_in_space_resolves() {
    // same module but exporting index 2, the last valid one
    let mut bytes = header();
    bytes.extend_from_slice(&section(1, &[0x01, 0x60, 0x00, 0x00]));
    bytes.extend_from_slice(&section(3, &[0x03, 0x00, 0x00, 0x00]));
    bytes.extend_from_slice(&section(7, &[0x01, 0x01, 0x66, 0x00, 0x02]));
    let m = decode_module(&bytes).expect("index 2 is in range");
    assert_eq!(m.exports.len(), 1);
    assert_eq!(m.exports[0].name, "f");
    assert_eq!(m.exports[0].desc, ExternDesc::Func(0));
}

#[test]
fn unknown_section_ids_are_skipped() {
    // a custom section (id 0) and a high unrecognized id must be no-ops
    let mut bytes = header();
    bytes.extend_from_slice(&section(0, &[0x04, 0x6e, 0x61, 0x6d, 0x65]));
    bytes.extend_from_slice(&section(12, &[0xaa, 0xbb]));
    let m = decode_module(&bytes).expect("unknown sections are skipped");
    assert_eq!(m.exports.len(), 0);
}

#[test]
fn section_length_mismatch_is_rejected() {
    // a Type section declaring 4 bytes whose contents end after 1
    let mut bytes = header();
    bytes.extend_from_slice(&section(1, &[0x00, 0x00, 0x00, 0x00]));
    let e = decode_module(&bytes).expect_err("section longer than its contents");
    assert_eq!(e.kind, ErrorKind::SectionLengthMismatch);
    // the count (0 types) ends at offset 11; the section claims 4 bytes
    assert_eq!(e.offset, 11);
}

#[test]
fn huge_declared_count_fails_fast() {
    // a Type section declaring 999 entries in a 2-byte body
    let mut bytes = header();
    bytes.extend_from_slice(&section(1, &[0xe7, 0x07]));
    let e = decode_module(&bytes).expect_err("count larger than the remaining bytes");
    assert_eq!(e.kind, ErrorKind::AllocationLimitExceeded);
    assert_eq!(e.offset, 10);
}

#[test]
fn section_size_past_end_of_input_is_eof() {
    let mut bytes = header();
    bytes.extend_from_slice(&[0x01, 0x0a, 0x00]);
    let e = decode_module(&bytes).expect_err("declared size exceeds the input");
    assert_eq!(e.kind, ErrorKind::UnexpectedEof);
    assert_eq!(e.offset, bytes.len());
}

#[test]
fn global_initializer_is_skipped_structurally() {
    // one global: i32, mutable, initializer i32.const 5; end
    let mut bytes = header();
    bytes.extend_from_slice(&section(6, &[0x01, 0x7f, 0x01, 0x41, 0x05, 0x0b]));
    let m = decode_module(&bytes).expect("global with initializer");
    assert_eq!(m.globals.len(), 1);
    assert_eq!(m.globals[0].content, ValueType::I32);
    assert!(m.globals[0].mutable);
}

#[test]
fn limits_are_reported_as_encoded() {
    // the decoder is structural: a maximum below the minimum is carried
    // through as the bytes say
    let mut bytes = header();
    bytes.extend_from_slice(&section(5, &[0x01, 0x01, 0x02, 0x01]));
    let m = decode_module(&bytes).expect("structurally valid memory section");
    assert_eq!(m.mems.len(), 1);
    assert_eq!(m.mems[0].limits.min, 2);
    assert_eq!(m.mems[0].limits.max, Some(1));
}

#[test]
fn imports_of_all_four_kinds_decode() {
    let mut bytes = header();
    bytes.extend_from_slice(&section(1, &[0x01, 0x60, 0x00, 0x00]));
    let mut body = vec![0x04];
    // m.f: function of type 0
    body.extend_from_slice(&[0x01, 0x6d, 0x01, 0x66, 0x00, 0x00]);
    // m.t: table, funcref, min 1, no max
    body.extend_from_slice(&[0x01, 0x6d, 0x01, 0x74, 0x01, 0x70, 0x00, 0x01]);
    // m.m: memory, min 0, max 7
    body.extend_from_slice(&[0x01, 0x6d, 0x01, 0x6d, 0x02, 0x01, 0x00, 0x07]);
    // m.g: global, i64, immutable
    body.extend_from_slice(&[0x01, 0x6d, 0x01, 0x67, 0x03, 0x7e, 0x00]);
    bytes.extend_from_slice(&section(2, &body));
    let m = decode_module(&bytes).expect("imports of each kind");
    assert_eq!(m.imports.len(), 4);
    assert_eq!(m.imports[0].module, "m");
    assert_eq!(m.imports[0].name, "f");
    assert_eq!(m.imports[0].desc, ExternDesc::Func(0));
    match m.imports[1].desc {
        ExternDesc::Table(t) => {
            assert_eq!(t.element, ValueType::FuncRef);
            assert_eq!(t.limits.min, 1);
            assert_eq!(t.limits.max, None);
        },
        _ => panic!("second import must be a table"),
    }
    match m.imports[2].desc {
        ExternDesc::Memory(mt) => {
            assert_eq!(mt.limits.min, 0);
            assert_eq!(mt.limits.max, Some(7));
        },
        _ => panic!("third import must be a memory"),
    }
    match m.imports[3].desc {
        ExternDesc::Global(g) => {
            assert_eq!(g.content, ValueType::I64);
            assert!(!g.mutable);
        },
        _ => panic!("fourth import must be a global"),
    }
}

#[test]
fn export_resolves_against_imports_then_locals() {
    // one imported function, one local function; exporting index 0 gives
    // the import's type, index 1 the local's
    let mut bytes = header();
    // two types: () -> () and (i32) -> ()
    bytes.extend_from_slice(&section(1, &[0x02, 0x60, 0x00, 0x00, 0x60, 0x01, 0x7f, 0x00]));
    bytes.extend_from_slice(&section(2, &[0x01, 0x01, 0x6d, 0x01, 0x66, 0x00, 0x00]));
    bytes.extend_from_slice(&section(3, &[0x01, 0x01]));
    bytes.extend_from_slice(&section(7, &[
        0x02, 0x01, 0x61, 0x00, 0x00, 0x01, 0x62, 0x00, 0x01,
    ]));
    let m = decode_module(&bytes).expect("both indices are in range");
    assert_eq!(m.exports.len(), 2);
    assert_eq!(m.exports[0].name, "a");
    assert_eq!(m.exports[0].desc, ExternDesc::Func(0));
    assert_eq!(m.exports[1].name, "b");
    assert_eq!(m.exports[1].desc, ExternDesc::Func(1));
}

#[test]
fn invalid_functype_form_is_rejected() {
    let mut bytes = header();
    bytes.extend_from_slice(&section(1, &[0x01, 0x61, 0x00, 0x00]));
    let e = decode_module(&bytes).expect_err("form byte is not 0x60");
    assert_eq!(e.kind, ErrorKind::InvalidFuncTypeForm);
    assert_eq!(e.offset, 11);
}

#[test]
fn unknown_value_type_is_rejected_with_its_byte() {
    let mut bytes = header();
    bytes.extend_from_slice(&section(1, &[0x01, 0x60, 0x01, 0x42, 0x00]));
    let e = decode_module(&bytes).expect_err("0x42 is not a value type");
    assert_eq!(e.kind, ErrorKind::UnknownValueType(0x42));
    assert_eq!(e.offset, 13);
}

fn well_formed_sample() -> Vec<u8> {
    let mut bytes = header();
    bytes.extend_from_slice(&section(1, &[0x01, 0x60, 0x01, 0x7f, 0x00]));
    bytes.extend_from_slice(&section(2, &[
        0x01, 0x03, 0x65, 0x6e, 0x76, 0x03, 0x6c, 0x6f, 0x67, 0x00, 0x00,
    ]));
    bytes.extend_from_slice(&section(5, &[0x01, 0x01, 0x01, 0x02]));
    bytes.extend_from_slice(&section(7, &[0x01, 0x03, 0x6d, 0x65, 0x6d, 0x02, 0x00]));
    bytes
}

#[test]
fn truncation_never_panics_and_never_yields_junk() {
    // cutting a well-formed module at every offset strictly before its end
    // either ends cleanly at a section boundary or runs out of bytes at
    // the cut, and nothing else
    let bytes = well_formed_sample();
    assert!(decode_module(&bytes).is_ok());
    for cut in 0..bytes.len() {
        match decode_module(&bytes[..cut]) {
            Ok(_) => assert!(cut >= 8, "nothing shorter than the header can decode"),
            Err(e) => {
                assert_eq!(e.kind, ErrorKind::UnexpectedEof, "cut at {cut}");
                assert_eq!(e.offset, cut, "the failure is reported at the cut");
            },
        }
    }
}

#[test]
fn truncation_inside_a_section_is_eof() {
    let bytes = well_formed_sample();
    // cut in the middle of the Type section's function type
    let e = decode_module(&bytes[..12]).expect_err("truncated mid-section");
    assert_eq!(e.kind, ErrorKind::UnexpectedEof);
}

fn single_import_module(module_name: &[u8], item_name: &[u8]) -> Vec<u8> {
    let mut body = vec![0x01];
    body.extend_from_slice(&encode_uleb(module_name.len() as u64));
    body.extend_from_slice(module_name);
    body.extend_from_slice(&encode_uleb(item_name.len() as u64));
    body.extend_from_slice(item_name);
    // an immutable i32 global, the shortest descriptor
    body.extend_from_slice(&[0x03, 0x7f, 0x00]);
    let mut bytes = header();
    bytes.extend_from_slice(&section(2, &body));
    bytes
}

#[test]
fn names_decode_as_utf8() {
    // two-, three-, and four-byte sequences
    let m = decode_module(&single_import_module(&[0xcf, 0x80], &[0xe2, 0x82, 0xac]))
        .expect("well-formed names");
    assert_eq!(m.imports[0].module, "\u{3c0}");
    assert_eq!(m.imports[0].name, "\u{20ac}");
    let m = decode_module(&single_import_module(&[0xf0, 0x90, 0x8d, 0x88], b"x"))
        .expect("well-formed names");
    assert_eq!(m.imports[0].module, "\u{10348}");
    assert_eq!(m.imports[0].name, "x");
}

#[test]
fn invalid_name_bytes_become_replacement_characters() {
    // an invalid lead, and a two-byte lead cut off by the name's end
    let m = decode_module(&single_import_module(&[0xff], &[0xc3]))
        .expect("names never fail the decode");
    assert_eq!(m.imports[0].module, "\u{fffd}");
    assert_eq!(m.imports[0].name, "\u{fffd}");
    // an overlong encoding and an encoded surrogate: every byte of the
    // rejected sequence stands for one replacement character
    let m = decode_module(&single_import_module(&[0xc0, 0xaf], &[0xed, 0xa0, 0x80]))
        .expect("names never fail the decode");
    assert_eq!(m.imports[0].module, "\u{fffd}\u{fffd}");
    assert_eq!(m.imports[0].name, "\u{fffd}\u{fffd}\u{fffd}");
}
