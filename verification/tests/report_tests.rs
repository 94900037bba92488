use wasm_interface::decode::decode_module;
use wasm_interface::report::{export_lines, import_lines};

fn header() -> Vec<u8> {
    vec![0x00, 0x61, 0x73, 0x6d, 0x01, 0x00, 0x00, 0x00]
}

fn section(id: u8, body: &[u8]) -> Vec<u8> {
    let mut out = vec![id, body.len() as u8];
    out.extend_from_slice(body);
    out
}

fn import_log_export_mem() -> Vec<u8> {
    let mut bytes = header();
    // one type: (i32) -> ()
    bytes.extend_from_slice(&section(1, &[0x01, 0x60, 0x01, 0x7f, 0x00]));
    // import env.log as a function of type 0
    bytes.extend_from_slice(&section(2, &[
        0x01, 0x03, 0x65, 0x6e, 0x76, 0x03, 0x6c, 0x6f, 0x67, 0x00, 0x00,
    ]));
    // one memory, min 1, max 2
    bytes.extend_from_slice(&section(5, &[0x01, 0x01, 0x01, 0x02]));
    // export it as "mem"
    bytes.extend_from_slice(&section(7, &[0x01, 0x03, 0x6d, 0x65, 0x6d, 0x02, 0x00]));
    bytes
}

#[test]
fn one_import_one_export_reports_exactly() {
    let bytes = import_log_export_mem();
    let m = decode_module(&bytes).expect("well-formed module");
    let imports = import_lines(&m);
    let exports = export_lines(&m);
    assert_eq!(imports, vec!["function env.log(i32)".to_string()]);
    assert_eq!(exports, vec!["memory mem(min = 1, max = 2)".to_string()]);
}

#[test]
fn decode_then_report_is_deterministic() {
    let bytes = import_log_export_mem();
    let first = decode_module(&bytes).expect("well-formed module");
    let second = decode_module(&bytes).expect("well-formed module");
    assert_eq!(import_lines(&first), import_lines(&second));
    assert_eq!(export_lines(&first), export_lines(&second));
    assert_eq!(first, second);
}

#[test]
fn table_line_shows_unbounded_maximum() {
    let mut bytes = header();
    // one table: funcref, min 1, no max; exported as "t"
    bytes.extend_from_slice(&section(4, &[0x01, 0x70, 0x00, 0x01]));
    bytes.extend_from_slice(&section(7, &[0x01, 0x01, 0x74, 0x01, 0x00]));
    let m = decode_module(&bytes).expect("well-formed module");
    let exports = export_lines(&m);
    assert_eq!(exports, vec!["table t(min = 1, max = \u{221e}, reftype = funcref)".to_string()]);
}

#[test]
fn global_import_line_shows_mutability() {
    let mut bytes = header();
    // import g.x: a mutable i64 global
    bytes.extend_from_slice(&section(2, &[
        0x01, 0x01, 0x67, 0x01, 0x78, 0x03, 0x7e, 0x01,
    ]));
    let m = decode_module(&bytes).expect("well-formed module");
    let imports = import_lines(&m);
    assert_eq!(imports, vec!["global g.x(i64, mutable = true)".to_string()]);
}

#[test]
fn function_with_many_params_joins_with_commas() {
    let mut bytes = header();
    // one type: (i32, i64, f32, f64) -> (); import and export a function of it
    bytes.extend_from_slice(&section(1, &[
        0x01, 0x60, 0x04, 0x7f, 0x7e, 0x7d, 0x7c, 0x00,
    ]));
    bytes.extend_from_slice(&section(2, &[
        0x01, 0x01, 0x6d, 0x01, 0x66, 0x00, 0x00,
    ]));
    bytes.extend_from_slice(&section(7, &[0x01, 0x01, 0x65, 0x00, 0x00]));
    let m = decode_module(&bytes).expect("well-formed module");
    assert_eq!(import_lines(&m), vec!["function m.f(i32, i64, f32, f64)".to_string()]);
    assert_eq!(export_lines(&m), vec!["function e(i32, i64, f32, f64)".to_string()]);
}

#[test]
fn large_limits_render_in_decimal() {
    let mut bytes = header();
    // one memory: min 1000, max 65536 (multi-byte LEB128 limits)
    bytes.extend_from_slice(&section(5, &[
        0x01, 0x01, 0xe8, 0x07, 0x80, 0x80, 0x04,
    ]));
    bytes.extend_from_slice(&section(7, &[0x01, 0x01, 0x6d, 0x02, 0x00]));
    let m = decode_module(&bytes).expect("well-formed module");
    assert_eq!(export_lines(&m), vec!["memory m(min = 1000, max = 65536)".to_string()]);
}
