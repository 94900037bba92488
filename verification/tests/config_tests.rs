use wasm_interface::config::Config;

#[test]
fn one_path_argument_is_accepted() {
    let args = vec!["prog".to_string(), "module.wasm".to_string()];
    let c = Config::new(&args).expect("exactly one extra argument");
    assert_eq!(c.path_to_wasm_module, "module.wasm");
}

#[test]
fn missing_argument_is_rejected() {
    let args = vec!["prog".to_string()];
    let e = Config::new(&args).expect_err("no path given");
    assert_eq!(
        e,
        "Expected just one additional argument, a path to a WebAssembly module on disk.",
    );
}

#[test]
fn extra_arguments_are_rejected() {
    let args = vec!["prog".to_string(), "a.wasm".to_string(), "b.wasm".to_string()];
    assert!(Config::new(&args).is_err());
}
