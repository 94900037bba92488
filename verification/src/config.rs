//! Command-line configuration: the one expected argument is the path to a
//! module file on disk.

use vstd::prelude::*;

verus! {

/// The tool's configuration: where the module file lives.
#[derive(Clone, Debug, PartialEq, Eq)]
pub struct Config {
    pub path_to_wasm_module: String,
}

impl Config {
    /// Accepts exactly one additional argument (the program name plus the
    /// path); any other argument count is rejected, always with the same
    /// message.
    pub fn new(args: &[String]) -> (r: Result<Config, &'static str>)
        ensures
            match r {
                Ok(c) => args@.len() == 2 && c.path_to_wasm_module@ == args@[1]@,
                Err(m) => args@.len() != 2
                    && m@ == "Expected just one additional argument, a path to a WebAssembly module on disk."@,
            },
    {
        if args.len() != 2 {
            return Err(
                "Expected just one additional argument, a path to a WebAssembly module on disk.",
            );
        }
        let path_to_wasm_module = args[1].clone();
        Ok(Config { path_to_wasm_module })
    }
}

} // verus!
