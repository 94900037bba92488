//! A streaming decoder for the WebAssembly binary module format.
//!
//! The crate reads the raw bytes of a `.wasm` module, checks the header,
//! walks the top-level sections, and extracts the type, import, and export
//! information needed to answer "what does this module import and export,
//! and with what types".  It does not execute code, validate function
//! bodies, or support the textual format.

pub mod error;
pub mod cursor;
pub mod leb;
pub mod types;
pub mod strutil;
pub mod decode;
pub mod report;
pub mod config;
pub mod laws;
