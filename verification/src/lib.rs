//! spechurl turns an OpenAPI 3.x document into a directory of Hurl contract tests
//! and can check that a committed suite still matches the document.
//!
//! Documents are parsed with `serde_yaml` into the library's own JSON model;
//! the logic after that (shape checks, reference resolution, schema sampling,
//! rendering, and the drift check) is verified. Some steps are done by outside
//! code, and the proofs rest on the contracts given to those calls rather than
//! on proofs of them: the quoting of JSON strings by `serde_json` (stated
//! exactly), and, only named, the floating-point steps of sampling (`as_f64`,
//! floor and ceiling, adding one, comparing with `maximum`, printing the
//! result), the float texts that `serde_yaml` and `serde_json` give, and the
//! `Debug` and float `Display` texts that some error messages quote.
pub mod text;
pub mod json;
pub mod json_ops;
pub mod yaml;
pub mod error;
pub mod decode;
pub mod refs;
pub mod document;
pub mod sample;
pub mod render;
pub mod suite;

pub use error::Error;
pub use suite::{
    check_file_name, check_suite, generate_from_str, generate_suite, DirState, FileRead, Suite,
};
pub mod properties;
