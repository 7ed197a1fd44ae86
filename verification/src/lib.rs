//! A parser for ECNF (Environment-CoNF), a small configuration format of
//! keys, quoted values and nested sections:
//!
//! ```text
//! # comment
//! VERSION: "4.2.23"
//! DB: {
//!     DRIVER: "SQLite"
//!     PASSWORD:
//! }
//! ```
//!
//! A document is read line by line into a flat mapping from dotted paths
//! (`DB.DRIVER`) to values; a key without a value is kept as absent. What
//! each function returns is stated over the mathematical model in [`model`]
//! and [`grammar`] and proved with Verus.

pub mod error;
pub mod grammar;
pub mod helper;
pub mod model;
pub mod parser;

pub use error::ECnfLoaderError;
pub use parser::ECnfParser;
pub use parser::PREFIX_KEY_SEPARATOR;
pub use parser::PREFIX_SEPARATOR;
