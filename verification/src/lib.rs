//! Kiseki: a typed encoder for Kanata-format processor pipeline traces,
//! the tab-separated log read by the Konata viewer (format version
//! `0004`), with optional instruction-lifecycle validation and field
//! sanitization.


mod bitset;
pub mod error;
pub mod id;
pub mod laws;
pub mod records;
pub mod sanitizer;
pub mod sink;
pub mod trace;
mod validator;

pub use error::{Error, Result};
pub use id::{Id, Lane, Level};
pub use sanitizer::Sanitizer;
pub use trace::{Config, Trace};

