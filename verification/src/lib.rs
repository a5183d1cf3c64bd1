pub mod crypto;
pub mod encoding;
pub mod error;
pub mod ffi;
pub mod format;
pub mod laws;
pub mod primitives;
pub mod registry;
pub mod validate;
