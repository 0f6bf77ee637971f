//! Decoding of panic payloads: a flat sequence of field elements is turned
//! into the diagnostic message that is shown to the user.

pub mod byte_array;
pub mod decoder;
pub mod encoding;
pub mod escape;
pub mod felt;
pub mod formatter;
pub mod invocation;
pub mod layout;
pub mod run_result;
pub mod short_string;
pub mod text;
