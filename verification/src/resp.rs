//! The RESP wire format, versions 2 and 3.

pub mod value;
pub mod decimal;
pub mod text;
pub mod encode;
pub mod double;
pub mod decode;
pub mod laws;
pub mod valid;
pub mod render;
