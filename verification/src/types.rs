//! CHIP-8 core types.
pub use crate::c8core::types::{convert_hex_addr, C8Addr, C8Byte, C8RegIdx};
