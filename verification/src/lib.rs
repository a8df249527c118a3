//! A small, safety-focused codec layer for packing and unpacking fixed-width
//! binary fields inside larger on-disk or wire-format records.
//!
//! Every read or write against a fixed-size byte region is bounds-checked
//! before it happens; truncation and overflow conditions become explicit,
//! typed failures; and the classic bit-interleaved split of a 64-bit device
//! identifier into major and minor components is decoded exactly.

/// The device number codec: major and minor components of a packed identifier.
pub mod devnum;
/// The two failure kinds every guard and codec reports.
pub mod error;
/// The bitflag test shared by the rest of the library and its callers.
pub mod flags;
/// Pure bounds-check predicates, run before any fixed-buffer read or write.
pub mod guards;
/// The fixed-buffer string codec: null-terminated text in a fixed byte region.
pub mod strfield;

pub use devnum::{major, minor};
pub use error::{invalid_data, invalid_input, CodecError};
pub use flags::is_set;
pub use guards::{check_len, check_len_str, check_size};
pub use strfield::{safe_get_str, safe_set_str};
