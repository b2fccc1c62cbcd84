//! Offset translation and result rendering between a byte-oriented regular
//! expression engine and a host whose strings are sequences of UTF-16 code
//! units.
//!
//! The matcher reports positions as byte offsets into a UTF-8 buffer; the
//! host needs UTF-16 code-unit offsets so it can slice its own strings.
//! This crate provides the translation layer: scalar and batched
//! byte-offset-to-UTF-16 mapping, char-column translation for pattern
//! diagnostics, a lossy renderer that makes arbitrary byte ranges displayable,
//! and the match/capture and error models built on top of those primitives.

pub mod error;
pub mod render;
pub mod results;
pub mod utf16;

pub use error::{Error, ReSyntax};
pub use render::str_from_utf8_rep;
pub use results::{re_find, re_replace, re_replace_list, CapSer, MatchSer};
pub use utf16::{
    utf16_boundary_bytes, utf16_index_bytes, utf16_index_bytes_slice, utf16_index_chars,
};
