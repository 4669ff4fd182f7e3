//! Safe, zero-copy parser for UTAU Sequence Text (`.ust`) files.
//!
//! UST files are INI-like byte streams. Classic UTAU writes Shift_JIS by
//! default, while some files declare another encoding with `Charset=...`.
//! This crate parses structure over bytes first so unknown fields and non-UTF-8
//! lyrics can be preserved without lossy conversion.
//!
//! `model` states what parsing means; `parse` is proved to compute it;
//! `laws` holds the properties of the format that the parser keeps.

pub mod ast;
pub mod bytes;
pub mod charset;
pub mod keywords;
pub mod laws;
pub mod lines;
pub mod model;
pub mod number;
pub mod parse;
pub mod query;

pub use ast::{
    Block, Field, Header, HeaderKind, Item, NoteBlock, NoteFields, NoteKind, ParseError,
    ParseErrorKind, RawLine, SettingSection, Ust, VersionSection,
};
pub use charset::{decode_text, decode_text_auto, detect_charset_label, DecodedText, TextEncoding};
pub use parse::{parse_bytes, parse_str};
