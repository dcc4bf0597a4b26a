//! A scoped, read-only view of a Java string's UTF-16 code units.
//!
//! The crate holds no handle to a Java virtual machine. Whoever owns one asks
//! it for what [`access::Access`] requests, hands the answers back as events,
//! and wraps the granted buffer in a [`string_chars::StringChars`], which reads
//! and decodes the code units and hands the buffer back when it is released.

pub mod access;
pub mod encoding;
pub mod std_specs;
pub mod string_chars;
pub mod surrogates;
pub mod utf16;
