//! Incremental decoder for EDI X12-style flat files: byte streams made of
//! segments closed by a terminator byte, each segment holding a short tag and
//! a body of elements split by configurable separator bytes.
//!
//! The layers, leaves first: `split` holds the byte-splitting primitives and
//! their specifications; `components::element` decodes one element span into
//! occurrences and components; `components::segment` decodes one chunk into a
//! tag and a body; `parser` derives the delimiter bytes from the fixed-width
//! leading header and drives the chunk-by-chunk stream state machine.

pub mod components;
pub mod error;
pub mod parser;
pub mod split;
