//! A small source-to-source transpiler front end.
//!
//! The pipeline has three stages: lexical analysis ([`lexer`]), structural
//! segmentation ([`parser`]) and text emission ([`translator`]).  Source text
//! is turned into a flat token sequence, the sequence is partitioned into a
//! global-variable region and a set of function records, and the records are
//! rendered as host-language (C++) text.  Reading the input file, resolving
//! imported headers and invoking the native compiler are left to the caller.

pub mod compiler;
pub mod lexer;
pub mod parser;
pub mod text;
pub mod translator;
pub mod types;
