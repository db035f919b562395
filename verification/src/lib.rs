//! Address-resolution and command-dispatch core of a line-oriented text
//! editor in the style of the classic `ed` command language.
//!
//! The crate parses terse positional expressions (`.`, `$`, `7`, `+3`,
//! `10,$`, `.;+5`) into structured addresses, resolves them against editor
//! state, and executes a small command set (append, change, print) that
//! mutates a line buffer or enters a line-collecting input mode.

pub mod digits;
pub mod editor;
pub mod parser;
pub mod render;
pub mod resolve;
