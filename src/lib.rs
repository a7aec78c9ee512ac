//! A language-agnostic code generation toolkit.
//!
//! Source text is built as a tree of tokens (`Tokens`, made of `Element`s):
//! literal text, items of a target language, sub-trees pushed onto lines of
//! their own or nested one indentation level deeper, and whitespace requests.
//! The formatter turns a tree into correctly spaced and indented text, and a
//! target language (`Custom`) decides how its items are printed, how strings
//! are quoted and how a whole file is put together, imports included.

pub mod custom;
pub mod formatter;
pub mod java;
pub mod laws;
pub mod swift;
pub mod text;
pub mod tokens;

pub use crate::custom::Custom;
pub use crate::formatter::Formatter;
pub use crate::tokens::{Element, FormatError, Node, Tokens};
