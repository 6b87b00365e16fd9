//! The front of a shell's scripting language: text is split into statements,
//! each statement is told by its first word, and values are checked against
//! the types they were declared with.
//!
//! `splitter` walks a text statement by statement; `machine` holds what that
//! means, byte by byte, and `laws` what follows from it. `classify` tells the
//! form of a statement from its text and `parse` makes the statement, with the
//! help of the stages that compile command lines. `checker` checks expanded
//! values. `text` has the operations on text that the others share.
pub mod checker;
pub mod classify;
pub mod laws;
pub mod machine;
pub mod number;
pub mod parse;
pub mod report;
pub mod splitter;
pub mod statement;
pub mod text;
pub mod types;
pub mod unicode;
