//! A parser for a subset of Lua: `local` bindings, literals, tables, function
//! definitions with type annotations, and `if`, `do`, `while` and `repeat`
//! blocks. It reads source text straight into a syntax tree, without a
//! separate pass for tokens.
//!
//! Every rule of the grammar is stated twice. A `spec_` function says, for a
//! text and an offset into it, what the rule yields there: a value and the
//! offset behind it, or a failure with its reason and offset. A `parse_`
//! function reads the rule at the start of a string and is proved to return
//! what the `spec_` function says, together with the text that was left
//! over. Offsets count characters.
//!
//! Two kinds of failure are told apart. Where a text does not have the
//! shape that a rule asks for, the rule fails to match: an ordered choice
//! goes on to its next alternative, and a repetition ends. Where a text has
//! the shape but spells no value (an argument with a colon and no type,
//! say), the failure is handed on to the caller through every choice and
//! repetition.

pub mod ast;
pub mod bindings;
pub mod block_parser;
pub mod comment_parser;
pub mod datatype_parsers;
pub mod error;
pub mod function_parser;
pub mod identifier_parser;
pub mod line_parser;
pub mod model;
pub mod outcome;
pub mod table_parser;
pub mod text;
pub mod types;
