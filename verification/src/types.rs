use crate::text::{is_text, to_chars};
use vstd::prelude::*;

verus! {

/// The closed set of types that an annotation can declare.
#[derive(Debug, PartialEq, Eq, Clone, Copy, Structural)]
pub enum Types {
    Any,
    Number,
    String,
    Boolean,
    Table,
    Function,
}

/// The type that a keyword names, for the keywords that name one.
pub open spec fn spec_keyword(t: Seq<char>) -> Option<Types> {
    if t == "any"@ {
        Some(Types::Any)
    } else if t == "number"@ {
        Some(Types::Number)
    } else if t == "string"@ {
        Some(Types::String)
    } else if t == "boolean"@ {
        Some(Types::Boolean)
    } else if t == "table"@ {
        Some(Types::Table)
    } else if t == "function"@ || t == "()->()"@ || t == "() -> ()"@ {
        Some(Types::Function)
    } else {
        None
    }
}

/// The type that an annotation resolves to: the one its keyword names, and
/// `Any` for every other text.
pub open spec fn spec_resolve(t: Seq<char>) -> Types {
    match spec_keyword(t) {
        Some(ty) => ty,
        None => Types::Any,
    }
}

/// The type that the characters `s` name, if they are a keyword.
pub(crate) fn keyword(s: &[char]) -> (r: Option<Types>)
    ensures
        r == spec_keyword(s@),
{
    if is_text(s, "any") {
        Some(Types::Any)
    } else if is_text(s, "number") {
        Some(Types::Number)
    } else if is_text(s, "string") {
        Some(Types::String)
    } else if is_text(s, "boolean") {
        Some(Types::Boolean)
    } else if is_text(s, "table") {
        Some(Types::Table)
    } else if is_text(s, "function") || is_text(s, "()->()") || is_text(s, "() -> ()") {
        Some(Types::Function)
    } else {
        None
    }
}

impl Types {
    /// Reads a type annotation and never fails: the type that its keyword
    /// names, and `Any` for every text that is no keyword.
    pub fn from_str(s: &str) -> (r: Result<Types, ()>)
        ensures
            r == Ok::<Types, ()>(spec_resolve(s@)),
    {
        Ok(Types::resolve(s))
    }

    /// Resolves a lower-case annotation: the type its keyword names, and
    /// `Any` for every other text. Never fails.
    pub fn resolve(s: &str) -> (ty: Types)
        ensures
            ty == spec_resolve(s@),
    {
        let chars = to_chars(s);
        match keyword(chars.as_slice()) {
            Some(ty) => ty,
            None => Types::Any,
        }
    }
}

impl std::str::FromStr for Types {
    type Err = ();

    /// Reads a type annotation and never fails, as the method of the same
    /// name on the type does.
    fn from_str(s: &str) -> (r: Result<Types, ()>)
        ensures
            r == Ok::<Types, ()>(spec_resolve(s@)),
    {
        Types::from_str(s)
    }
}

} // verus!
