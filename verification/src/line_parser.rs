use crate::error::{no_match, Failure, ParseError};
use crate::outcome::delivers;
use crate::text::{find, run_end, slice_of, spec_find, spec_run_end, to_chars, CharClass};
use vstd::prelude::*;

verus! {

/// A line at offset `i`: blanks in any number, which are skipped, then the
/// text up to the next line feed. The line is that text; the line feed and
/// the blanks behind it are consumed with it.
pub open spec fn spec_line(s: Seq<char>, i: int) -> Result<(Seq<char>, int), Failure> {
    let from = spec_run_end(s, i, CharClass::Blank);
    match spec_find(s, from, "\n"@) {
        Some(end) => Ok((s.subrange(from, end), spec_run_end(s, end + 1, CharClass::Blank))),
        None => Err(no_match(from)),
    }
}

/// Parses a line at the start of `input`.
pub fn parse_line(input: &str) -> (r: Result<(&str, &str), ParseError>)
    ensures
        delivers(input@, r, spec_line(input@, 0)),
{
    proof {
        reveal_strlit("\n");
    }
    let chars = to_chars(input);
    let s = chars.as_slice();
    let from = run_end(s, 0, CharClass::Blank);
    match find(s, from, "\n") {
        Some(end) => {
            let behind = run_end(s, end + 1, CharClass::Blank);
            Ok((slice_of(input, behind, s.len()), slice_of(input, from, end)))
        },
        None => Err(ParseError::no_match(from)),
    }
}

} // verus!
