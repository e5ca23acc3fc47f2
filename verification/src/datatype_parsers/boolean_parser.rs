use crate::error::{no_match, Failure, ParseError};
use crate::outcome::{agrees, delivers};
use crate::text::{has_tag_ignoring_case, slice_of, spec_has_tag_ignoring_case, to_chars};
use vstd::prelude::*;

verus! {

/// A boolean at offset `i`: the word `true` or the word `false`, in any mix
/// of capitals and small letters.
pub open spec fn spec_boolean(s: Seq<char>, i: int) -> Result<(bool, int), Failure> {
    if spec_has_tag_ignoring_case(s, i, "true"@) {
        Ok((true, i + 4))
    } else if spec_has_tag_ignoring_case(s, i, "false"@) {
        Ok((false, i + 5))
    } else {
        Err(no_match(i))
    }
}

/// A boolean ends inside the text, behind its start.
pub proof fn lemma_boolean_consumes(s: Seq<char>, i: int)
    requires
        0 <= i <= s.len(),
    ensures
        spec_boolean(s, i) matches Ok((_, end)) ==> i < end <= s.len(),
{
    reveal_strlit("true");
    reveal_strlit("false");
}

/// Reads a boolean at offset `i`.
pub(crate) fn boolean_at(s: &[char], i: usize) -> (r: Result<(bool, usize), ParseError>)
    requires
        i <= s.len(),
    ensures
        agrees(r, spec_boolean(s@, i as int)),
        r matches Ok((_, e)) ==> i < e <= s.len(),
{
    proof {
        reveal_strlit("true");
        reveal_strlit("false");
    }
    if has_tag_ignoring_case(s, i, "true") {
        Ok((true, i + 4))
    } else if has_tag_ignoring_case(s, i, "false") {
        Ok((false, i + 5))
    } else {
        Err(ParseError::no_match(i))
    }
}

/// Parses a boolean at the start of `input`.
pub fn parse_boolean(input: &str) -> (r: Result<(&str, bool), ParseError>)
    ensures
        delivers(input@, r, spec_boolean(input@, 0)),
{
    let chars = to_chars(input);
    match boolean_at(chars.as_slice(), 0) {
        Ok((value, end)) => Ok((slice_of(input, end, chars.len()), value)),
        Err(e) => Err(e),
    }
}

} // verus!
