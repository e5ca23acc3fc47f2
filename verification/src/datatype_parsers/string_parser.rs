use crate::error::{no_match, Failure, ParseError};
use crate::outcome::{agrees, delivers};
use crate::text::{find, lemma_find, slice_of, spec_find, spec_has_tag, text_of, to_chars};
use vstd::prelude::*;

verus! {

/// A quoted string at offset `i`: a double quote, the characters up to the
/// next double quote, and that quote. Its value is what stands between the
/// two; no character of it is read as an escape.
pub open spec fn spec_string(s: Seq<char>, i: int) -> Result<(Seq<char>, int), Failure> {
    if 0 <= i < s.len() && s[i] == '"' {
        match spec_find(s, i + 1, seq!['"']) {
            Some(close) => Ok((s.subrange(i + 1, close), close + 1)),
            None => Err(no_match(s.len() as int)),
        }
    } else {
        Err(no_match(i))
    }
}

/// The value of a well-formed quoted string is the text strictly between
/// its quotes, whatever follows the closing quote.
pub proof fn lemma_string_value(content: Seq<char>, rest: Seq<char>)
    requires
        !content.contains('"'),
    ensures
        spec_string(seq!['"'] + content + seq!['"'] + rest, 0) == Ok::<(Seq<char>, int), Failure>(
            (content, content.len() as int + 2),
        ),
{
    let s = seq!['"'] + content + seq!['"'] + rest;
    let quote = seq!['"'];
    let close: int = content.len() as int + 1;
    lemma_find(s, 1, quote);
    assert(s.subrange(close, close + 1) =~= quote);
    assert(spec_has_tag(s, close, quote));
    assert forall|k: int| 1 <= k < close implies !spec_has_tag(s, k, quote) by {
        if spec_has_tag(s, k, quote) {
            assert(s.subrange(k, k + 1)[0] == '"');
            assert(content[k - 1] == '"');
        }
    }
    assert(spec_find(s, 1, quote) == Some(close));
    assert(s.subrange(1, close) =~= content);
}

/// A quoted string ends inside the text, behind its start.
pub proof fn lemma_string_consumes(s: Seq<char>, i: int)
    requires
        0 <= i <= s.len(),
    ensures
        spec_string(s, i) matches Ok((_, end)) ==> i < end <= s.len(),
{
    if i < s.len() {
        lemma_find(s, i + 1, seq!['"']);
    }
}

/// Reads a quoted string at offset `i`.
pub(crate) fn string_at(s: &[char], i: usize) -> (r: Result<(String, usize), ParseError>)
    requires
        i <= s.len(),
    ensures
        agrees(r, spec_string(s@, i as int)),
        r matches Ok((_, e)) ==> i < e <= s.len(),
{
    if i < s.len() && s[i] == '"' {
        proof {
            reveal_strlit("\"");
            assert("\""@ =~= seq!['"']);
        }
        match find(s, i + 1, "\"") {
            Some(close) => Ok((text_of(s, i + 1, close), close + 1)),
            None => Err(ParseError::no_match(s.len())),
        }
    } else {
        Err(ParseError::no_match(i))
    }
}

/// Parses a quoted string at the start of `input`: the text between the
/// quotes, and what follows the closing quote.
pub fn parse_string(input: &str) -> (r: Result<(&str, String), ParseError>)
    ensures
        delivers(input@, r, spec_string(input@, 0)),
{
    let chars = to_chars(input);
    match string_at(chars.as_slice(), 0) {
        Ok((value, end)) => Ok((slice_of(input, end, chars.len()), value)),
        Err(e) => Err(e),
    }
}

} // verus!
