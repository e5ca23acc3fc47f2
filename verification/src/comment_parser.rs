use crate::error::{no_match, Failure, ParseError};
use crate::outcome::delivers;
use crate::text::{find, has_tag, lemma_find, slice_of, spec_find, spec_has_tag, to_chars};
use vstd::prelude::*;

verus! {

/// A line comment at offset `i`: two hyphens, and the text up to the next
/// line feed. Its content is that text; the line feed is consumed with it.
pub open spec fn spec_comment_line(s: Seq<char>, i: int) -> Result<(Seq<char>, int), Failure> {
    if spec_has_tag(s, i, "--"@) {
        match spec_find(s, i + 2, "\n"@) {
            Some(end) => Ok((s.subrange(i + 2, end), end + 1)),
            None => Err(no_match(i + 2)),
        }
    } else {
        Err(no_match(i))
    }
}

/// A block comment at offset `i`: `--[[`, and the text up to the next
/// `]]`. Its content is that text, line feeds and all; the closing
/// brackets are consumed with it.
pub open spec fn spec_comment_block(s: Seq<char>, i: int) -> Result<(Seq<char>, int), Failure> {
    if spec_has_tag(s, i, "--[["@) {
        match spec_find(s, i + 4, "]]"@) {
            Some(end) => Ok((s.subrange(i + 4, end), end + 2)),
            None => Err(no_match(i + 4)),
        }
    } else {
        Err(no_match(i))
    }
}

/// The content of a line comment is the text between the hyphens and the
/// line feed: a blank at its start stays, the line feed does not belong to
/// it, and what follows the line feed is left over.
pub proof fn lemma_comment_line_content(content: Seq<char>, rest: Seq<char>)
    requires
        !content.contains('\n'),
    ensures
        spec_comment_line("--"@ + content + "\n"@ + rest, 0) == Ok::<(Seq<char>, int), Failure>(
            (content, content.len() as int + 3),
        ),
{
    reveal_strlit("--");
    reveal_strlit("\n");
    let s = "--"@ + content + "\n"@ + rest;
    let end: int = content.len() as int + 2;
    assert(s.subrange(0, 2) =~= "--"@);
    assert(s.subrange(end, end + 1) =~= "\n"@);
    assert(spec_has_tag(s, end, "\n"@));
    lemma_find(s, 2, "\n"@);
    assert forall|k: int| 2 <= k < end implies !spec_has_tag(s, k, "\n"@) by {
        if spec_has_tag(s, k, "\n"@) {
            assert(s.subrange(k, k + 1)[0] == '\n');
            assert(content[k - 2] == '\n');
        }
    }
    assert(spec_find(s, 2, "\n"@) == Some(end));
    assert(s.subrange(2, end) =~= content);
}

/// The content of a block comment is the whole text between the opening
/// and the closing brackets, line feeds included, as long as the closing
/// brackets do not occur earlier: neither inside the text, nor made of its
/// last character and the first closing bracket.
pub proof fn lemma_comment_block_content(content: Seq<char>, rest: Seq<char>)
    requires
        forall|k: int| 0 <= k < content.len() ==> !spec_has_tag(content + "]]"@, k, "]]"@),
    ensures
        spec_comment_block("--[["@ + content + "]]"@ + rest, 0) == Ok::<(Seq<char>, int), Failure>(
            (content, content.len() as int + 6),
        ),
{
    reveal_strlit("--[[");
    reveal_strlit("]]");
    let s = "--[["@ + content + "]]"@ + rest;
    let end: int = content.len() as int + 4;
    assert(s.subrange(0, 4) =~= "--[["@);
    assert(s.subrange(end, end + 2) =~= "]]"@);
    assert(spec_has_tag(s, end, "]]"@));
    lemma_find(s, 4, "]]"@);
    assert forall|k: int| 4 <= k < end implies !spec_has_tag(s, k, "]]"@) by {
        if spec_has_tag(s, k, "]]"@) {
            assert((content + "]]"@).subrange(k - 4, k - 2) =~= s.subrange(k, k + 2));
            assert(spec_has_tag(content + "]]"@, k - 4, "]]"@));
        }
    }
    assert(spec_find(s, 4, "]]"@) == Some(end));
    assert(s.subrange(4, end) =~= content);
}

/// Parses a line comment at the start of `input` and yields its content.
pub fn parse_comment_line(input: &str) -> (r: Result<(&str, &str), ParseError>)
    ensures
        delivers(input@, r, spec_comment_line(input@, 0)),
{
    proof {
        reveal_strlit("--");
        reveal_strlit("\n");
    }
    let chars = to_chars(input);
    let s = chars.as_slice();
    if !has_tag(s, 0, "--") {
        return Err(ParseError::no_match(0));
    }
    match find(s, 2, "\n") {
        Some(end) => Ok((slice_of(input, end + 1, s.len()), slice_of(input, 2, end))),
        None => Err(ParseError::no_match(2)),
    }
}

/// Parses a block comment at the start of `input` and yields its content.
pub fn parse_comment_block(input: &str) -> (r: Result<(&str, &str), ParseError>)
    ensures
        delivers(input@, r, spec_comment_block(input@, 0)),
{
    proof {
        reveal_strlit("--[[");
        reveal_strlit("]]");
    }
    let chars = to_chars(input);
    let s = chars.as_slice();
    if !has_tag(s, 0, "--[[") {
        return Err(ParseError::no_match(0));
    }
    match find(s, 4, "]]") {
        Some(end) => Ok((slice_of(input, end + 2, s.len()), slice_of(input, 4, end))),
        None => Err(ParseError::no_match(4)),
    }
}

} // verus!
