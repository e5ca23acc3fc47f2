use crate::error::{Failure, ParseError};
use vstd::prelude::*;

verus! {

/// What a rule that recognises a piece of text yields, given where the
/// piece ends: the piece itself and the offset behind it.
pub open spec fn spec_span(s: Seq<char>, i: int, end: Result<int, Failure>) -> Result<
    (Seq<char>, int),
    Failure,
> {
    match end {
        Ok(e) => Ok((s.subrange(i, e), e)),
        Err(f) => Err(f),
    }
}

/// The offset or failure `r` is the one that the grammar gives.
pub open spec fn ends_as(r: Result<usize, ParseError>, m: Result<int, Failure>) -> bool {
    match m {
        Ok(end) => r matches Ok(e) && e == end,
        Err(f) => r matches Err(e) && e@ == f,
    }
}

/// The value and offset, or the failure, in `r` are those that the grammar
/// gives.
pub open spec fn agrees<T: View>(
    r: Result<(T, usize), ParseError>,
    m: Result<(T::V, int), Failure>,
) -> bool {
    match m {
        Ok((value, end)) => r matches Ok((v, e)) && v@ == value && e == end,
        Err(f) => r matches Err(e) && e@ == f,
    }
}

/// The answer `r` to a parse of `input` from its start is what the grammar
/// gives: on success the value, with the text that was not consumed; else
/// the failure.
pub open spec fn delivers<T: View>(
    input: Seq<char>,
    r: Result<(&str, T), ParseError>,
    m: Result<(T::V, int), Failure>,
) -> bool {
    match m {
        Ok((value, end)) => r matches Ok((rest, v)) && rest@ == input.skip(end) && v@ == value,
        Err(f) => r matches Err(e) && e@ == f,
    }
}

/// The outcome `m` with `front` put before the values it holds.
pub open spec fn prepend<T>(front: Seq<T>, m: Result<(Seq<T>, int), Failure>) -> Result<
    (Seq<T>, int),
    Failure,
> {
    match m {
        Ok((rest, end)) => Ok((front + rest, end)),
        Err(f) => Err(f),
    }
}

/// An ordered choice between two alternatives: the first where it yields a
/// value; the second where the first fails to match; the failure of the
/// first where that is a malformed literal.
pub open spec fn choice<T>(first: Result<(T, int), Failure>, second: Result<(T, int), Failure>)
    -> Result<(T, int), Failure> {
    match first {
        Ok(found) => Ok(found),
        Err(f) => if f.is_no_match() {
            second
        } else {
            Err(f)
        },
    }
}

/// Putting a value behind the front is putting it before the rest.
pub proof fn lemma_prepend_push<T>(front: Seq<T>, x: T, m: Result<(Seq<T>, int), Failure>)
    ensures
        prepend(front, prepend(seq![x], m)) == prepend(front.push(x), m),
{
    match m {
        Ok((rest, end)) => {
            assert(front + (seq![x] + rest) =~= front.push(x) + rest);
        },
        Err(_) => {},
    }
}

} // verus!
