use vstd::prelude::*;

verus! {

/// Why a grammar rule did not produce a value.
#[derive(Debug, PartialEq, Eq, Clone, Copy, Structural)]
pub enum FailureReason {
    /// The text at the position does not have the shape the rule asks for.
    /// An ordered choice answers this by trying its next alternative.
    NoMatch,
    /// The text has the shape of the rule, but what it spells cannot be
    /// turned into a value. An ordered choice or a repetition that meets
    /// this failure gives up and hands it on.
    MalformedLiteral,
}

/// A failed parse: the reason, and the offset (counted in characters from
/// the start of the text that was handed in) at which it was noticed.
#[derive(Debug, PartialEq, Eq, Clone, Copy, Structural)]
pub struct ParseError {
    pub reason: FailureReason,
    pub position: usize,
}

/// The mathematical counterpart of [`ParseError`], with an unbounded offset.
pub struct Failure {
    pub reason: FailureReason,
    pub position: int,
}

impl View for ParseError {
    type V = Failure;

    open spec fn view(&self) -> Failure {
        Failure { reason: self.reason, position: self.position as int }
    }
}

/// A failure to match, noticed at `position`.
pub open spec fn no_match(position: int) -> Failure {
    Failure { reason: FailureReason::NoMatch, position }
}

/// A malformed-literal failure noticed at `position`.
pub open spec fn malformed(position: int) -> Failure {
    Failure { reason: FailureReason::MalformedLiteral, position }
}

impl Failure {
    /// True when an ordered choice may go on to its next alternative.
    pub open spec fn is_no_match(self) -> bool {
        self.reason == FailureReason::NoMatch
    }
}

impl ParseError {
    pub fn no_match(position: usize) -> (e: ParseError)
        ensures
            e@ == no_match(position as int),
    {
        ParseError { reason: FailureReason::NoMatch, position }
    }

    pub fn malformed(position: usize) -> (e: ParseError)
        ensures
            e@ == malformed(position as int),
    {
        ParseError { reason: FailureReason::MalformedLiteral, position }
    }

    /// True when an ordered choice may go on to its next alternative.
    pub fn is_no_match(&self) -> (b: bool)
        ensures
            b == self@.is_no_match(),
    {
        match self.reason {
            FailureReason::NoMatch => true,
            FailureReason::MalformedLiteral => false,
        }
    }
}

} // verus!
