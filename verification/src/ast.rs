use crate::bindings::BindingMap;
use crate::error::{Failure, ParseError};
use crate::identifier_parser::{
    identifier_at, identifier_views, spec_identifier, Identifier,
};
use crate::model::{fold_bindings, lemma_shadowing, IdentifierView};
use crate::outcome::{delivers, lemma_prepend_push, prepend};
use crate::text::{run_end, slice_of, spec_run_end, to_chars, CharClass};
use vstd::prelude::*;

verus! {

/// The bindings of a program from offset `i`: as many as follow one
/// another, each with blanks in any number before it. The first failure to
/// match ends them, and the blanks before it are not consumed; a malformed
/// literal is handed on.
pub open spec fn spec_program(s: Seq<char>, i: int) -> Result<(Seq<IdentifierView>, int), Failure>
    decreases s.len() - i,
    when 0 <= i <= s.len()
{
    match spec_identifier(s, spec_run_end(s, i, CharClass::Blank)) {
        Ok((identifier, end)) => if i < end <= s.len() {
            prepend(seq![identifier], spec_program(s, end))
        } else {
            Ok((Seq::empty(), i))
        },
        Err(f) => if f.is_no_match() {
            Ok((Seq::empty(), i))
        } else {
            Err(f)
        },
    }
}

/// The scope of a program: its bindings, entered in their order.
pub open spec fn spec_ast(s: Seq<char>) -> Result<
    (Map<Seq<char>, IdentifierView>, int),
    Failure,
> {
    match spec_program(s, 0) {
        Ok((identifiers, end)) => Ok((fold_bindings(identifiers), end)),
        Err(f) => Err(f),
    }
}

/// A program of two bindings with one name leaves a scope with exactly one
/// entry, which is the second binding.
pub proof fn lemma_program_shadowing(s: Seq<char>)
    requires
        spec_program(s, 0) matches Ok((identifiers, _)) && identifiers.len() == 2
            && identifiers[0].name == identifiers[1].name,
    ensures
        spec_ast(s) matches Ok((scope, _)) && scope.dom() == set![
            spec_program(s, 0)->Ok_0.0[1].name,
        ] && scope[spec_program(s, 0)->Ok_0.0[1].name] == spec_program(s, 0)->Ok_0.0[1],
{
    let identifiers = spec_program(s, 0)->Ok_0.0;
    assert(identifiers =~= seq![identifiers[0], identifiers[1]]);
    lemma_shadowing(Seq::empty(), identifiers[0], identifiers[1]);
}

/// Reads the bindings of a program from offset `i`.
pub(crate) fn program_at(s: &[char], i: usize) -> (r: Result<(Vec<Identifier>, usize), ParseError>)
    requires
        i <= s.len(),
    ensures
        match spec_program(s@, i as int) {
            Ok((identifiers, end)) => r matches Ok((v, e)) && identifier_views(v@) == identifiers
                && e == end && i <= e <= s.len(),
            Err(f) => r matches Err(e) && e@ == f,
        },
{
    let mut found: Vec<Identifier> = Vec::new();
    let mut p: usize = i;
    proof {
        assert(identifier_views(found@) =~= Seq::<IdentifierView>::empty());
        match spec_program(s@, i as int) {
            Ok((rest, _)) => {
                assert(Seq::<IdentifierView>::empty() + rest =~= rest);
            },
            Err(_) => {},
        }
    }
    loop
        invariant
            i <= p <= s.len(),
            spec_program(s@, i as int) == prepend(
                identifier_views(found@),
                spec_program(s@, p as int),
            ),
        decreases s.len() - p,
    {
        let at = run_end(s, p, CharClass::Blank);
        match identifier_at(s, at) {
            Ok((identifier, end)) => {
                proof {
                    let front = identifier_views(found@);
                    lemma_prepend_push(front, identifier@, spec_program(s@, end as int));
                    assert(identifier_views(found@.push(identifier)) =~= front.push(identifier@));
                }
                found.push(identifier);
                p = end;
            },
            Err(e) => {
                proof {
                    assert(identifier_views(found@) + Seq::<IdentifierView>::empty()
                        =~= identifier_views(found@));
                }
                if e.is_no_match() {
                    return Ok((found, p));
                } else {
                    return Err(e);
                }
            },
        }
    }
}

/// Parses a program: reads its bindings from the start of `input`, and
/// yields the scope they leave behind with the text that was not consumed.
pub fn make_ast(input: &str) -> (r: Result<(&str, BindingMap), ParseError>)
    ensures
        delivers(input@, r, spec_ast(input@)),
{
    let chars = to_chars(input);
    match program_at(chars.as_slice(), 0) {
        Ok((identifiers, end)) => Ok(
            (slice_of(input, end, chars.len()), BindingMap::collect(identifiers)),
        ),
        Err(e) => Err(e),
    }
}

} // verus!
