use crate::bindings::BindingMap;
use crate::error::{no_match, Failure, ParseError};
use crate::identifier_parser::{
    identifier_views, identifiers_at, is_marker, lemma_identifiers_no_marker, spec_identifiers,
    Identifier, IdentifierValues,
};
use crate::model::{fold_bindings, lemma_fold_push, BlockView, IdentifierView};
use crate::outcome::{agrees, choice, delivers};
use crate::text::{
    find, has_tag, run_end, slice_of, spec_find, spec_has_tag, spec_run_end, to_chars, CharClass,
};
use vstd::prelude::*;
use vstd::slice::slice_subrange;

verus! {

/// The four forms of block.
#[derive(Debug, PartialEq, Eq, Clone, Copy, Structural)]
pub enum BlockType {
    Do,
    If,
    While,
    Repeat,
}

/// A block: its form, and the bindings found between its opening and its
/// closing keyword.
#[derive(Debug)]
pub struct Block {
    pub block_type: BlockType,
    pub identifiers: BindingMap,
}

impl View for Block {
    type V = BlockView;

    open spec fn view(&self) -> BlockView {
        BlockView { block_type: self.block_type, identifiers: self.identifiers@ }
    }
}

impl PartialEq for Block {
    fn eq(&self, other: &Block) -> (r: bool) {
        self.block_type == other.block_type && self.identifiers.eq(&other.identifiers)
    }
}

impl vstd::std_specs::cmp::PartialEqSpecImpl for Block {
    open spec fn obeys_eq_spec() -> bool {
        true
    }

    open spec fn eq_spec(&self, other: &Block) -> bool {
        self@ == other@
    }
}

impl Clone for Block {
    fn clone(&self) -> (r: Self)
        ensures
            r@ == self@,
    {
        Block { block_type: self.block_type, identifiers: self.identifiers.clone() }
    }
}

/// True of every binding but one to the marker `End`.
pub open spec fn not_end() -> spec_fn(IdentifierView) -> bool {
    |identifier: IdentifierView| !(identifier.value is End)
}

/// The bindings of a body: those that follow one another from offset
/// `from` in the text before offset `to`. What is left of the body behind
/// them is passed over.
pub open spec fn spec_body(s: Seq<char>, from: int, to: int) -> Result<
    Seq<IdentifierView>,
    Failure,
> {
    match spec_identifiers(s.subrange(0, to), from) {
        Ok((identifiers, _)) => Ok(identifiers),
        Err(f) => Err(f),
    }
}

/// A block that opens with `do` at offset `i`: the word `do`, blanks, a
/// body that ends before the first `end` in the text ahead, that `end`, and
/// blanks. A binding to the marker `End` is not entered into its scope.
pub open spec fn spec_do(s: Seq<char>, i: int) -> Result<(BlockView, int), Failure> {
    if spec_has_tag(s, i, "do"@) {
        let from = spec_run_end(s, i + 2, CharClass::Blank);
        match spec_find(s, from, "end"@) {
            Some(to) => match spec_body(s, from, to) {
                Ok(identifiers) => Ok(
                    (
                        BlockView {
                            block_type: BlockType::Do,
                            identifiers: fold_bindings(identifiers.filter(not_end())),
                        },
                        spec_run_end(s, to + 3, CharClass::Blank),
                    ),
                ),
                Err(f) => Err(f),
            },
            None => Err(no_match(from)),
        }
    } else {
        Err(no_match(i))
    }
}

/// A block that opens with `while` at offset `i`: blanks, the word `while`,
/// blanks, a condition that ends before the first `do` in the text ahead
/// and is passed over, and from that `do` on a block as `spec_do` reads it.
pub open spec fn spec_while(s: Seq<char>, i: int) -> Result<(BlockView, int), Failure> {
    let at = spec_run_end(s, i, CharClass::Blank);
    if spec_has_tag(s, at, "while"@) {
        let from = spec_run_end(s, at + 5, CharClass::Blank);
        match spec_find(s, from, "do"@) {
            Some(body) => match spec_do(s, body) {
                Ok((block, end)) => Ok(
                    (
                        BlockView {
                            block_type: BlockType::While,
                            identifiers: block.identifiers,
                        },
                        end,
                    ),
                ),
                Err(f) => Err(f),
            },
            None => Err(no_match(from)),
        }
    } else {
        Err(no_match(at))
    }
}

/// A block that opens with `repeat` at offset `i`: blanks, the word
/// `repeat`, blanks, a body that ends before the first `until` in the text
/// ahead, that `until` with the condition behind it, which is made of
/// letters, digits, underscores, spaces and tabs and is passed over, and
/// blanks.
pub open spec fn spec_repeat(s: Seq<char>, i: int) -> Result<(BlockView, int), Failure> {
    let at = spec_run_end(s, i, CharClass::Blank);
    if spec_has_tag(s, at, "repeat"@) {
        let from = spec_run_end(s, at + 6, CharClass::Blank);
        match spec_find(s, from, "until"@) {
            Some(to) => match spec_body(s, from, to) {
                Ok(identifiers) => Ok(
                    (
                        BlockView {
                            block_type: BlockType::Repeat,
                            identifiers: fold_bindings(identifiers),
                        },
                        spec_run_end(
                            s,
                            spec_run_end(s, to, CharClass::Condition),
                            CharClass::Blank,
                        ),
                    ),
                ),
                Err(f) => Err(f),
            },
            None => Err(no_match(from)),
        }
    } else {
        Err(no_match(at))
    }
}

/// A block that opens with `if` at offset `i`: blanks, the word `if`,
/// blanks, a condition that ends before the first `then` in the text ahead
/// and is passed over, that `then`, blanks, a body that ends before the
/// first `end` in the text ahead, that `end`, and blanks.
pub open spec fn spec_if(s: Seq<char>, i: int) -> Result<(BlockView, int), Failure> {
    let at = spec_run_end(s, i, CharClass::Blank);
    if spec_has_tag(s, at, "if"@) {
        let condition = spec_run_end(s, at + 2, CharClass::Blank);
        match spec_find(s, condition, "then"@) {
            Some(then) => {
                let from = spec_run_end(s, then + 4, CharClass::Blank);
                match spec_find(s, from, "end"@) {
                    Some(to) => match spec_body(s, from, to) {
                        Ok(identifiers) => Ok(
                            (
                                BlockView {
                                    block_type: BlockType::If,
                                    identifiers: fold_bindings(identifiers),
                                },
                                spec_run_end(s, to + 3, CharClass::Blank),
                            ),
                        ),
                        Err(f) => Err(f),
                    },
                    None => Err(no_match(from)),
                }
            },
            None => Err(no_match(condition)),
        }
    } else {
        Err(no_match(at))
    }
}

/// A block at offset `i`: the first, in this order, of the forms `while`,
/// `do`, `repeat` and `if` that the text has there. Where none matches,
/// the failure is noticed at `i`.
pub open spec fn spec_block(s: Seq<char>, i: int) -> Result<(BlockView, int), Failure> {
    choice(
        spec_while(s, i),
        choice(spec_do(s, i), choice(spec_repeat(s, i), choice(spec_if(s, i), Err(no_match(i))))),
    )
}

/// Leaving out the bindings to the marker `End` leaves out nothing of a
/// body: the grammar reads no such binding.
pub proof fn lemma_body_without_end(s: Seq<char>, from: int, to: int)
    requires
        0 <= from <= to <= s.len(),
    ensures
        spec_body(s, from, to) matches Ok(identifiers) ==> identifiers.filter(not_end())
            == identifiers,
{
    lemma_identifiers_no_marker(s.subrange(0, to), from);
    match spec_body(s, from, to) {
        Ok(identifiers) => {
            lemma_filter_all(identifiers);
        },
        Err(_) => {},
    }
}

proof fn lemma_filter_all(identifiers: Seq<IdentifierView>)
    requires
        forall|k: int| 0 <= k < identifiers.len() ==> !is_marker(#[trigger] identifiers[k].value),
    ensures
        identifiers.filter(not_end()) == identifiers,
    decreases identifiers.len(),
{
    reveal(Seq::filter);
    if identifiers.len() > 0 {
        let front = identifiers.drop_last();
        assert forall|k: int| 0 <= k < front.len() implies !is_marker(
            #[trigger] front[k].value,
        ) by {
            assert(front[k] == identifiers[k]);
        }
        lemma_filter_all(front);
        assert(!is_marker(identifiers[identifiers.len() - 1].value));
        assert(front.push(identifiers.last()) =~= identifiers);
    } else {
        assert(identifiers.filter(not_end()) =~= identifiers);
    }
}

/// Reads the bindings of the body that lies from `from` up to `to`.
fn body_at(s: &[char], from: usize, to: usize) -> (r: Result<Vec<Identifier>, ParseError>)
    requires
        from <= to <= s.len(),
    ensures
        match spec_body(s@, from as int, to as int) {
            Ok(identifiers) => r matches Ok(v) && identifier_views(v@) == identifiers,
            Err(f) => r matches Err(e) && e@ == f,
        },
{
    match identifiers_at(slice_subrange(s, 0, to), from) {
        Ok((identifiers, _)) => Ok(identifiers),
        Err(e) => Err(e),
    }
}

/// The scope that the bindings leave behind when they are entered in their
/// order, those to the marker `End` left out.
fn collect_without_end(identifiers: Vec<Identifier>) -> (m: BindingMap)
    ensures
        m@ == fold_bindings(identifier_views(identifiers@).filter(not_end())),
{
    let mut m = BindingMap::new();
    let ghost all = identifiers@;
    proof {
        reveal(Seq::filter);
        assert(identifier_views(all.take(0)) =~= Seq::<IdentifierView>::empty());
    }
    for identifier in it: identifiers
        invariant
            it.seq() == all,
            m@ == fold_bindings(identifier_views(all.take(it.index() as int)).filter(not_end())),
    {
        proof {
            let k = it.index() as int;
            let before = identifier_views(all.take(k));
            assert(identifier_views(all.take(k + 1)) =~= before.push(identifier@));
            before.lemma_filter_push(identifier@, not_end());
            lemma_fold_push(before.filter(not_end()), identifier@);
        }
        match identifier.value {
            IdentifierValues::End => {},
            _ => {
                m.insert(identifier);
            },
        }
    }
    proof {
        assert(all.take(all.len() as int) =~= all);
    }
    m
}

/// Reads a block that opens with `do` at offset `i`.
fn do_at(s: &[char], i: usize) -> (r: Result<(Block, usize), ParseError>)
    requires
        i <= s.len(),
    ensures
        agrees(r, spec_do(s@, i as int)),
        r matches Ok((_, e)) ==> i < e <= s.len(),
{
    proof {
        reveal_strlit("do");
        reveal_strlit("end");
    }
    if !has_tag(s, i, "do") {
        return Err(ParseError::no_match(i));
    }
    let from = run_end(s, i + 2, CharClass::Blank);
    let to = match find(s, from, "end") {
        Some(to) => to,
        None => {
            return Err(ParseError::no_match(from));
        },
    };
    let identifiers = match body_at(s, from, to) {
        Ok(identifiers) => identifiers,
        Err(e) => {
            return Err(e);
        },
    };
    let end = run_end(s, to + 3, CharClass::Blank);
    Ok((Block { block_type: BlockType::Do, identifiers: collect_without_end(identifiers) }, end))
}

/// Reads a block that opens with `while` at offset `i`.
fn while_at(s: &[char], i: usize) -> (r: Result<(Block, usize), ParseError>)
    requires
        i <= s.len(),
    ensures
        agrees(r, spec_while(s@, i as int)),
        r matches Ok((_, e)) ==> i < e <= s.len(),
{
    proof {
        reveal_strlit("while");
        reveal_strlit("do");
    }
    let at = run_end(s, i, CharClass::Blank);
    if !has_tag(s, at, "while") {
        return Err(ParseError::no_match(at));
    }
    let from = run_end(s, at + 5, CharClass::Blank);
    let body = match find(s, from, "do") {
        Some(body) => body,
        None => {
            return Err(ParseError::no_match(from));
        },
    };
    match do_at(s, body) {
        Ok((block, end)) => Ok(
            (Block { block_type: BlockType::While, identifiers: block.identifiers }, end),
        ),
        Err(e) => Err(e),
    }
}

/// Reads a block that opens with `repeat` at offset `i`.
fn repeat_at(s: &[char], i: usize) -> (r: Result<(Block, usize), ParseError>)
    requires
        i <= s.len(),
    ensures
        agrees(r, spec_repeat(s@, i as int)),
        r matches Ok((_, e)) ==> i < e <= s.len(),
{
    proof {
        reveal_strlit("repeat");
        reveal_strlit("until");
    }
    let at = run_end(s, i, CharClass::Blank);
    if !has_tag(s, at, "repeat") {
        return Err(ParseError::no_match(at));
    }
    let from = run_end(s, at + 6, CharClass::Blank);
    let to = match find(s, from, "until") {
        Some(to) => to,
        None => {
            return Err(ParseError::no_match(from));
        },
    };
    let identifiers = match body_at(s, from, to) {
        Ok(identifiers) => identifiers,
        Err(e) => {
            return Err(e);
        },
    };
    let condition = run_end(s, to, CharClass::Condition);
    let end = run_end(s, condition, CharClass::Blank);
    Ok((Block { block_type: BlockType::Repeat, identifiers: BindingMap::collect(identifiers) }, end))
}

/// Reads a block that opens with `if` at offset `i`.
fn if_at(s: &[char], i: usize) -> (r: Result<(Block, usize), ParseError>)
    requires
        i <= s.len(),
    ensures
        agrees(r, spec_if(s@, i as int)),
        r matches Ok((_, e)) ==> i < e <= s.len(),
{
    proof {
        reveal_strlit("if");
        reveal_strlit("then");
        reveal_strlit("end");
    }
    let at = run_end(s, i, CharClass::Blank);
    if !has_tag(s, at, "if") {
        return Err(ParseError::no_match(at));
    }
    let condition = run_end(s, at + 2, CharClass::Blank);
    let then = match find(s, condition, "then") {
        Some(then) => then,
        None => {
            return Err(ParseError::no_match(condition));
        },
    };
    let from = run_end(s, then + 4, CharClass::Blank);
    let to = match find(s, from, "end") {
        Some(to) => to,
        None => {
            return Err(ParseError::no_match(from));
        },
    };
    let identifiers = match body_at(s, from, to) {
        Ok(identifiers) => identifiers,
        Err(e) => {
            return Err(e);
        },
    };
    let end = run_end(s, to + 3, CharClass::Blank);
    Ok((Block { block_type: BlockType::If, identifiers: BindingMap::collect(identifiers) }, end))
}

/// Reads a block at offset `i`.
pub(crate) fn block_at(s: &[char], i: usize) -> (r: Result<(Block, usize), ParseError>)
    requires
        i <= s.len(),
    ensures
        agrees(r, spec_block(s@, i as int)),
        r matches Ok((_, e)) ==> i < e <= s.len(),
{
    match while_at(s, i) {
        Ok(found) => {
            return Ok(found);
        },
        Err(e) => {
            if !e.is_no_match() {
                return Err(e);
            }
        },
    }
    match do_at(s, i) {
        Ok(found) => {
            return Ok(found);
        },
        Err(e) => {
            if !e.is_no_match() {
                return Err(e);
            }
        },
    }
    match repeat_at(s, i) {
        Ok(found) => {
            return Ok(found);
        },
        Err(e) => {
            if !e.is_no_match() {
                return Err(e);
            }
        },
    }
    match if_at(s, i) {
        Ok(found) => Ok(found),
        Err(e) => {
            if e.is_no_match() {
                Err(ParseError::no_match(i))
            } else {
                Err(e)
            }
        },
    }
}

/// Parses a block at the start of `input`.
pub fn parse_block(input: &str) -> (r: Result<(&str, Block), ParseError>)
    ensures
        delivers(input@, r, spec_block(input@, 0)),
{
    let chars = to_chars(input);
    match block_at(chars.as_slice(), 0) {
        Ok((value, end)) => Ok((slice_of(input, end, chars.len()), value)),
        Err(e) => Err(e),
    }
}

} // verus!
