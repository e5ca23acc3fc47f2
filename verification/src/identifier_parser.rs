use crate::datatype_parsers::boolean_parser::{boolean_at, lemma_boolean_consumes, spec_boolean};
use crate::datatype_parsers::number_parser::{
    lemma_number_consumes, number_at, spec_number, NumberLiteral,
};
use crate::datatype_parsers::string_parser::{lemma_string_consumes, spec_string, string_at};
use crate::error::{no_match, Failure, ParseError};
use crate::function_parser::{function_at, lemma_function_consumes, spec_function, Function};
use crate::model::{FunctionView, IdentifierView, TableView, ValueView};
use crate::outcome::{
    agrees, choice, delivers, ends_as, lemma_prepend_push, prepend, spec_span,
};
use crate::table_parser::{lemma_table_consumes, spec_table, table_at, Table};
use crate::text::{
    has_tag, is_letter, is_text, lemma_run_end, run_end, slice_of, spec_has_tag, spec_is_letter,
    spec_run_end, text_of, to_chars, CharClass,
};
use vstd::prelude::*;
use vstd::slice::slice_subrange;

verus! {

/// The value that a binding gives its name. The markers `End`, `If`, `Then`,
/// `While` and `Do` are kept for keyword-aware bindings; no rule of the
/// grammar produces them.
#[derive(Debug)]
pub enum IdentifierValues {
    Number(NumberLiteral),
    String(String),
    Bool(bool),
    Table(Table),
    Function(Function),
    End,
    If,
    Then,
    While,
    Do,
    Return(String),
}

/// A name bound to a value.
#[derive(Debug)]
pub struct Identifier {
    pub name: String,
    pub value: IdentifierValues,
}

impl View for IdentifierValues {
    type V = ValueView;

    open spec fn view(&self) -> ValueView
        decreases self, 0int,
    {
        match self {
            IdentifierValues::Number(n) => ValueView::Number(n@),
            IdentifierValues::String(t) => ValueView::String(t@),
            IdentifierValues::Bool(b) => ValueView::Bool(*b),
            IdentifierValues::Table(t) => ValueView::Table(t@),
            IdentifierValues::Function(f) => ValueView::Function(f@),
            IdentifierValues::End => ValueView::End,
            IdentifierValues::If => ValueView::If,
            IdentifierValues::Then => ValueView::Then,
            IdentifierValues::While => ValueView::While,
            IdentifierValues::Do => ValueView::Do,
            IdentifierValues::Return(t) => ValueView::Return(t@),
        }
    }
}

/// The bindings as mathematics sees them, in their order.
pub open spec fn identifier_views(identifiers: Seq<Identifier>) -> Seq<IdentifierView> {
    Seq::new(identifiers.len(), |k: int| identifiers[k]@)
}

impl View for Identifier {
    type V = IdentifierView;

    open spec fn view(&self) -> IdentifierView
        decreases self, 0int,
    {
        IdentifierView { name: self.name@, value: self.value@ }
    }
}

impl PartialEq for IdentifierValues {
    fn eq(&self, other: &IdentifierValues) -> (r: bool)
        decreases self,
    {
        match (self, other) {
            (IdentifierValues::Number(a), IdentifierValues::Number(b)) => a.eq(b),
            (IdentifierValues::String(a), IdentifierValues::String(b)) => *a == *b,
            (IdentifierValues::Bool(a), IdentifierValues::Bool(b)) => *a == *b,
            (IdentifierValues::Table(a), IdentifierValues::Table(b)) => a.eq(b),
            (IdentifierValues::Function(a), IdentifierValues::Function(b)) => a.eq(b),
            (IdentifierValues::End, IdentifierValues::End) => true,
            (IdentifierValues::If, IdentifierValues::If) => true,
            (IdentifierValues::Then, IdentifierValues::Then) => true,
            (IdentifierValues::While, IdentifierValues::While) => true,
            (IdentifierValues::Do, IdentifierValues::Do) => true,
            (IdentifierValues::Return(a), IdentifierValues::Return(b)) => *a == *b,
            _ => false,
        }
    }
}

impl vstd::std_specs::cmp::PartialEqSpecImpl for IdentifierValues {
    open spec fn obeys_eq_spec() -> bool {
        true
    }

    open spec fn eq_spec(&self, other: &IdentifierValues) -> bool {
        self@ == other@
    }
}

impl PartialEq for Identifier {
    fn eq(&self, other: &Identifier) -> (r: bool)
        decreases self,
    {
        self.name == other.name && self.value.eq(&other.value)
    }
}

impl vstd::std_specs::cmp::PartialEqSpecImpl for Identifier {
    open spec fn obeys_eq_spec() -> bool {
        true
    }

    open spec fn eq_spec(&self, other: &Identifier) -> bool {
        self@ == other@
    }
}

impl Clone for IdentifierValues {
    fn clone(&self) -> (r: Self)
        ensures
            r@ == self@,
        decreases self,
    {
        match self {
            IdentifierValues::Number(n) => IdentifierValues::Number(n.clone()),
            IdentifierValues::String(t) => IdentifierValues::String(t.clone()),
            IdentifierValues::Bool(b) => IdentifierValues::Bool(*b),
            IdentifierValues::Table(t) => IdentifierValues::Table(t.clone()),
            IdentifierValues::Function(f) => IdentifierValues::Function(f.clone()),
            IdentifierValues::End => IdentifierValues::End,
            IdentifierValues::If => IdentifierValues::If,
            IdentifierValues::Then => IdentifierValues::Then,
            IdentifierValues::While => IdentifierValues::While,
            IdentifierValues::Do => IdentifierValues::Do,
            IdentifierValues::Return(t) => IdentifierValues::Return(t.clone()),
        }
    }
}

impl Clone for Identifier {
    fn clone(&self) -> (r: Self)
        ensures
            r@ == self@,
        decreases self,
    {
        Identifier { name: self.name.clone(), value: self.value.clone() }
    }
}

/// Where the word that starts at `i` ends: a letter or an underscore, then
/// letters, digits and underscores in any number.
pub open spec fn spec_word_end(s: Seq<char>, i: int) -> Result<int, Failure> {
    if 0 <= i < s.len() && (spec_is_letter(s[i]) || s[i] == '_') {
        Ok(spec_run_end(s, i, CharClass::Word))
    } else {
        Err(no_match(i))
    }
}

/// Where the name that starts at `i` ends: a word that is not the bare word
/// `function`.
pub open spec fn spec_name_end(s: Seq<char>, i: int) -> Result<int, Failure> {
    match spec_word_end(s, i) {
        Ok(end) => if s.subrange(i, end) == "function"@ {
            Err(no_match(i))
        } else {
            Ok(end)
        },
        Err(f) => Err(f),
    }
}

/// Where the separator between a name and its value ends: spaces and equals
/// signs in any number and order, none included.
pub open spec fn spec_equals_end(s: Seq<char>, i: int) -> int {
    spec_run_end(s, i, CharClass::Separator)
}

/// Where the prefix `local` with its one space ends.
pub open spec fn spec_local_end(s: Seq<char>, i: int) -> Result<int, Failure> {
    if !spec_has_tag(s, i, "local"@) {
        Err(no_match(i))
    } else if !spec_has_tag(s, i + 5, " "@) {
        Err(no_match(i + 5))
    } else {
        Ok(i + 6)
    }
}

/// Where a return statement that starts at `i` ends: the word `return`,
/// blanks in any number, and a word.
pub open spec fn spec_return_end(s: Seq<char>, i: int) -> Result<int, Failure> {
    if spec_has_tag(s, i, "return"@) {
        spec_word_end(s, spec_run_end(s, i + 6, CharClass::Blank))
    } else {
        Err(no_match(i))
    }
}

/// A name with the separator behind it: the name, and the offset behind
/// the separator.
pub open spec fn spec_identifier_name(s: Seq<char>, i: int) -> Result<(Seq<char>, int), Failure> {
    match spec_name_end(s, i) {
        Ok(end) => Ok((s.subrange(i, end), spec_equals_end(s, end))),
        Err(f) => Err(f),
    }
}

/// A word ends inside the text, behind its start.
pub proof fn lemma_word_end(s: Seq<char>, i: int)
    requires
        0 <= i <= s.len(),
    ensures
        spec_word_end(s, i) matches Ok(end) ==> i < end <= s.len(),
        spec_name_end(s, i) matches Ok(end) ==> i < end <= s.len(),
{
    if i < s.len() {
        lemma_run_end(s, i + 1, CharClass::Word);
    }
}

/// Skipping the prefix `local ` leads to an offset inside the text, at or
/// behind the start.
pub proof fn lemma_skip_local(s: Seq<char>, i: int)
    requires
        0 <= i <= s.len(),
    ensures
        i <= spec_skip_local(s, i) <= s.len(),
{
    reveal_strlit("local");
    reveal_strlit(" ");
}

/// Skipping a name and its separator leads to an offset inside the text, at
/// or behind the start.
pub proof fn lemma_skip_name(s: Seq<char>, i: int)
    requires
        0 <= i <= s.len(),
    ensures
        i <= spec_skip_name(s, i) <= s.len(),
{
    lemma_word_end(s, i);
    match spec_name_end(s, i) {
        Ok(end) => {
            lemma_run_end(s, end, CharClass::Separator);
        },
        Err(_) => {},
    }
}

/// A string literal's outcome as the outcome of a value.
pub open spec fn as_string(m: Result<(Seq<char>, int), Failure>) -> Result<
    (ValueView, int),
    Failure,
> {
    match m {
        Ok((text, end)) => Ok((ValueView::String(text), end)),
        Err(f) => Err(f),
    }
}

/// A numeric literal's outcome as the outcome of a value.
pub open spec fn as_number(m: Result<(Seq<char>, int), Failure>) -> Result<
    (ValueView, int),
    Failure,
> {
    match m {
        Ok((text, end)) => Ok((ValueView::Number(text), end)),
        Err(f) => Err(f),
    }
}

/// A boolean's outcome as the outcome of a value.
pub open spec fn as_bool(m: Result<(bool, int), Failure>) -> Result<(ValueView, int), Failure> {
    match m {
        Ok((b, end)) => Ok((ValueView::Bool(b), end)),
        Err(f) => Err(f),
    }
}

/// A table's outcome as the outcome of a value.
pub open spec fn as_table(m: Result<(TableView, int), Failure>) -> Result<
    (ValueView, int),
    Failure,
> {
    match m {
        Ok((table, end)) => Ok((ValueView::Table(table), end)),
        Err(f) => Err(f),
    }
}

/// A function's outcome as the outcome of a value.
pub open spec fn as_function(m: Result<(FunctionView, int), Failure>) -> Result<
    (ValueView, int),
    Failure,
> {
    match m {
        Ok((function, end)) => Ok((ValueView::Function(function), end)),
        Err(f) => Err(f),
    }
}

/// A return statement's outcome as the outcome of a value: the value holds
/// the whole text of the statement.
pub open spec fn as_return(s: Seq<char>, i: int, m: Result<int, Failure>) -> Result<
    (ValueView, int),
    Failure,
> {
    match m {
        Ok(end) => Ok((ValueView::Return(s.subrange(i, end)), end)),
        Err(f) => Err(f),
    }
}

/// A value at offset `i`: the first, in this order, of a string, a number,
/// a boolean, a table, a function and a return statement that the text
/// has there. Where none matches, the failure is noticed at `i`.
pub open spec fn spec_value(s: Seq<char>, i: int) -> Result<(ValueView, int), Failure>
    decreases s.len() - i, 2int,
    when 0 <= i <= s.len()
{
    choice(
        as_string(spec_string(s, i)),
        choice(
            as_number(spec_number(s, i)),
            choice(
                as_bool(spec_boolean(s, i)),
                choice(
                    as_table(spec_table(s, i)),
                    choice(
                        as_function(spec_function(s, i)),
                        choice(as_return(s, i, spec_return_end(s, i)), Err(no_match(i))),
                    ),
                ),
            ),
        ),
    )
}

/// The offset behind the prefix `local `, or `i` itself where the prefix
/// does not stand at `i`.
pub open spec fn spec_skip_local(s: Seq<char>, i: int) -> int {
    match spec_local_end(s, i) {
        Ok(end) => end,
        Err(_) => i,
    }
}

/// The offset behind a name and its separator, or `i` itself where no name
/// stands at `i`.
pub open spec fn spec_skip_name(s: Seq<char>, i: int) -> int {
    match spec_identifier_name(s, i) {
        Ok((_, end)) => end,
        Err(_) => i,
    }
}

/// The binding that a value makes. A function is bound to its own name and
/// a return statement to the name `Return`, whatever name was written. Any
/// other value is bound to the name that was written, and a table takes
/// that name; with no name written there is no binding.
pub open spec fn spec_bind(name: Option<Seq<char>>, value: ValueView) -> Option<IdentifierView> {
    match value {
        ValueView::Function(function) => Some(IdentifierView { name: function.name, value }),
        ValueView::Return(_) => Some(IdentifierView { name: "Return"@, value }),
        ValueView::Table(table) => match name {
            Some(name) => Some(
                IdentifierView {
                    name,
                    value: ValueView::Table(TableView { name, members: table.members }),
                },
            ),
            None => None,
        },
        _ => match name {
            Some(name) => Some(IdentifierView { name, value }),
            None => None,
        },
    }
}

/// The binding that the outcome of a value makes with the name that was
/// written, if one was, and the offset behind the blanks that follow the
/// value. Where the value needs a name and none was written, the failure is
/// noticed at `at_name`, where the name would stand.
pub open spec fn spec_bound(
    s: Seq<char>,
    name: Option<Seq<char>>,
    at_name: int,
    value: Result<(ValueView, int), Failure>,
) -> Result<(IdentifierView, int), Failure> {
    match value {
        Ok((value, end)) => match spec_bind(name, value) {
            Some(identifier) => Ok((identifier, spec_run_end(s, end, CharClass::Blank))),
            None => Err(no_match(at_name)),
        },
        Err(f) => Err(f),
    }
}

/// The binding with its name where that can be read; the binding without a
/// name where the first fails to match and the second can be read. Where
/// both fail to match, the failure is that of the first; a malformed
/// literal is handed on from either.
pub open spec fn spec_named_or_bare(
    named: Result<(IdentifierView, int), Failure>,
    bare: Result<(IdentifierView, int), Failure>,
) -> Result<(IdentifierView, int), Failure> {
    match named {
        Ok(found) => Ok(found),
        Err(f) => if !f.is_no_match() {
            Err(f)
        } else {
            match bare {
                Ok(found) => Ok(found),
                Err(g) => if g.is_no_match() {
                    Err(f)
                } else {
                    Err(g)
                },
            }
        },
    }
}

/// A binding at offset `i`: the prefix `local ` or none, a name with its
/// separator or none, a value, and blanks in any number. Where a name can
/// be read and a value stands behind it, the value is bound with that name.
/// Where a name can be read and no value stands behind it, what was read as
/// a name is read once more as the start of the value: so a return
/// statement, whose first word has the shape of a name, is a binding by
/// itself.
pub open spec fn spec_identifier(s: Seq<char>, i: int) -> Result<(IdentifierView, int), Failure>
    decreases s.len() - i, 3int,
    when 0 <= i <= s.len()
{
    let at_name = spec_skip_local(s, i);
    proof {
        lemma_skip_local(s, i);
        lemma_skip_name(s, at_name);
    }
    let bare = spec_bound(s, None, at_name, spec_value(s, at_name));
    match spec_identifier_name(s, at_name) {
        Ok((name, at_value)) => spec_named_or_bare(
            spec_bound(s, Some(name), at_name, spec_value(s, at_value)),
            bare,
        ),
        Err(_) => bare,
    }
}

/// The bindings that follow one another from offset `i`, as many as there
/// are. The first failure to match ends them; a malformed literal is handed
/// on.
pub open spec fn spec_identifiers(s: Seq<char>, i: int) -> Result<
    (Seq<IdentifierView>, int),
    Failure,
>
    decreases s.len() - i, 4int,
    when 0 <= i <= s.len()
{
    match spec_identifier(s, i) {
        Ok((identifier, end)) => if i < end <= s.len() {
            prepend(seq![identifier], spec_identifiers(s, end))
        } else {
            Ok((Seq::empty(), i))
        },
        Err(f) => if f.is_no_match() {
            Ok((Seq::empty(), i))
        } else {
            Err(f)
        },
    }
}

/// A return statement ends inside the text, behind its start.
pub proof fn lemma_return_consumes(s: Seq<char>, i: int)
    requires
        0 <= i <= s.len(),
    ensures
        spec_return_end(s, i) matches Ok(end) ==> i < end <= s.len(),
{
    reveal_strlit("return");
    if spec_has_tag(s, i, "return"@) {
        lemma_run_end(s, i + 6, CharClass::Blank);
        lemma_word_end(s, spec_run_end(s, i + 6, CharClass::Blank));
    }
}

/// A value ends inside the text, behind its start: every value consumes at
/// least one character.
pub proof fn lemma_value_consumes(s: Seq<char>, i: int)
    requires
        0 <= i <= s.len(),
    ensures
        spec_value(s, i) matches Ok((_, end)) ==> i < end <= s.len(),
    decreases s.len() - i, 2int,
{
    lemma_string_consumes(s, i);
    lemma_number_consumes(s, i);
    lemma_boolean_consumes(s, i);
    lemma_table_consumes(s, i);
    lemma_function_consumes(s, i);
    lemma_return_consumes(s, i);
}

/// A binding ends inside the text, behind its start.
pub proof fn lemma_identifier_consumes(s: Seq<char>, i: int)
    requires
        0 <= i <= s.len(),
    ensures
        spec_identifier(s, i) matches Ok((_, end)) ==> i < end <= s.len(),
    decreases s.len() - i, 3int,
{
    let at_name = spec_skip_local(s, i);
    lemma_skip_local(s, i);
    let at_value = spec_skip_name(s, at_name);
    lemma_skip_name(s, at_name);
    lemma_value_consumes(s, at_value);
    match spec_value(s, at_value) {
        Ok((_, end)) => {
            lemma_run_end(s, end, CharClass::Blank);
        },
        Err(_) => {},
    }
    lemma_value_consumes(s, at_name);
    match spec_value(s, at_name) {
        Ok((_, end)) => {
            lemma_run_end(s, end, CharClass::Blank);
        },
        Err(_) => {},
    }
}

/// A run of bindings ends inside the text, at or behind its start.
pub proof fn lemma_identifiers_end(s: Seq<char>, i: int)
    requires
        0 <= i <= s.len(),
    ensures
        spec_identifiers(s, i) matches Ok((_, end)) ==> i <= end <= s.len(),
    decreases s.len() - i, 4int,
{
    lemma_identifier_consumes(s, i);
    match spec_identifier(s, i) {
        Ok((_, end)) => {
            lemma_identifiers_end(s, end);
        },
        Err(_) => {},
    }
}

/// The run of bindings without the test for progress: a binding, then the
/// run behind it.
pub proof fn lemma_identifiers_unfold(s: Seq<char>, i: int)
    requires
        0 <= i <= s.len(),
    ensures
        spec_identifiers(s, i) == match spec_identifier(s, i) {
            Ok((identifier, end)) => prepend(seq![identifier], spec_identifiers(s, end)),
            Err(f) => if f.is_no_match() {
                Ok((Seq::empty(), i))
            } else {
                Err(f)
            },
        },
{
    lemma_identifier_consumes(s, i);
}

/// True of the markers that are kept for keyword-aware bindings.
pub open spec fn is_marker(value: ValueView) -> bool {
    value is End || value is If || value is Then || value is While || value is Do
}

/// No value that the grammar reads is a marker.
pub proof fn lemma_value_no_marker(s: Seq<char>, i: int)
    requires
        0 <= i <= s.len(),
    ensures
        spec_value(s, i) matches Ok((value, _)) ==> !is_marker(value),
{
}

/// No binding that the grammar reads binds a marker.
pub proof fn lemma_identifier_no_marker(s: Seq<char>, i: int)
    requires
        0 <= i <= s.len(),
    ensures
        spec_identifier(s, i) matches Ok((identifier, _)) ==> !is_marker(identifier.value),
{
    let at_name = spec_skip_local(s, i);
    lemma_skip_local(s, i);
    let at_value = spec_skip_name(s, at_name);
    lemma_skip_name(s, at_name);
    lemma_value_no_marker(s, at_value);
    lemma_value_no_marker(s, at_name);
}

/// No binding of a run binds a marker.
pub proof fn lemma_identifiers_no_marker(s: Seq<char>, i: int)
    requires
        0 <= i <= s.len(),
    ensures
        spec_identifiers(s, i) matches Ok((identifiers, _)) ==> forall|k: int|
            0 <= k < identifiers.len() ==> !is_marker(#[trigger] identifiers[k].value),
    decreases s.len() - i,
{
    lemma_identifier_no_marker(s, i);
    lemma_identifier_consumes(s, i);
    match spec_identifier(s, i) {
        Ok((identifier, end)) => {
            lemma_identifiers_no_marker(s, end);
            match spec_identifiers(s, end) {
                Ok((rest, _)) => {
                    let all = seq![identifier] + rest;
                    assert forall|k: int| 0 <= k < all.len() implies !is_marker(
                        #[trigger] all[k].value,
                    ) by {
                        if k > 0 {
                            assert(all[k] == rest[k - 1]);
                        }
                    }
                },
                Err(_) => {},
            }
        },
        Err(_) => {},
    }
}

/// Finds where the word at offset `i` ends.
pub(crate) fn word_end(s: &[char], i: usize) -> (r: Result<usize, ParseError>)
    requires
        i <= s.len(),
    ensures
        ends_as(r, spec_word_end(s@, i as int)),
        r matches Ok(e) ==> i < e <= s.len(),
{
    if i < s.len() && (is_letter(s[i]) || s[i] == '_') {
        let end = run_end(s, i, CharClass::Word);
        proof {
            lemma_run_end(s@, i + 1, CharClass::Word);
        }
        Ok(end)
    } else {
        Err(ParseError::no_match(i))
    }
}

/// Finds where the name at offset `i` ends.
pub(crate) fn name_end(s: &[char], i: usize) -> (r: Result<usize, ParseError>)
    requires
        i <= s.len(),
    ensures
        ends_as(r, spec_name_end(s@, i as int)),
        r matches Ok(e) ==> i < e <= s.len(),
{
    match word_end(s, i) {
        Ok(end) => {
            if is_text(slice_subrange(s, i, end), "function") {
                Err(ParseError::no_match(i))
            } else {
                Ok(end)
            }
        },
        Err(e) => Err(e),
    }
}

/// Finds where the separator at offset `i` ends.
pub(crate) fn equals_end(s: &[char], i: usize) -> (e: usize)
    requires
        i <= s.len(),
    ensures
        e == spec_equals_end(s@, i as int),
        i <= e <= s.len(),
{
    run_end(s, i, CharClass::Separator)
}

/// Finds where the prefix `local ` at offset `i` ends.
pub(crate) fn local_end(s: &[char], i: usize) -> (r: Result<usize, ParseError>)
    requires
        i <= s.len(),
    ensures
        ends_as(r, spec_local_end(s@, i as int)),
        r matches Ok(e) ==> i < e <= s.len(),
{
    proof {
        reveal_strlit("local");
        reveal_strlit(" ");
    }
    if !has_tag(s, i, "local") {
        Err(ParseError::no_match(i))
    } else if !has_tag(s, i + 5, " ") {
        Err(ParseError::no_match(i + 5))
    } else {
        Ok(i + 6)
    }
}

/// Finds where the return statement at offset `i` ends.
pub(crate) fn return_end(s: &[char], i: usize) -> (r: Result<usize, ParseError>)
    requires
        i <= s.len(),
    ensures
        ends_as(r, spec_return_end(s@, i as int)),
        r matches Ok(e) ==> i < e <= s.len(),
{
    proof {
        reveal_strlit("return");
    }
    if has_tag(s, i, "return") {
        let at = run_end(s, i + 6, CharClass::Blank);
        word_end(s, at)
    } else {
        Err(ParseError::no_match(i))
    }
}

/// Reads a value at offset `i`.
pub(crate) fn value_at(s: &[char], i: usize) -> (r: Result<(IdentifierValues, usize), ParseError>)
    requires
        i <= s.len(),
    ensures
        agrees(r, spec_value(s@, i as int)),
        r matches Ok((_, e)) ==> i < e <= s.len(),
    decreases s.len() - i, 2int,
{
    match string_at(s, i) {
        Ok((text, end)) => {
            return Ok((IdentifierValues::String(text), end));
        },
        Err(_) => {},
    }
    match number_at(s, i) {
        Ok((number, end)) => {
            return Ok((IdentifierValues::Number(number), end));
        },
        Err(_) => {},
    }
    match boolean_at(s, i) {
        Ok((b, end)) => {
            return Ok((IdentifierValues::Bool(b), end));
        },
        Err(_) => {},
    }
    match table_at(s, i) {
        Ok((table, end)) => {
            return Ok((IdentifierValues::Table(table), end));
        },
        Err(e) => {
            if !e.is_no_match() {
                return Err(e);
            }
        },
    }
    match function_at(s, i) {
        Ok((function, end)) => {
            return Ok((IdentifierValues::Function(function), end));
        },
        Err(e) => {
            if !e.is_no_match() {
                return Err(e);
            }
        },
    }
    match return_end(s, i) {
        Ok(end) => Ok((IdentifierValues::Return(text_of(s, i, end)), end)),
        Err(_) => Err(ParseError::no_match(i)),
    }
}

/// The name as mathematics sees it, if there is one.
pub open spec fn name_view(name: Option<String>) -> Option<Seq<char>> {
    match name {
        Some(name) => Some(name@),
        None => None,
    }
}

/// Makes the binding of a value with the name that was written, if one was.
fn bind(name: Option<String>, value: IdentifierValues) -> (r: Option<Identifier>)
    ensures
        match spec_bind(name_view(name), value@) {
            Some(identifier) => r matches Some(found) && found@ == identifier,
            None => r.is_none(),
        },
{
    match value {
        IdentifierValues::Function(function) => {
            let name = function.name.clone();
            Some(Identifier { name, value: IdentifierValues::Function(function) })
        },
        IdentifierValues::Return(text) => {
            let name = "Return".to_owned();
            Some(Identifier { name, value: IdentifierValues::Return(text) })
        },
        IdentifierValues::Table(table) => match name {
            Some(name) => {
                let ghost members = table@.members;
                let renamed = Table { name: name.clone(), members: table.members };
                assert(renamed@.members =~= members);
                Some(Identifier { name, value: IdentifierValues::Table(renamed) })
            },
            None => None,
        },
        other => match name {
            Some(name) => Some(Identifier { name, value: other }),
            None => None,
        },
    }
}

/// Makes the binding of a value that was read, and skips the blanks behind
/// the value.
fn bound(
    s: &[char],
    name: Option<String>,
    at_name: usize,
    value: Result<(IdentifierValues, usize), ParseError>,
) -> (r: Result<(Identifier, usize), ParseError>)
    requires
        value matches Ok((_, end)) ==> end <= s.len(),
    ensures
        match value {
            Ok((value, end)) => agrees(
                r,
                spec_bound(
                    s@,
                    name_view(name),
                    at_name as int,
                    Ok::<(ValueView, int), Failure>((value@, end as int)),
                ),
            ),
            Err(e) => r == Err::<(Identifier, usize), ParseError>(e),
        },
        (value matches Ok((_, end)) && r is Ok) ==> r->Ok_0.1 >= value->Ok_0.1 && r->Ok_0.1
            <= s.len(),
{
    match value {
        Ok((value, end)) => match bind(name, value) {
            Some(identifier) => Ok((identifier, run_end(s, end, CharClass::Blank))),
            None => Err(ParseError::no_match(at_name)),
        },
        Err(e) => Err(e),
    }
}

/// Reads a binding at offset `i`.
pub(crate) fn identifier_at(s: &[char], i: usize) -> (r: Result<(Identifier, usize), ParseError>)
    requires
        i <= s.len(),
    ensures
        agrees(r, spec_identifier(s@, i as int)),
        r matches Ok((_, e)) ==> i < e <= s.len(),
    decreases s.len() - i, 3int,
{
    let at_name = match local_end(s, i) {
        Ok(end) => end,
        Err(_) => i,
    };
    match name_end(s, at_name) {
        Ok(name_end) => {
            let at_value = equals_end(s, name_end);
            let name = text_of(s, at_name, name_end);
            match bound(s, Some(name), at_name, value_at(s, at_value)) {
                Ok(found) => Ok(found),
                Err(e) => {
                    if !e.is_no_match() {
                        return Err(e);
                    }
                    match bound(s, None, at_name, value_at(s, at_name)) {
                        Ok(found) => Ok(found),
                        Err(g) => {
                            if g.is_no_match() {
                                Err(e)
                            } else {
                                Err(g)
                            }
                        },
                    }
                },
            }
        },
        Err(_) => bound(s, None, at_name, value_at(s, at_name)),
    }
}

/// Reads the bindings that follow one another from offset `i`.
pub(crate) fn identifiers_at(s: &[char], i: usize) -> (r: Result<(Vec<Identifier>, usize), ParseError>)
    requires
        i <= s.len(),
    ensures
        match spec_identifiers(s@, i as int) {
            Ok((identifiers, end)) => r matches Ok((v, e)) && identifier_views(v@) == identifiers
                && e == end && i <= e <= s.len(),
            Err(f) => r matches Err(e) && e@ == f,
        },
    decreases s.len() - i, 4int,
{
    let mut found: Vec<Identifier> = Vec::new();
    let mut p: usize = i;
    proof {
        assert(identifier_views(found@) =~= Seq::<IdentifierView>::empty());
        match spec_identifiers(s@, i as int) {
            Ok((rest, _)) => {
                assert(Seq::<IdentifierView>::empty() + rest =~= rest);
            },
            Err(_) => {},
        }
    }
    loop
        invariant
            i <= p <= s.len(),
            spec_identifiers(s@, i as int) == prepend(
                identifier_views(found@),
                spec_identifiers(s@, p as int),
            ),
        decreases s.len() - p,
    {
        match identifier_at(s, p) {
            Ok((identifier, end)) => {
                proof {
                    let front = identifier_views(found@);
                    lemma_prepend_push(front, identifier@, spec_identifiers(s@, end as int));
                    assert(identifier_views(found@.push(identifier)) =~= front.push(identifier@));
                }
                found.push(identifier);
                p = end;
            },
            Err(e) => {
                proof {
                    assert(identifier_views(found@) + Seq::<IdentifierView>::empty()
                        =~= identifier_views(found@));
                }
                if e.is_no_match() {
                    return Ok((found, p));
                } else {
                    return Err(e);
                }
            },
        }
    }
}

/// Parses a value at the start of `input`.
pub fn parse_identifier_value(input: &str) -> (r: Result<(&str, IdentifierValues), ParseError>)
    ensures
        delivers(input@, r, spec_value(input@, 0)),
{
    let chars = to_chars(input);
    match value_at(chars.as_slice(), 0) {
        Ok((value, end)) => Ok((slice_of(input, end, chars.len()), value)),
        Err(e) => Err(e),
    }
}

/// Parses a binding at the start of `input`.
pub fn parse_identifier(input: &str) -> (r: Result<(&str, Identifier), ParseError>)
    ensures
        delivers(input@, r, spec_identifier(input@, 0)),
{
    let chars = to_chars(input);
    match identifier_at(chars.as_slice(), 0) {
        Ok((value, end)) => Ok((slice_of(input, end, chars.len()), value)),
        Err(e) => Err(e),
    }
}

/// Parses the separator between a name and its value. It may be empty, so
/// this parse succeeds on every input.
pub fn parse_equals(input: &str) -> (r: Result<(&str, &str), ParseError>)
    ensures
        delivers(
            input@,
            r,
            spec_span(input@, 0, Ok::<int, Failure>(spec_equals_end(input@, 0))),
        ),
{
    let chars = to_chars(input);
    let end = equals_end(chars.as_slice(), 0);
    Ok((slice_of(input, end, chars.len()), slice_of(input, 0, end)))
}

/// Parses a return statement and yields its whole text.
pub fn parse_return(input: &str) -> (r: Result<(&str, &str), ParseError>)
    ensures
        delivers(input@, r, spec_span(input@, 0, spec_return_end(input@, 0))),
{
    let chars = to_chars(input);
    match return_end(chars.as_slice(), 0) {
        Ok(end) => Ok((slice_of(input, end, chars.len()), slice_of(input, 0, end))),
        Err(e) => Err(e),
    }
}

/// Parses a name.
pub fn parse_name(input: &str) -> (r: Result<(&str, &str), ParseError>)
    ensures
        delivers(input@, r, spec_span(input@, 0, spec_name_end(input@, 0))),
{
    let chars = to_chars(input);
    match name_end(chars.as_slice(), 0) {
        Ok(end) => Ok((slice_of(input, end, chars.len()), slice_of(input, 0, end))),
        Err(e) => Err(e),
    }
}

/// Parses the prefix `local` and the one space behind it, and yields the
/// two.
pub fn parse_local(input: &str) -> (r: Result<(&str, (&str, &str)), ParseError>)
    ensures
        match spec_local_end(input@, 0) {
            Ok(end) => r matches Ok((rest, (word, space))) && rest@ == input@.skip(6) && word@
                == "local"@ && space@ == " "@,
            Err(f) => r matches Err(e) && e@ == f,
        },
{
    proof {
        reveal_strlit("local");
        reveal_strlit(" ");
    }
    let chars = to_chars(input);
    match local_end(chars.as_slice(), 0) {
        Ok(end) => Ok(
            (slice_of(input, end, chars.len()), (slice_of(input, 0, 5), slice_of(input, 5, 6))),
        ),
        Err(e) => Err(e),
    }
}

/// Parses a name and the separator behind it, and yields the name.
pub fn identifier_name(input: &str) -> (r: Result<(&str, &str), ParseError>)
    ensures
        delivers(input@, r, spec_identifier_name(input@, 0)),
{
    let chars = to_chars(input);
    match name_end(chars.as_slice(), 0) {
        Ok(end) => {
            let behind = equals_end(chars.as_slice(), end);
            Ok((slice_of(input, behind, chars.len()), slice_of(input, 0, end)))
        },
        Err(e) => Err(e),
    }
}

} // verus!
