use crate::bindings::BindingMap;
use crate::error::{malformed, no_match, Failure, ParseError};
use crate::identifier_parser::{
    identifiers_at, lemma_identifiers_end, lemma_word_end, name_end, spec_identifiers,
    spec_name_end,
};
use crate::model::{fold_bindings, ArgumentView, FunctionView};
use crate::outcome::{agrees, delivers, lemma_prepend_push, prepend};
use crate::text::{
    find, has_tag, in_class, lemma_run_end, lower_text, run_end, slice_of, spec_find,
    spec_has_tag, spec_in_class, spec_lower_text, spec_run_end, spec_trim, text_of, to_chars,
    trim_bounds, CharClass,
};
use crate::types::{keyword, spec_resolve, Types};
use vstd::prelude::*;
use vstd::slice::slice_subrange;

verus! {

/// One declared argument of a function: its name and its declared type.
#[derive(Debug)]
pub struct FunctionArguments {
    pub name: String,
    pub function_type: Types,
}

/// A function definition: its name, its return type, its arguments in the
/// order of their declaration, and the bindings of its body.
#[derive(Debug)]
pub struct Function {
    pub name: String,
    pub return_type: Types,
    pub arguments: Vec<FunctionArguments>,
    pub identifiers: BindingMap,
}

impl View for FunctionArguments {
    type V = ArgumentView;

    open spec fn view(&self) -> ArgumentView {
        ArgumentView { name: self.name@, function_type: self.function_type }
    }
}

/// The arguments as mathematics sees them, in their order.
pub open spec fn argument_views(arguments: Seq<FunctionArguments>) -> Seq<ArgumentView> {
    arguments.map_values(|a: FunctionArguments| a@)
}

impl View for Function {
    type V = FunctionView;

    open spec fn view(&self) -> FunctionView
        decreases self, 0int,
    {
        FunctionView {
            name: self.name@,
            return_type: self.return_type,
            arguments: argument_views(self.arguments@),
            identifiers: self.identifiers@,
        }
    }
}

impl PartialEq for FunctionArguments {
    fn eq(&self, other: &FunctionArguments) -> (r: bool) {
        self.name == other.name && self.function_type == other.function_type
    }
}

impl vstd::std_specs::cmp::PartialEqSpecImpl for FunctionArguments {
    open spec fn obeys_eq_spec() -> bool {
        true
    }

    open spec fn eq_spec(&self, other: &FunctionArguments) -> bool {
        self@ == other@
    }
}

impl PartialEq for Function {
    fn eq(&self, other: &Function) -> (r: bool)
        decreases self,
    {
        if self.name != other.name || self.return_type != other.return_type {
            return false;
        }
        if self.arguments.len() != other.arguments.len() {
            assert(argument_views(self.arguments@).len() != argument_views(other.arguments@).len());
            return false;
        }
        let mut k: usize = 0;
        while k < self.arguments.len()
            invariant
                k <= self.arguments.len(),
                self.arguments.len() == other.arguments.len(),
                forall|j: int| 0 <= j < k ==> self.arguments@[j]@ == other.arguments@[j]@,
            decreases self.arguments.len() - k,
        {
            if !self.arguments[k].eq(&other.arguments[k]) {
                assert(argument_views(self.arguments@)[k as int] != argument_views(
                    other.arguments@,
                )[k as int]);
                return false;
            }
            k += 1;
        }
        assert(argument_views(self.arguments@) =~= argument_views(other.arguments@));
        self.identifiers.eq(&other.identifiers)
    }
}

impl vstd::std_specs::cmp::PartialEqSpecImpl for Function {
    open spec fn obeys_eq_spec() -> bool {
        true
    }

    open spec fn eq_spec(&self, other: &Function) -> bool {
        self@ == other@
    }
}

impl Clone for FunctionArguments {
    fn clone(&self) -> (r: Self)
        ensures
            r@ == self@,
    {
        FunctionArguments { name: self.name.clone(), function_type: self.function_type }
    }
}

impl Clone for Function {
    fn clone(&self) -> (r: Self)
        ensures
            r@ == self@,
        decreases self,
    {
        let mut arguments: Vec<FunctionArguments> = Vec::new();
        let mut k: usize = 0;
        while k < self.arguments.len()
            invariant
                k <= self.arguments.len(),
                arguments@.len() == k,
                forall|j: int| 0 <= j < k ==> (#[trigger] arguments@[j])@ == self.arguments@[j]@,
            decreases self.arguments.len() - k,
        {
            arguments.push(self.arguments[k].clone());
            k += 1;
        }
        assert(argument_views(arguments@) =~= argument_views(self.arguments@));
        Function {
            name: self.name.clone(),
            return_type: self.return_type,
            arguments,
            identifiers: self.identifiers.clone(),
        }
    }
}

/// Where the text of an argument that starts at `i` ends: letters, digits,
/// underscores and colons in any number and order, and one space where it
/// follows a colon.
pub open spec fn spec_argument_end(s: Seq<char>, i: int) -> int
    decreases s.len() - i,
{
    if 0 <= i < s.len() && spec_in_class(s[i], CharClass::Word) {
        spec_argument_end(s, i + 1)
    } else if 0 <= i < s.len() && s[i] == ':' {
        if i + 1 < s.len() && s[i + 1] == ' ' {
            spec_argument_end(s, i + 2)
        } else {
            spec_argument_end(s, i + 1)
        }
    } else {
        i
    }
}

/// Where the type of an argument's text ends, given the offset of its first
/// colon: at the next colon, or at the end of the text.
pub open spec fn spec_type_end(t: Seq<char>, colon: int) -> int {
    match spec_find(t, colon + 1, ":"@) {
        Some(next) => next,
        None => t.len() as int,
    }
}

/// The argument that a text declares. Without a colon the text, trimmed, is
/// the name, and the type is `Any`. With one, the name is what stands before
/// the first colon, trimmed; the type is what stands behind it, up to the
/// next colon if there is one, trimmed, put in lower case and resolved.
pub open spec fn spec_argument(t: Seq<char>) -> ArgumentView {
    match spec_find(t, 0, ":"@) {
        Some(colon) => ArgumentView {
            name: spec_trim(t.subrange(0, colon)),
            function_type: spec_resolve(
                spec_lower_text(spec_trim(t.subrange(colon + 1, spec_type_end(t, colon)))),
            ),
        },
        None => ArgumentView { name: spec_trim(t), function_type: Types::Any },
    }
}

/// True when the text has a colon with nothing but white space before it,
/// or with nothing but white space between it and the next colon or the
/// end.
pub open spec fn spec_argument_malformed(t: Seq<char>) -> bool {
    match spec_find(t, 0, ":"@) {
        Some(colon) => spec_trim(t.subrange(0, colon)).len() == 0 || spec_trim(
            t.subrange(colon + 1, spec_type_end(t, colon)),
        ).len() == 0,
        None => false,
    }
}

/// One or more arguments, separated by commas and closed by a parenthesis,
/// each with blanks around it in any number. An argument without text is a
/// failure to match; one whose text is malformed is a malformed literal.
pub open spec fn spec_arguments(s: Seq<char>, i: int) -> Result<(Seq<ArgumentView>, int), Failure>
    decreases s.len() - i,
    when 0 <= i <= s.len()
{
    let from = spec_run_end(s, i, CharClass::Blank);
    let to = spec_argument_end(s, from);
    let behind = spec_run_end(s, to, CharClass::Blank);
    if to == from {
        Err(no_match(from))
    } else if spec_argument_malformed(s.subrange(from, to)) {
        Err(malformed(from))
    } else if i <= behind < s.len() && s[behind] == ',' {
        prepend(seq![spec_argument(s.subrange(from, to))], spec_arguments(s, behind + 1))
    } else if 0 <= behind < s.len() && s[behind] == ')' {
        Ok((seq![spec_argument(s.subrange(from, to))], behind + 1))
    } else {
        Err(no_match(behind))
    }
}

/// The arguments of a header, read from behind its opening parenthesis:
/// none, where only blanks stand before the closing parenthesis, or one or
/// more.
pub open spec fn spec_argument_list(s: Seq<char>, i: int) -> Result<
    (Seq<ArgumentView>, int),
    Failure,
> {
    let from = spec_run_end(s, i, CharClass::Blank);
    if 0 <= from < s.len() && s[from] == ')' {
        Ok((Seq::empty(), from + 1))
    } else {
        spec_arguments(s, i)
    }
}

/// The return type that is declared at `i`, and the offset behind the
/// declaration: a colon, one space or none, and letters, which are resolved
/// as they are written. Where the text at `i` is no such declaration, the
/// type is `Any` and the offset is `i`.
pub open spec fn spec_return_type(s: Seq<char>, i: int) -> (Types, int) {
    if 0 <= i < s.len() && s[i] == ':' {
        let from = if i + 1 < s.len() && s[i + 1] == ' ' {
            i + 2
        } else {
            i + 1
        };
        let to = spec_run_end(s, from, CharClass::Letter);
        if to > from {
            (spec_resolve(s.subrange(from, to)), to)
        } else {
            (Types::Any, i)
        }
    } else {
        (Types::Any, i)
    }
}

/// The header of a function at offset `i`: the word `function`, one space,
/// a name, the arguments in parentheses, a return type or none, and blanks
/// in any number. The function it yields has no bindings.
pub open spec fn spec_function_definition(s: Seq<char>, i: int) -> Result<
    (FunctionView, int),
    Failure,
> {
    if !spec_has_tag(s, i, "function"@) {
        Err(no_match(i))
    } else if !spec_has_tag(s, i + 8, " "@) {
        Err(no_match(i + 8))
    } else {
        match spec_name_end(s, i + 9) {
            Ok(name_end) => if 0 <= name_end < s.len() && s[name_end] == '(' {
                match spec_argument_list(s, name_end + 1) {
                    Ok((arguments, behind)) => Ok(
                        (
                            FunctionView {
                                name: s.subrange(i + 9, name_end),
                                return_type: spec_return_type(s, behind).0,
                                arguments,
                                identifiers: Map::empty(),
                            },
                            spec_run_end(s, spec_return_type(s, behind).1, CharClass::Blank),
                        ),
                    ),
                    Err(f) => Err(f),
                }
            } else {
                Err(no_match(name_end))
            },
            Err(f) => Err(f),
        }
    }
}

/// A list of arguments ends inside the text, behind its start.
pub proof fn lemma_arguments(s: Seq<char>, i: int)
    requires
        0 <= i <= s.len(),
    ensures
        spec_arguments(s, i) matches Ok((_, end)) ==> i < end <= s.len(),
        spec_argument_list(s, i) matches Ok((_, end)) ==> i < end <= s.len(),
    decreases s.len() - i,
{
    let from = spec_run_end(s, i, CharClass::Blank);
    lemma_run_end(s, i, CharClass::Blank);
    let to = spec_argument_end(s, from);
    lemma_argument_end(s, from);
    let behind = spec_run_end(s, to, CharClass::Blank);
    lemma_run_end(s, to, CharClass::Blank);
    if behind < s.len() && s[behind] == ',' {
        lemma_arguments(s, behind + 1);
    }
}

/// A return type ends inside the text, at or behind its start.
pub proof fn lemma_return_type(s: Seq<char>, i: int)
    requires
        0 <= i <= s.len(),
    ensures
        i <= spec_return_type(s, i).1 <= s.len(),
{
    if i < s.len() && s[i] == ':' {
        if i + 1 < s.len() && s[i + 1] == ' ' {
            lemma_run_end(s, i + 2, CharClass::Letter);
        } else {
            lemma_run_end(s, i + 1, CharClass::Letter);
        }
    }
}

/// A header ends inside the text, behind its start.
pub proof fn lemma_function_definition(s: Seq<char>, i: int)
    requires
        0 <= i <= s.len(),
    ensures
        spec_function_definition(s, i) matches Ok((_, end)) ==> i < end <= s.len(),
{
    reveal_strlit("function");
    reveal_strlit(" ");
    if spec_function_definition(s, i) is Ok {
        lemma_word_end(s, i + 9);
        let name_end = spec_name_end(s, i + 9)->Ok_0;
        lemma_arguments(s, name_end + 1);
        let behind = spec_argument_list(s, name_end + 1)->Ok_0.1;
        lemma_return_type(s, behind);
        lemma_run_end(s, spec_return_type(s, behind).1, CharClass::Blank);
    }
}

/// A function at offset `i`: its header, and the bindings that follow it, as
/// many as there are, entered into its scope in their order. No closing
/// keyword is asked for.
pub open spec fn spec_function(s: Seq<char>, i: int) -> Result<(FunctionView, int), Failure>
    decreases s.len() - i, 1int,
    when 0 <= i <= s.len()
{
    match spec_function_definition(s, i) {
        Ok((header, body)) => {
            proof {
                lemma_function_definition(s, i);
            }
            match spec_identifiers(s, body) {
                Ok((identifiers, end)) => Ok(
                    (
                        FunctionView {
                            name: header.name,
                            return_type: header.return_type,
                            arguments: header.arguments,
                            identifiers: fold_bindings(identifiers),
                        },
                        end,
                    ),
                ),
                Err(f) => Err(f),
            }
        },
        Err(f) => Err(f),
    }
}

/// A function ends inside the text, behind its start.
pub proof fn lemma_function_consumes(s: Seq<char>, i: int)
    requires
        0 <= i <= s.len(),
    ensures
        spec_function(s, i) matches Ok((_, end)) ==> i < end <= s.len(),
    decreases s.len() - i, 1int,
{
    lemma_function_definition(s, i);
    match spec_function_definition(s, i) {
        Ok((_, body)) => {
            lemma_identifiers_end(s, body);
        },
        Err(_) => {},
    }
}

/// An argument's text ends inside the text, at or after its start.
pub proof fn lemma_argument_end(s: Seq<char>, i: int)
    requires
        0 <= i <= s.len(),
    ensures
        i <= spec_argument_end(s, i) <= s.len(),
    decreases s.len() - i,
{
    if i < s.len() && spec_in_class(s[i], CharClass::Word) {
        lemma_argument_end(s, i + 1);
    } else if i < s.len() && s[i] == ':' {
        if i + 1 < s.len() && s[i + 1] == ' ' {
            lemma_argument_end(s, i + 2);
        } else {
            lemma_argument_end(s, i + 1);
        }
    }
}

fn argument_end(s: &[char], i: usize) -> (e: usize)
    requires
        i <= s.len(),
    ensures
        e == spec_argument_end(s@, i as int),
        i <= e <= s.len(),
{
    let mut e: usize = i;
    loop
        invariant
            i <= e <= s.len(),
            spec_argument_end(s@, i as int) == spec_argument_end(s@, e as int),
        decreases s.len() - e,
    {
        if e < s.len() && in_class(s[e], CharClass::Word) {
            e += 1;
        } else if e < s.len() && s[e] == ':' {
            if e + 1 < s.len() && s[e + 1] == ' ' {
                e += 2;
            } else {
                e += 1;
            }
        } else {
            return e;
        }
    }
}

/// The type that the text `t` resolves to, once trimmed and put in lower
/// case.
fn resolve_trimmed(t: &[char]) -> (ty: Types)
    ensures
        ty == spec_resolve(spec_lower_text(spec_trim(t@))),
{
    let (from, to) = trim_bounds(t);
    let lowered = lower_text(slice_subrange(t, from, to));
    match keyword(lowered.as_slice()) {
        Some(ty) => ty,
        None => Types::Any,
    }
}

/// The text `t`, trimmed.
fn trimmed(t: &[char]) -> (r: String)
    ensures
        r@ == spec_trim(t@),
{
    let (from, to) = trim_bounds(t);
    text_of(t, from, to)
}

/// The bounds of the type in an argument's text, given the offset of its
/// first colon.
fn type_end(t: &[char], colon: usize) -> (e: usize)
    requires
        colon < t.len(),
    ensures
        e == spec_type_end(t@, colon as int),
        colon < e <= t.len(),
{
    match find(t, colon + 1, ":") {
        Some(next) => next,
        None => t.len(),
    }
}

/// Reads the argument that the text `t` declares.
pub(crate) fn argument_of(t: &[char]) -> (r: FunctionArguments)
    ensures
        r@ == spec_argument(t@),
{
    proof {
        reveal_strlit(":");
    }
    match find(t, 0, ":") {
        Some(colon) => {
            let end = type_end(t, colon);
            FunctionArguments {
                name: trimmed(slice_subrange(t, 0, colon)),
                function_type: resolve_trimmed(slice_subrange(t, colon + 1, end)),
            }
        },
        None => FunctionArguments { name: trimmed(t), function_type: Types::Any },
    }
}

/// Tells whether the text `t` has a colon with no name before it or no
/// type behind it.
pub(crate) fn argument_malformed(t: &[char]) -> (b: bool)
    ensures
        b == spec_argument_malformed(t@),
{
    proof {
        reveal_strlit(":");
    }
    match find(t, 0, ":") {
        Some(colon) => {
            let end = type_end(t, colon);
            let (name_from, name_to) = trim_bounds(slice_subrange(t, 0, colon));
            let (type_from, type_to) = trim_bounds(slice_subrange(t, colon + 1, end));
            name_from == name_to || type_from == type_to
        },
        None => false,
    }
}

/// Reads the arguments that the texts declare, one for each text and in
/// their order. A text that is malformed still gives an argument: its name
/// may be empty, and a type that is missing or unknown is `Any`.
pub fn parse_arguments(args: Vec<String>) -> (r: Vec<FunctionArguments>)
    ensures
        r@.len() == args@.len(),
        forall|k: int| 0 <= k < r@.len() ==> (#[trigger] r@[k])@ == spec_argument(args@[k]@),
{
    let mut r: Vec<FunctionArguments> = Vec::new();
    let mut k: usize = 0;
    while k < args.len()
        invariant
            k <= args.len(),
            r@.len() == k,
            forall|j: int| 0 <= j < k ==> (#[trigger] r@[j])@ == spec_argument(args@[j]@),
        decreases args.len() - k,
    {
        let chars = to_chars(args[k].as_str());
        r.push(argument_of(chars.as_slice()));
        k += 1;
    }
    r
}

/// Reads one or more arguments, up to the closing parenthesis.
fn arguments_at(s: &[char], i: usize) -> (r: Result<(Vec<FunctionArguments>, usize), ParseError>)
    requires
        i <= s.len(),
    ensures
        match spec_arguments(s@, i as int) {
            Ok((arguments, end)) => r matches Ok((v, e)) && argument_views(v@) == arguments && e
                == end && i < e <= s.len(),
            Err(f) => r matches Err(e) && e@ == f,
        },
{
    let mut arguments: Vec<FunctionArguments> = Vec::new();
    let mut p: usize = i;
    proof {
        assert(argument_views(arguments@) =~= Seq::<ArgumentView>::empty());
        match spec_arguments(s@, i as int) {
            Ok((rest, end)) => {
                assert(Seq::<ArgumentView>::empty() + rest =~= rest);
            },
            Err(_) => {},
        }
    }
    loop
        invariant
            i <= p <= s.len(),
            spec_arguments(s@, i as int) == prepend(
                argument_views(arguments@),
                spec_arguments(s@, p as int),
            ),
        decreases s.len() - p,
    {
        let from = run_end(s, p, CharClass::Blank);
        let to = argument_end(s, from);
        let behind = run_end(s, to, CharClass::Blank);
        if to == from {
            return Err(ParseError::no_match(from));
        }
        let text = slice_subrange(s, from, to);
        if argument_malformed(text) {
            return Err(ParseError::malformed(from));
        }
        if behind < s.len() && s[behind] == ',' {
            let ghost front = argument_views(arguments@);
            let argument = argument_of(text);
            proof {
                lemma_prepend_push(front, argument@, spec_arguments(s@, behind + 1));
                assert(argument_views(arguments@.push(argument)) =~= front.push(argument@));
            }
            arguments.push(argument);
            p = behind + 1;
        } else if behind < s.len() && s[behind] == ')' {
            let ghost front = argument_views(arguments@);
            let argument = argument_of(text);
            proof {
                assert(argument_views(arguments@.push(argument)) =~= front + seq![argument@]);
            }
            arguments.push(argument);
            return Ok((arguments, behind + 1));
        } else {
            return Err(ParseError::no_match(behind));
        }
    }
}

/// Reads the arguments of a header, from behind its opening parenthesis.
fn argument_list_at(s: &[char], i: usize) -> (r: Result<
    (Vec<FunctionArguments>, usize),
    ParseError,
>)
    requires
        i <= s.len(),
    ensures
        match spec_argument_list(s@, i as int) {
            Ok((arguments, end)) => r matches Ok((v, e)) && argument_views(v@) == arguments && e
                == end && i < e <= s.len(),
            Err(f) => r matches Err(e) && e@ == f,
        },
{
    let from = run_end(s, i, CharClass::Blank);
    if from < s.len() && s[from] == ')' {
        let arguments: Vec<FunctionArguments> = Vec::new();
        assert(argument_views(arguments@) =~= Seq::<ArgumentView>::empty());
        Ok((arguments, from + 1))
    } else {
        arguments_at(s, i)
    }
}

/// Reads the return type that is declared at offset `i`, if one is.
fn return_type_at(s: &[char], i: usize) -> (r: (Types, usize))
    requires
        i <= s.len(),
    ensures
        r.0 == spec_return_type(s@, i as int).0,
        r.1 == spec_return_type(s@, i as int).1,
        i <= r.1 <= s.len(),
{
    if i < s.len() && s[i] == ':' {
        let from = if i + 1 < s.len() && s[i + 1] == ' ' {
            i + 2
        } else {
            i + 1
        };
        let to = run_end(s, from, CharClass::Letter);
        if to > from {
            let ty = match keyword(slice_subrange(s, from, to)) {
                Some(ty) => ty,
                None => Types::Any,
            };
            (ty, to)
        } else {
            (Types::Any, i)
        }
    } else {
        (Types::Any, i)
    }
}

/// Reads the header of a function at offset `i`.
pub(crate) fn function_definition_at(s: &[char], i: usize) -> (r: Result<(Function, usize), ParseError>)
    requires
        i <= s.len(),
    ensures
        agrees(r, spec_function_definition(s@, i as int)),
        r matches Ok((_, e)) ==> i + 9 < e <= s.len(),
{
    proof {
        reveal_strlit("function");
        reveal_strlit(" ");
    }
    if !has_tag(s, i, "function") {
        return Err(ParseError::no_match(i));
    }
    if !has_tag(s, i + 8, " ") {
        return Err(ParseError::no_match(i + 8));
    }
    let named = match name_end(s, i + 9) {
        Ok(end) => end,
        Err(e) => {
            return Err(e);
        },
    };
    if !(named < s.len() && s[named] == '(') {
        return Err(ParseError::no_match(named));
    }
    let (arguments, behind) = match argument_list_at(s, named + 1) {
        Ok(found) => found,
        Err(e) => {
            return Err(e);
        },
    };
    let (return_type, typed) = return_type_at(s, behind);
    let end = run_end(s, typed, CharClass::Blank);
    let function = Function {
        name: text_of(s, i + 9, named),
        return_type,
        arguments,
        identifiers: BindingMap::new(),
    };
    Ok((function, end))
}

/// Reads a function at offset `i`.
pub(crate) fn function_at(s: &[char], i: usize) -> (r: Result<(Function, usize), ParseError>)
    requires
        i <= s.len(),
    ensures
        agrees(r, spec_function(s@, i as int)),
        r matches Ok((_, e)) ==> i < e <= s.len(),
    decreases s.len() - i, 1int,
{
    let (header, body) = match function_definition_at(s, i) {
        Ok(found) => found,
        Err(e) => {
            return Err(e);
        },
    };
    let (identifiers, end) = match identifiers_at(s, body) {
        Ok(found) => found,
        Err(e) => {
            return Err(e);
        },
    };
    let function = Function {
        name: header.name,
        return_type: header.return_type,
        arguments: header.arguments,
        identifiers: BindingMap::collect(identifiers),
    };
    Ok((function, end))
}

/// Parses a function at the start of `input`: its header, and the bindings
/// that follow it.
pub fn parse_function(input: &str) -> (r: Result<(&str, Function), ParseError>)
    ensures
        delivers(input@, r, spec_function(input@, 0)),
{
    let chars = to_chars(input);
    match function_at(chars.as_slice(), 0) {
        Ok((value, end)) => Ok((slice_of(input, end, chars.len()), value)),
        Err(e) => Err(e),
    }
}

/// Parses the header of a function at the start of `input`, and yields the
/// function without bindings.
pub fn parse_function_definition(input: &str) -> (r: Result<(&str, Function), ParseError>)
    ensures
        delivers(input@, r, spec_function_definition(input@, 0)),
{
    let chars = to_chars(input);
    match function_definition_at(chars.as_slice(), 0) {
        Ok((value, end)) => Ok((slice_of(input, end, chars.len()), value)),
        Err(e) => Err(e),
    }
}

} // verus!
