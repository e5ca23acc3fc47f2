use crate::error::{no_match, Failure, ParseError};
use crate::outcome::{agrees, delivers};
use crate::text::{
    is_digit, lemma_run_end, lemma_run_exact, run_end, slice_of, spec_in_class, spec_is_digit,
    spec_run_end, to_chars, CharClass,
};
use vstd::prelude::*;

verus! {

/// A numeric literal as it was written, its digit separators taken out.
/// The text is what a conversion to a machine number reads.
#[derive(Debug, Eq)]
pub struct NumberLiteral {
    pub text: String,
}

impl View for NumberLiteral {
    type V = Seq<char>;

    open spec fn view(&self) -> Seq<char> {
        self.text@
    }
}

impl PartialEq for NumberLiteral {
    fn eq(&self, other: &NumberLiteral) -> (r: bool) {
        self.text == other.text
    }
}

impl vstd::std_specs::cmp::PartialEqSpecImpl for NumberLiteral {
    open spec fn obeys_eq_spec() -> bool {
        true
    }

    open spec fn eq_spec(&self, other: &NumberLiteral) -> bool {
        self@ == other@
    }
}

impl Clone for NumberLiteral {
    fn clone(&self) -> (r: Self)
        ensures
            r@ == self@,
    {
        NumberLiteral { text: self.text.clone() }
    }
}

/// Where a decimal that starts at `i` ends: a digit, then digits and
/// underscores in any number.
pub open spec fn spec_decimal(s: Seq<char>, i: int) -> Option<int> {
    if 0 <= i < s.len() && spec_is_digit(s[i]) {
        Some(spec_run_end(s, i, CharClass::DigitOrUnderscore))
    } else {
        None
    }
}

/// Where an exponent that starts at `i` ends: `e` or `E`, a sign or none,
/// and a decimal.
pub open spec fn spec_exponent(s: Seq<char>, i: int) -> Option<int> {
    if 0 <= i < s.len() && (s[i] == 'e' || s[i] == 'E') {
        if i + 1 < s.len() && (s[i + 1] == '+' || s[i + 1] == '-') {
            spec_decimal(s, i + 2)
        } else {
            spec_decimal(s, i + 1)
        }
    } else {
        None
    }
}

/// The first shape: a dot, a decimal, and an exponent or none.
pub open spec fn spec_leading_dot(s: Seq<char>, i: int) -> Option<int> {
    if 0 <= i < s.len() && s[i] == '.' {
        match spec_decimal(s, i + 1) {
            Some(fraction) => match spec_exponent(s, fraction) {
                Some(end) => Some(end),
                None => Some(fraction),
            },
            None => None,
        }
    } else {
        None
    }
}

/// The second shape: a decimal, a dot with a decimal or neither, and an
/// exponent.
pub open spec fn spec_with_exponent(s: Seq<char>, i: int) -> Option<int> {
    match spec_decimal(s, i) {
        Some(whole) => if whole < s.len() && s[whole] == '.' && spec_decimal(s, whole + 1)
            is Some {
            spec_exponent(s, spec_decimal(s, whole + 1)->0)
        } else {
            spec_exponent(s, whole)
        },
        None => None,
    }
}

/// The third shape: a decimal, a dot, and a decimal or none.
pub open spec fn spec_with_dot(s: Seq<char>, i: int) -> Option<int> {
    match spec_decimal(s, i) {
        Some(whole) => if whole < s.len() && s[whole] == '.' {
            match spec_decimal(s, whole + 1) {
                Some(fraction) => Some(fraction),
                None => Some(whole + 1),
            }
        } else {
            None
        },
        None => None,
    }
}

/// Where a numeric literal that starts at `i` ends: the end of the first of
/// the four shapes, in their fixed order, that the text has there. The
/// fourth shape is a decimal alone.
pub open spec fn spec_number_end(s: Seq<char>, i: int) -> Option<int> {
    if spec_leading_dot(s, i) is Some {
        spec_leading_dot(s, i)
    } else if spec_with_exponent(s, i) is Some {
        spec_with_exponent(s, i)
    } else if spec_with_dot(s, i) is Some {
        spec_with_dot(s, i)
    } else {
        spec_decimal(s, i)
    }
}

/// True of every character but the digit separator.
pub open spec fn no_separator() -> spec_fn(char) -> bool {
    |c: char| c != '_'
}

/// The text of `s` from `from` up to `to`, the underscores left out.
pub open spec fn spec_plain(s: Seq<char>, from: int, to: int) -> Seq<char> {
    s.subrange(from, to).filter(no_separator())
}

/// A numeric literal at offset `i`: its text without the underscores, and
/// the offset behind it.
pub open spec fn spec_number(s: Seq<char>, i: int) -> Result<(Seq<char>, int), Failure> {
    match spec_number_end(s, i) {
        Some(end) => Ok((spec_plain(s, i, end), end)),
        None => Err(no_match(i)),
    }
}

/// A decimal ends inside the text, behind its start.
pub proof fn lemma_decimal(s: Seq<char>, i: int)
    requires
        0 <= i <= s.len(),
    ensures
        spec_decimal(s, i) matches Some(end) ==> i < end <= s.len(),
{
    if i < s.len() {
        lemma_run_end(s, i + 1, CharClass::DigitOrUnderscore);
    }
}

/// An exponent ends inside the text, behind its start.
pub proof fn lemma_exponent(s: Seq<char>, i: int)
    requires
        0 <= i <= s.len(),
    ensures
        spec_exponent(s, i) matches Some(end) ==> i < end <= s.len(),
{
    if i + 1 <= s.len() {
        lemma_decimal(s, i + 1);
    }
    if i + 2 <= s.len() {
        lemma_decimal(s, i + 2);
    }
}

/// A numeric literal ends inside the text, behind its start.
pub proof fn lemma_number_consumes(s: Seq<char>, i: int)
    requires
        0 <= i <= s.len(),
    ensures
        spec_number_end(s, i) matches Some(end) ==> i < end <= s.len(),
        spec_number(s, i) matches Ok((_, end)) ==> i < end <= s.len(),
{
    lemma_decimal(s, i);
    if i + 1 <= s.len() {
        lemma_decimal(s, i + 1);
        match spec_decimal(s, i + 1) {
            Some(fraction) => {
                lemma_exponent(s, fraction);
            },
            None => {},
        }
    }
    match spec_decimal(s, i) {
        Some(whole) => {
            lemma_exponent(s, whole);
            if whole + 1 <= s.len() {
                lemma_decimal(s, whole + 1);
                match spec_decimal(s, whole + 1) {
                    Some(fraction) => {
                        lemma_exponent(s, fraction);
                    },
                    None => {},
                }
            }
        },
        None => {},
    }
}

/// True when every character of the text is a digit.
pub open spec fn all_digits(u: Seq<char>) -> bool {
    forall|k: int| 0 <= k < u.len() ==> spec_is_digit(#[trigger] u[k])
}

proof fn lemma_plain_split(s: Seq<char>, a: int, m: int, b: int)
    requires
        0 <= a <= m <= b <= s.len(),
    ensures
        spec_plain(s, a, b) == spec_plain(s, a, m) + spec_plain(s, m, b),
{
    assert(s.subrange(a, b) =~= s.subrange(a, m) + s.subrange(m, b));
    Seq::filter_distributes_over_add(s.subrange(a, m), s.subrange(m, b), no_separator());
}

proof fn lemma_plain_one(s: Seq<char>, a: int)
    requires
        0 <= a < s.len(),
        s[a] != '_',
    ensures
        spec_plain(s, a, a + 1) == seq![s[a]],
{
    let none = Seq::<char>::empty();
    assert(s.subrange(a, a + 1) =~= none.push(s[a]));
    none.lemma_filter_push(s[a], no_separator());
    reveal(Seq::filter);
    assert(none.filter(no_separator()) =~= none);
    assert(none.push(s[a]) =~= seq![s[a]]);
}

proof fn lemma_plain_again(t: Seq<char>)
    requires
        forall|k: int| 0 <= k < t.len() ==> #[trigger] t[k] != '_',
    ensures
        t.filter(no_separator()) == t,
    decreases t.len(),
{
    reveal(Seq::filter);
    if t.len() > 0 {
        let front = t.drop_last();
        assert forall|k: int| 0 <= k < front.len() implies #[trigger] front[k] != '_' by {
            assert(front[k] == t[k]);
        }
        lemma_plain_again(front);
        assert(t[t.len() - 1] != '_');
        assert(front.push(t.last()) =~= t);
    }
}

proof fn lemma_plain_decimal(s: Seq<char>, i: int)
    requires
        0 <= i <= s.len(),
        spec_decimal(s, i) is Some,
    ensures
        spec_plain(s, i, spec_decimal(s, i)->0).len() >= 1,
        spec_plain(s, i, spec_decimal(s, i)->0)[0] == s[i],
        all_digits(spec_plain(s, i, spec_decimal(s, i)->0)),
{
    let d = spec_decimal(s, i)->0;
    lemma_decimal(s, i);
    lemma_run_end(s, i, CharClass::DigitOrUnderscore);
    lemma_plain_split(s, i, i + 1, d);
    lemma_plain_one(s, i);
    let u = spec_plain(s, i, d);
    let span = s.subrange(i, d);
    assert forall|k: int| 0 <= k < u.len() implies spec_is_digit(#[trigger] u[k]) by {
        span.lemma_filter_pred(no_separator(), k);
        assert(u.contains(u[k]));
        span.lemma_filter_contains_rev(no_separator(), u[k]);
        let j = choose|j: int| 0 <= j < span.len() && span[j] == u[k];
        assert(spec_in_class(s[i + j], CharClass::DigitOrUnderscore));
    }
}

proof fn lemma_decimal_again(u: Seq<char>, t: Seq<char>, p: int)
    requires
        (u.len() as int) >= 1,
        all_digits(u),
        0 <= p,
        p + (u.len() as int) <= t.len(),
        t.subrange(p, p + (u.len() as int)) == u,
        p + (u.len() as int) < t.len() ==> !spec_in_class(t[p + (u.len() as int)], CharClass::DigitOrUnderscore),
    ensures
        spec_decimal(t, p) == Some(p + (u.len() as int)),
{
    assert forall|k: int| p <= k < p + (u.len() as int) implies spec_in_class(
        #[trigger] t[k],
        CharClass::DigitOrUnderscore,
    ) by {
        assert(t[k] == t.subrange(p, p + (u.len() as int))[k - p]);
        assert(spec_is_digit(u[k - p]));
    }
    lemma_run_exact(t, p, p + (u.len() as int), CharClass::DigitOrUnderscore);
    assert(t[p] == t.subrange(p, p + (u.len() as int))[0]);
}

proof fn lemma_exponent_again(s: Seq<char>, x: int, t: Seq<char>, p: int)
    requires
        0 <= x <= s.len(),
        spec_exponent(s, x) is Some,
        0 <= p <= t.len(),
        t.subrange(p, t.len() as int) == spec_plain(s, x, spec_exponent(s, x)->0),
    ensures
        spec_exponent(t, p) == Some(t.len() as int),
{
    let e = spec_exponent(s, x)->0;
    let u = spec_plain(s, x, e);
    let tail = t.subrange(p, t.len() as int);
    lemma_exponent(s, x);
    lemma_plain_split(s, x, x + 1, e);
    lemma_plain_one(s, x);
    if x + 1 < s.len() && (s[x + 1] == '+' || s[x + 1] == '-') {
        lemma_decimal(s, x + 2);
        lemma_plain_decimal(s, x + 2);
        let digits = spec_plain(s, x + 2, e);
        let n = digits.len() as int;
        lemma_plain_split(s, x + 1, x + 2, e);
        lemma_plain_one(s, x + 1);
        assert(u =~= seq![s[x]] + (seq![s[x + 1]] + digits));
        assert(tail.len() == n + 2);
        assert(t[p] == tail[0]);
        assert(t[p + 1] == tail[1]);
        assert forall|k: int| 0 <= k < n implies t.subrange(p + 2, p + 2 + n)[k] == digits[k] by {
            assert(t[p + 2 + k] == tail[2 + k]);
        }
        assert(t.subrange(p + 2, p + 2 + n) =~= digits);
        lemma_decimal_again(digits, t, p + 2);
    } else {
        lemma_decimal(s, x + 1);
        lemma_plain_decimal(s, x + 1);
        let digits = spec_plain(s, x + 1, e);
        let n = digits.len() as int;
        assert(u =~= seq![s[x]] + digits);
        assert(tail.len() == n + 1);
        assert(t[p] == tail[0]);
        assert(t[p + 1] == tail[1]);
        assert forall|k: int| 0 <= k < n implies t.subrange(p + 1, p + 1 + n)[k] == digits[k] by {
            assert(t[p + 1 + k] == tail[1 + k]);
        }
        assert(t.subrange(p + 1, p + 1 + n) =~= digits);
        lemma_decimal_again(digits, t, p + 1);
    }
}

proof fn lemma_text_leading_dot(s: Seq<char>, i: int)
    requires
        0 <= i <= s.len(),
        spec_leading_dot(s, i) is Some,
    ensures
        spec_leading_dot(spec_plain(s, i, spec_leading_dot(s, i)->0), 0) == Some(
            spec_plain(s, i, spec_leading_dot(s, i)->0).len() as int,
        ),
{
    let end = spec_leading_dot(s, i)->0;
    let t = spec_plain(s, i, end);
    let f = spec_decimal(s, i + 1)->0;
    lemma_decimal(s, i + 1);
    lemma_plain_decimal(s, i + 1);
    let u = spec_plain(s, i + 1, f);
    let n = u.len() as int;
    lemma_plain_one(s, i);
    if spec_exponent(s, f) is Some {
        lemma_exponent(s, f);
        lemma_plain_split(s, i, i + 1, end);
        lemma_plain_split(s, i + 1, f, end);
        let x = spec_plain(s, f, end);
        lemma_plain_split(s, f, f + 1, end);
        lemma_plain_one(s, f);
        assert(t =~= seq!['.'] + (u + x));
        assert(t.subrange(1, 1 + n) =~= u);
        assert(t[1 + n] == x[0]);
        lemma_decimal_again(u, t, 1);
        assert(t.subrange(1 + n, t.len() as int) =~= x);
        lemma_exponent_again(s, f, t, 1 + n);
    } else {
        lemma_plain_split(s, i, i + 1, end);
        assert(t =~= seq!['.'] + u);
        assert(t.subrange(1, 1 + n) =~= u);
        lemma_decimal_again(u, t, 1);
    }
}

proof fn lemma_text_with_exponent(s: Seq<char>, i: int)
    requires
        0 <= i <= s.len(),
        spec_with_exponent(s, i) is Some,
    ensures
        spec_leading_dot(spec_plain(s, i, spec_with_exponent(s, i)->0), 0) is None,
        spec_with_exponent(spec_plain(s, i, spec_with_exponent(s, i)->0), 0) == Some(
            spec_plain(s, i, spec_with_exponent(s, i)->0).len() as int,
        ),
{
    let end = spec_with_exponent(s, i)->0;
    let t = spec_plain(s, i, end);
    let w = spec_decimal(s, i)->0;
    lemma_decimal(s, i);
    lemma_plain_decimal(s, i);
    let u = spec_plain(s, i, w);
    let n = u.len() as int;
    if w < s.len() && s[w] == '.' && spec_decimal(s, w + 1) is Some {
        let f = spec_decimal(s, w + 1)->0;
        lemma_decimal(s, w + 1);
        lemma_plain_decimal(s, w + 1);
        lemma_exponent(s, f);
        let v = spec_plain(s, w + 1, f);
        let m = v.len() as int;
        let x = spec_plain(s, f, end);
        lemma_plain_split(s, i, w, end);
        lemma_plain_split(s, w, w + 1, end);
        lemma_plain_one(s, w);
        lemma_plain_split(s, w + 1, f, end);
        lemma_plain_split(s, f, f + 1, end);
        lemma_plain_one(s, f);
        assert(t =~= u + (seq!['.'] + (v + x)));
        assert(t.subrange(0, n) =~= u);
        assert(t[0] == u[0]);
        assert(t[n] == '.');
        lemma_decimal_again(u, t, 0);
        assert(t.subrange(n + 1, n + 1 + m) =~= v);
        assert(t[n + 1 + m] == x[0]);
        lemma_decimal_again(v, t, n + 1);
        assert(t.subrange(n + 1 + m, t.len() as int) =~= x);
        lemma_exponent_again(s, f, t, n + 1 + m);
    } else {
        lemma_exponent(s, w);
        let x = spec_plain(s, w, end);
        lemma_plain_split(s, i, w, end);
        lemma_plain_split(s, w, w + 1, end);
        lemma_plain_one(s, w);
        assert(t =~= u + x);
        assert(t.subrange(0, n) =~= u);
        assert(t[0] == u[0]);
        assert(t[n] == x[0]);
        lemma_decimal_again(u, t, 0);
        assert(t.subrange(n, t.len() as int) =~= x);
        lemma_exponent_again(s, w, t, n);
    }
}

proof fn lemma_text_with_dot(s: Seq<char>, i: int)
    requires
        0 <= i <= s.len(),
        spec_with_dot(s, i) is Some,
    ensures
        spec_leading_dot(spec_plain(s, i, spec_with_dot(s, i)->0), 0) is None,
        spec_with_exponent(spec_plain(s, i, spec_with_dot(s, i)->0), 0) is None,
        spec_with_dot(spec_plain(s, i, spec_with_dot(s, i)->0), 0) == Some(
            spec_plain(s, i, spec_with_dot(s, i)->0).len() as int,
        ),
{
    let end = spec_with_dot(s, i)->0;
    let t = spec_plain(s, i, end);
    let w = spec_decimal(s, i)->0;
    lemma_decimal(s, i);
    lemma_plain_decimal(s, i);
    let u = spec_plain(s, i, w);
    let n = u.len() as int;
    lemma_plain_one(s, w);
    if spec_decimal(s, w + 1) is Some {
        let f = spec_decimal(s, w + 1)->0;
        lemma_decimal(s, w + 1);
        lemma_plain_decimal(s, w + 1);
        let v = spec_plain(s, w + 1, f);
        let m = v.len() as int;
        lemma_plain_split(s, i, w, end);
        lemma_plain_split(s, w, w + 1, end);
        assert(t =~= u + (seq!['.'] + v));
        assert(t.subrange(0, n) =~= u);
        assert(t[0] == u[0]);
        assert(t[n] == '.');
        lemma_decimal_again(u, t, 0);
        assert(t.subrange(n + 1, n + 1 + m) =~= v);
        lemma_decimal_again(v, t, n + 1);
    } else {
        lemma_plain_split(s, i, w, end);
        assert(t =~= u + seq!['.']);
        assert(t.subrange(0, n) =~= u);
        assert(t[0] == u[0]);
        assert(t[n] == '.');
        lemma_decimal_again(u, t, 0);
    }
}

proof fn lemma_text_decimal(s: Seq<char>, i: int)
    requires
        0 <= i <= s.len(),
        spec_decimal(s, i) is Some,
    ensures
        spec_leading_dot(spec_plain(s, i, spec_decimal(s, i)->0), 0) is None,
        spec_with_exponent(spec_plain(s, i, spec_decimal(s, i)->0), 0) is None,
        spec_with_dot(spec_plain(s, i, spec_decimal(s, i)->0), 0) is None,
        spec_decimal(spec_plain(s, i, spec_decimal(s, i)->0), 0) == Some(
            spec_plain(s, i, spec_decimal(s, i)->0).len() as int,
        ),
{
    let t = spec_plain(s, i, spec_decimal(s, i)->0);
    lemma_plain_decimal(s, i);
    assert(t.subrange(0, t.len() as int) =~= t);
    lemma_decimal_again(t, t, 0);
}

/// The text that a numeric literal yields is a numeric literal of the same
/// shape, whole and without underscores: reading it yields it again and
/// leaves nothing over. So what is handed to the conversion to a machine
/// number is always a literal, and the same one however often it is read.
pub proof fn lemma_number_text(s: Seq<char>, i: int)
    requires
        0 <= i <= s.len(),
        spec_number(s, i) is Ok,
    ensures
        spec_number(spec_number(s, i)->Ok_0.0, 0) == Ok::<(Seq<char>, int), Failure>(
            (spec_number(s, i)->Ok_0.0, spec_number(s, i)->Ok_0.0.len() as int),
        ),
{
    let end = spec_number_end(s, i)->0;
    let t = spec_plain(s, i, end);
    assert forall|k: int| 0 <= k < t.len() implies #[trigger] t[k] != '_' by {
        s.subrange(i, end).lemma_filter_pred(no_separator(), k);
    }
    lemma_plain_again(t);
    assert(t.subrange(0, t.len() as int) =~= t);
    if spec_leading_dot(s, i) is Some {
        lemma_text_leading_dot(s, i);
    } else if spec_with_exponent(s, i) is Some {
        lemma_text_with_exponent(s, i);
    } else if spec_with_dot(s, i) is Some {
        lemma_text_with_dot(s, i);
    } else {
        lemma_text_decimal(s, i);
    }
}

/// The offset `r` is the one that the grammar gives, or both are missing.
pub open spec fn same_end(r: Option<usize>, m: Option<int>) -> bool {
    match m {
        Some(end) => r matches Some(e) && e == end,
        None => r.is_none(),
    }
}

fn decimal(s: &[char], i: usize) -> (r: Option<usize>)
    requires
        i <= s.len(),
    ensures
        same_end(r, spec_decimal(s@, i as int)),
        r matches Some(e) ==> i < e <= s.len(),
{
    if i < s.len() && is_digit(s[i]) {
        let end = run_end(s, i, CharClass::DigitOrUnderscore);
        proof {
            lemma_decimal(s@, i as int);
        }
        Some(end)
    } else {
        None
    }
}

fn exponent(s: &[char], i: usize) -> (r: Option<usize>)
    requires
        i <= s.len(),
    ensures
        same_end(r, spec_exponent(s@, i as int)),
        r matches Some(e) ==> i < e <= s.len(),
{
    if i < s.len() && (s[i] == 'e' || s[i] == 'E') {
        if i + 1 < s.len() && (s[i + 1] == '+' || s[i + 1] == '-') {
            decimal(s, i + 2)
        } else {
            decimal(s, i + 1)
        }
    } else {
        None
    }
}

fn leading_dot(s: &[char], i: usize) -> (r: Option<usize>)
    requires
        i <= s.len(),
    ensures
        same_end(r, spec_leading_dot(s@, i as int)),
        r matches Some(e) ==> i < e <= s.len(),
{
    if i < s.len() && s[i] == '.' {
        match decimal(s, i + 1) {
            Some(fraction) => match exponent(s, fraction) {
                Some(end) => Some(end),
                None => Some(fraction),
            },
            None => None,
        }
    } else {
        None
    }
}

fn with_exponent(s: &[char], i: usize) -> (r: Option<usize>)
    requires
        i <= s.len(),
    ensures
        same_end(r, spec_with_exponent(s@, i as int)),
        r matches Some(e) ==> i < e <= s.len(),
{
    match decimal(s, i) {
        Some(whole) => {
            if whole < s.len() && s[whole] == '.' {
                match decimal(s, whole + 1) {
                    Some(fraction) => exponent(s, fraction),
                    None => exponent(s, whole),
                }
            } else {
                exponent(s, whole)
            }
        },
        None => None,
    }
}

fn with_dot(s: &[char], i: usize) -> (r: Option<usize>)
    requires
        i <= s.len(),
    ensures
        same_end(r, spec_with_dot(s@, i as int)),
        r matches Some(e) ==> i < e <= s.len(),
{
    match decimal(s, i) {
        Some(whole) => {
            if whole < s.len() && s[whole] == '.' {
                match decimal(s, whole + 1) {
                    Some(fraction) => Some(fraction),
                    None => Some(whole + 1),
                }
            } else {
                None
            }
        },
        None => None,
    }
}

/// Finds where the numeric literal at offset `i` ends.
pub(crate) fn number_end(s: &[char], i: usize) -> (r: Option<usize>)
    requires
        i <= s.len(),
    ensures
        same_end(r, spec_number_end(s@, i as int)),
        r matches Some(e) ==> i < e <= s.len(),
{
    let a = leading_dot(s, i);
    if a.is_some() {
        return a;
    }
    let b = with_exponent(s, i);
    if b.is_some() {
        return b;
    }
    let c = with_dot(s, i);
    if c.is_some() {
        return c;
    }
    decimal(s, i)
}

/// The characters of `s` from `from` up to `to`, the underscores left out.
fn without_separators(s: &[char], from: usize, to: usize) -> (t: String)
    requires
        from <= to <= s.len(),
    ensures
        t@ == spec_plain(s@, from as int, to as int),
{
    let mut t = String::new();
    let mut k: usize = from;
    proof {
        reveal(Seq::filter);
        assert(s@.subrange(from as int, from as int).len() == 0);
    }
    while k < to
        invariant
            from <= k <= to <= s.len(),
            t@ == s@.subrange(from as int, k as int).filter(no_separator()),
        decreases to - k,
    {
        proof {
            let upto = s@.subrange(from as int, k as int);
            assert(upto.push(s@[k as int]) =~= s@.subrange(from as int, k + 1));
            upto.lemma_filter_push(s@[k as int], no_separator());
        }
        if s[k] != '_' {
            t.push(s[k]);
        }
        k += 1;
    }
    t
}

/// Reads a numeric literal at offset `i`.
pub(crate) fn number_at(s: &[char], i: usize) -> (r: Result<(NumberLiteral, usize), ParseError>)
    requires
        i <= s.len(),
    ensures
        agrees(r, spec_number(s@, i as int)),
        r matches Ok((_, e)) ==> i < e <= s.len(),
{
    match number_end(s, i) {
        Some(end) => Ok((NumberLiteral { text: without_separators(s, i, end) }, end)),
        None => Err(ParseError::no_match(i)),
    }
}

/// Parses a numeric literal at the start of `input`.
pub fn parse_number(input: &str) -> (r: Result<(&str, NumberLiteral), ParseError>)
    ensures
        delivers(input@, r, spec_number(input@, 0)),
{
    let chars = to_chars(input);
    match number_at(chars.as_slice(), 0) {
        Ok((value, end)) => Ok((slice_of(input, end, chars.len()), value)),
        Err(e) => Err(e),
    }
}

} // verus!
