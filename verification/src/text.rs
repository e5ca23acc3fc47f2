use vstd::prelude::*;

verus! {

/// `String::push` appends one character at the end of the string and leaves
/// the characters before it as they were.
pub assume_specification[ std::string::String::push ](s: &mut std::string::String, c: char)
    ensures
        final(s)@ == old(s)@.push(c),
;

/// The sets of characters that the grammar scans runs of.
#[derive(Debug, PartialEq, Eq, Clone, Copy, Structural)]
pub enum CharClass {
    /// Space, tab, carriage return and line feed.
    Blank,
    /// An ASCII letter.
    Letter,
    /// An ASCII digit or an underscore: what may follow the first digit of a
    /// decimal.
    DigitOrUnderscore,
    /// An ASCII letter, an ASCII digit or an underscore: what may follow the
    /// first character of a name.
    Word,
    /// A space or an equals sign: what separates a name from its value.
    Separator,
    /// An ASCII letter, an ASCII digit, an underscore, a space or a tab: what
    /// the condition behind `until` is made of.
    Condition,
    /// A character with the Unicode property `White_Space`: what trimming
    /// drops.
    WhiteSpace,
}

pub open spec fn spec_is_letter(c: char) -> bool {
    ('a' <= c <= 'z') || ('A' <= c <= 'Z')
}

pub open spec fn spec_is_digit(c: char) -> bool {
    '0' <= c <= '9'
}

pub open spec fn spec_is_blank(c: char) -> bool {
    c == ' ' || c == '\t' || c == '\r' || c == '\n'
}

/// True of the characters that Unicode gives the property `White_Space`:
/// tab, line feed, vertical tab, form feed and carriage return, the space,
/// the next-line control, the no-break space, the Ogham space mark, the
/// spaces from the en quad to the hair space, the line and the paragraph
/// separator, the narrow no-break space, the medium mathematical space and
/// the ideographic space.
pub open spec fn spec_is_white_space(c: char) -> bool {
    ('\u{9}' <= c <= '\u{d}') || c == ' ' || c == '\u{85}' || c == '\u{a0}' || c == '\u{1680}'
        || ('\u{2000}' <= c <= '\u{200a}') || c == '\u{2028}' || c == '\u{2029}' || c
        == '\u{202f}' || c == '\u{205f}' || c == '\u{3000}'
}

pub open spec fn spec_in_class(c: char, class: CharClass) -> bool {
    match class {
        CharClass::Blank => spec_is_blank(c),
        CharClass::Letter => spec_is_letter(c),
        CharClass::DigitOrUnderscore => spec_is_digit(c) || c == '_',
        CharClass::Word => spec_is_letter(c) || spec_is_digit(c) || c == '_',
        CharClass::Separator => c == ' ' || c == '=',
        CharClass::Condition => spec_is_letter(c) || spec_is_digit(c) || c == '_' || c == ' '
            || c == '\t',
        CharClass::WhiteSpace => spec_is_white_space(c),
    }
}

/// The lower-case form of an ASCII capital; any other character unchanged.
pub open spec fn spec_lower(c: char) -> char {
    if 'A' <= c <= 'Z' {
        ((c as u8 + 32) as u8) as char
    } else {
        c
    }
}

/// The end of the longest run of characters of `class` that starts at `i`.
pub open spec fn spec_run_end(s: Seq<char>, i: int, class: CharClass) -> int
    decreases s.len() - i,
{
    if 0 <= i < s.len() && spec_in_class(s[i], class) {
        spec_run_end(s, i + 1, class)
    } else {
        i
    }
}

/// True when `t` stands in `s` at offset `i`.
pub open spec fn spec_has_tag(s: Seq<char>, i: int, t: Seq<char>) -> bool {
    0 <= i && i + t.len() <= s.len() && s.subrange(i, i + t.len()) == t
}

/// True when `t` stands in `s` at offset `i`, ASCII capitals and small
/// letters taken as equal.
pub open spec fn spec_has_tag_ignoring_case(s: Seq<char>, i: int, t: Seq<char>) -> bool {
    0 <= i && i + t.len() <= s.len() && forall|k: int|
        0 <= k < t.len() ==> spec_lower(#[trigger] s[i + k]) == spec_lower(t[k])
}

/// The first offset at or after `i` at which `t` stands in `s`.
pub open spec fn spec_find(s: Seq<char>, i: int, t: Seq<char>) -> Option<int>
    decreases s.len() - i,
{
    if i < 0 || i + t.len() > s.len() {
        None
    } else if spec_has_tag(s, i, t) {
        Some(i)
    } else if i < s.len() {
        spec_find(s, i + 1, t)
    } else {
        None
    }
}

/// Where the text that is left of `s` up to `hi` ends once the white space
/// at its end is dropped, no further back than `lo`.
pub open spec fn spec_trim_end(s: Seq<char>, lo: int, hi: int) -> int
    decreases hi - lo,
{
    if lo < hi <= s.len() && 0 <= hi - 1 && spec_is_white_space(s[hi - 1]) {
        spec_trim_end(s, lo, hi - 1)
    } else {
        hi
    }
}

/// The text without the white space at its start and at its end.
pub open spec fn spec_trim(t: Seq<char>) -> Seq<char> {
    let from = spec_run_end(t, 0, CharClass::WhiteSpace);
    t.subrange(from, spec_trim_end(t, from, t.len() as int))
}

/// The text with each ASCII capital replaced by its small letter.
pub open spec fn spec_lower_text(t: Seq<char>) -> Seq<char> {
    Seq::new(t.len(), |k: int| spec_lower(t[k]))
}

/// A run ends inside the text, at or after its start; all of it is of the
/// class, and what follows it is not.
pub proof fn lemma_run_end(s: Seq<char>, i: int, class: CharClass)
    requires
        0 <= i <= s.len(),
    ensures
        i <= spec_run_end(s, i, class) <= s.len(),
        forall|k: int| i <= k < spec_run_end(s, i, class) ==> spec_in_class(#[trigger] s[k], class),
        spec_run_end(s, i, class) < s.len() ==> !spec_in_class(
            s[spec_run_end(s, i, class)],
            class,
        ),
    decreases s.len() - i,
{
    if i < s.len() && spec_in_class(s[i], class) {
        lemma_run_end(s, i + 1, class);
    }
}

/// A stretch of characters of the class, with none of the class behind it,
/// is a run.
pub proof fn lemma_run_exact(s: Seq<char>, i: int, j: int, class: CharClass)
    requires
        0 <= i <= j <= s.len(),
        forall|k: int| i <= k < j ==> spec_in_class(#[trigger] s[k], class),
        j < s.len() ==> !spec_in_class(s[j], class),
    ensures
        spec_run_end(s, i, class) == j,
    decreases j - i,
{
    if i < j {
        lemma_run_exact(s, i + 1, j, class);
    }
}

/// What `spec_find` finds is the first occurrence, and it finds one whenever
/// there is one.
pub proof fn lemma_find(s: Seq<char>, i: int, t: Seq<char>)
    requires
        0 <= i,
    ensures
        match spec_find(s, i, t) {
            Some(j) => i <= j && spec_has_tag(s, j, t) && forall|k: int|
                i <= k < j ==> !spec_has_tag(s, k, t),
            None => forall|k: int| i <= k ==> !spec_has_tag(s, k, t),
        },
    decreases s.len() - i,
{
    if i + t.len() > s.len() {
    } else if spec_has_tag(s, i, t) {
    } else if i < s.len() {
        lemma_find(s, i + 1, t);
    }
}

pub(crate) fn is_letter(c: char) -> (b: bool)
    ensures
        b == spec_is_letter(c),
{
    (c >= 'a' && c <= 'z') || (c >= 'A' && c <= 'Z')
}

pub(crate) fn is_digit(c: char) -> (b: bool)
    ensures
        b == spec_is_digit(c),
{
    c >= '0' && c <= '9'
}

pub(crate) fn is_blank(c: char) -> (b: bool)
    ensures
        b == spec_is_blank(c),
{
    c == ' ' || c == '\t' || c == '\r' || c == '\n'
}

pub(crate) fn is_white_space(c: char) -> (b: bool)
    ensures
        b == spec_is_white_space(c),
{
    (c >= '\u{9}' && c <= '\u{d}') || c == ' ' || c == '\u{85}' || c == '\u{a0}' || c == '\u{1680}'
        || (c >= '\u{2000}' && c <= '\u{200a}') || c == '\u{2028}' || c == '\u{2029}' || c
        == '\u{202f}' || c == '\u{205f}' || c == '\u{3000}'
}

pub(crate) fn in_class(c: char, class: CharClass) -> (b: bool)
    ensures
        b == spec_in_class(c, class),
{
    match class {
        CharClass::Blank => is_blank(c),
        CharClass::Letter => is_letter(c),
        CharClass::DigitOrUnderscore => is_digit(c) || c == '_',
        CharClass::Word => is_letter(c) || is_digit(c) || c == '_',
        CharClass::Separator => c == ' ' || c == '=',
        CharClass::Condition => is_letter(c) || is_digit(c) || c == '_' || c == ' ' || c == '\t',
        CharClass::WhiteSpace => is_white_space(c),
    }
}

pub(crate) fn lower(c: char) -> (l: char)
    ensures
        l == spec_lower(c),
{
    if c >= 'A' && c <= 'Z' {
        ((c as u8) + 32) as char
    } else {
        c
    }
}

/// Skips the longest run of characters of `class` that starts at `i`.
pub(crate) fn run_end(s: &[char], i: usize, class: CharClass) -> (j: usize)
    requires
        i <= s.len(),
    ensures
        j == spec_run_end(s@, i as int, class),
        i <= j <= s.len(),
{
    let mut j: usize = i;
    while j < s.len() && in_class(s[j], class)
        invariant
            i <= j <= s.len(),
            spec_run_end(s@, i as int, class) == spec_run_end(s@, j as int, class),
        decreases s.len() - j,
    {
        j += 1;
    }
    j
}

/// Tells whether `t` stands in `s` at offset `i`.
pub(crate) fn has_tag(s: &[char], i: usize, t: &str) -> (b: bool)
    requires
        i <= s.len(),
    ensures
        b == spec_has_tag(s@, i as int, t@),
{
    let n = t.unicode_len();
    if n > s.len() - i {
        return false;
    }
    let mut k: usize = 0;
    while k < n
        invariant
            k <= n,
            n == t@.len(),
            i + n <= s.len(),
            forall|m: int| 0 <= m < k ==> s@[i + m] == t@[m],
        decreases n - k,
    {
        if s[i + k] != t.get_char(k) {
            assert(s@.subrange(i as int, i + n)[k as int] != t@[k as int]);
            return false;
        }
        k += 1;
    }
    assert(s@.subrange(i as int, i + n) =~= t@);
    true
}

/// Tells whether `t` stands in `s` at offset `i`, ASCII capitals and small
/// letters taken as equal.
pub(crate) fn has_tag_ignoring_case(s: &[char], i: usize, t: &str) -> (b: bool)
    requires
        i <= s.len(),
    ensures
        b == spec_has_tag_ignoring_case(s@, i as int, t@),
{
    let n = t.unicode_len();
    if n > s.len() - i {
        return false;
    }
    let mut k: usize = 0;
    while k < n
        invariant
            k <= n,
            n == t@.len(),
            i + n <= s.len(),
            forall|m: int| 0 <= m < k ==> spec_lower(#[trigger] s@[i + m]) == spec_lower(t@[m]),
        decreases n - k,
    {
        if lower(s[i + k]) != lower(t.get_char(k)) {
            return false;
        }
        k += 1;
    }
    true
}

/// Tells whether the characters `t` stand in `s` at offset `i`.
pub(crate) fn has_chars(s: &[char], i: usize, t: &[char]) -> (b: bool)
    requires
        i <= s.len(),
    ensures
        b == spec_has_tag(s@, i as int, t@),
{
    let n = t.len();
    if n > s.len() - i {
        return false;
    }
    let mut k: usize = 0;
    while k < n
        invariant
            k <= n,
            n == t@.len(),
            i + n <= s.len(),
            forall|m: int| 0 <= m < k ==> s@[i + m] == t@[m],
        decreases n - k,
    {
        if s[i + k] != t[k] {
            assert(s@.subrange(i as int, i + n)[k as int] != t@[k as int]);
            return false;
        }
        k += 1;
    }
    assert(s@.subrange(i as int, i + n) =~= t@);
    true
}

/// Finds the first offset at or after `i` at which `t` stands in `s`.
pub(crate) fn find(s: &[char], i: usize, t: &str) -> (r: Option<usize>)
    requires
        i <= s.len(),
    ensures
        match spec_find(s@, i as int, t@) {
            Some(j) => r matches Some(found) && found == j && i <= j && j + t@.len() <= s.len(),
            None => r.is_none(),
        },
{
    let pattern = to_chars(t);
    let n = pattern.len();
    let mut j: usize = i;
    while n <= s.len() - j
        invariant
            i <= j <= s.len(),
            n == t@.len(),
            pattern@ == t@,
            spec_find(s@, i as int, t@) == spec_find(s@, j as int, t@),
        decreases s.len() - j,
    {
        if has_chars(s, j, pattern.as_slice()) {
            return Some(j);
        }
        if j == s.len() {
            return None;
        }
        j += 1;
    }
    None
}

/// The bounds of `t` without the white space at its start and at its end.
pub(crate) fn trim_bounds(t: &[char]) -> (r: (usize, usize))
    ensures
        r.0 <= r.1 <= t.len(),
        t@.subrange(r.0 as int, r.1 as int) == spec_trim(t@),
{
    let from = run_end(t, 0, CharClass::WhiteSpace);
    let mut to: usize = t.len();
    while from < to && is_white_space(t[to - 1])
        invariant
            from <= to <= t.len(),
            spec_trim_end(t@, from as int, t.len() as int) == spec_trim_end(
                t@,
                from as int,
                to as int,
            ),
        decreases to - from,
    {
        to -= 1;
    }
    (from, to)
}

/// The characters of `t`, each ASCII capital replaced by its small letter.
pub(crate) fn lower_text(t: &[char]) -> (r: Vec<char>)
    ensures
        r@ == spec_lower_text(t@),
{
    let mut r: Vec<char> = Vec::new();
    let mut k: usize = 0;
    while k < t.len()
        invariant
            k <= t.len(),
            r@.len() == k,
            forall|j: int| 0 <= j < k ==> r@[j] == spec_lower(t@[j]),
        decreases t.len() - k,
    {
        r.push(lower(t[k]));
        k += 1;
    }
    assert(r@ =~= spec_lower_text(t@));
    r
}

/// Tells whether `s` is, character for character, the text `t`.
pub(crate) fn is_text(s: &[char], t: &str) -> (b: bool)
    ensures
        b == (s@ == t@),
{
    if s.len() != t.unicode_len() {
        return false;
    }
    let b = has_tag(s, 0, t);
    assert(s@.subrange(0, s@.len() as int) =~= s@);
    b
}

/// The characters of a string, in order.
pub(crate) fn to_chars(text: &str) -> (chars: Vec<char>)
    ensures
        chars@ == text@,
{
    let mut chars: Vec<char> = Vec::new();
    for c in it: text.chars()
        invariant
            chars@ == it.seq().take(it.index() as int),
            it.seq() == text@,
    {
        chars.push(c);
    }
    chars
}

/// The string made of the characters of `s` from `from` up to `to`.
pub(crate) fn text_of(s: &[char], from: usize, to: usize) -> (t: String)
    requires
        from <= to <= s.len(),
    ensures
        t@ == s@.subrange(from as int, to as int),
{
    let mut t = String::new();
    let mut k: usize = from;
    while k < to
        invariant
            from <= k <= to <= s.len(),
            t@ == s@.subrange(from as int, k as int),
        decreases to - k,
    {
        t.push(s[k]);
        assert(s@.subrange(from as int, k as int).push(s@[k as int]) =~= s@.subrange(
            from as int,
            k + 1,
        ));
        k += 1;
    }
    t
}

/// The part of `text` from its `from`-th character up to its `to`-th.
pub(crate) fn slice_of<'a>(text: &'a str, from: usize, to: usize) -> (t: &'a str)
    requires
        from <= to <= text@.len(),
    ensures
        t@ == text@.subrange(from as int, to as int),
{
    text.substring_char(from, to)
}

} // verus!
