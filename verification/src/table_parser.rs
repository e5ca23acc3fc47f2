use crate::error::{no_match, Failure, ParseError};
use crate::function_parser::Function;
use crate::identifier_parser::{
    equals_end, lemma_skip_name, lemma_value_consumes, name_end, spec_identifier_name,
    spec_value, value_at, IdentifierValues,
};
use crate::model::{MemberKindView, TableMemberView, TableView, ValueView};
use crate::outcome::{agrees, delivers, lemma_prepend_push, prepend};
use crate::text::{lemma_run_end, run_end, slice_of, spec_run_end, text_of, to_chars, CharClass};
use vstd::prelude::*;

verus! {

/// What a member of a table holds. The grammar produces `RawType` and
/// `NestedTable`; `Function` and `Method` are kept for later use.
#[derive(Debug)]
pub enum TableMemberType {
    RawType(IdentifierValues),
    NestedTable(Table),
    Function(Function),
    Method(Function),
}

#[derive(Debug)]
pub struct TableMember {
    pub name: String,
    pub is_a: TableMemberType,
}

/// A table: its name, given by the binding it is assigned to, and its
/// members in the order in which they were written.
#[derive(Debug)]
pub struct Table {
    pub name: String,
    pub members: Vec<TableMember>,
}

impl View for TableMemberType {
    type V = MemberKindView;

    open spec fn view(&self) -> MemberKindView
        decreases self, 0int,
    {
        match self {
            TableMemberType::RawType(v) => MemberKindView::RawType(v@),
            TableMemberType::NestedTable(t) => MemberKindView::NestedTable(t@),
            TableMemberType::Function(f) => MemberKindView::Function(f@),
            TableMemberType::Method(f) => MemberKindView::Method(f@),
        }
    }
}

impl View for TableMember {
    type V = TableMemberView;

    open spec fn view(&self) -> TableMemberView
        decreases self, 0int,
    {
        TableMemberView { name: self.name@, is_a: self.is_a@ }
    }
}

/// The members as mathematics sees them, in their order.
pub open spec fn member_views(members: Seq<TableMember>) -> Seq<TableMemberView> {
    Seq::new(members.len(), |k: int| members[k]@)
}

impl View for Table {
    type V = TableView;

    open spec fn view(&self) -> TableView
        decreases self, 0int,
    {
        TableView {
            name: self.name@,
            members: Seq::new(
                self.members.len() as nat,
                |k: int|
                    if 0 <= k < self.members.len() {
                        self.members[k]@
                    } else {
                        arbitrary()
                    },
            ),
        }
    }
}

impl PartialEq for TableMemberType {
    fn eq(&self, other: &TableMemberType) -> (r: bool)
        decreases self,
    {
        match (self, other) {
            (TableMemberType::RawType(a), TableMemberType::RawType(b)) => a.eq(b),
            (TableMemberType::NestedTable(a), TableMemberType::NestedTable(b)) => a.eq(b),
            (TableMemberType::Function(a), TableMemberType::Function(b)) => a.eq(b),
            (TableMemberType::Method(a), TableMemberType::Method(b)) => a.eq(b),
            _ => false,
        }
    }
}

impl vstd::std_specs::cmp::PartialEqSpecImpl for TableMemberType {
    open spec fn obeys_eq_spec() -> bool {
        true
    }

    open spec fn eq_spec(&self, other: &TableMemberType) -> bool {
        self@ == other@
    }
}

impl PartialEq for TableMember {
    fn eq(&self, other: &TableMember) -> (r: bool)
        decreases self,
    {
        self.name == other.name && self.is_a.eq(&other.is_a)
    }
}

impl vstd::std_specs::cmp::PartialEqSpecImpl for TableMember {
    open spec fn obeys_eq_spec() -> bool {
        true
    }

    open spec fn eq_spec(&self, other: &TableMember) -> bool {
        self@ == other@
    }
}

impl PartialEq for Table {
    fn eq(&self, other: &Table) -> (r: bool)
        decreases self,
    {
        if self.name != other.name {
            return false;
        }
        if self.members.len() != other.members.len() {
            assert(self@.members.len() != other@.members.len());
            return false;
        }
        let mut k: usize = 0;
        while k < self.members.len()
            invariant
                k <= self.members.len(),
                self.members.len() == other.members.len(),
                forall|j: int| 0 <= j < k ==> self.members@[j]@ == other.members@[j]@,
            decreases self.members.len() - k,
        {
            if !self.members[k].eq(&other.members[k]) {
                assert(self@.members[k as int] != other@.members[k as int]);
                return false;
            }
            k += 1;
        }
        assert(self@.members =~= other@.members);
        true
    }
}

impl vstd::std_specs::cmp::PartialEqSpecImpl for Table {
    open spec fn obeys_eq_spec() -> bool {
        true
    }

    open spec fn eq_spec(&self, other: &Table) -> bool {
        self@ == other@
    }
}

impl Clone for TableMemberType {
    fn clone(&self) -> (r: Self)
        ensures
            r@ == self@,
        decreases self,
    {
        match self {
            TableMemberType::RawType(v) => TableMemberType::RawType(v.clone()),
            TableMemberType::NestedTable(t) => TableMemberType::NestedTable(t.clone()),
            TableMemberType::Function(f) => TableMemberType::Function(f.clone()),
            TableMemberType::Method(f) => TableMemberType::Method(f.clone()),
        }
    }
}

impl Clone for TableMember {
    fn clone(&self) -> (r: Self)
        ensures
            r@ == self@,
        decreases self,
    {
        TableMember { name: self.name.clone(), is_a: self.is_a.clone() }
    }
}

impl Clone for Table {
    fn clone(&self) -> (r: Self)
        ensures
            r@ == self@,
        decreases self,
    {
        let mut members: Vec<TableMember> = Vec::new();
        let mut k: usize = 0;
        while k < self.members.len()
            invariant
                k <= self.members.len(),
                members@.len() == k,
                forall|j: int| 0 <= j < k ==> (#[trigger] members@[j])@ == self.members@[j]@,
            decreases self.members.len() - k,
        {
            members.push(self.members[k].clone());
            k += 1;
        }
        let r = Table { name: self.name.clone(), members };
        assert(r@.members =~= self@.members);
        r
    }
}

/// The member that a name and a value make: a nested table where the value
/// is a table, and the value as it is otherwise.
pub open spec fn spec_make_table_member(name: Seq<char>, value: ValueView) -> TableMemberView {
    TableMemberView {
        name,
        is_a: match value {
            ValueView::Table(table) => MemberKindView::NestedTable(table),
            _ => MemberKindView::RawType(value),
        },
    }
}

/// The offset behind a comma at `i`, or `i` itself where none stands there.
pub open spec fn spec_skip_comma(s: Seq<char>, i: int) -> int {
    if 0 <= i < s.len() && s[i] == ',' {
        i + 1
    } else {
        i
    }
}

/// A member at offset `i`: a name, its separator, a value, and a comma or
/// none.
pub open spec fn spec_table_member(s: Seq<char>, i: int) -> Result<(TableMemberView, int), Failure>
    decreases s.len() - i, 3int,
    when 0 <= i <= s.len()
{
    match spec_identifier_name(s, i) {
        Ok((name, at_value)) => {
            proof {
                lemma_skip_name(s, i);
            }
            match spec_value(s, at_value) {
                Ok((value, end)) => Ok(
                    (spec_make_table_member(name, value), spec_skip_comma(s, end)),
                ),
                Err(f) => Err(f),
            }
        },
        Err(f) => Err(f),
    }
}

/// The members that follow one another from offset `i`, each with blanks
/// in any number before and behind it, in the order in which they are
/// written. The first failure to match ends them, and the blanks before it
/// are not consumed; a malformed literal is handed on.
pub open spec fn spec_members(s: Seq<char>, i: int) -> Result<(Seq<TableMemberView>, int), Failure>
    decreases s.len() - i, 4int,
    when 0 <= i <= s.len()
{
    let at_member = spec_run_end(s, i, CharClass::Blank);
    proof {
        lemma_run_end(s, i, CharClass::Blank);
    }
    match spec_table_member(s, at_member) {
        Ok((member, end)) => {
            let next = spec_run_end(s, end, CharClass::Blank);
            if i < next <= s.len() {
                prepend(seq![member], spec_members(s, next))
            } else {
                Ok((Seq::empty(), i))
            }
        },
        Err(f) => if f.is_no_match() {
            Ok((Seq::empty(), i))
        } else {
            Err(f)
        },
    }
}

/// A table at offset `i`: an opening brace, members, and a closing brace.
/// Its name is empty.
pub open spec fn spec_table(s: Seq<char>, i: int) -> Result<(TableView, int), Failure>
    decreases s.len() - i, 1int,
    when 0 <= i <= s.len()
{
    if i < s.len() && s[i] == '{' {
        match spec_members(s, i + 1) {
            Ok((members, end)) => if 0 <= end < s.len() && s[end] == '}' {
                Ok((TableView { name: Seq::empty(), members }, end + 1))
            } else {
                Err(no_match(end))
            },
            Err(f) => Err(f),
        }
    } else {
        Err(no_match(i))
    }
}

/// A member ends inside the text, behind its start.
pub proof fn lemma_table_member_consumes(s: Seq<char>, i: int)
    requires
        0 <= i <= s.len(),
    ensures
        spec_table_member(s, i) matches Ok((_, end)) ==> i < end <= s.len(),
    decreases s.len() - i, 3int,
{
    lemma_skip_name(s, i);
    match spec_identifier_name(s, i) {
        Ok((_, at_value)) => {
            lemma_value_consumes(s, at_value);
        },
        Err(_) => {},
    }
}

/// A run of members ends inside the text, at or behind its start.
pub proof fn lemma_members_end(s: Seq<char>, i: int)
    requires
        0 <= i <= s.len(),
    ensures
        spec_members(s, i) matches Ok((_, end)) ==> i <= end <= s.len(),
    decreases s.len() - i, 4int,
{
    let at_member = spec_run_end(s, i, CharClass::Blank);
    lemma_run_end(s, i, CharClass::Blank);
    lemma_table_member_consumes(s, at_member);
    match spec_table_member(s, at_member) {
        Ok((_, end)) => {
            lemma_run_end(s, end, CharClass::Blank);
            lemma_members_end(s, spec_run_end(s, end, CharClass::Blank));
        },
        Err(_) => {},
    }
}

/// A table ends inside the text, behind its start.
pub proof fn lemma_table_consumes(s: Seq<char>, i: int)
    requires
        0 <= i <= s.len(),
    ensures
        spec_table(s, i) matches Ok((_, end)) ==> i < end <= s.len(),
    decreases s.len() - i, 1int,
{
    if i < s.len() {
        lemma_members_end(s, i + 1);
    }
}

/// The run of members without the test for progress: blanks, a member,
/// blanks, then the run behind them.
pub proof fn lemma_members_unfold(s: Seq<char>, i: int)
    requires
        0 <= i <= s.len(),
    ensures
        spec_members(s, i) == match spec_table_member(
            s,
            spec_run_end(s, i, CharClass::Blank),
        ) {
            Ok((member, end)) => prepend(
                seq![member],
                spec_members(s, spec_run_end(s, end, CharClass::Blank)),
            ),
            Err(f) => if f.is_no_match() {
                Ok((Seq::empty(), i))
            } else {
                Err(f)
            },
        },
{
    let at_member = spec_run_end(s, i, CharClass::Blank);
    lemma_run_end(s, i, CharClass::Blank);
    lemma_table_member_consumes(s, at_member);
    match spec_table_member(s, at_member) {
        Ok((_, end)) => {
            lemma_run_end(s, end, CharClass::Blank);
        },
        Err(_) => {},
    }
}

/// The offsets at which the members of a run start, in the order in which
/// the run yields the members.
pub open spec fn spec_member_starts(s: Seq<char>, i: int) -> Seq<int>
    decreases s.len() - i,
    when 0 <= i <= s.len()
{
    let at_member = spec_run_end(s, i, CharClass::Blank);
    match spec_table_member(s, at_member) {
        Ok((_, end)) => {
            let next = spec_run_end(s, end, CharClass::Blank);
            if i < next <= s.len() {
                seq![at_member] + spec_member_starts(s, next)
            } else {
                Seq::empty()
            }
        },
        Err(_) => Seq::empty(),
    }
}

/// True when `member` is the member that the text holds at offset `start`.
pub open spec fn stands_at(s: Seq<char>, start: int, member: TableMemberView) -> bool {
    spec_table_member(s, start) matches Ok((found, _)) && found == member
}

/// The members of a run stand in it in the order in which they are
/// written: each is the member that the text holds at its start, and the
/// starts go up along the run.
pub proof fn lemma_member_order(s: Seq<char>, i: int)
    requires
        0 <= i <= s.len(),
    ensures
        spec_members(s, i) matches Ok((members, _)) ==> {
            let starts = spec_member_starts(s, i);
            &&& starts.len() == members.len()
            &&& forall|k: int|
                0 <= k < members.len() ==> i <= #[trigger] starts[k] <= s.len() && stands_at(
                    s,
                    starts[k],
                    members[k],
                )
            &&& forall|a: int, b: int|
                0 <= a < b < members.len() ==> #[trigger] starts[a] < #[trigger] starts[b]
        },
    decreases s.len() - i,
{
    let at_member = spec_run_end(s, i, CharClass::Blank);
    lemma_run_end(s, i, CharClass::Blank);
    lemma_table_member_consumes(s, at_member);
    match spec_table_member(s, at_member) {
        Ok((member, end)) => {
            let next = spec_run_end(s, end, CharClass::Blank);
            lemma_run_end(s, end, CharClass::Blank);
            lemma_member_order(s, next);
            match spec_members(s, next) {
                Ok((rest, _)) => {
                    let members = seq![member] + rest;
                    let later = spec_member_starts(s, next);
                    let starts = seq![at_member] + later;
                    assert(spec_member_starts(s, i) == starts);
                    assert forall|k: int| 0 <= k < members.len() implies i <= #[trigger] starts[k]
                        <= s.len() && stands_at(s, starts[k], members[k]) by {
                        if k > 0 {
                            assert(starts[k] == later[k - 1]);
                            assert(members[k] == rest[k - 1]);
                        }
                    }
                    assert forall|a: int, b: int| 0 <= a < b < members.len() implies #[trigger]
                        starts[a] < #[trigger] starts[b] by {
                        assert(starts[b] == later[b - 1]);
                        if a > 0 {
                            assert(starts[a] == later[a - 1]);
                        }
                    }
                },
                Err(_) => {},
            }
        },
        Err(_) => {},
    }
}

/// The members that a table's view holds are the views of its members.
pub proof fn lemma_table_view(table: Table)
    ensures
        table@.members == member_views(table.members@),
{
    assert(table@.members =~= member_views(table.members@));
}

/// Makes a member of a name and a value.
pub fn make_table_member(name: String, value: IdentifierValues) -> (member: TableMember)
    ensures
        member@ == spec_make_table_member(name@, value@),
{
    TableMember {
        name,
        is_a: match value {
            IdentifierValues::Table(table) => TableMemberType::NestedTable(table),
            other => TableMemberType::RawType(other),
        },
    }
}

/// Reads a member at offset `i`.
pub(crate) fn table_member_at(s: &[char], i: usize) -> (r: Result<(TableMember, usize), ParseError>)
    requires
        i <= s.len(),
    ensures
        agrees(r, spec_table_member(s@, i as int)),
        r matches Ok((_, e)) ==> i < e <= s.len(),
    decreases s.len() - i, 3int,
{
    let named = match name_end(s, i) {
        Ok(end) => end,
        Err(e) => {
            return Err(e);
        },
    };
    let at_value = equals_end(s, named);
    let (value, end) = match value_at(s, at_value) {
        Ok(found) => found,
        Err(e) => {
            return Err(e);
        },
    };
    let behind = if end < s.len() && s[end] == ',' {
        end + 1
    } else {
        end
    };
    Ok((make_table_member(text_of(s, i, named), value), behind))
}

/// Reads the members that follow one another from offset `i`.
pub(crate) fn members_at(s: &[char], i: usize) -> (r: Result<(Vec<TableMember>, usize), ParseError>)
    requires
        i <= s.len(),
    ensures
        match spec_members(s@, i as int) {
            Ok((members, end)) => r matches Ok((v, e)) && member_views(v@) == members && e == end
                && i <= e <= s.len(),
            Err(f) => r matches Err(e) && e@ == f,
        },
    decreases s.len() - i, 4int,
{
    let mut found: Vec<TableMember> = Vec::new();
    let mut p: usize = i;
    proof {
        assert(member_views(found@) =~= Seq::<TableMemberView>::empty());
        match spec_members(s@, i as int) {
            Ok((rest, _)) => {
                assert(Seq::<TableMemberView>::empty() + rest =~= rest);
            },
            Err(_) => {},
        }
    }
    loop
        invariant
            i <= p <= s.len(),
            spec_members(s@, i as int) == prepend(member_views(found@), spec_members(s@, p as int)),
        decreases s.len() - p,
    {
        let at_member = run_end(s, p, CharClass::Blank);
        match table_member_at(s, at_member) {
            Ok((member, end)) => {
                let next = run_end(s, end, CharClass::Blank);
                proof {
                    let front = member_views(found@);
                    lemma_prepend_push(front, member@, spec_members(s@, next as int));
                    assert(member_views(found@.push(member)) =~= front.push(member@));
                }
                found.push(member);
                p = next;
            },
            Err(e) => {
                proof {
                    assert(member_views(found@) + Seq::<TableMemberView>::empty() =~= member_views(
                        found@,
                    ));
                }
                if e.is_no_match() {
                    return Ok((found, p));
                } else {
                    return Err(e);
                }
            },
        }
    }
}

/// Reads a table at offset `i`.
pub(crate) fn table_at(s: &[char], i: usize) -> (r: Result<(Table, usize), ParseError>)
    requires
        i <= s.len(),
    ensures
        agrees(r, spec_table(s@, i as int)),
        r matches Ok((_, e)) ==> i < e <= s.len(),
    decreases s.len() - i, 1int,
{
    if i < s.len() && s[i] == '{' {
        let (members, end) = match members_at(s, i + 1) {
            Ok(found) => found,
            Err(e) => {
                return Err(e);
            },
        };
        if end < s.len() && s[end] == '}' {
            let table = Table { name: String::new(), members };
            proof {
                lemma_table_view(table);
            }
            Ok((table, end + 1))
        } else {
            Err(ParseError::no_match(end))
        }
    } else {
        Err(ParseError::no_match(i))
    }
}

/// Parses a member of a table at the start of `input`.
pub fn parse_table_member(input: &str) -> (r: Result<(&str, TableMember), ParseError>)
    ensures
        delivers(input@, r, spec_table_member(input@, 0)),
{
    let chars = to_chars(input);
    match table_member_at(chars.as_slice(), 0) {
        Ok((value, end)) => Ok((slice_of(input, end, chars.len()), value)),
        Err(e) => Err(e),
    }
}

/// Parses a table at the start of `input`.
pub fn parse_table(input: &str) -> (r: Result<(&str, Table), ParseError>)
    ensures
        delivers(input@, r, spec_table(input@, 0)),
{
    let chars = to_chars(input);
    match table_at(chars.as_slice(), 0) {
        Ok((value, end)) => Ok((slice_of(input, end, chars.len()), value)),
        Err(e) => Err(e),
    }
}

} // verus!
