use crate::block_parser::BlockType;
use crate::types::Types;
use vstd::prelude::*;

verus! {

/// What a value is, as mathematics sees it: texts are sequences of
/// characters, lists are sequences, and scopes are maps.
pub enum ValueView {
    Number(Seq<char>),
    String(Seq<char>),
    Bool(bool),
    Table(TableView),
    Function(FunctionView),
    End,
    If,
    Then,
    While,
    Do,
    Return(Seq<char>),
}

/// What a binding is: a name and the value bound to it.
pub struct IdentifierView {
    pub name: Seq<char>,
    pub value: ValueView,
}

/// What a table is: its name and its members in their order.
pub struct TableView {
    pub name: Seq<char>,
    pub members: Seq<TableMemberView>,
}

/// What a member of a table is: its name and what it holds.
pub struct TableMemberView {
    pub name: Seq<char>,
    pub is_a: MemberKindView,
}

/// What a member of a table holds.
pub enum MemberKindView {
    RawType(ValueView),
    NestedTable(TableView),
    Function(FunctionView),
    Method(FunctionView),
}

/// What a declared argument is: its name and its declared type.
pub struct ArgumentView {
    pub name: Seq<char>,
    pub function_type: Types,
}

/// What a function is: its name, its return type, its arguments in their
/// order, and the scope of its body.
pub struct FunctionView {
    pub name: Seq<char>,
    pub return_type: Types,
    pub arguments: Seq<ArgumentView>,
    pub identifiers: Map<Seq<char>, IdentifierView>,
}

/// What a block is: its form and the scope of its body.
pub struct BlockView {
    pub block_type: BlockType,
    pub identifiers: Map<Seq<char>, IdentifierView>,
}

/// The scope that a sequence of bindings leaves behind: each is entered
/// under its name, in order, so that of two with one name the later stays.
pub open spec fn fold_bindings(ids: Seq<IdentifierView>) -> Map<Seq<char>, IdentifierView>
    decreases ids.len(),
{
    if ids.len() == 0 {
        Map::empty()
    } else {
        fold_bindings(ids.drop_last()).insert(ids.last().name, ids.last())
    }
}

/// Entering one more binding into a scope is entering it into the map that
/// the bindings before it left behind.
pub proof fn lemma_fold_push(ids: Seq<IdentifierView>, x: IdentifierView)
    ensures
        fold_bindings(ids.push(x)) == fold_bindings(ids).insert(x.name, x),
{
    assert(ids.push(x).drop_last() =~= ids);
}

/// Of two bindings with one name that follow one another, the later alone
/// stays: the scope is the one that the later would have left behind
/// without the earlier. A scope made of two such bindings holds exactly
/// one, the later.
pub proof fn lemma_shadowing(before: Seq<IdentifierView>, first: IdentifierView, second: IdentifierView)
    requires
        first.name == second.name,
    ensures
        fold_bindings(before.push(first).push(second)) == fold_bindings(before.push(second)),
        fold_bindings(seq![first, second]).dom() == set![second.name],
        fold_bindings(seq![first, second])[second.name] == second,
{
    lemma_fold_push(before, first);
    lemma_fold_push(before.push(first), second);
    lemma_fold_push(before, second);
    assert(fold_bindings(before).insert(first.name, first).insert(second.name, second)
        =~= fold_bindings(before).insert(second.name, second));
    let none = Seq::<IdentifierView>::empty();
    assert(seq![first, second] =~= none.push(first).push(second));
    lemma_fold_push(none, first);
    lemma_fold_push(none.push(first), second);
    assert(fold_bindings(seq![first, second]).dom() =~= set![second.name]);
}

/// A scope holds each binding under the binding's own name.
pub proof fn lemma_fold_keys(ids: Seq<IdentifierView>, name: Seq<char>)
    requires
        fold_bindings(ids).contains_key(name),
    ensures
        fold_bindings(ids)[name].name == name,
    decreases ids.len(),
{
    if ids.len() > 0 && ids.last().name != name {
        lemma_fold_keys(ids.drop_last(), name);
    }
}

/// A scope holds a name exactly when one of the bindings that made it has
/// that name.
pub proof fn lemma_fold_names(ids: Seq<IdentifierView>, name: Seq<char>)
    ensures
        fold_bindings(ids).contains_key(name) <==> exists|k: int|
            0 <= k < ids.len() && ids[k].name == name,
    decreases ids.len(),
{
    if ids.len() > 0 {
        let front = ids.drop_last();
        lemma_fold_names(front, name);
        if fold_bindings(ids).contains_key(name) {
            if ids.last().name == name {
                assert(ids[ids.len() - 1].name == name);
            } else {
                let k = choose|k: int| 0 <= k < front.len() && front[k].name == name;
                assert(ids[k].name == name);
            }
        }
        if exists|k: int| 0 <= k < ids.len() && ids[k].name == name {
            let k = choose|k: int| 0 <= k < ids.len() && ids[k].name == name;
            if k < ids.len() - 1 {
                assert(front[k].name == name);
            }
        }
    }
}

/// Under a name a scope holds the last of the bindings with that name.
pub proof fn lemma_fold_last_wins(ids: Seq<IdentifierView>, k: int)
    requires
        0 <= k < ids.len(),
        forall|j: int| k < j < ids.len() ==> ids[j].name != ids[k].name,
    ensures
        fold_bindings(ids).contains_key(ids[k].name),
        fold_bindings(ids)[ids[k].name] == ids[k],
    decreases ids.len(),
{
    if k < ids.len() - 1 {
        let front = ids.drop_last();
        assert(front[k] == ids[k]);
        assert forall|j: int| k < j < front.len() implies front[j].name != front[k].name by {
            assert(front[j] == ids[j]);
        }
        lemma_fold_last_wins(front, k);
        assert(ids.last() == ids[ids.len() - 1]);
    }
}

} // verus!
