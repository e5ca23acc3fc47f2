use crate::identifier_parser::{identifier_views, Identifier};
use crate::model::{fold_bindings, lemma_fold_push, IdentifierView};
use vstd::prelude::*;

verus! {

/// The bindings of one scope, keyed by name. A name occurs once: a binding
/// entered under a name that is there already takes the place of the earlier
/// one. Two maps are `==` when they hold equal bindings under the same
/// names, in whatever order these were entered.
#[derive(Debug)]
pub struct BindingMap {
    entries: Vec<Identifier>,
}

/// The map that holds each of `items` under its name.
spec fn map_of(items: Seq<IdentifierView>) -> Map<Seq<char>, IdentifierView> {
    Map::new(
        |n: Seq<char>| exists|k: int| 0 <= k < items.len() && items[k].name == n,
        |n: Seq<char>| items[choose|k: int| 0 <= k < items.len() && items[k].name == n],
    )
}

impl BindingMap {
    /// The bindings held, in the order of their first entry.
    spec fn items(&self) -> Seq<IdentifierView>
        decreases self, 0int,
    {
        Seq::new(
            self.entries.len() as nat,
            |k: int|
                if 0 <= k < self.entries.len() {
                    self.entries[k]@
                } else {
                    arbitrary()
                },
        )
    }

    #[verifier::type_invariant]
    spec fn distinct_names(&self) -> bool {
        forall|a: int, b: int|
            0 <= a < b < self.entries.len() ==> self.entries[a].name@ != self.entries[b].name@
    }
}

impl View for BindingMap {
    type V = Map<Seq<char>, IdentifierView>;

    closed spec fn view(&self) -> Map<Seq<char>, IdentifierView>
        decreases self, 1int,
    {
        map_of(self.items())
    }
}

impl PartialEq for BindingMap {
    fn eq(&self, other: &BindingMap) -> (r: bool)
        decreases self,
    {
        proof {
            use_type_invariant(self);
            use_type_invariant(other);
            assert(distinct(self.items()));
            assert(distinct(other.items()));
            lemma_map_of_len(self.items());
            lemma_map_of_len(other.items());
        }
        if self.entries.len() != other.entries.len() {
            return false;
        }
        let mut k: usize = 0;
        while k < self.entries.len()
            invariant
                k <= self.entries.len(),
                distinct(self.items()),
                distinct(other.items()),
                forall|j: int|
                    0 <= j < k ==> other@.contains_key(#[trigger] self.items()[j].name) && other@[self.items()[j].name]
                        == self.items()[j],
            decreases self.entries.len() - k,
        {
            proof {
                lemma_map_of_entry(self.items(), k as int);
            }
            match other.position(&self.entries[k].name) {
                Some(at) => {
                    proof {
                        lemma_map_of_entry(other.items(), at as int);
                    }
                    if !self.entries[k].eq(&other.entries[at]) {
                        return false;
                    }
                },
                None => {
                    return false;
                },
            }
            k += 1;
        }
        proof {
            assert forall|n: Seq<char>| self@.contains_key(n) implies other@.contains_key(n)
                && other@[n] == self@[n] by {
                let j = choose|j: int| 0 <= j < self.items().len() && self.items()[j].name == n;
                lemma_map_of_entry(self.items(), j);
            }
            assert(self@.dom().subset_of(other@.dom()));
            vstd::set_lib::lemma_subset_equality(self@.dom(), other@.dom());
            assert(self@ =~= other@);
        }
        true
    }
}

impl vstd::std_specs::cmp::PartialEqSpecImpl for BindingMap {
    open spec fn obeys_eq_spec() -> bool {
        true
    }

    open spec fn eq_spec(&self, other: &BindingMap) -> bool {
        self@ == other@
    }
}

impl Clone for BindingMap {
    fn clone(&self) -> (r: Self)
        ensures
            r@ == self@,
        decreases self,
    {
        proof {
            use_type_invariant(self);
        }
        let mut entries: Vec<Identifier> = Vec::new();
        let mut k: usize = 0;
        while k < self.entries.len()
            invariant
                k <= self.entries.len(),
                entries@.len() == k,
                forall|j: int| 0 <= j < k ==> (#[trigger] entries@[j])@ == self.entries@[j]@,
            decreases self.entries.len() - k,
        {
            entries.push(self.entries[k].clone());
            k += 1;
        }
        assert forall|a: int, b: int| 0 <= a < b < entries.len() implies entries[a].name@
            != entries[b].name@ by {
            assert(entries@[a]@.name == self.entries@[a]@.name);
            assert(entries@[b]@.name == self.entries@[b]@.name);
        }
        let r = BindingMap { entries };
        assert(r.items() =~= self.items());
        r
    }
}

/// True when no two of `items` have one name.
spec fn distinct(items: Seq<IdentifierView>) -> bool {
    forall|a: int, b: int| 0 <= a < b < items.len() ==> items[a].name != items[b].name
}

proof fn lemma_map_of_entry(items: Seq<IdentifierView>, k: int)
    requires
        distinct(items),
        0 <= k < items.len(),
    ensures
        map_of(items).contains_key(items[k].name),
        map_of(items)[items[k].name] == items[k],
{
    let n = items[k].name;
    let c = choose|j: int| 0 <= j < items.len() && items[j].name == n;
    assert(c == k);
}

proof fn lemma_map_of_push(items: Seq<IdentifierView>, x: IdentifierView)
    requires
        distinct(items),
        forall|k: int| 0 <= k < items.len() ==> items[k].name != x.name,
    ensures
        distinct(items.push(x)),
        map_of(items.push(x)) == map_of(items).insert(x.name, x),
{
    let after = items.push(x);
    assert(distinct(after));
    assert forall|n: Seq<char>| #[trigger]
        map_of(after).contains_key(n) <==> map_of(items).insert(x.name, x).contains_key(n) by {
        if map_of(after).contains_key(n) {
            let k = choose|k: int| 0 <= k < after.len() && after[k].name == n;
            if k < items.len() {
                assert(items[k].name == n);
            }
        }
        if map_of(items).contains_key(n) {
            let k = choose|k: int| 0 <= k < items.len() && items[k].name == n;
            assert(after[k].name == n);
        }
        if n == x.name {
            assert(after[items.len() as int].name == n);
        }
    }
    assert forall|n: Seq<char>| #[trigger] map_of(after).contains_key(n) implies map_of(after)[n]
        == map_of(items).insert(x.name, x)[n] by {
        let k = choose|k: int| 0 <= k < after.len() && after[k].name == n;
        lemma_map_of_entry(after, k);
        if k < items.len() {
            assert(items[k].name == n);
            lemma_map_of_entry(items, k);
        }
    }
    assert(map_of(after) =~= map_of(items).insert(x.name, x));
}

proof fn lemma_map_of_update(items: Seq<IdentifierView>, at: int, x: IdentifierView)
    requires
        distinct(items),
        0 <= at < items.len(),
        items[at].name == x.name,
    ensures
        distinct(items.update(at, x)),
        map_of(items.update(at, x)) == map_of(items).insert(x.name, x),
{
    let after = items.update(at, x);
    assert(distinct(after)) by {
        assert forall|a: int, b: int| 0 <= a < b < after.len() implies after[a].name
            != after[b].name by {
            assert(after[a].name == items[a].name);
            assert(after[b].name == items[b].name);
        }
    }
    assert forall|n: Seq<char>| #[trigger]
        map_of(after).contains_key(n) <==> map_of(items).insert(x.name, x).contains_key(n) by {
        if map_of(after).contains_key(n) {
            let k = choose|k: int| 0 <= k < after.len() && after[k].name == n;
            assert(items[k].name == n);
        }
        if map_of(items).contains_key(n) {
            let k = choose|k: int| 0 <= k < items.len() && items[k].name == n;
            assert(after[k].name == n);
        }
        if n == x.name {
            assert(after[at].name == n);
        }
    }
    assert forall|n: Seq<char>| #[trigger] map_of(after).contains_key(n) implies map_of(after)[n]
        == map_of(items).insert(x.name, x)[n] by {
        let k = choose|k: int| 0 <= k < after.len() && after[k].name == n;
        lemma_map_of_entry(after, k);
        if k != at {
            assert(items[k].name == n);
            lemma_map_of_entry(items, k);
        }
    }
    assert(map_of(after) =~= map_of(items).insert(x.name, x));
}

proof fn lemma_map_of_len(items: Seq<IdentifierView>)
    requires
        distinct(items),
    ensures
        map_of(items).dom().finite(),
        map_of(items).dom().len() == items.len(),
    decreases items.len(),
{
    if items.len() == 0 {
        assert(map_of(items).dom() =~= Set::<Seq<char>>::empty());
    } else {
        let front = items.drop_last();
        let x = items.last();
        assert(distinct(front)) by {
            assert forall|a: int, b: int| 0 <= a < b < front.len() implies front[a].name
                != front[b].name by {
                assert(front[a] == items[a]);
                assert(front[b] == items[b]);
            }
        }
        assert forall|k: int| 0 <= k < front.len() implies front[k].name != x.name by {
            assert(front[k] == items[k]);
        }
        lemma_map_of_len(front);
        lemma_map_of_push(front, x);
        assert(front.push(x) =~= items);
        assert(!map_of(front).dom().contains(x.name)) by {
            if map_of(front).contains_key(x.name) {
                let k = choose|k: int| 0 <= k < front.len() && front[k].name == x.name;
                assert(front[k].name != x.name);
            }
        }
        assert(map_of(items).dom() =~= map_of(front).dom().insert(x.name));
    }
}

impl BindingMap {
    /// A scope without bindings.
    pub fn new() -> (m: BindingMap)
        ensures
            m@ == Map::<Seq<char>, IdentifierView>::empty(),
    {
        let m = BindingMap { entries: Vec::new() };
        assert(m@ =~= Map::<Seq<char>, IdentifierView>::empty());
        m
    }

    /// Enters a binding under its name. One that was there under that name
    /// is replaced.
    pub fn insert(&mut self, identifier: Identifier)
        ensures
            final(self)@ == old(self)@.insert(identifier.name@, identifier@),
    {
        let mut taken = BindingMap { entries: Vec::new() };
        core::mem::swap(self, &mut taken);
        proof {
            use_type_invariant(&taken);
        }
        let ghost before = taken.items();
        let ghost entered = identifier@;
        assert(distinct(before));
        let BindingMap { entries } = taken;
        let mut entries = entries;
        let mut k: usize = 0;
        while k < entries.len() && entries[k].name != identifier.name
            invariant
                k <= entries.len(),
                forall|j: int| 0 <= j < k ==> entries[j].name@ != identifier.name@,
            decreases entries.len() - k,
        {
            k += 1;
        }
        if k < entries.len() {
            entries.set(k, identifier);
            proof {
                lemma_map_of_update(before, k as int, entered);
            }
            *self = BindingMap { entries };
            assert(self.items() =~= before.update(k as int, entered));
        } else {
            entries.push(identifier);
            proof {
                lemma_map_of_push(before, entered);
            }
            *self = BindingMap { entries };
            assert(self.items() =~= before.push(entered));
        }
    }

    /// The scope that the bindings leave behind when they are entered in
    /// their order.
    pub fn collect(identifiers: Vec<Identifier>) -> (m: BindingMap)
        ensures
            m@ == fold_bindings(identifier_views(identifiers@)),
    {
        let mut m = BindingMap::new();
        let ghost all = identifiers@;
        for identifier in it: identifiers
            invariant
                it.seq() == all,
                m@ == fold_bindings(identifier_views(all.take(it.index() as int))),
        {
            proof {
                let k = it.index() as int;
                lemma_fold_push(identifier_views(all.take(k)), identifier@);
                assert(identifier_views(all.take(k + 1)) =~= identifier_views(all.take(k)).push(
                    identifier@,
                ));
            }
            m.insert(identifier);
        }
        proof {
            assert(all.take(all.len() as int) =~= all);
        }
        m
    }

    /// The place of the binding with the name `name`, if there is one.
    fn position(&self, name: &String) -> (r: Option<usize>)
        ensures
            match r {
                Some(at) => at < self.entries.len() && self.entries[at as int].name@ == name@,
                None => !self@.contains_key(name@),
            },
    {
        let mut k: usize = 0;
        while k < self.entries.len()
            invariant
                k <= self.entries.len(),
                forall|j: int| 0 <= j < k ==> self.entries[j].name@ != name@,
            decreases self.entries.len() - k,
        {
            if self.entries[k].name == *name {
                return Some(k);
            }
            k += 1;
        }
        proof {
            if self@.contains_key(name@) {
                let items = self.items();
                let j = choose|j: int| 0 <= j < items.len() && items[j].name == name@;
                assert(self.entries[j].name@ == name@);
            }
        }
        None
    }

    /// The binding held under `name`, if there is one.
    pub fn get(&self, name: &str) -> (r: Option<&Identifier>)
        ensures
            match r {
                Some(identifier) => self@.contains_key(name@) && identifier@ == self@[name@]
                    && identifier.name@ == name@,
                None => !self@.contains_key(name@),
            },
    {
        proof {
            use_type_invariant(self);
            assert(distinct(self.items()));
        }
        let key = name.to_owned();
        let mut k: usize = 0;
        while k < self.entries.len()
            invariant
                k <= self.entries.len(),
                key@ == name@,
                distinct(self.items()),
                forall|j: int| 0 <= j < k ==> self.entries[j].name@ != name@,
            decreases self.entries.len() - k,
        {
            if self.entries[k].name == key {
                proof {
                    lemma_map_of_entry(self.items(), k as int);
                }
                return Some(&self.entries[k]);
            }
            k += 1;
        }
        proof {
            if self@.contains_key(name@) {
                let items = self.items();
                let j = choose|j: int| 0 <= j < items.len() && items[j].name == name@;
                assert(self.entries[j].name@ == name@);
            }
        }
        None
    }

    /// The number of names bound.
    pub fn len(&self) -> (n: usize)
        ensures
            self@.dom().finite(),
            n == self@.len(),
    {
        proof {
            use_type_invariant(self);
            assert(distinct(self.items()));
            lemma_map_of_len(self.items());
        }
        self.entries.len()
    }

    /// True when no name is bound.
    pub fn is_empty(&self) -> (b: bool)
        ensures
            b == (self@ == Map::<Seq<char>, IdentifierView>::empty()),
    {
        proof {
            if self.entries.len() == 0 {
                assert(self@ =~= Map::<Seq<char>, IdentifierView>::empty());
            } else {
                assert(self.items()[0].name == self.entries[0].name@);
                assert(self@.contains_key(self.entries[0].name@));
            }
        }
        self.entries.len() == 0
    }

    /// The bindings held, in the order of their first entry: one for each
    /// name bound, each the one that the map holds under its name.
    pub fn entries(&self) -> (r: &[Identifier])
        ensures
            self@.dom().finite(),
            r@.len() == self@.len(),
            forall|k: int|
                0 <= k < r@.len() ==> self@.contains_key(#[trigger] r@[k].name@) && self@[r@[k].name@]
                    == r@[k]@,
            forall|a: int, b: int| 0 <= a < b < r@.len() ==> r@[a].name@ != r@[b].name@,
    {
        proof {
            use_type_invariant(self);
            assert(distinct(self.items()));
            lemma_map_of_len(self.items());
            assert forall|k: int| 0 <= k < self.entries@.len() implies self@.contains_key(
                #[trigger] self.entries@[k].name@,
            ) && self@[self.entries@[k].name@] == self.entries@[k]@ by {
                lemma_map_of_entry(self.items(), k);
            }
        }
        self.entries.as_slice()
    }
}

} // verus!
