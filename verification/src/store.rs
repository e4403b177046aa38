//! The variables of a session.

use crate::number::Integer;
use vstd::prelude::*;
use vstd::string::*;

verus! {

/// The map that a list of bindings stands for.
spec fn bindings_map(entries: Seq<(String, Integer)>) -> Map<Seq<char>, int>
    decreases entries.len(),
{
    if entries.len() == 0 {
        Map::empty()
    } else {
        bindings_map(entries.drop_last()).insert(entries.last().0@, entries.last().1@)
    }
}

/// Whether no name is bound twice.
spec fn distinct_names(entries: Seq<(String, Integer)>) -> bool {
    forall|i: int, j: int|
        0 <= i < j < entries.len() ==> (#[trigger] entries[i]).0@ != (#[trigger] entries[j]).0@
}

/// The names that a list binds are the keys of its map, and under distinct
/// names each is mapped to the value beside it.
proof fn lemma_bindings_map(entries: Seq<(String, Integer)>)
    ensures
        forall|k: Seq<char>|
            bindings_map(entries).contains_key(k) <==> exists|i: int|
                0 <= i < entries.len() && (#[trigger] entries[i]).0@ == k,
        distinct_names(entries) ==> forall|i: int|
            0 <= i < entries.len() ==> bindings_map(entries)[(#[trigger] entries[i]).0@]
                == entries[i].1@,
    decreases entries.len(),
{
    if entries.len() > 0 {
        let front = entries.drop_last();
        lemma_bindings_map(front);
        assert forall|k: Seq<char>|
            bindings_map(entries).contains_key(k) <==> exists|i: int|
                0 <= i < entries.len() && (#[trigger] entries[i]).0@ == k by {
            if bindings_map(entries).contains_key(k) {
                if k == entries.last().0@ {
                    assert(entries[entries.len() - 1].0@ == k);
                } else {
                    assert(bindings_map(front).contains_key(k));
                    let i = choose|i: int| 0 <= i < front.len() && (#[trigger] front[i]).0@ == k;
                    assert(entries[i].0@ == k);
                }
            }
            if exists|i: int| 0 <= i < entries.len() && (#[trigger] entries[i]).0@ == k {
                let i = choose|i: int| 0 <= i < entries.len() && (#[trigger] entries[i]).0@ == k;
                if i < front.len() {
                    assert(front[i].0@ == k);
                    assert(bindings_map(front).contains_key(k));
                }
            }
        }
        if distinct_names(entries) {
            assert(distinct_names(front)) by {
                assert forall|i: int, j: int| 0 <= i < j < front.len() implies (
                #[trigger] front[i]).0@ != (#[trigger] front[j]).0@ by {
                    assert(front[i] == entries[i] && front[j] == entries[j]);
                }
            }
            assert forall|i: int| 0 <= i < entries.len() implies bindings_map(entries)[(
            #[trigger] entries[i]).0@] == entries[i].1@ by {
                if i < front.len() {
                    assert(front[i] == entries[i]);
                    assert(entries[i].0@ != entries[entries.len() - 1].0@);
                }
            }
        }
    }
}

/// Putting another value beside a name changes the value of that name,
/// and nothing else.
proof fn lemma_rebind(
    before: Seq<(String, Integer)>,
    after: Seq<(String, Integer)>,
    i: int,
)
    requires
        distinct_names(before),
        0 <= i < before.len(),
        after.len() == before.len(),
        after[i].0@ == before[i].0@,
        forall|j: int| 0 <= j < before.len() && j != i ==> after[j] == before[j],
    ensures
        distinct_names(after),
        bindings_map(after) == bindings_map(before).insert(after[i].0@, after[i].1@),
{
    let key = after[i].0@;
    let v = after[i].1@;
    assert forall|a: int, b: int| 0 <= a < b < after.len() implies (#[trigger] after[a]).0@ != (
    #[trigger] after[b]).0@ by {
        assert(after[a].0@ == before[a].0@);
        assert(after[b].0@ == before[b].0@);
    }
    lemma_bindings_map(before);
    lemma_bindings_map(after);
    assert forall|k: Seq<char>|
        bindings_map(after).contains_key(k) <==> bindings_map(before).insert(
            key,
            v,
        ).contains_key(k) by {
        if bindings_map(after).contains_key(k) {
            let j = choose|j: int| 0 <= j < after.len() && (#[trigger] after[j]).0@ == k;
            assert(before[j].0@ == k);
        }
        if bindings_map(before).contains_key(k) {
            let j = choose|j: int| 0 <= j < before.len() && (#[trigger] before[j]).0@ == k;
            assert(after[j].0@ == k);
        }
        if k == key {
            assert(after[i].0@ == k);
        }
    }
    assert forall|k: Seq<char>| bindings_map(after).contains_key(k) implies (
    #[trigger] bindings_map(after)[k]) == bindings_map(before).insert(key, v)[k] by {
        let j = choose|j: int| 0 <= j < after.len() && (#[trigger] after[j]).0@ == k;
        assert(bindings_map(after)[after[j].0@] == after[j].1@);
        if j != i {
            assert(after[j] == before[j]);
            assert(before[j].0@ != before[i].0@);
            assert(bindings_map(before)[before[j].0@] == before[j].1@);
        }
    }
    assert(bindings_map(after) =~= bindings_map(before).insert(key, v));
}

/// The variables of a session: each name that was given a value, with the
/// value that it was given last.
#[derive(Debug)]
pub struct VariableStore {
    entries: Vec<(String, Integer)>,
}

impl View for VariableStore {
    type V = Map<Seq<char>, int>;

    closed spec fn view(&self) -> Map<Seq<char>, int> {
        bindings_map(self.entries@)
    }
}

impl VariableStore {
    /// No name is held twice.
    #[verifier::type_invariant]
    spec fn distinct(&self) -> bool {
        distinct_names(self.entries@)
    }

    /// A store without variables.
    pub fn new() -> (store: VariableStore)
        ensures
            store@ == Map::<Seq<char>, int>::empty(),
    {
        VariableStore { entries: Vec::new() }
    }

    /// The place of `name` among the entries, if it is bound.
    fn position(&self, name: &String) -> (r: Option<usize>)
        ensures
            match r {
                Some(i) => i < self.entries@.len() && self.entries@[i as int].0@ == name@,
                None => forall|i: int|
                    0 <= i < self.entries@.len() ==> (#[trigger] self.entries@[i]).0@ != name@,
            },
    {
        let mut i: usize = 0;
        while i < self.entries.len()
            invariant
                forall|k: int| 0 <= k < i ==> (#[trigger] self.entries@[k]).0@ != name@,
            decreases self.entries@.len() - i,
        {
            if self.entries[i].0 == *name {
                return Some(i);
            }
            i += 1;
        }
        None
    }

    /// The value of the variable `name`, if it has one.
    pub fn get(&self, name: &str) -> (r: Option<&Integer>)
        ensures
            match r {
                Some(value) => self@.contains_key(name@) && value@ == self@[name@],
                None => !self@.contains_key(name@),
            },
    {
        proof {
            use_type_invariant(self);
            lemma_bindings_map(self.entries@);
        }
        let key = String::from_str(name);
        match self.position(&key) {
            Some(i) => Some(&self.entries[i].1),
            None => None,
        }
    }

    /// Gives the variable `name` the value `value`, whether or not it had one.
    pub fn insert(&mut self, name: String, value: Integer)
        ensures
            final(self)@ == old(self)@.insert(name@, value@),
    {
        let ghost before = self.entries@;
        let ghost key = name@;
        let ghost v = value@;
        proof {
            use_type_invariant(&*self);
            lemma_bindings_map(before);
        }
        let found = self.position(&name);
        let mut entries: Vec<(String, Integer)> = Vec::new();
        core::mem::swap(&mut self.entries, &mut entries);
        match found {
            Some(i) => {
                entries.set(i, (name, value));
                proof {
                    lemma_rebind(before, entries@, i as int);
                }
            },
            None => {
                entries.push((name, value));
                assert(entries@.drop_last() =~= before);
            },
        }
        core::mem::swap(&mut self.entries, &mut entries);
    }

    /// Forgets every variable.
    pub fn clear(&mut self)
        ensures
            final(self)@ == Map::<Seq<char>, int>::empty(),
    {
        self.entries = Vec::new();
    }

    /// The number of variables.
    pub fn len(&self) -> (n: usize)
        ensures
            self@.dom().finite(),
            n == self@.dom().len(),
    {
        proof {
            use_type_invariant(self);
            lemma_bindings_len(self.entries@);
        }
        self.entries.len()
    }

    /// The names of the variables, each once.
    pub fn names(&self) -> (names: Vec<String>)
        ensures
            self@.dom().finite(),
            names@.len() == self@.dom().len(),
            forall|i: int| 0 <= i < names@.len() ==> self@.contains_key(#[trigger] names@[i]@),
            forall|k: Seq<char>|
                self@.contains_key(k) ==> exists|i: int|
                    0 <= i < names@.len() && (#[trigger] names@[i])@ == k,
            forall|i: int, j: int|
                0 <= i < j < names@.len() ==> (#[trigger] names@[i])@ != (#[trigger] names@[j])@,
    {
        proof {
            use_type_invariant(self);
            lemma_bindings_len(self.entries@);
            lemma_bindings_map(self.entries@);
        }
        let mut names: Vec<String> = Vec::new();
        let mut i: usize = 0;
        while i < self.entries.len()
            invariant
                i <= self.entries@.len(),
                names@.len() == i,
                forall|k: int| 0 <= k < i ==> (#[trigger] names@[k])@ == self.entries@[k].0@,
            decreases self.entries@.len() - i,
        {
            names.push(self.entries[i].0.clone());
            i += 1;
        }
        assert forall|k: Seq<char>| self@.contains_key(k) implies exists|i: int|
            0 <= i < names@.len() && (#[trigger] names@[i])@ == k by {
            let j = choose|j: int|
                0 <= j < self.entries@.len() && (#[trigger] self.entries@[j]).0@ == k;
            assert(names@[j]@ == k);
        }
        assert forall|i: int| 0 <= i < names@.len() implies self@.contains_key(
            #[trigger] names@[i]@,
        ) by {
            assert(self.entries@[i].0@ == names@[i]@);
        }
        assert forall|i: int, j: int| 0 <= i < j < names@.len() implies (#[trigger] names@[i])@ != (
        #[trigger] names@[j])@ by {
            assert(self.entries@[i].0@ != self.entries@[j].0@);
        }
        names
    }
}

/// Under distinct names a list binds as many names as it is long.
proof fn lemma_bindings_len(entries: Seq<(String, Integer)>)
    requires
        distinct_names(entries),
    ensures
        bindings_map(entries).dom().finite(),
        bindings_map(entries).dom().len() == entries.len(),
    decreases entries.len(),
{
    if entries.len() > 0 {
        let front = entries.drop_last();
        assert forall|i: int, j: int| 0 <= i < j < front.len() implies (#[trigger] front[i]).0@ != (
        #[trigger] front[j]).0@ by {
            assert(front[i] == entries[i] && front[j] == entries[j]);
        }
        lemma_bindings_len(front);
        lemma_bindings_map(front);
        let k = entries.last().0@;
        if bindings_map(front).contains_key(k) {
            let i = choose|i: int| 0 <= i < front.len() && (#[trigger] front[i]).0@ == k;
            assert(entries[i].0@ == entries[entries.len() - 1].0@);
        }
        assert(bindings_map(entries).dom() =~= bindings_map(front).dom().insert(k));
    }
}

} // verus!
