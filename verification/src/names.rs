//! A small map from names to values, kept as a list.

use vstd::prelude::*;

use crate::text::same_text;

verus! {

/// Values by name; no name stands twice.
#[derive(Debug)]
pub struct Named<V> {
    entries: Vec<(String, V)>,
}

spec fn names_differ<V>(entries: Seq<(String, V)>) -> bool {
    forall|i: int, j: int|
        0 <= i < j < entries.len() ==> (#[trigger] entries[i]).0@ != (#[trigger] entries[j]).0@
}

spec fn named_model<V: View>(entries: Seq<(String, V)>) -> Map<Seq<char>, V::V>
    decreases entries.len(),
{
    if entries.len() == 0 {
        Map::empty()
    } else {
        named_model(entries.drop_last()).insert(entries.last().0@, entries.last().1@)
    }
}

impl<V: View> View for Named<V> {
    type V = Map<Seq<char>, V::V>;

    closed spec fn view(&self) -> Map<Seq<char>, V::V> {
        named_model(self.entries@)
    }
}

proof fn lemma_named_entry<V: View>(entries: Seq<(String, V)>, i: int)
    requires
        names_differ(entries),
        0 <= i < entries.len(),
    ensures
        named_model(entries).contains_key(entries[i].0@),
        named_model(entries)[entries[i].0@] == entries[i].1@,
    decreases entries.len(),
{
    if i < entries.len() - 1 {
        assert(entries.drop_last()[i] == entries[i]);
        lemma_named_entry(entries.drop_last(), i);
        assert(entries[i].0@ != entries[entries.len() - 1].0@);
    }
}

proof fn lemma_named_absent<V: View>(entries: Seq<(String, V)>, name: Seq<char>)
    requires
        forall|i: int| 0 <= i < entries.len() ==> (#[trigger] entries[i]).0@ != name,
    ensures
        !named_model(entries).contains_key(name),
    decreases entries.len(),
{
    if entries.len() > 0 {
        assert forall|i: int| 0 <= i < entries.drop_last().len() implies (
        #[trigger] entries.drop_last()[i]).0@ != name by {
            assert(entries[i].0@ != name);
        }
        lemma_named_absent(entries.drop_last(), name);
        assert(entries[entries.len() - 1].0@ != name);
    }
}

proof fn lemma_named_len<V: View>(entries: Seq<(String, V)>)
    requires
        names_differ(entries),
    ensures
        named_model(entries).dom().finite(),
        named_model(entries).dom().len() == entries.len(),
    decreases entries.len(),
{
    if entries.len() > 0 {
        let init = entries.drop_last();
        lemma_named_len(init);
        assert forall|i: int| 0 <= i < init.len() implies (#[trigger] init[i]).0@
            != entries.last().0@ by {
            assert(entries[i].0@ != entries[entries.len() - 1].0@);
        }
        lemma_named_absent(init, entries.last().0@);
    }
}

proof fn lemma_named_update<V: View>(entries: Seq<(String, V)>, i: int, entry: (String, V))
    requires
        names_differ(entries),
        0 <= i < entries.len(),
        entry.0@ == entries[i].0@,
    ensures
        names_differ(entries.update(i, entry)),
        named_model(entries.update(i, entry)) == named_model(entries).insert(entry.0@, entry.1@),
    decreases entries.len(),
{
    let after = entries.update(i, entry);
    assert forall|a: int, b: int| 0 <= a < b < after.len() implies (#[trigger] after[a]).0@ != (
    #[trigger] after[b]).0@ by {
        assert(entries[a].0@ != entries[b].0@);
    }
    let init = entries.drop_last();
    if i < entries.len() - 1 {
        assert(after.drop_last() =~= init.update(i, entry));
        lemma_named_update(init, i, entry);
        assert(entries[i].0@ != entries[entries.len() - 1].0@);
        assert(named_model(after) =~= named_model(entries).insert(entry.0@, entry.1@));
    } else {
        assert(after.drop_last() =~= init);
        assert(named_model(after) =~= named_model(entries).insert(entry.0@, entry.1@));
    }
}

impl<V> Named<V> {
    #[verifier::type_invariant]
    spec fn wf(&self) -> bool {
        names_differ(self.entries@)
    }
}

impl<V: View> Named<V> {
    /// No values.
    pub fn new() -> (r: Named<V>)
        ensures
            r@ == Map::<Seq<char>, V::V>::empty(),
    {
        Named { entries: Vec::new() }
    }

    fn find(&self, name: &str) -> (r: Option<usize>)
        ensures
            match r {
                Some(i) => i < self.entries@.len() && self.entries@[i as int].0@ == name@,
                None => forall|i: int|
                    0 <= i < self.entries@.len() ==> (#[trigger] self.entries@[i]).0@ != name@,
            },
    {
        for i in 0..self.entries.len()
            invariant
                forall|j: int| 0 <= j < i ==> (#[trigger] self.entries@[j]).0@ != name@,
        {
            if same_text(self.entries[i].0.as_str(), name) {
                return Some(i);
            }
        }
        None
    }

    /// Puts `value` under `name`, in place of what stood there.
    pub fn insert(&mut self, name: String, value: V)
        ensures
            final(self)@ == old(self)@.insert(name@, value@),
    {
        proof {
            use_type_invariant(&*self);
        }
        let ghost before = self.entries@;
        let place = self.find(name.as_str());
        let mut entries: Vec<(String, V)> = Vec::new();
        std::mem::swap(&mut entries, &mut self.entries);
        match place {
            Some(i) => {
                proof {
                    lemma_named_update(before, i as int, (name, value));
                }
                entries.set(i, (name, value));
            },
            None => {
                entries.push((name, value));
                assert(entries@.drop_last() =~= before);
            },
        }
        self.entries = entries;
    }

    /// The value under `name`.
    pub fn get(&self, name: &str) -> (r: Option<&V>)
        ensures
            match r {
                Some(v) => self@.contains_key(name@) && self@[name@] == v@,
                None => !self@.contains_key(name@),
            },
    {
        proof {
            use_type_invariant(self);
        }
        match self.find(name) {
            Some(i) => {
                proof {
                    lemma_named_entry(self.entries@, i as int);
                }
                Some(&self.entries[i].1)
            },
            None => {
                proof {
                    lemma_named_absent(self.entries@, name@);
                }
                None
            },
        }
    }

    /// The value of the only name, if there is exactly one.
    pub fn only(&self) -> (r: Option<&V>)
        ensures
            self@.dom().finite(),
            match r {
                Some(v) => self@.dom().len() == 1 && self@[self@.dom().choose()] == v@,
                None => self@.dom().len() != 1,
            },
    {
        proof {
            use_type_invariant(self);
            lemma_named_len(self.entries@);
        }
        if self.entries.len() == 1 {
            proof {
                lemma_named_entry(self.entries@, 0);
                let name = self.entries@[0].0@;
                let other = self@.dom().choose();
                if other != name {
                    assert(self@.dom().contains(other));
                    lemma_named_absent(self.entries@, other);
                }
            }
            Some(&self.entries[0].1)
        } else {
            None
        }
    }
}

} // verus!
