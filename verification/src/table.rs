//! Values by name.

use vstd::prelude::*;

use crate::text::str_eq;

verus! {

/// Values by name.
pub struct Table<T> {
    entries: Vec<(String, T)>,
}

/// The map that a list of entries gives; of two with one name the last counts.
pub open spec fn entry_map<T: View>(e: Seq<(String, T)>) -> Map<Seq<char>, T::V>
    decreases e.len(),
{
    if e.len() == 0 {
        Map::empty()
    } else {
        entry_map(e.drop_last()).insert(e.last().0@, e.last().1@)
    }
}

proof fn lemma_entry_last<T: View>(e: Seq<(String, T)>, i: int, name: Seq<char>)
    requires
        -1 <= i < e.len(),
        i >= 0 ==> e[i].0@ == name,
        forall|k: int| i < k < e.len() ==> (#[trigger] e[k]).0@ != name,
    ensures
        i >= 0 ==> entry_map(e).contains_key(name) && entry_map(e)[name] == e[i].1@,
        i < 0 ==> !entry_map(e).contains_key(name),
    decreases e.len(),
{
    if e.len() > 0 && i < e.len() - 1 {
        assert(e[e.len() - 1].0@ != name);
        lemma_entry_last(e.drop_last(), i, name);
    }
}

impl<T: View> View for Table<T> {
    type V = Map<Seq<char>, T::V>;

    closed spec fn view(&self) -> Map<Seq<char>, T::V> {
        entry_map(self.entries@)
    }
}

impl<T: View> Table<T> {
    /// An empty map.
    pub fn new() -> (m: Table<T>)
        ensures
            m@ == Map::<Seq<char>, T::V>::empty(),
    {
        Table { entries: Vec::new() }
    }

    /// The value under `name`.
    pub fn get(&self, name: &str) -> (r: Option<&T>)
        ensures
            match r {
                Some(v) => self@.contains_key(name@) && self@[name@] == v@,
                None => !self@.contains_key(name@),
            },
    {
        let mut i: usize = self.entries.len();
        while i > 0
            invariant
                i <= self.entries@.len(),
                forall|k: int|
                    i <= k < self.entries@.len() ==> (#[trigger] self.entries@[k]).0@ != name@,
            decreases i,
        {
            if str_eq(self.entries[i - 1].0.as_str(), name) {
                proof {
                    lemma_entry_last(self.entries@, i - 1, name@);
                }
                return Some(&self.entries[i - 1].1);
            }
            i = i - 1;
        }
        proof {
            lemma_entry_last(self.entries@, -1, name@);
        }
        None
    }

    /// Forgets what is under `name`.
    pub fn remove(&mut self, name: &str)
        ensures
            final(self)@ == old(self)@.remove(name@),
    {
        let ghost before = self@;
        let mut i: usize = self.entries.len();
        let ghost all = self.entries@;
        assert(all.take(all.len() as int) =~= all);
        let mut kept: Vec<(String, T)> = Vec::new();
        let mut n: usize = 0;
        let mut rest: Vec<(String, T)> = Vec::new();
        std::mem::swap(&mut rest, &mut self.entries);
        while n < i
            invariant
                n <= i,
                i == all.len(),
                rest@ == all.skip(n as int),
                entry_map(kept@) == entry_map(all.take(n as int)).remove(name@),
            decreases i - n,
        {
            let e = rest.remove(0);
            assert(rest@ =~= all.skip(n + 1));
            assert(all.take(n + 1).drop_last() =~= all.take(n as int));
            let ghost k0 = kept@;
            if !str_eq(e.0.as_str(), name) {
                kept.push(e);
                assert(kept@.drop_last() =~= k0);
                assert(entry_map(kept@) =~= entry_map(all.take(n + 1)).remove(name@));
            } else {
                assert(entry_map(kept@) =~= entry_map(all.take(n + 1)).remove(name@));
            }
            n = n + 1;
        }
        self.entries = kept;
    }

    /// Puts `value` in under `name`.
    pub fn insert(&mut self, name: &str, value: T)
        ensures
            final(self)@ == old(self)@.insert(name@, value@),
    {
        self.remove(name);
        let ghost e = self.entries@;
        self.entries.push((name.to_string(), value));
        assert(self.entries@.drop_last() =~= e);
        assert(self@ =~= old(self)@.insert(name@, value@));
    }
}

} // verus!
