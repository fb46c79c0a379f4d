//! Sorting by insertion, for the kinds of items that the service puts in order.

use vstd::prelude::*;

use crate::text::{
    lemma_text_lt_irreflexive, lemma_text_lt_total, lemma_text_lt_transitive, text_less, text_lt,
};

verus! {

/// Items with a strict total order on what they hold.
pub trait Ranked: View + Sized {
    /// Whether `a` comes before `b`.
    spec fn lt(a: Self::V, b: Self::V) -> bool;

    /// The order is strict, transitive and total.
    proof fn total_order(a: Self::V, b: Self::V, c: Self::V)
        ensures
            !Self::lt(a, a),
            Self::lt(a, b) && Self::lt(b, c) ==> Self::lt(a, c),
            a == b || Self::lt(a, b) || Self::lt(b, a),
    ;

    /// Whether `self` comes before `other`.
    fn less(&self, other: &Self) -> (r: bool)
        ensures
            r == Self::lt(self@, other@),
    ;
}

impl Ranked for i32 {
    open spec fn lt(a: i32, b: i32) -> bool {
        a < b
    }

    proof fn total_order(a: i32, b: i32, c: i32) {
    }

    fn less(&self, other: &i32) -> (r: bool) {
        *self < *other
    }
}

impl Ranked for String {
    open spec fn lt(a: Seq<char>, b: Seq<char>) -> bool {
        text_lt(a, b)
    }

    proof fn total_order(a: Seq<char>, b: Seq<char>, c: Seq<char>) {
        lemma_text_lt_irreflexive(a);
        lemma_text_lt_total(a, b);
        if text_lt(a, b) && text_lt(b, c) {
            lemma_text_lt_transitive(a, b, c);
        }
    }

    fn less(&self, other: &String) -> (r: bool) {
        text_less(self.as_str(), other.as_str())
    }
}

/// Whether the number list `a` comes before `b`, item by item.
pub open spec fn list_lt(a: Seq<i32>, b: Seq<i32>) -> bool
    decreases a.len(),
{
    if b.len() == 0 {
        false
    } else if a.len() == 0 {
        true
    } else if a[0] != b[0] {
        a[0] < b[0]
    } else {
        list_lt(a.skip(1), b.skip(1))
    }
}

proof fn lemma_list_order(a: Seq<i32>, b: Seq<i32>, c: Seq<i32>)
    ensures
        !list_lt(a, a),
        list_lt(a, b) && list_lt(b, c) ==> list_lt(a, c),
        a == b || list_lt(a, b) || list_lt(b, a),
    decreases a.len() + b.len() + c.len(),
{
    let x = if a.len() > 0 { a.skip(1) } else { a };
    let y = if b.len() > 0 { b.skip(1) } else { b };
    let z = if c.len() > 0 { c.skip(1) } else { c };
    if a.len() + b.len() + c.len() > 0 {
        lemma_list_order(x, y, z);
    }
    if a.len() > 0 && b.len() > 0 && a[0] == b[0] && x == y {
        assert(a =~= seq![a[0]] + x);
        assert(b =~= seq![b[0]] + y);
    }
    if a.len() == 0 && b.len() == 0 {
        assert(a =~= b);
    }
}

fn list_less(a: &Vec<i32>, b: &Vec<i32>) -> (r: bool)
    ensures
        r == list_lt(a@, b@),
{
    let mut i: usize = 0;
    assert(a@.skip(0) == a@ && b@.skip(0) == b@);
    while i < a.len() && i < b.len()
        invariant
            i <= a@.len(),
            i <= b@.len(),
            list_lt(a@.skip(i as int), b@.skip(i as int)) == list_lt(a@, b@),
        decreases a@.len() - i,
    {
        assert(a@.skip(i as int)[0] == a@[i as int]);
        assert(b@.skip(i as int)[0] == b@[i as int]);
        if a[i] != b[i] {
            return a[i] < b[i];
        }
        assert(a@.skip(i as int).skip(1) == a@.skip(i + 1));
        assert(b@.skip(i as int).skip(1) == b@.skip(i + 1));
        i = i + 1;
    }
    i < b.len()
}

impl Ranked for (i32, Vec<i32>) {
    open spec fn lt(a: (i32, Seq<i32>), b: (i32, Seq<i32>)) -> bool {
        a.0 < b.0 || (a.0 == b.0 && list_lt(a.1, b.1))
    }

    proof fn total_order(a: (i32, Seq<i32>), b: (i32, Seq<i32>), c: (i32, Seq<i32>)) {
        lemma_list_order(a.1, b.1, c.1);
    }

    fn less(&self, other: &(i32, Vec<i32>)) -> (r: bool) {
        self.0 < other.0 || (self.0 == other.0 && list_less(&self.1, &other.1))
    }
}

/// What the items of a list hold.
pub open spec fn views<T: View>(s: Seq<T>) -> Seq<T::V> {
    Seq::new(s.len(), |i: int| s[i]@)
}

/// Whether no item comes before one that stands ahead of it.
pub open spec fn in_order<T: Ranked>(s: Seq<T::V>) -> bool {
    forall|i: int, j: int| 0 <= i < j < s.len() ==> !T::lt(#[trigger] s[j], #[trigger] s[i])
}

/// Whether `r` holds the items of `s`, each as often, in order.
pub open spec fn is_sorted_form<T: Ranked>(r: Seq<T::V>, s: Seq<T::V>) -> bool {
    in_order::<T>(r) && r.to_multiset() == s.to_multiset()
}

/// `s` with `x` in front of the first item that does not come before it.
pub open spec fn place<T: Ranked>(s: Seq<T::V>, x: T::V) -> Seq<T::V>
    decreases s.len(),
{
    if s.len() > 0 && T::lt(s[0], x) {
        seq![s[0]] + place::<T>(s.skip(1), x)
    } else {
        seq![x] + s
    }
}

/// The items of `s`, in order.
pub open spec fn sort_of<T: Ranked>(s: Seq<T::V>) -> Seq<T::V>
    decreases s.len(),
{
    if s.len() == 0 {
        s
    } else {
        place::<T>(sort_of::<T>(s.skip(1)), s[0])
    }
}

proof fn lemma_place<T: Ranked>(s: Seq<T::V>, x: T::V, i: int)
    requires
        0 <= i <= s.len(),
        forall|k: int| 0 <= k < i ==> T::lt(#[trigger] s[k], x),
        i < s.len() ==> !T::lt(s[i], x),
    ensures
        place::<T>(s, x) == s.insert(i, x),
    decreases s.len(),
{
    if i == 0 {
        assert(place::<T>(s, x) =~= s.insert(i, x));
    } else {
        let rest = s.skip(1);
        assert forall|k: int| 0 <= k < i - 1 implies T::lt(#[trigger] rest[k], x) by {
            assert(rest[k] == s[k + 1]);
        }
        assert(i < s.len() ==> rest[i - 1] == s[i]);
        lemma_place::<T>(rest, x, i - 1);
        assert(place::<T>(s, x) =~= s.insert(i, x));
    }
}

proof fn lemma_insert_multiset<A>(s: Seq<A>, i: int, x: A)
    requires
        0 <= i <= s.len(),
    ensures
        s.insert(i, x).to_multiset() == s.to_multiset().insert(x),
{
    broadcast use vstd::seq_lib::group_to_multiset_ensures;

    let t = s.insert(i, x);
    assert(t.remove(i) =~= s);
    assert(t[i] == x);
    assert(t.contains(x));
    assert(t.to_multiset().remove(x).insert(x) =~= t.to_multiset());
}

proof fn lemma_insert_in_order<T: Ranked>(s: Seq<T::V>, i: int, x: T::V)
    requires
        0 <= i <= s.len(),
        in_order::<T>(s),
        forall|k: int| 0 <= k < i ==> T::lt(#[trigger] s[k], x),
        i < s.len() ==> !T::lt(s[i], x),
    ensures
        in_order::<T>(s.insert(i, x)),
{
    let after = s.insert(i, x);
    assert forall|a: int, b: int| 0 <= a < b < after.len() implies !T::lt(
        #[trigger] after[b],
        #[trigger] after[a],
    ) by {
        let p = if a < i { a } else { a - 1 };
        let q = if b < i { b } else { b - 1 };
        if a != i && b != i {
            assert(after[a] == s[p] && after[b] == s[q]);
        } else if b == i {
            T::total_order(x, s[a], x);
        } else {
            assert(after[b] == s[q]);
            if q > i {
                assert(!T::lt(s[q], s[i]));
                T::total_order(s[q], x, s[i]);
                T::total_order(x, s[i], x);
                T::total_order(s[q], s[i], x);
            }
        }
    }
}

proof fn lemma_place_index<T: Ranked>(s: Seq<T::V>, x: T::V) -> (i: int)
    ensures
        0 <= i <= s.len(),
        forall|k: int| 0 <= k < i ==> T::lt(#[trigger] s[k], x),
        i < s.len() ==> !T::lt(s[i], x),
    decreases s.len(),
{
    if s.len() > 0 && T::lt(s[0], x) {
        let rest = s.skip(1);
        let n = lemma_place_index::<T>(rest, x);
        assert forall|k: int| 0 <= k < n + 1 implies T::lt(#[trigger] s[k], x) by {
            if k > 0 {
                assert(rest[k - 1] == s[k]);
            }
        }
        assert(n < rest.len() ==> rest[n] == s[n + 1]);
        n + 1
    } else {
        0
    }
}

/// Sorting puts the items in order, and loses, adds and repeats none.
pub proof fn law_sort_of<T: Ranked>(s: Seq<T::V>)
    ensures
        is_sorted_form::<T>(sort_of::<T>(s), s),
    decreases s.len(),
{
    if s.len() > 0 {
        let rest = s.skip(1);
        let before = sort_of::<T>(rest);
        law_sort_of::<T>(rest);
        let i = lemma_place_index::<T>(before, s[0]);
        lemma_place::<T>(before, s[0], i);
        lemma_insert_in_order::<T>(before, i, s[0]);
        lemma_insert_multiset(before, i, s[0]);
        lemma_insert_multiset(rest, 0, s[0]);
        assert(rest.insert(0, s[0]) =~= s);
    }
}

/// The items of `v`, in order.
pub fn sorted<T: Ranked>(v: Vec<T>) -> (r: Vec<T>)
    ensures
        views(r@) == sort_of::<T>(views(v@)),
        is_sorted_form::<T>(views(r@), views(v@)),
{
    let ghost all = v@;
    let mut v = v;
    let mut r: Vec<T> = Vec::new();
    proof {
        broadcast use vstd::seq_lib::group_to_multiset_ensures;

        assert(views(r@) =~= Seq::<T::V>::empty());
        assert(views(all.skip(all.len() as int)) =~= Seq::<T::V>::empty());
        assert(all.take(all.len() as int) =~= all);
    }
    while v.len() > 0
        invariant
            v@.len() <= all.len(),
            v@ == all.take(v@.len() as int),
            views(r@) == sort_of::<T>(views(all.skip(v@.len() as int))),
            is_sorted_form::<T>(views(r@), views(all.skip(v@.len() as int))),
        decreases v@.len(),
    {
        let ghost n = v@.len() - 1;
        let x = match v.pop() {
            Some(x) => x,
            None => {
                return r;
            },
        };
        let ghost before = views(r@);
        let mut i: usize = 0;
        while i < r.len() && r[i].less(&x)
            invariant
                i <= r@.len(),
                before == views(r@),
                forall|k: int| 0 <= k < i ==> T::lt(#[trigger] before[k], x@),
            decreases r@.len() - i,
        {
            i = i + 1;
        }
        r.insert(i, x);
        proof {
            let after = views(r@);
            assert(after =~= before.insert(i as int, x@));
            lemma_insert_multiset(before, i as int, x@);
            lemma_place::<T>(before, x@, i as int);
            lemma_insert_in_order::<T>(before, i as int, x@);
            let rest = all.skip(n + 1);
            assert(views(all.skip(n)) =~= views(rest).insert(0, x@));
            assert(views(all.skip(n)).skip(1) =~= views(rest));
            lemma_insert_multiset(views(rest), 0, x@);
        }
    }
    assert(all.skip(0) =~= all);
    r
}

} // verus!
