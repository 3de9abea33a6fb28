//! Stable ordering of vectors by an integer key.
use vstd::prelude::*;

verus! {

/// A value with an integer by which it is ordered.
pub trait Keyed: Sized {
    spec fn sort_key(&self) -> int;

    fn key_at_most(&self, other: &Self) -> (r: bool)
        ensures
            r == (self.sort_key() <= other.sort_key()),
    ;
}

/// Keys do not decrease along the sequence.
pub open spec fn ordered<T: Keyed>(s: Seq<T>) -> bool {
    forall|i: int, j: int|
        0 <= i <= j < s.len() ==> (#[trigger] s[i]).sort_key() <= (#[trigger] s[j]).sort_key()
}

/// `x` placed behind the last element whose key is no larger than its own.
pub open spec fn insert_ordered<T: Keyed>(s: Seq<T>, x: T) -> Seq<T>
    decreases s.len(),
{
    if s.len() == 0 || s.last().sort_key() <= x.sort_key() {
        s.push(x)
    } else {
        insert_ordered(s.drop_last(), x).push(s.last())
    }
}

/// The elements of `s` in key order; equal keys keep the order they came in.
pub open spec fn stable_sort<T: Keyed>(s: Seq<T>) -> Seq<T>
    decreases s.len(),
{
    if s.len() == 0 {
        s
    } else {
        insert_ordered(stable_sort(s.drop_last()), s.last())
    }
}

proof fn lemma_insert_ordered<T: Keyed>(s: Seq<T>, x: T)
    requires
        ordered(s),
    ensures
        ordered(insert_ordered(s, x)),
        insert_ordered(s, x).len() == s.len() + 1,
        insert_ordered(s, x).to_multiset() =~= s.to_multiset().insert(x),
        forall|i: int|
            0 <= i < insert_ordered(s, x).len() ==> {
                ||| (#[trigger] insert_ordered(s, x)[i]).sort_key() <= x.sort_key()
                ||| s.len() > 0 && insert_ordered(s, x)[i].sort_key() <= s.last().sort_key()
            },
    decreases s.len(),
{
    broadcast use vstd::seq_lib::group_to_multiset_ensures;

    if s.len() == 0 || s.last().sort_key() <= x.sort_key() {
    } else {
        let t = s.drop_last();
        lemma_insert_ordered(t, x);
        assert(s =~= t.push(s.last()));
        let r = insert_ordered(t, x);
        assert forall|i: int| 0 <= i < r.len() implies (#[trigger] r[i]).sort_key()
            <= s.last().sort_key() by {
            if t.len() > 0 {
                assert(t.last() == s[s.len() - 2]);
            }
        }
    }
}

/// Sorting orders the keys and neither loses nor adds an element.
pub proof fn lemma_stable_sort<T: Keyed>(s: Seq<T>)
    ensures
        ordered(stable_sort(s)),
        stable_sort(s).len() == s.len(),
        stable_sort(s).to_multiset() =~= s.to_multiset(),
    decreases s.len(),
{
    broadcast use vstd::seq_lib::group_to_multiset_ensures;

    if s.len() > 0 {
        lemma_stable_sort(s.drop_last());
        lemma_insert_ordered(stable_sort(s.drop_last()), s.last());
        assert(s =~= s.drop_last().push(s.last()));
    }
}

/// A sequence that is already in key order is left as it is.
pub proof fn lemma_sort_of_ordered<T: Keyed>(s: Seq<T>)
    requires
        ordered(s),
    ensures
        stable_sort(s) == s,
    decreases s.len(),
{
    if s.len() > 0 {
        let t = s.drop_last();
        assert(ordered(t));
        lemma_sort_of_ordered(t);
        if t.len() > 0 {
            assert(t.last() == s[s.len() - 2]);
        }
        assert(t.push(s.last()) =~= s);
    }
}

proof fn lemma_insert_at<T: Keyed>(s: Seq<T>, x: T, p: int)
    requires
        0 <= p <= s.len(),
        p == 0 || s[p - 1].sort_key() <= x.sort_key(),
        forall|j: int| p <= j < s.len() ==> (#[trigger] s[j]).sort_key() > x.sort_key(),
    ensures
        insert_ordered(s, x) == s.insert(p, x),
    decreases s.len(),
{
    if s.len() == p {
        assert(s.insert(p, x) =~= s.push(x));
    } else {
        let t = s.drop_last();
        assert(s.last() == s[s.len() - 1]);
        lemma_insert_at(t, x, p);
        assert(t.insert(p, x).push(s.last()) =~= s.insert(p, x));
    }
}

/// Puts one element into its place in an ordered vector.
pub fn place_ordered<T: Keyed>(v: &mut Vec<T>, x: T)
    requires
        old(v).len() < usize::MAX,
    ensures
        final(v)@ == insert_ordered(old(v)@, x),
{
    let mut p: usize = v.len();
    while p > 0 && !v[p - 1].key_at_most(&x)
        invariant
            p <= v.len(),
            v@ == old(v)@,
            forall|j: int| p <= j < v.len() ==> (#[trigger] v@[j]).sort_key() > x.sort_key(),
        decreases p,
    {
        p = p - 1;
    }
    proof {
        lemma_insert_at(v@, x, p as int);
    }
    v.insert(p, x);
}

/// Sorts by key; elements with equal keys stay in the order they came in.
pub fn sort_stable<T: Keyed>(input: Vec<T>) -> (out: Vec<T>)
    ensures
        out@ == stable_sort(input@),
        out.len() == input.len(),
{
    let mut rest: Vec<T> = input;
    let n: usize = rest.len();
    let ghost all = rest@;
    let mut reversed: Vec<T> = Vec::new();
    while rest.len() > 0
        invariant
            rest.len() + reversed.len() == n,
            n == all.len(),
            rest@ == all.subrange(0, rest.len() as int),
            forall|i: int|
                0 <= i < reversed.len() ==> #[trigger] reversed@[i] == all[all.len() - 1 - i],
        decreases rest.len(),
    {
        match rest.pop() {
            Some(x) => {
                reversed.push(x);
            },
            None => {},
        }
    }
    let mut out: Vec<T> = Vec::new();
    let mut done: usize = 0;
    proof {
        assert(all.subrange(0, 0) =~= Seq::<T>::empty());
    }
    while reversed.len() > 0
        invariant
            done + reversed.len() == n,
            n == all.len(),
            out.len() == done,
            out@ == stable_sort(all.subrange(0, done as int)),
            forall|i: int|
                0 <= i < reversed.len() ==> #[trigger] reversed@[i] == all[all.len() - 1 - i],
        decreases reversed.len(),
    {
        match reversed.pop() {
            Some(x) => {
                proof {
                    let next = all.subrange(0, done + 1);
                    assert(next.drop_last() =~= all.subrange(0, done as int));
                    assert(next.last() == x);
                    lemma_stable_sort(next);
                }
                place_ordered(&mut out, x);
                done = done + 1;
            },
            None => {},
        }
    }
    proof {
        assert(all.subrange(0, n as int) =~= all);
    }
    out
}

/// The elements of one key, in the order in which they stand.
pub open spec fn of_key<T: Keyed>(s: Seq<T>, key: int) -> Seq<T>
    decreases s.len(),
{
    if s.len() == 0 {
        s
    } else if s.last().sort_key() == key {
        of_key(s.drop_last(), key).push(s.last())
    } else {
        of_key(s.drop_last(), key)
    }
}

proof fn lemma_of_key_insert<T: Keyed>(s: Seq<T>, x: T, key: int)
    requires
        ordered(s),
    ensures
        of_key(insert_ordered(s, x), key) == of_key(s.push(x), key),
    decreases s.len(),
{
    if s.len() == 0 || s.last().sort_key() <= x.sort_key() {
    } else {
        let t = s.drop_last();
        lemma_of_key_insert(t, x, key);
        reveal_with_fuel(of_key, 3);
        let r = insert_ordered(t, x);
        assert(r.push(s.last()).drop_last() =~= r);
        assert(s.push(x).drop_last() =~= s);
        assert(t.push(x).drop_last() =~= t);
    }
}

/// Sorting puts the elements in the order of their keys, loses and adds none,
/// and keeps those of one key in the order in which they came.
pub proof fn law_sorting_is_stable<T: Keyed>(s: Seq<T>, key: int)
    ensures
        forall|i: int, j: int|
            0 <= i <= j < s.len() ==> (#[trigger] stable_sort(s)[i]).sort_key() <= (
            #[trigger] stable_sort(s)[j]).sort_key(),
        stable_sort(s).len() == s.len(),
        stable_sort(s).to_multiset() == s.to_multiset(),
        of_key(stable_sort(s), key) == of_key(s, key),
    decreases s.len(),
{
    lemma_stable_sort(s);
    if s.len() > 0 {
        let t = s.drop_last();
        law_sorting_is_stable(t, key);
        lemma_stable_sort(t);
        lemma_of_key_insert(stable_sort(t), s.last(), key);
        assert(stable_sort(t).push(s.last()).drop_last() =~= stable_sort(t));
    }
}

} // verus!
