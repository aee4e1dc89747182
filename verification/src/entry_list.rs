//! Deduplication and removal over ordered lists of entries, and the facts
//! that the collection's mutators rely on.

use vstd::prelude::*;

verus! {

/// One left-to-right pass over a list: the first occurrence of each
/// distinct element is kept, every later duplicate is dropped, and the
/// retained elements stay in their original order.
pub open spec fn dedup_spec<A>(s: Seq<A>) -> Seq<A>
    decreases s.len(),
{
    if s.len() == 0 {
        Seq::<A>::empty()
    } else {
        let d = dedup_spec(s.drop_last());
        if s.drop_last().contains(s.last()) {
            d
        } else {
            d.push(s.last())
        }
    }
}

/// The list `s` with every element equal to `x` removed; the remaining
/// elements keep their relative order.
pub open spec fn remove_all_spec<A>(s: Seq<A>, x: A) -> Seq<A>
    decreases s.len(),
{
    if s.len() == 0 {
        Seq::<A>::empty()
    } else if s.last() == x {
        remove_all_spec(s.drop_last(), x)
    } else {
        remove_all_spec(s.drop_last(), x).push(s.last())
    }
}

/// The index of the first occurrence of `x` in `s`, counting the whole
/// length when `x` does not occur.
pub open spec fn first_index_of<A>(s: Seq<A>, x: A) -> int
    decreases s.len(),
{
    if s.len() == 0 {
        0
    } else if s[0] == x {
        0
    } else {
        1 + first_index_of(s.skip(1), x)
    }
}

/// Deduplication keeps exactly the members of the original list.
pub proof fn lemma_dedup_same_members<A>(s: Seq<A>)
    ensures
        forall|x: A| dedup_spec(s).contains(x) <==> s.contains(x),
    decreases s.len(),
{
    if s.len() > 0 {
        let t = s.drop_last();
        lemma_dedup_same_members(t);
        assert forall|x: A| t.contains(x) implies s.contains(x) by {
            let i = choose|i: int| 0 <= i < t.len() && t[i] == x;
            assert(s[i] == x);
        }
        assert(s[s.len() - 1] == s.last());
        assert forall|x: A| s.contains(x) implies (t.contains(x) || x == s.last()) by {
            let i = choose|i: int| 0 <= i < s.len() && s[i] == x;
            if i < s.len() - 1 {
                assert(t[i] == x);
            }
        }
        if !t.contains(s.last()) {
            assert forall|x: A| dedup_spec(s).contains(x) implies s.contains(x) by {
                let d = dedup_spec(t);
                let i = choose|i: int| 0 <= i < d.len() + 1 && dedup_spec(s)[i] == x;
                if i < d.len() {
                    assert(d[i] == x);
                }
            }
            assert forall|x: A| s.contains(x) implies dedup_spec(s).contains(x) by {
                let d = dedup_spec(t);
                if t.contains(x) {
                    let i = choose|i: int| 0 <= i < d.len() && d[i] == x;
                    assert(dedup_spec(s)[i] == x);
                } else {
                    assert(dedup_spec(s)[d.len() as int] == x);
                }
            }
        }
    }
}

/// Deduplication leaves no element twice.
pub proof fn lemma_dedup_no_duplicates<A>(s: Seq<A>)
    ensures
        forall|i: int, j: int|
            0 <= i < j < dedup_spec(s).len() ==> dedup_spec(s)[i] != dedup_spec(s)[j],
    decreases s.len(),
{
    if s.len() > 0 {
        let t = s.drop_last();
        let d = dedup_spec(t);
        lemma_dedup_no_duplicates(t);
        if !t.contains(s.last()) {
            lemma_dedup_same_members(t);
            assert forall|i: int, j: int|
                0 <= i < j < dedup_spec(s).len() implies dedup_spec(s)[i] != dedup_spec(s)[j] by {
                if j < d.len() {
                    assert(d[i] != d[j]);
                } else {
                    assert(d.contains(d[i]));
                    assert(t.contains(d[i]));
                }
            }
        }
    }
}

/// Law: after removing every occurrence of an element, the element is no
/// longer contained, however many times it occurred before.
pub proof fn lemma_remove_all_absent<A>(s: Seq<A>, x: A)
    ensures
        !remove_all_spec(s, x).contains(x),
    decreases s.len(),
{
    if s.len() > 0 {
        lemma_remove_all_absent(s.drop_last(), x);
        let r = remove_all_spec(s.drop_last(), x);
        if s.last() != x && remove_all_spec(s, x).contains(x) {
            let i = choose|i: int|
                0 <= i < r.push(s.last()).len() && r.push(s.last())[i] == x;
            if i < r.len() {
                assert(r[i] == x);
                assert(r.contains(x));
            }
        }
    }
}

/// A list without duplicates deduplicates to itself.
pub proof fn lemma_dedup_of_distinct<A>(s: Seq<A>)
    requires
        forall|i: int, j: int| 0 <= i < j < s.len() ==> s[i] != s[j],
    ensures
        dedup_spec(s) == s,
    decreases s.len(),
{
    if s.len() == 0 {
        assert(dedup_spec(s) =~= s);
    } else {
        let t = s.drop_last();
        lemma_dedup_of_distinct(t);
        if t.contains(s.last()) {
            let i = choose|i: int| 0 <= i < t.len() && t[i] == s.last();
            assert(s[i] == s[s.len() - 1]);
            assert(false);
        }
        assert(dedup_spec(s) =~= s);
    }
}

/// Law: deduplicating twice yields the same result as deduplicating once.
pub proof fn lemma_dedup_idempotent<A>(s: Seq<A>)
    ensures
        dedup_spec(dedup_spec(s)) == dedup_spec(s),
{
    lemma_dedup_no_duplicates(s);
    lemma_dedup_of_distinct(dedup_spec(s));
}

/// Where an element occurs first: within bounds, at the element, and
/// nowhere earlier.
pub proof fn lemma_first_index_properties<A>(s: Seq<A>, x: A)
    requires
        s.contains(x),
    ensures
        0 <= first_index_of(s, x) < s.len(),
        s[first_index_of(s, x)] == x,
        forall|k: int| 0 <= k < first_index_of(s, x) ==> s[k] != x,
    decreases s.len(),
{
    if s[0] != x {
        let i = choose|i: int| 0 <= i < s.len() && s[i] == x;
        assert(s.skip(1)[i - 1] == x);
        assert(s.skip(1).contains(x));
        lemma_first_index_properties(s.skip(1), x);
        let f = first_index_of(s.skip(1), x);
        assert(s[1 + f] == s.skip(1)[f]);
        assert forall|k: int| 0 <= k < first_index_of(s, x) implies s[k] != x by {
            if k > 0 {
                assert(s.skip(1)[k - 1] != x);
                assert(s[k] == s.skip(1)[k - 1]);
            }
        }
    }
}

/// Appending an element does not move the first occurrence of an element
/// already present.
proof fn lemma_first_index_push_old<A>(t: Seq<A>, c: A, x: A)
    requires
        t.contains(x),
    ensures
        first_index_of(t.push(c), x) == first_index_of(t, x),
    decreases t.len(),
{
    let s = t.push(c);
    assert(s[0] == t[0]);
    if t[0] != x {
        let i = choose|i: int| 0 <= i < t.len() && t[i] == x;
        assert(t.skip(1)[i - 1] == x);
        assert(t.skip(1).contains(x));
        assert(s.skip(1) =~= t.skip(1).push(c));
        lemma_first_index_push_old(t.skip(1), c, x);
    }
}

/// An element seen for the first time at the end occurs first at the end.
proof fn lemma_first_index_push_new<A>(t: Seq<A>, c: A)
    requires
        !t.contains(c),
    ensures
        first_index_of(t.push(c), c) == t.len(),
    decreases t.len(),
{
    let s = t.push(c);
    if t.len() == 0 {
        assert(s[0] == c);
    } else {
        assert(t[0] != c);
        assert(s[0] == t[0]);
        assert(s.skip(1) =~= t.skip(1).push(c));
        if t.skip(1).contains(c) {
            let i = choose|i: int| 0 <= i < t.skip(1).len() && t.skip(1)[i] == c;
            assert(t[i + 1] == c);
        }
        lemma_first_index_push_new(t.skip(1), c);
    }
}

/// Law: deduplication keeps the retained elements in the order of their
/// first occurrences: read left to right, the positions at which the
/// retained elements first occur in the original list strictly increase.
pub proof fn lemma_dedup_first_occurrence_order<A>(s: Seq<A>)
    ensures
        forall|k: int| #![trigger dedup_spec(s)[k]]
            0 <= k < dedup_spec(s).len() ==> s.contains(dedup_spec(s)[k]),
        forall|k1: int, k2: int| #![trigger dedup_spec(s)[k1], dedup_spec(s)[k2]]
            0 <= k1 < k2 < dedup_spec(s).len() ==> first_index_of(s, dedup_spec(s)[k1])
                < first_index_of(s, dedup_spec(s)[k2]),
    decreases s.len(),
{
    if s.len() > 0 {
        let t = s.drop_last();
        let c = s.last();
        let d = dedup_spec(t);
        lemma_dedup_first_occurrence_order(t);
        assert(s =~= t.push(c));
        assert forall|k: int| #![trigger d[k]]
            0 <= k < d.len() implies s.contains(d[k]) && first_index_of(s, d[k])
            == first_index_of(t, d[k]) by {
            assert(t.contains(d[k]));
            let i = choose|i: int| 0 <= i < t.len() && t[i] == d[k];
            assert(s[i] == d[k]);
            lemma_first_index_push_old(t, c, d[k]);
        }
        if t.contains(c) {
            assert(dedup_spec(s) == d);
        } else {
            assert(dedup_spec(s) == d.push(c));
            lemma_first_index_push_new(t, c);
            assert(s[s.len() - 1] == c);
            assert forall|k1: int, k2: int| #![trigger dedup_spec(s)[k1], dedup_spec(s)[k2]]
                0 <= k1 < k2 < dedup_spec(s).len() implies first_index_of(s, dedup_spec(s)[k1])
                < first_index_of(s, dedup_spec(s)[k2]) by {
                if k2 < d.len() {
                    assert(dedup_spec(s)[k1] == d[k1]);
                    assert(dedup_spec(s)[k2] == d[k2]);
                } else {
                    assert(dedup_spec(s)[k2] == c);
                    assert(dedup_spec(s)[k1] == d[k1]);
                    lemma_first_index_properties(t, d[k1]);
                }
            }
        }
    }
}

} // verus!
