//! Counting facts about sequences, used to track in-degrees.

use vstd::prelude::*;

verus! {

/// How many times `x` occurs in `s`.
pub open spec fn count_of<A>(s: Seq<A>, x: A) -> nat
    decreases s.len(),
{
    if s.len() == 0 {
        0
    } else {
        count_of(s.drop_last(), x) + if s.last() == x {
            1nat
        } else {
            0nat
        }
    }
}

/// How many elements of `s` (with repeats) are not in `done`.
pub open spec fn count_outside<A>(s: Seq<A>, done: Seq<A>) -> nat
    decreases s.len(),
{
    if s.len() == 0 {
        0
    } else {
        count_outside(s.drop_last(), done) + if done.contains(s.last()) {
            0nat
        } else {
            1nat
        }
    }
}

/// Extending a prefix by one element adds that element's occurrence.
pub proof fn lemma_count_prefix<A>(s: Seq<A>, k: int, x: A)
    requires
        0 <= k < s.len(),
    ensures
        count_of(s.subrange(0, k + 1), x) == count_of(s.subrange(0, k), x) + if s[k] == x {
            1nat
        } else {
            0nat
        },
        count_outside(s.subrange(0, k + 1), Seq::empty()) == count_outside(s.subrange(0, k), Seq::empty()) + 1,
{
    assert(s.subrange(0, k + 1).drop_last() =~= s.subrange(0, k));
}

/// A prefix holds no more occurrences than the whole.
pub proof fn lemma_count_prefix_le<A>(s: Seq<A>, k: int, x: A)
    requires
        0 <= k <= s.len(),
    ensures
        count_of(s.subrange(0, k), x) <= count_of(s, x),
    decreases s.len() - k,
{
    if k < s.len() {
        lemma_count_prefix(s, k, x);
        lemma_count_prefix_le(s, k + 1, x);
    } else {
        assert(s.subrange(0, k) =~= s);
    }
}

/// Nothing is done yet: every element counts.
pub proof fn lemma_count_outside_empty<A>(s: Seq<A>)
    ensures
        count_outside(s, Seq::empty()) == s.len(),
    decreases s.len(),
{
    if s.len() > 0 {
        lemma_count_outside_empty(s.drop_last());
    }
}

/// Marking `x` done removes exactly its occurrences from the count.
pub proof fn lemma_count_outside_push<A>(s: Seq<A>, done: Seq<A>, x: A)
    requires
        !done.contains(x),
    ensures
        count_outside(s, done.push(x)) + count_of(s, x) == count_outside(s, done),
    decreases s.len(),
{
    if s.len() > 0 {
        lemma_count_outside_push(s.drop_last(), done, x);
        let y = s.last();
        if y == x {
            assert(done.push(x)[done.len() as int] == x);
        } else if done.push(x).contains(y) {
            let j = choose|j: int| 0 <= j < done.push(x).len() && done.push(x)[j] == y;
            assert(done[j] == y);
        } else if done.contains(y) {
            let j = choose|j: int| 0 <= j < done.len() && done[j] == y;
            assert(done.push(x)[j] == y);
        }
    }
}

/// The count is zero exactly when every element is done.
pub proof fn lemma_count_outside_zero<A>(s: Seq<A>, done: Seq<A>)
    ensures
        count_outside(s, done) == 0 <==> forall|d: A| #[trigger] s.contains(d) ==> done.contains(d),
    decreases s.len(),
{
    if s.len() > 0 {
        let rest = s.drop_last();
        lemma_count_outside_zero(rest, done);
        if count_outside(s, done) == 0 {
            assert(count_outside(rest, done) == 0);
            assert(done.contains(s.last()));
            assert forall|d: A| #[trigger] s.contains(d) implies done.contains(d) by {
                let j = choose|j: int| 0 <= j < s.len() && s[j] == d;
                if j < s.len() - 1 {
                    assert(rest[j] == d);
                    assert(rest.contains(d));
                }
            }
        } else {
            if !done.contains(s.last()) {
                assert(s.contains(s.last()));
            } else {
                assert(count_outside(rest, done) != 0);
                let d = choose|d: A| #[trigger] rest.contains(d) && !done.contains(d);
                let j = choose|j: int| 0 <= j < rest.len() && rest[j] == d;
                assert(s[j] == d);
                assert(s.contains(d));
            }
        }
    }
}

/// What a sequence holds after one more element.
pub proof fn lemma_push_contains<A>(s: Seq<A>, x: A, y: A)
    ensures
        s.push(x).contains(y) <==> (s.contains(y) || y == x),
{
    if s.contains(y) {
        let j = choose|j: int| 0 <= j < s.len() && s[j] == y;
        assert(s.push(x)[j] == y);
    }
    if y == x {
        assert(s.push(x)[s.len() as int] == y);
    }
    if s.push(x).contains(y) && y != x {
        let j = choose|j: int| 0 <= j < s.push(x).len() && s.push(x)[j] == y;
        assert(s[j] == y);
    }
}

/// A sequence of distinct indices below `n` has at most `n` elements, and has
/// `n` exactly when it holds every index below `n`.
pub proof fn lemma_distinct_indices(s: Seq<usize>, n: usize)
    requires
        s.no_duplicates(),
        forall|i: int| 0 <= i < s.len() ==> s[i] < n,
    ensures
        s.len() <= n,
        s.len() == n <==> forall|j: usize| j < n ==> s.contains(j),
{
    let si = s.map_values(|x: usize| x as int);
    assert(si.no_duplicates()) by {
        assert forall|a: int, b: int| 0 <= a < si.len() && 0 <= b < si.len() && a != b implies si[a]
            != si[b] by {
            assert(s[a] != s[b]);
        }
    }
    si.unique_seq_to_set();
    let range = vstd::set_lib::set_int_range(0, n as int);
    vstd::set_lib::lemma_int_range(0, n as int);
    assert(si.to_set().subset_of(range)) by {
        assert forall|v: int| si.to_set().contains(v) implies range.contains(v) by {
            let j = choose|j: int| 0 <= j < si.len() && si[j] == v;
            assert(s[j] < n);
        }
    }
    vstd::set_lib::lemma_len_subset(si.to_set(), range);
    if forall|j: usize| j < n ==> s.contains(j) {
        assert(range.subset_of(si.to_set())) by {
            assert forall|v: int| range.contains(v) implies si.to_set().contains(v) by {
                let u = v as usize;
                assert(s.contains(u));
                let j = choose|j: int| 0 <= j < s.len() && s[j] == u;
                assert(si[j] == v);
            }
        }
        vstd::set_lib::lemma_len_subset(range, si.to_set());
    }
    if s.len() == n {
        assert forall|j: usize| j < n implies s.contains(j) by {
            if !s.contains(j) {
                let smaller = range.remove(j as int);
                assert(si.to_set().subset_of(smaller)) by {
                    assert forall|v: int| si.to_set().contains(v) implies smaller.contains(v) by {
                        let k = choose|k: int| 0 <= k < si.len() && si[k] == v;
                        assert(s[k] != j);
                    }
                }
                vstd::set_lib::lemma_len_subset(si.to_set(), smaller);
            }
        }
    }
}

} // verus!
