//! Laws of task-graph ordering: which graphs can be sorted, and what sorting
//! and the critical-path analysis return for them.

use vstd::prelude::*;
use crate::adag::{
    critical_outcome, dependencies_precede, has_execution_order, is_execution_order,
    sort_outcome, cycle_message, Graph,
};
use crate::str_map::lemma_index_of_distinct;

verus! {

/// Every dependency of every task names a task of the graph.
pub open spec fn is_closed(g: Graph) -> bool {
    forall|k: Seq<char>, d: Seq<char>|
        g.dom().contains(k) && #[trigger] g[k].dependencies.contains(d) ==> g.dom().contains(d)
}

/// `c` runs through tasks of `g`, each depending on the next, and ends where
/// it starts.
pub open spec fn is_cycle(g: Graph, c: Seq<Seq<char>>) -> bool {
    &&& c.len() >= 2
    &&& c[0] == c[c.len() - 1]
    &&& forall|i: int| 0 <= i < c.len() ==> g.dom().contains(#[trigger] c[i])
    &&& forall|i: int|
        0 <= i < c.len() - 1 ==> #[trigger] g[c[i]].dependencies.contains(c[i + 1])
}

/// Some chain of dependencies in `g` returns to where it started.
pub open spec fn has_cycle(g: Graph) -> bool {
    exists|c: Seq<Seq<char>>| is_cycle(g, c)
}

/// In an execution order, a dependency stands before the task that names it.
pub proof fn lemma_dependency_earlier(g: Graph, o: Seq<Seq<char>>, x: Seq<char>, y: Seq<char>)
    requires
        is_execution_order(g, o),
        g.dom().contains(x),
        g[x].dependencies.contains(y),
    ensures
        o.contains(x),
        o.contains(y),
        o.index_of(y) < o.index_of(x),
{
    assert(o.to_set().contains(x));
    let i = o.index_of(x);
    assert(o[i] == x);
    assert(g[o[i]].dependencies.contains(y));
    let pre = o.subrange(0, i);
    assert(pre.contains(y));
    let q = choose|q: int| 0 <= q < pre.len() && pre[q] == y;
    assert(o[q] == y);
    lemma_index_of_distinct(o, q);
}

/// Along a cycle, positions in an execution order strictly decrease.
proof fn lemma_cycle_descends(g: Graph, c: Seq<Seq<char>>, o: Seq<Seq<char>>, j: int)
    requires
        is_cycle(g, c),
        is_execution_order(g, o),
        1 <= j < c.len(),
    ensures
        o.index_of(c[j]) < o.index_of(c[0]),
    decreases j,
{
    assert(g[c[j - 1]].dependencies.contains(c[(j - 1) + 1]));
    assert(g.dom().contains(c[j - 1]));
    lemma_dependency_earlier(g, o, c[j - 1], c[j]);
    if j > 1 {
        lemma_cycle_descends(g, c, o, j - 1);
    }
}

/// A graph with a cycle has no execution order.
proof fn lemma_cycle_blocks_order(g: Graph, c: Seq<Seq<char>>)
    requires
        is_cycle(g, c),
    ensures
        !has_execution_order(g),
{
    if has_execution_order(g) {
        let o = choose|o: Seq<Seq<char>>| is_execution_order(g, o);
        lemma_cycle_descends(g, c, o, c.len() - 1);
    }
}

/// A dependency that `r` holds for `y`, when there is one.
spec fn next_in(g: Graph, r: Set<Seq<char>>, y: Seq<char>) -> Seq<char> {
    choose|z: Seq<char>| g[y].dependencies.contains(z) && r.contains(z)
}

/// A walk of `k` steps from `x`, each step to a dependency inside `r`.
spec fn walk(g: Graph, r: Set<Seq<char>>, x: Seq<char>, k: nat) -> Seq<Seq<char>>
    decreases k,
{
    if k == 0 {
        seq![x]
    } else {
        let w = walk(g, r, x, (k - 1) as nat);
        w.push(next_in(g, r, w.last()))
    }
}

proof fn lemma_walk(g: Graph, r: Set<Seq<char>>, x: Seq<char>, k: nat)
    requires
        r.subset_of(g.dom()),
        r.contains(x),
        forall|y: Seq<char>| #[trigger]
            r.contains(y) ==> exists|z: Seq<char>| g[y].dependencies.contains(z) && r.contains(z),
    ensures
        walk(g, r, x, k).len() == k + 1,
        forall|i: int| 0 <= i < k + 1 ==> r.contains(#[trigger] walk(g, r, x, k)[i]),
        forall|i: int|
            0 <= i < k ==> #[trigger] g[walk(g, r, x, k)[i]].dependencies.contains(
                walk(g, r, x, k)[i + 1],
            ),
    decreases k,
{
    if k > 0 {
        lemma_walk(g, r, x, (k - 1) as nat);
        let w = walk(g, r, x, (k - 1) as nat);
        assert(r.contains(w.last()));
        assert(r.contains(w[w.len() - 1]));
        let z = next_in(g, r, w.last());
        assert(g[w.last()].dependencies.contains(z) && r.contains(z));
        let w2 = walk(g, r, x, k);
        assert(w2 == w.push(z));
        assert forall|i: int| 0 <= i < k implies #[trigger] g[w2[i]].dependencies.contains(
            w2[i + 1],
        ) by {
            if i < k - 1 {
                assert(w2[i] == w[i] && w2[i + 1] == w[i + 1]);
            } else {
                assert(w2[i] == w.last());
            }
        }
    }
}

/// A walk that meets a task twice closes a cycle.
proof fn lemma_repeat_gives_cycle(g: Graph, w: Seq<Seq<char>>, lo: int, hi: int)
    requires
        0 <= lo < hi < w.len(),
        w[lo] == w[hi],
        forall|i: int| 0 <= i < w.len() ==> g.dom().contains(#[trigger] w[i]),
        forall|i: int|
            0 <= i < w.len() - 1 ==> #[trigger] g[w[i]].dependencies.contains(w[i + 1]),
    ensures
        has_cycle(g),
{
    let c = w.subrange(lo, hi + 1);
    assert forall|i: int| 0 <= i < c.len() implies g.dom().contains(#[trigger] c[i]) by {
        assert(c[i] == w[lo + i]);
    }
    assert forall|i: int| 0 <= i < c.len() - 1 implies #[trigger] g[c[i]].dependencies.contains(
        c[i + 1],
    ) by {
        assert(c[i] == w[lo + i] && c[i + 1] == w[lo + i + 1]);
    }
    assert(is_cycle(g, c));
}

/// When every task of a nonempty part of the graph depends on another task of
/// that part, following dependencies must return to a task already seen.
proof fn lemma_no_ready_task_gives_cycle(g: Graph, r: Set<Seq<char>>, x: Seq<char>)
    requires
        r.finite(),
        r.subset_of(g.dom()),
        r.contains(x),
        forall|y: Seq<char>| #[trigger]
            r.contains(y) ==> exists|z: Seq<char>| g[y].dependencies.contains(z) && r.contains(z),
    ensures
        has_cycle(g),
{
    let k = r.len();
    lemma_walk(g, r, x, k);
    let w = walk(g, r, x, k);
    assert forall|i: int| 0 <= i < w.len() implies g.dom().contains(#[trigger] w[i]) by {
        assert(r.contains(w[i]));
    }
    if w.no_duplicates() {
        w.unique_seq_to_set();
        assert(w.to_set().subset_of(r)) by {
            assert forall|v: Seq<char>| w.to_set().contains(v) implies r.contains(v) by {
                let i = choose|i: int| 0 <= i < w.len() && w[i] == v;
                assert(r.contains(w[i]));
            }
        }
        vstd::set_lib::lemma_len_subset(w.to_set(), r);
    } else {
        let (a, b) = choose|a: int, b: int|
            0 <= a < w.len() && 0 <= b < w.len() && a != b && w[a] == w[b];
        if a < b {
            lemma_repeat_gives_cycle(g, w, a, b);
        } else {
            lemma_repeat_gives_cycle(g, w, b, a);
        }
    }
}

/// A valid prefix of an execution order in a closed graph without cycles
/// extends to a full execution order.
proof fn lemma_extend_order(g: Graph, o: Seq<Seq<char>>)
    requires
        g.dom().finite(),
        is_closed(g),
        !has_cycle(g),
        o.no_duplicates(),
        forall|i: int| 0 <= i < o.len() ==> g.dom().contains(#[trigger] o[i]),
        dependencies_precede(g, o),
    ensures
        has_execution_order(g),
    decreases g.dom().len() - o.len(),
{
    o.unique_seq_to_set();
    assert(o.to_set().subset_of(g.dom())) by {
        assert forall|v: Seq<char>| o.to_set().contains(v) implies g.dom().contains(v) by {
            let i = choose|i: int| 0 <= i < o.len() && o[i] == v;
        }
    }
    vstd::set_lib::lemma_len_subset(o.to_set(), g.dom());
    if o.to_set() == g.dom() {
        assert(is_execution_order(g, o));
    } else {
        let r = g.dom().difference(o.to_set());
        if o.len() == g.dom().len() {
            vstd::set_lib::lemma_subset_equality(o.to_set(), g.dom());
        }
        if forall|x: Seq<char>| g.dom().contains(x) ==> o.to_set().contains(x) {
            assert(o.to_set() =~= g.dom());
        }
        let x = choose|x: Seq<char>| g.dom().contains(x) && !o.to_set().contains(x);
        assert(r.contains(x));
        if forall|y: Seq<char>| #[trigger]
            r.contains(y) ==> exists|z: Seq<char>| g[y].dependencies.contains(z) && r.contains(z) {
            lemma_no_ready_task_gives_cycle(g, r, x);
        } else {
            let y = choose|y: Seq<char>| #[trigger]
                r.contains(y) && !exists|z: Seq<char>|
                    g[y].dependencies.contains(z) && r.contains(z);
            let o2 = o.push(y);
            assert forall|a: int, b: int|
                0 <= a < o2.len() && 0 <= b < o2.len() && a != b implies o2[a] != o2[b] by {
                if a == o.len() as int {
                    assert(o.to_set().contains(o2[b]));
                } else if b == o.len() as int {
                    assert(o.to_set().contains(o2[a]));
                }
            }
            assert forall|i: int, d: Seq<char>|
                0 <= i < o2.len() && #[trigger] g[o2[i]].dependencies.contains(d) implies o2.subrange(
                0,
                i,
            ).contains(d) by {
                if i < o.len() {
                    assert(o2.subrange(0, i) =~= o.subrange(0, i));
                    assert(g[o[i]].dependencies.contains(d));
                } else {
                    assert(o2.subrange(0, i) =~= o);
                    assert(g.dom().contains(d));
                    assert(!r.contains(d));
                    assert(o.to_set().contains(d));
                }
            }
            lemma_extend_order(g, o2);
        }
    }
}

/// A graph whose dependencies all name tasks in it, and which has no cycle,
/// sorts: the result lists every task once, after all of its dependencies.
pub proof fn law_acyclic_graph_sorts(g: Graph, r: Result<Seq<Seq<char>>, Seq<char>>)
    requires
        g.dom().finite(),
        is_closed(g),
        !has_cycle(g),
        sort_outcome(g, r),
    ensures
        r is Ok,
        is_execution_order(g, r->Ok_0),
{
    lemma_extend_order(g, Seq::empty());
}

/// A graph with a cycle yields the cycle error.
pub proof fn law_cycle_is_reported(g: Graph, r: Result<Seq<Seq<char>>, Seq<char>>)
    requires
        has_cycle(g),
        sort_outcome(g, r),
    ensures
        r == Err::<Seq<Seq<char>>, Seq<char>>(cycle_message()),
{
    let c = choose|c: Seq<Seq<char>>| is_cycle(g, c);
    lemma_cycle_blocks_order(g, c);
}

/// A task that depends on an id missing from the graph can never be released,
/// so sorting yields the cycle error even where no cycle exists.
pub proof fn law_unknown_dependency_is_reported(
    g: Graph,
    r: Result<Seq<Seq<char>>, Seq<char>>,
)
    requires
        exists|k: Seq<char>, d: Seq<char>|
            g.dom().contains(k) && #[trigger] g[k].dependencies.contains(d) && !g.dom().contains(
                d,
            ),
        sort_outcome(g, r),
    ensures
        r == Err::<Seq<Seq<char>>, Seq<char>>(cycle_message()),
{
    let (k, d) = choose|k: Seq<char>, d: Seq<char>|
        g.dom().contains(k) && #[trigger] g[k].dependencies.contains(d) && !g.dom().contains(d);
    if has_execution_order(g) {
        let o = choose|o: Seq<Seq<char>>| is_execution_order(g, o);
        lemma_dependency_earlier(g, o, k, d);
        assert(o.to_set().contains(d));
    }
}

/// Sorting an unchanged graph twice yields the same kind of answer: both
/// calls fail with the same error, or both return an execution order of it.
pub proof fn law_sort_is_repeatable(
    g: Graph,
    r1: Result<Seq<Seq<char>>, Seq<char>>,
    r2: Result<Seq<Seq<char>>, Seq<char>>,
)
    requires
        sort_outcome(g, r1),
        sort_outcome(g, r2),
    ensures
        r1 is Ok <==> r2 is Ok,
        r1 is Err ==> r1 == r2,
        r1 is Ok ==> is_execution_order(g, r1->Ok_0) && is_execution_order(g, r2->Ok_0),
{
}

/// For a closed graph without cycles, every earliest start is 0: the critical
/// path holds every task, in an execution order, with total 0.
pub proof fn law_acyclic_critical_path_is_flat(
    g: Graph,
    r: Result<(Seq<Seq<char>>, u32), Seq<char>>,
)
    requires
        g.dom().finite(),
        is_closed(g),
        !has_cycle(g),
        critical_outcome(g, r),
    ensures
        r is Ok,
        r->Ok_0.1 == 0,
        is_execution_order(g, r->Ok_0.0),
{
    lemma_extend_order(g, Seq::empty());
}

} // verus!
