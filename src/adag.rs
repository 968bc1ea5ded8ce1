//! The task graph: named tasks with dependency edges, ordered by Kahn's
//! algorithm, and the earliest-start analysis over that order.

use vstd::prelude::*;
use crate::counting::{
    count_of, count_outside, lemma_count_outside_empty, lemma_count_outside_push,
    lemma_count_outside_zero, lemma_count_prefix, lemma_count_prefix_le, lemma_distinct_indices,
    lemma_push_contains,
};
use crate::id_index::IdIndex;
use crate::str_map::StrMap;
use crate::text::{decimal, decimal_of, strings};

verus! {

/// A unit of work. `dependencies` names the tasks that must come before it.
#[derive(Debug, Clone)]
pub struct Task {
    pub id: String,
    pub name: String,
    pub duration: u32,
    pub dependencies: Vec<String>,
}

/// What a task holds, as plain values.
pub ghost struct TaskView {
    pub id: Seq<char>,
    pub name: Seq<char>,
    pub duration: u32,
    pub dependencies: Seq<Seq<char>>,
}

impl View for Task {
    type V = TaskView;

    open spec fn view(&self) -> TaskView {
        TaskView {
            id: self.id@,
            name: self.name@,
            duration: self.duration,
            dependencies: strings(self.dependencies@),
        }
    }
}

/// A task graph as a mapping from task id to task.
pub type Graph = Map<Seq<char>, TaskView>;

/// Every dependency of each task in `order` occurs before that task.
pub open spec fn dependencies_precede(g: Graph, order: Seq<Seq<char>>) -> bool {
    forall|i: int, d: Seq<char>|
        0 <= i < order.len() && #[trigger] g[order[i]].dependencies.contains(d) ==> order.subrange(
            0,
            i,
        ).contains(d)
}

/// `order` lists every task of `g` once, each after all of its dependencies.
pub open spec fn is_execution_order(g: Graph, order: Seq<Seq<char>>) -> bool {
    &&& order.no_duplicates()
    &&& order.to_set() == g.dom()
    &&& dependencies_precede(g, order)
}

/// Some execution order of `g` exists.
pub open spec fn has_execution_order(g: Graph) -> bool {
    exists|order: Seq<Seq<char>>| is_execution_order(g, order)
}

/// The message of the error that reports a cycle.
pub open spec fn cycle_message() -> Seq<char> {
    "Cycle detected in DAG"@
}

/// What sorting `g` yields: an execution order, or the cycle error when none
/// exists.
pub open spec fn sort_outcome(g: Graph, r: Result<Seq<Seq<char>>, Seq<char>>) -> bool {
    match r {
        Ok(order) => is_execution_order(g, order),
        Err(e) => e == cycle_message() && !has_execution_order(g),
    }
}

/// A sort result as plain values.
pub open spec fn sort_view(r: Result<Vec<String>, String>) -> Result<Seq<Seq<char>>, Seq<char>> {
    match r {
        Ok(v) => Ok(strings(v@)),
        Err(e) => Err(e@),
    }
}

/// What the earliest-start analysis of `g` yields. Each task starts at the
/// largest earliest start among its known dependencies, or at 0 without one;
/// the critical tasks are those whose start equals the largest start, listed
/// in execution order. Starting from 0 and taking maxima only, every start is
/// 0, so every task is critical and the total is 0.
pub open spec fn critical_outcome(g: Graph, r: Result<(Seq<Seq<char>>, u32), Seq<char>>) -> bool {
    match r {
        Ok((tasks, total)) => total == 0 && is_execution_order(g, tasks),
        Err(e) => e == cycle_message() && !has_execution_order(g),
    }
}

/// A critical-path result as plain values.
pub open spec fn critical_view(r: Result<(Vec<String>, u32), String>) -> Result<
    (Seq<Seq<char>>, u32),
    Seq<char>,
> {
    match r {
        Ok((v, total)) => Ok((strings(v@), total)),
        Err(e) => Err(e@),
    }
}

/// A task store keyed by task id. A later task with the same id replaces the
/// earlier one.
#[derive(Debug)]
pub struct OctoTree {
    tasks: StrMap<Task>,
}

impl View for OctoTree {
    type V = Graph;

    closed spec fn view(&self) -> Graph {
        self.tasks@.map_values(|t: Task| t@)
    }
}

impl Default for OctoTree {
    fn default() -> (r: Self)
        ensures
            r.wf(),
            r@ == Graph::empty(),
    {
        Self::new()
    }
}

impl OctoTree {
    /// Keys are distinct and each task is stored under its own id.
    pub closed spec fn wf(&self) -> bool {
        &&& self.tasks.wf()
        &&& forall|k: Seq<char>| #[trigger]
            self.tasks@.contains_key(k) ==> self.tasks@[k].id@ == k
    }

    spec fn n(&self) -> int {
        self.tasks.key_seq().len() as int
    }

    spec fn id_at(&self, t: int) -> Seq<char> {
        self.tasks.key_seq()[t]
    }

    spec fn deps_at(&self, t: int) -> Seq<Seq<char>> {
        self.tasks.value_seq()[t]@.dependencies
    }

    spec fn ids_of(&self, s: Seq<usize>) -> Seq<Seq<char>> {
        s.map_values(|i: usize| self.tasks.key_seq()[i as int])
    }

    /// The task at position `t` is the graph's task for its key.
    proof fn lemma_at(&self, t: int)
        requires
            self.wf(),
            0 <= t < self.n(),
        ensures
            self@.contains_key(self.id_at(t)),
            self@[self.id_at(t)] == self.tasks.value_seq()[t]@,
            self.tasks.value_seq()[t].id@ == self.id_at(t),
    {
        self.tasks.lemma_entry(t);
    }

    /// The graph's ids are the keys of the entries.
    proof fn lemma_dom(&self)
        requires
            self.wf(),
        ensures
            self@.dom() == self.tasks.key_seq().to_set(),
            self@.dom().finite(),
            self@.dom().len() == self.n(),
    {
        self.tasks.lemma_domain();
        assert(self@.dom() =~= self.tasks@.dom());
    }

    /// For each task position `j`, the positions of the tasks that name task
    /// `j` among their dependencies, once per naming.
    fn enabled_by(&self) -> (adj: Vec<Vec<usize>>)
        requires
            self.wf(),
        ensures
            adj@.len() == self.n(),
            forall|j: int, m: int|
                0 <= j < self.n() && 0 <= m < adj@[j]@.len() ==> adj@[j]@[m] < self.n(),
            forall|j: int, u: usize|
                0 <= j < self.n() && u < self.n() ==> count_of(adj@[j]@, u) == count_of(
                    self.deps_at(u as int),
                    self.id_at(j),
                ),
    {
        let n = self.tasks.len();
        let index = IdIndex::build(&self.tasks);
        let mut adj: Vec<Vec<usize>> = Vec::new();
        let mut j: usize = 0;
        while j < n
            invariant
                n == self.n(),
                j <= n,
                adj@.len() == j,
                forall|i: int| 0 <= i < j ==> adj@[i]@.len() == 0,
            decreases n - j,
        {
            adj.push(Vec::new());
            j = j + 1;
        }
        proof {
            assert forall|j: int, u: usize| 0 <= j < n && u < n implies count_of(adj@[j]@, u)
                == 0 by {
                assert(adj@[j]@.len() == 0);
            }
        }
        let mut t: usize = 0;
        while t < n
            invariant
                self.wf(),
                index.indexes(self.tasks.key_seq()),
                n == self.n(),
                t <= n,
                adj@.len() == n,
                forall|j: int, m: int| 0 <= j < n && 0 <= m < adj@[j]@.len() ==> adj@[j]@[m] < t,
                forall|j: int, u: usize|
                    0 <= j < n && u < n ==> count_of(adj@[j]@, u) == if u < t {
                        count_of(self.deps_at(u as int), self.id_at(j))
                    } else {
                        0
                    },
            decreases n - t,
        {
            let deps = &self.tasks.value_at(t).dependencies;
            assert(strings(deps@) == self.deps_at(t as int));
            let mut k: usize = 0;
            while k < deps.len()
                invariant
                    self.wf(),
                    index.indexes(self.tasks.key_seq()),
                    n == self.n(),
                    t < n,
                    k <= deps@.len(),
                    strings(deps@) == self.deps_at(t as int),
                    adj@.len() == n,
                    forall|j: int, m: int|
                        0 <= j < n && 0 <= m < adj@[j]@.len() ==> adj@[j]@[m] <= t,
                    forall|j: int, u: usize|
                        0 <= j < n && u < n ==> count_of(adj@[j]@, u) == if u < t {
                            count_of(self.deps_at(u as int), self.id_at(j))
                        } else if u == t {
                            count_of(self.deps_at(t as int).subrange(0, k as int), self.id_at(j))
                        } else {
                            0
                        },
                decreases deps@.len() - k,
            {
                let ghost before = adj@;
                let ghost dk = deps@[k as int]@;
                assert(self.deps_at(t as int)[k as int] == dk);
                match index.find(&self.tasks, &deps[k]) {
                    Some(j) => {
                        let mut row: Vec<usize> = Vec::new();
                        adj.set_and_swap(j, &mut row);
                        let ghost old_row = row@;
                        row.push(t);
                        adj.set_and_swap(j, &mut row);
                        proof {
                            assert(adj@[j as int]@.drop_last() =~= old_row);
                            assert forall|i: int, u: usize| 0 <= i < n && u < n implies count_of(
                                adj@[i]@,
                                u,
                            ) == if u < t {
                                count_of(self.deps_at(u as int), self.id_at(i))
                            } else if u == t {
                                count_of(
                                    self.deps_at(t as int).subrange(0, k + 1),
                                    self.id_at(i),
                                )
                            } else {
                                0
                            } by {
                                lemma_count_prefix(self.deps_at(t as int), k as int, self.id_at(i));
                                if i != j {
                                    assert(self.id_at(i) != self.id_at(j as int));
                                    assert(adj@[i] == before[i]);
                                } else {
                                    assert(before[i]@ == old_row);
                                    assert(adj@[i]@.last() == t);
                                    assert(count_of(adj@[i]@, u) == count_of(old_row, u) + if t
                                        == u {
                                        1nat
                                    } else {
                                        0nat
                                    });
                                    assert(self.id_at(i) == dk);
                                }
                            }
                        }
                    },
                    None => {
                        proof {
                            assert forall|i: int, u: usize| 0 <= i < n && u < n implies count_of(
                                adj@[i]@,
                                u,
                            ) == if u < t {
                                count_of(self.deps_at(u as int), self.id_at(i))
                            } else if u == t {
                                count_of(
                                    self.deps_at(t as int).subrange(0, k + 1),
                                    self.id_at(i),
                                )
                            } else {
                                0
                            } by {
                                lemma_count_prefix(self.deps_at(t as int), k as int, self.id_at(i));
                                assert(self.tasks.key_seq()[i] == self.id_at(i));
                            }
                        }
                    },
                }
                k = k + 1;
            }
            proof {
                assert(self.deps_at(t as int).subrange(0, deps@.len() as int) =~= self.deps_at(
                    t as int,
                ));
            }
            t = t + 1;
        }
        adj
    }

    /// Kahn's algorithm over task positions. The in-degree of a task is the
    /// length of its dependency list; a dependency on an unknown id is never
    /// met, so such a task is never released. Ready tasks are taken first in,
    /// first out, and the initially ready ones in entry order.
    fn kahn(&self) -> (order: Vec<usize>)
        requires
            self.wf(),
        ensures
            forall|p: int| 0 <= p < order@.len() ==> order@[p] < self.n(),
            order@.no_duplicates(),
            order@.len() <= self.n(),
            forall|p: int, d: Seq<char>|
                0 <= p < order@.len() && #[trigger] self.deps_at(order@[p] as int).contains(d)
                    ==> self.ids_of(order@.subrange(0, p)).contains(d),
            forall|t: usize|
                t < self.n() && !order@.contains(t) ==> exists|d: Seq<char>|
                    #[trigger] self.deps_at(t as int).contains(d) && !self.ids_of(
                        order@,
                    ).contains(d),
    {
        let n = self.tasks.len();
        let adj = self.enabled_by();
        let mut in_deg: Vec<usize> = Vec::new();
        let mut order: Vec<usize> = Vec::new();
        let mut t: usize = 0;
        while t < n
            invariant
                self.wf(),
                n == self.n(),
                t <= n,
                in_deg@.len() == t,
                forall|i: int|
                    0 <= i < t ==> in_deg@[i] == count_outside(
                        self.deps_at(i),
                        Seq::<Seq<char>>::empty(),
                    ),
                forall|p: int| 0 <= p < order@.len() ==> order@[p] < t,
                order@.no_duplicates(),
                forall|i: usize| i < t ==> (order@.contains(i) <==> in_deg@[i as int] == 0),
            decreases n - t,
        {
            let d = self.tasks.value_at(t).dependencies.len();
            proof {
                lemma_count_outside_empty(self.deps_at(t as int));
            }
            let ghost before = order@;
            in_deg.push(d);
            if d == 0 {
                order.push(t);
                proof {
                    assert(order@[order@.len() - 1] == t);
                }
            }
            proof {
                assert forall|i: usize| i <= t implies (order@.contains(i) <==> in_deg@[i as int]
                    == 0) by {
                    lemma_push_contains(before, t, i);
                    if i < t && before.contains(i) {
                        let j = choose|j: int| 0 <= j < before.len() && before[j] == i;
                        assert(order@[j] == i);
                    }
                }
            }
            t = t + 1;
        }
        proof {
            assert(self.ids_of(order@.subrange(0, 0)) =~= Seq::<Seq<char>>::empty());
            lemma_distinct_indices(order@, n);
        }
        let mut head: usize = 0;
        while head < order.len()
            invariant
                self.wf(),
                n == self.n(),
                adj@.len() == n,
                forall|j: int, m: int| 0 <= j < n && 0 <= m < adj@[j]@.len() ==> adj@[j]@[m] < n,
                forall|j: int, u: usize|
                    0 <= j < n && u < n ==> count_of(adj@[j]@, u) == count_of(
                        self.deps_at(u as int),
                        self.id_at(j),
                    ),
                in_deg@.len() == n,
                head <= order@.len() <= n,
                forall|p: int| 0 <= p < order@.len() ==> order@[p] < n,
                order@.no_duplicates(),
                forall|i: usize|
                    i < n ==> in_deg@[i as int] == count_outside(
                        self.deps_at(i as int),
                        self.ids_of(order@.subrange(0, head as int)),
                    ),
                forall|i: usize| i < n ==> (order@.contains(i) <==> in_deg@[i as int] == 0),
                forall|p: int, d: Seq<char>|
                    0 <= p < head && #[trigger] self.deps_at(order@[p] as int).contains(d)
                        ==> self.ids_of(order@.subrange(0, p)).contains(d),
            decreases n - head,
        {
            let u = order[head];
            let ghost done = self.ids_of(order@.subrange(0, head as int));
            let ghost prefix = order@.subrange(0, head as int + 1);
            proof {
                assert(order@.contains(u));
                lemma_count_outside_zero(self.deps_at(u as int), done);
                assert forall|p: int| 0 <= p < head implies #[trigger] done[p] != self.id_at(
                    u as int,
                ) by {
                    assert(order@[p] != u);
                }
                assert(self.ids_of(prefix) =~= done.push(self.id_at(u as int)));
            }
            let row = &adj[u];
            proof {
                assert(prefix.subrange(0, head as int) =~= order@.subrange(0, head as int));
                assert forall|p: int, d: Seq<char>|
                    0 <= p < head && #[trigger] self.deps_at(prefix[p] as int).contains(d)
                        implies self.ids_of(prefix.subrange(0, p)).contains(d) by {
                    assert(prefix.subrange(0, p) =~= order@.subrange(0, p));
                    assert(prefix[p] == order@[p]);
                }
            }
            let mut m: usize = 0;
            while m < row.len()
                invariant
                    self.wf(),
                    n == self.n(),
                    u < n,
                    head < order@.len() <= n,
                    adj@.len() == n,
                    row@ == adj@[u as int]@,
                    forall|j: int| 0 <= j < row@.len() ==> row@[j] < n,
                    forall|i: usize|
                        i < n ==> count_of(row@, i) == count_of(
                            self.deps_at(i as int),
                            self.id_at(u as int),
                        ),
                    !done.contains(self.id_at(u as int)),
                    m <= row@.len(),
                    in_deg@.len() == n,
                    forall|p: int| 0 <= p < order@.len() ==> order@[p] < n,
                    order@.no_duplicates(),
                    order@.subrange(0, head as int + 1) == prefix,
                    forall|i: usize|
                        i < n ==> in_deg@[i as int] + count_of(row@.subrange(0, m as int), i)
                            == count_outside(self.deps_at(i as int), done),
                    forall|i: usize| i < n ==> (order@.contains(i) <==> in_deg@[i as int] == 0),
                    prefix[head as int] == u,
                    self.ids_of(prefix.subrange(0, head as int)) == done,
                    forall|d: Seq<char>| #[trigger]
                        self.deps_at(u as int).contains(d) ==> done.contains(d),
                    forall|p: int, d: Seq<char>|
                        0 <= p < head && #[trigger] self.deps_at(prefix[p] as int).contains(d)
                            ==> self.ids_of(prefix.subrange(0, p)).contains(d),
                decreases row@.len() - m,
            {
                let v = row[m];
                proof {
                    lemma_count_prefix(row@, m as int, v);
                    lemma_count_prefix_le(row@, m as int + 1, v);
                    lemma_count_outside_push(self.deps_at(v as int), done, self.id_at(u as int));
                    assert forall|i: usize| i < n && i != v implies count_of(
                        row@.subrange(0, m as int + 1),
                        i,
                    ) == count_of(row@.subrange(0, m as int), i) by {
                        lemma_count_prefix(row@, m as int, i);
                    }
                }
                let ghost before = order@;
                let dv = in_deg[v] - 1;
                in_deg.set(v, dv);
                if dv == 0 {
                    order.push(v);
                    proof {
                        assert(order@[order@.len() - 1] == v);
                        assert(order@.subrange(0, head as int + 1) =~= prefix);
                        lemma_distinct_indices(order@, n);
                    }
                }
                proof {
                    assert forall|i: usize| i < n implies (order@.contains(i) <==> in_deg@[i as int]
                        == 0) by {
                        lemma_push_contains(before, v, i);
                        if before.contains(i) {
                            let j = choose|j: int| 0 <= j < before.len() && before[j] == i;
                            assert(order@[j] == i);
                        }
                    }
                }
                m = m + 1;
            }
            proof {
                assert(row@.subrange(0, row@.len() as int) =~= row@);
                assert forall|i: usize| i < n implies in_deg@[i as int] == count_outside(
                    self.deps_at(i as int),
                    self.ids_of(order@.subrange(0, head as int + 1)),
                ) by {
                    lemma_count_outside_push(self.deps_at(i as int), done, self.id_at(u as int));
                }
                assert forall|p: int, d: Seq<char>|
                    0 <= p <= head && #[trigger] self.deps_at(order@[p] as int).contains(d)
                        implies self.ids_of(order@.subrange(0, p)).contains(d) by {
                    assert(order@.subrange(0, p) =~= prefix.subrange(0, p));
                    assert(order@[p] == prefix[p]);
                }
            }
            head = head + 1;
        }
        proof {
            assert(order@.subrange(0, head as int) =~= order@);
            assert forall|t: usize| t < n && !order@.contains(t) implies exists|d: Seq<char>|
                #[trigger] self.deps_at(t as int).contains(d) && !self.ids_of(order@).contains(
                    d,
                ) by {
                lemma_count_outside_zero(self.deps_at(t as int), self.ids_of(order@));
            }
        }
        order
    }

    /// A complete Kahn order, read as ids, is an execution order of the graph.
    proof fn lemma_complete(&self, order: Seq<usize>, n: usize)
        requires
            self.wf(),
            n == self.n(),
            forall|p: int| 0 <= p < order.len() ==> order[p] < self.n(),
            order.no_duplicates(),
            order.len() == self.n(),
            forall|p: int, d: Seq<char>|
                0 <= p < order.len() && #[trigger] self.deps_at(order[p] as int).contains(d)
                    ==> self.ids_of(order.subrange(0, p)).contains(d),
        ensures
            is_execution_order(self@, self.ids_of(order)),
    {
        let o = self.ids_of(order);
        let keys = self.tasks.key_seq();
        self.lemma_dom();
        lemma_distinct_indices(order, n);
        assert forall|a: int, b: int| 0 <= a < o.len() && 0 <= b < o.len() && a != b implies o[a]
            != o[b] by {
            assert(order[a] != order[b]);
        }
        assert forall|x: Seq<char>| #[trigger] self@.dom().contains(x) implies o.to_set().contains(
            x,
        ) by {
            let j = choose|j: int| 0 <= j < keys.len() && keys[j] == x;
            assert(order.contains(j as usize));
            let p = choose|p: int| 0 <= p < order.len() && order[p] == j as usize;
            assert(o[p] == x);
        }
        assert forall|x: Seq<char>| o.to_set().contains(x) implies #[trigger] self@.dom().contains(
            x,
        ) by {
            let p = choose|p: int| 0 <= p < o.len() && o[p] == x;
            assert(keys[order[p] as int] == x);
            assert(keys.contains(x));
        }
        assert(o.to_set() =~= self@.dom());
        assert forall|i: int, d: Seq<char>|
            0 <= i < o.len() && #[trigger] self@[o[i]].dependencies.contains(d) implies o.subrange(
            0,
            i,
        ).contains(d) by {
            self.lemma_at(order[i] as int);
            assert(o[i] == self.id_at(order[i] as int));
            assert(self.deps_at(order[i] as int).contains(d));
            assert(o.subrange(0, i) =~= self.ids_of(order.subrange(0, i)));
        }
    }

    /// Every id of an execution order lies in the processed part, when each
    /// unprocessed task waits on an id outside it.
    proof fn lemma_stuck_prefix(&self, order: Seq<usize>, n: usize, o: Seq<Seq<char>>, k: int)
        requires
            self.wf(),
            n == self.n(),
            forall|p: int| 0 <= p < order.len() ==> order[p] < self.n(),
            forall|t: usize|
                t < self.n() && !order.contains(t) ==> exists|d: Seq<char>|
                    #[trigger] self.deps_at(t as int).contains(d) && !self.ids_of(order).contains(
                        d,
                    ),
            is_execution_order(self@, o),
            0 <= k <= o.len(),
        ensures
            forall|i: int| 0 <= i < k ==> self.ids_of(order).contains(#[trigger] o[i]),
        decreases k,
    {
        if k > 0 {
            self.lemma_stuck_prefix(order, n, o, k - 1);
            let done = self.ids_of(order);
            let keys = self.tasks.key_seq();
            let x = o[k - 1];
            self.lemma_dom();
            assert(o.to_set().contains(x));
            assert(keys.to_set().contains(x));
            let j = choose|j: int| 0 <= j < keys.len() && keys[j] == x;
            self.lemma_at(j);
            if order.contains(j as usize) {
                let p = choose|p: int| 0 <= p < order.len() && order[p] == j as usize;
                assert(done[p] == x);
            } else {
                let d = choose|d: Seq<char>|
                    #[trigger] self.deps_at(j).contains(d) && !done.contains(d);
                assert(self@[o[k - 1]].dependencies.contains(d));
                assert(o.subrange(0, k - 1).contains(d));
                let pre = o.subrange(0, k - 1);
                let i = choose|i: int| 0 <= i < pre.len() && pre[i] == d;
                assert(o[i] == d);
            }
        }
    }

    /// When Kahn's algorithm stops short, no execution order exists.
    proof fn lemma_stuck(&self, order: Seq<usize>, n: usize)
        requires
            self.wf(),
            n == self.n(),
            forall|p: int| 0 <= p < order.len() ==> order[p] < self.n(),
            order.no_duplicates(),
            order.len() < self.n(),
            forall|t: usize|
                t < self.n() && !order.contains(t) ==> exists|d: Seq<char>|
                    #[trigger] self.deps_at(t as int).contains(d) && !self.ids_of(order).contains(
                        d,
                    ),
        ensures
            !has_execution_order(self@),
    {
        if has_execution_order(self@) {
            let o = choose|o: Seq<Seq<char>>| is_execution_order(self@, o);
            self.lemma_stuck_prefix(order, n, o, o.len() as int);
            lemma_distinct_indices(order, n);
            let j = choose|j: usize| j < self.n() && !order.contains(j);
            let keys = self.tasks.key_seq();
            let x = keys[j as int];
            self.lemma_dom();
            assert(keys.to_set().contains(x));
            assert(o.to_set().contains(x));
            let i = choose|i: int| 0 <= i < o.len() && o[i] == x;
            assert(self.ids_of(order).contains(o[i]));
            let p = choose|p: int| 0 <= p < order.len() && self.ids_of(order)[p] == x;
            assert(keys[order[p] as int] == keys[j as int]);
            assert(order[p] == j);
        }
    }

    /// The ids of the tasks at the given positions.
    fn ids_in(&self, order: &Vec<usize>) -> (r: Vec<String>)
        requires
            self.wf(),
            forall|p: int| 0 <= p < order@.len() ==> order@[p] < self.n(),
        ensures
            strings(r@) == self.ids_of(order@),
    {
        let mut r: Vec<String> = Vec::new();
        let mut i: usize = 0;
        while i < order.len()
            invariant
                self.wf(),
                i <= order@.len(),
                forall|p: int| 0 <= p < order@.len() ==> order@[p] < self.n(),
                r@.len() == i,
                strings(r@) == self.ids_of(order@.subrange(0, i as int)),
            decreases order@.len() - i,
        {
            let ghost before = r@;
            let id = self.tasks.key_at(order[i]).clone();
            r.push(id);
            proof {
                assert forall|p: int| 0 <= p < i implies strings(r@)[p] == self.ids_of(
                    order@.subrange(0, i as int + 1),
                )[p] by {
                    assert(r@[p] == before[p]);
                    assert(strings(before)[p] == self.ids_of(order@.subrange(0, i as int))[p]);
                }
                assert(strings(r@) =~= self.ids_of(order@.subrange(0, i as int + 1)));
            }
            i = i + 1;
        }
        proof {
            assert(order@.subrange(0, i as int) =~= order@);
        }
        r
    }

    /// Orders the tasks so that each comes after all of its dependencies, or
    /// reports a cycle when no such order exists. A dependency on an id that
    /// is not in the graph can never be met, so it also yields the cycle error.
    /// Among tasks that become ready together, those ready from the start go
    /// in insertion order and later ones in the order they were released.
    pub fn topological_sort(&self) -> (r: Result<Vec<String>, String>)
        requires
            self.wf(),
        ensures
            self@.dom().finite(),
            sort_outcome(self@, sort_view(r)),
    {
        proof {
            self.lemma_dom();
        }
        let order = self.kahn();
        let n = self.tasks.len();
        if order.len() == n {
            let ids = self.ids_in(&order);
            proof {
                self.lemma_complete(order@, n);
            }
            Ok(ids)
        } else {
            proof {
                self.lemma_stuck(order@, n);
            }
            Err(String::from_str("Cycle detected in DAG"))
        }
    }

    /// The tasks on the critical path and the largest earliest start, computed
    /// over an execution order; the cycle error when there is none.
    pub fn critical_path(&self) -> (r: Result<(Vec<String>, u32), String>)
        requires
            self.wf(),
        ensures
            self@.dom().finite(),
            critical_outcome(self@, critical_view(r)),
    {
        let topo_order = match self.topological_sort() {
            Ok(order) => order,
            Err(e) => {
                return Err(e);
            },
        };
        let n = self.tasks.len();
        let index = IdIndex::build(&self.tasks);
        let mut earliest_start: Vec<Option<u32>> = Vec::new();
        let mut j: usize = 0;
        while j < n
            invariant
                j <= n,
                earliest_start@.len() == j,
                forall|k: int| 0 <= k < j ==> earliest_start@[k] is None,
            decreases n - j,
        {
            earliest_start.push(None);
            j = j + 1;
        }
        let mut i: usize = 0;
        while i < topo_order.len()
            invariant
                self.wf(),
                n == self.n(),
                index.indexes(self.tasks.key_seq()),
                earliest_start@.len() == n,
                forall|k: int| 0 <= k < n ==> #[trigger] earliest_start@[k] is None || earliest_start@[k] == Some(0u32),
            decreases topo_order@.len() - i,
        {
            match index.find(&self.tasks, &topo_order[i]) {
                Some(t) => {
                    let task = self.tasks.value_at(t);
                    let mut max_dep_start: u32 = 0;
                    let mut k: usize = 0;
                    while k < task.dependencies.len()
                        invariant
                            self.wf(),
                            n == self.n(),
                            index.indexes(self.tasks.key_seq()),
                            earliest_start@.len() == n,
                            forall|k: int| 0 <= k < n ==> #[trigger] earliest_start@[k] is None || earliest_start@[k] == Some(0u32),
                            max_dep_start == 0,
                        decreases task.dependencies@.len() - k,
                    {
                        match index.find(&self.tasks, &task.dependencies[k]) {
                            Some(d) => {
                                match earliest_start[d] {
                                    Some(start) => {
                                        if start > max_dep_start {
                                            max_dep_start = start;
                                        }
                                    },
                                    None => {},
                                }
                            },
                            None => {},
                        }
                        k = k + 1;
                    }
                    earliest_start.set(t, Some(max_dep_start));
                },
                None => {},
            }
            i = i + 1;
        }
        let mut max_time: u32 = 0;
        let mut j: usize = 0;
        while j < n
            invariant
                earliest_start@.len() == n,
                forall|k: int| 0 <= k < n ==> #[trigger] earliest_start@[k] is None || earliest_start@[k] == Some(0u32),
                max_time == 0,
            decreases n - j,
        {
            match earliest_start[j] {
                Some(start) => {
                    if start > max_time {
                        max_time = start;
                    }
                },
                None => {},
            }
            j = j + 1;
        }
        let mut critical_tasks: Vec<String> = Vec::new();
        let mut m: usize = 0;
        while m < topo_order.len()
            invariant
                self.wf(),
                n == self.n(),
                index.indexes(self.tasks.key_seq()),
                earliest_start@.len() == n,
                forall|k: int| 0 <= k < n ==> #[trigger] earliest_start@[k] is None || earliest_start@[k] == Some(0u32),
                max_time == 0,
                m <= topo_order@.len(),
                critical_tasks@ == topo_order@.subrange(0, m as int),
            decreases topo_order@.len() - m,
        {
            let start: u32 = match index.find(&self.tasks, &topo_order[m]) {
                Some(t) => match earliest_start[t] {
                    Some(s) => s,
                    None => 0,
                },
                None => 0,
            };
            if start == max_time {
                critical_tasks.push(topo_order[m].clone());
            }
            proof {
                assert(critical_tasks@ =~= topo_order@.subrange(0, m as int + 1));
            }
            m = m + 1;
        }
        proof {
            assert(critical_tasks@ =~= topo_order@);
        }
        Ok((critical_tasks, max_time))
    }

    /// An empty graph.
    pub fn new() -> (r: Self)
        ensures
            r.wf(),
            r@ == Graph::empty(),
    {
        let r = OctoTree { tasks: StrMap::new() };
        assert(r@ =~= Graph::empty());
        r
    }

    /// Inserts `task` under its id, replacing any task with that id.
    pub fn add_task(&mut self, task: Task)
        requires
            old(self).wf(),
        ensures
            final(self).wf(),
            final(self)@ == old(self)@.insert(task.id@, task@),
    {
        let key = task.id.clone();
        let ghost t = task;
        let _ = self.tasks.insert(key, task);
        assert(self@ =~= old(self)@.insert(t.id@, t@));
    }

    /// A one-line summary with the number of tasks.
    pub fn display(&self) -> (r: String)
        requires
            self.wf(),
        ensures
            r@ == "OCTOTREÉ: "@ + decimal_of(self@.len()) + " tasks"@,
    {
        proof {
            self.lemma_dom();
        }
        let mut r = String::from_str("OCTOTREÉ: ");
        let n = self.tasks.len();
        let digits = decimal(n as u64);
        r.append(digits.as_str());
        r.append(" tasks");
        r
    }
}

} // verus!
