//! The fixed five-step trading pipeline, built as a task graph.

use vstd::prelude::*;
use crate::adag::{is_execution_order, sort_outcome, sort_view, Graph, OctoTree, Task, TaskView};
use crate::text::strings;
use crate::order_laws::lemma_dependency_earlier;

verus! {

/// The ids of the pipeline's steps, in the order they must run.
pub open spec fn pipeline_ids() -> Seq<Seq<char>> {
    seq![
        "fetch_data"@,
        "calculate_indicators"@,
        "generate_signals"@,
        "risk_check"@,
        "execute_trades"@,
    ]
}

/// The pipeline's step `i`: its id, label, duration and the step before it.
pub open spec fn pipeline_task(i: int) -> TaskView {
    TaskView {
        id: pipeline_ids()[i],
        name: if i == 0 {
            "Fetch Market Data"@
        } else if i == 1 {
            "Calculate Technical Indicators"@
        } else if i == 2 {
            "Generate Trading Signals"@
        } else if i == 3 {
            "Risk Management Check"@
        } else {
            "Execute Trades"@
        },
        duration: if i == 0 {
            2
        } else if i == 1 {
            3
        } else if i == 2 {
            2
        } else if i == 3 {
            1
        } else {
            2
        },
        dependencies: if i == 0 {
            seq![]
        } else {
            seq![pipeline_ids()[i - 1]]
        },
    }
}

/// The pipeline as a graph: each step depends on the one before it.
pub open spec fn pipeline_graph() -> Graph {
    Map::empty().insert(pipeline_ids()[0], pipeline_task(0)).insert(
        pipeline_ids()[1],
        pipeline_task(1),
    ).insert(pipeline_ids()[2], pipeline_task(2)).insert(pipeline_ids()[3], pipeline_task(3)).insert(
        pipeline_ids()[4],
        pipeline_task(4),
    )
}

/// The trading workflow: fetch data, compute indicators, generate signals,
/// check risk, execute trades.
pub struct TradingWorkflow {
    dag: OctoTree,
}

impl View for TradingWorkflow {
    type V = Graph;

    closed spec fn view(&self) -> Graph {
        self.dag@
    }
}

impl Default for TradingWorkflow {
    fn default() -> (r: Self)
        ensures
            r.wf(),
    {
        Self::new()
    }
}

proof fn lemma_ids_distinct()
    ensures
        pipeline_ids().no_duplicates(),
{
    reveal_strlit("fetch_data");
    reveal_strlit("calculate_indicators");
    reveal_strlit("generate_signals");
    reveal_strlit("risk_check");
    reveal_strlit("execute_trades");
    let ids = pipeline_ids();
    assert(ids[0][0] != ids[3][0]);
    assert(ids[0].len() != ids[1].len() && ids[0].len() != ids[2].len() && ids[0].len()
        != ids[4].len());
    assert(ids[1].len() != ids[2].len() && ids[1].len() != ids[3].len() && ids[1].len()
        != ids[4].len());
    assert(ids[2].len() != ids[3].len() && ids[2].len() != ids[4].len());
    assert(ids[3].len() != ids[4].len());
}

/// The pipeline has five steps.
proof fn lemma_graph_size()
    ensures
        pipeline_graph().dom() == pipeline_ids().to_set(),
        pipeline_graph().len() == 5,
{
    lemma_ids_distinct();
    let g = pipeline_graph();
    let ids = pipeline_ids();
    assert(g.dom() =~= ids.to_set()) by {
        assert forall|x: Seq<char>| g.dom().contains(x) implies ids.to_set().contains(x) by {
            if x == ids[0] {
            } else if x == ids[1] {
            } else if x == ids[2] {
            } else if x == ids[3] {
            } else {
                assert(x == ids[4]);
            }
        }
        assert forall|x: Seq<char>| ids.to_set().contains(x) implies g.dom().contains(x) by {
            let i = choose|i: int| 0 <= i < ids.len() && ids[i] == x;
        }
    }
    ids.unique_seq_to_set();
}

/// In an execution order of the pipeline, each step follows the one before.
proof fn lemma_step_earlier(o: Seq<Seq<char>>, i: int)
    requires
        is_execution_order(pipeline_graph(), o),
        1 <= i < 5,
    ensures
        o.index_of(pipeline_ids()[i - 1]) < o.index_of(pipeline_ids()[i]),
        o.contains(pipeline_ids()[i]),
{
    lemma_ids_distinct();
    let g = pipeline_graph();
    let ids = pipeline_ids();
    assert(g.dom().contains(ids[i]));
    assert(g[ids[i]] == pipeline_task(i));
    assert(g[ids[i]].dependencies[0] == ids[i - 1]);
    lemma_dependency_earlier(g, o, ids[i], ids[i - 1]);
}

/// The pipeline's steps in order are its only execution order.
proof fn lemma_only_order(o: Seq<Seq<char>>)
    requires
        is_execution_order(pipeline_graph(), o),
    ensures
        o == pipeline_ids(),
{
    lemma_ids_distinct();
    let g = pipeline_graph();
    let ids = pipeline_ids();
    lemma_graph_size();
    o.unique_seq_to_set();
    assert(o.len() == 5);
    lemma_step_earlier(o, 1);
    lemma_step_earlier(o, 2);
    lemma_step_earlier(o, 3);
    lemma_step_earlier(o, 4);
    assert(o.contains(ids[0]) && o.contains(ids[4])) by {
        assert(g.dom().contains(ids[0]) && g.dom().contains(ids[4]));
        assert(o.to_set().contains(ids[0]) && o.to_set().contains(ids[4]));
    }
    assert forall|i: int| 0 <= i < 5 implies o[i] == ids[i] by {
        let p = o.index_of(ids[i]);
        assert(o.contains(ids[i])) by {
            assert(g.dom().contains(ids[i]));
            assert(o.to_set().contains(ids[i]));
        }
        assert(0 <= o.index_of(ids[0]) < 5);
        assert(0 <= o.index_of(ids[4]) < 5);
        assert(p == i);
    }
    assert(o =~= ids);
}

/// The pipeline's steps in order form an execution order.
proof fn lemma_order_exists()
    ensures
        is_execution_order(pipeline_graph(), pipeline_ids()),
{
    lemma_ids_distinct();
    let g = pipeline_graph();
    let ids = pipeline_ids();
    lemma_graph_size();
    assert forall|i: int, d: Seq<char>|
        0 <= i < ids.len() && #[trigger] g[ids[i]].dependencies.contains(d) implies ids.subrange(
        0,
        i,
    ).contains(d) by {
        assert(g[ids[i]] == pipeline_task(i));
        assert(i > 0);
        assert(d == ids[i - 1]);
        assert(ids.subrange(0, i)[i - 1] == d);
    }
}

impl TradingWorkflow {
    /// The workflow holds the pipeline's graph.
    pub closed spec fn wf(&self) -> bool {
        &&& self.dag.wf()
        &&& self@ == pipeline_graph()
    }

    /// Builds the five-step pipeline.
    pub fn new() -> (r: Self)
        ensures
            r.wf(),
            r@ == pipeline_graph(),
    {
        let mut dag = OctoTree::new();
        let t0 = Task {
            id: String::from_str("fetch_data"),
            name: String::from_str("Fetch Market Data"),
            duration: 2,
            dependencies: Vec::new(),
        };
        assert(t0@ == pipeline_task(0)) by {
            assert(strings(t0.dependencies@) =~= seq![]);
        }
        dag.add_task(t0);
        let t1 = Task {
            id: String::from_str("calculate_indicators"),
            name: String::from_str("Calculate Technical Indicators"),
            duration: 3,
            dependencies: vec![String::from_str("fetch_data")],
        };
        assert(t1@ == pipeline_task(1)) by {
            assert(strings(t1.dependencies@) =~= seq![pipeline_ids()[0]]);
        }
        dag.add_task(t1);
        let t2 = Task {
            id: String::from_str("generate_signals"),
            name: String::from_str("Generate Trading Signals"),
            duration: 2,
            dependencies: vec![String::from_str("calculate_indicators")],
        };
        assert(t2@ == pipeline_task(2)) by {
            assert(strings(t2.dependencies@) =~= seq![pipeline_ids()[1]]);
        }
        dag.add_task(t2);
        let t3 = Task {
            id: String::from_str("risk_check"),
            name: String::from_str("Risk Management Check"),
            duration: 1,
            dependencies: vec![String::from_str("generate_signals")],
        };
        assert(t3@ == pipeline_task(3)) by {
            assert(strings(t3.dependencies@) =~= seq![pipeline_ids()[2]]);
        }
        dag.add_task(t3);
        let t4 = Task {
            id: String::from_str("execute_trades"),
            name: String::from_str("Execute Trades"),
            duration: 2,
            dependencies: vec![String::from_str("risk_check")],
        };
        assert(t4@ == pipeline_task(4)) by {
            assert(strings(t4.dependencies@) =~= seq![pipeline_ids()[3]]);
        }
        dag.add_task(t4);
        let r = TradingWorkflow { dag };
        proof {
            assert(r@ =~= pipeline_graph());
        }
        r
    }

    /// The order in which the steps run: always the pipeline's own order.
    pub fn get_execution_order(&self) -> (r: Result<Vec<String>, String>)
        requires
            self.wf(),
        ensures
            sort_outcome(self@, sort_view(r)),
            r is Ok,
            strings(r->Ok_0@) == pipeline_ids(),
    {
        let r = self.dag.topological_sort();
        proof {
            lemma_order_exists();
            if r is Ok {
                lemma_only_order(strings(r->Ok_0@));
            }
        }
        r
    }

    /// A one-line summary with the number of steps.
    pub fn display(&self) -> (r: String)
        requires
            self.wf(),
        ensures
            r@ == "OCTOTREÉ: "@ + seq!['5'] + " tasks"@,
    {
        proof {
            lemma_graph_size();
        }
        self.dag.display()
    }
}

} // verus!
