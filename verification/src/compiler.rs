//! Compilation of a single-table query into a flow of nodes.

use crate::expr::{Expr, ExprGraph, ExprKey};
use crate::nodeflow::{
    arena_into_vec, arena_new, arena_views, emit, filter, node_views, CSVNode, InnerView, NodeFlow, NodeView,
};
use crate::qgm::{NamedExpr, QueryBlock, QGM};
use vstd::prelude::*;

verus! {

/// The compiler of queries into flows of nodes.
pub struct Compiler {}

/// Text of the error for a query without a main block.
pub open spec fn no_block_text() -> Seq<char> {
    "Compiler: the query has no main block"@
}

/// Text of the error for a query that does not read exactly one table.
pub open spec fn single_table_text() -> Seq<char> {
    "Compiler: only single-table queries are supported"@
}

/// Text of the error for a select list that names no expression.
pub open spec fn select_list_text() -> Seq<char> {
    "Compiler: the select list names an expression that does not exist"@
}

/// The expression to compute for an entry of the select list: the argument
/// of an aggregate function, the expression itself otherwise. `None` when
/// the entry names no expression, or an aggregate function without
/// argument.
pub open spec fn selected(graph: &ExprGraph, key: ExprKey) -> Option<ExprKey> {
    if !graph.has(key.id) {
        None
    } else {
        match graph.value_of(key.id) {
            Expr::AggFunction(_, _) => if graph.nodes@[key.id as int].children is Some && graph.children_of(key.id).len()
                > 0 {
                Some(ExprKey { id: graph.children_of(key.id)[0] })
            } else {
                None
            },
            _ => Some(key),
        }
    }
}

/// The expressions to compute for a select list, or `None` when an entry
/// has none.
pub open spec fn selected_all(graph: &ExprGraph, list: Seq<NamedExpr>) -> Option<Seq<ExprKey>>
    decreases list.len(),
{
    if list.len() == 0 {
        Some(Seq::empty())
    } else {
        match (selected_all(graph, list.drop_last()), selected(graph, list.last().expr_key)) {
            (Some(keys), Some(key)) => Some(keys.push(key)),
            _ => None,
        }
    }
}

/// The predicates of a query block.
pub open spec fn predicates_of(qblock: &QueryBlock) -> Seq<ExprKey> {
    match qblock.pred_list {
        Some(l) => l@,
        None => Seq::empty(),
    }
}

/// Why a query cannot be compiled, if it cannot.
pub open spec fn compile_fault(qgm: &QGM) -> Option<Seq<char>> {
    if !qgm.qblock_graph.has(qgm.main_qblock_key.id) {
        Some(no_block_text())
    } else {
        let qblock = qgm.qblock_graph.value_of(qgm.main_qblock_key.id);
        if qblock.quns@.len() != 1 || qblock.quns@[0].tablename is None || qblock.quns@[0].qblock is Some {
            Some(single_table_text())
        } else if selected_all(&qgm.expr_graph, qblock.select_list@) is None {
            Some(select_list_text())
        } else {
            None
        }
    }
}

/// The first `n` filters of the flow: the filter of predicate `i` is node
/// `i + 1` and reads from node `i`.
pub open spec fn filter_nodes(preds: Seq<ExprKey>, n: nat) -> Seq<NodeView>
    decreases n,
{
    if n == 0 {
        Seq::empty()
    } else {
        filter_nodes(preds, (n - 1) as nat).push(
            NodeView { id: n as usize, children: seq![(n - 1) as usize], inner: InnerView::Filter { expr: preds[n - 1] } },
        )
    }
}

/// The nodes of the flow of a single-table query: the scan of the table in
/// four partitions, one filter per predicate, each reading from the node
/// before it, and at the end the node that hands on the expressions of the
/// select list.
pub open spec fn compiled_nodes(qgm: &QGM) -> Seq<NodeView> {
    let qblock = qgm.qblock_graph.value_of(qgm.main_qblock_key.id);
    let preds = predicates_of(&qblock);
    seq![
        NodeView {
            id: 0,
            children: Seq::empty(),
            inner: InnerView::CSV { filename: qblock.quns@[0].tablename.unwrap()@, npartitions: 4 },
        },
    ] + filter_nodes(preds, preds.len()) + seq![
        NodeView {
            id: (preds.len() + 1) as usize,
            children: seq![preds.len() as usize],
            inner: InnerView::Emit { select_list: selected_all(&qgm.expr_graph, qblock.select_list@) },
        },
    ]
}

impl Compiler {
    /// The expressions to compute for a select list.
    fn select(graph: &ExprGraph, list: &Vec<NamedExpr>) -> (res: Option<Vec<ExprKey>>)
        ensures
            match res {
                Some(keys) => selected_all(graph, list@) == Some(keys@),
                None => selected_all(graph, list@) is None,
            },
    {
        let mut keys: Vec<ExprKey> = Vec::new();
        let mut i: usize = 0;
        assert(list@.take(0) =~= Seq::<NamedExpr>::empty());
        while i < list.len()
            invariant
                i <= list@.len(),
                selected_all(graph, list@.take(i as int)) == Some(keys@),
            decreases list@.len() - i,
        {
            proof {
                assert(list@.take(i + 1).drop_last() =~= list@.take(i as int));
                assert(list@.take(i + 1).last() == list@[i as int]);
            }
            let expr_key = list[i].expr_key;
            if expr_key.id >= graph.len() {
                proof {
                    lemma_selected_fails(graph, list@, i + 1);
                }
                return None;
            }
            let (expr, _, children) = graph.get3(expr_key.id);
            let key = match expr {
                Expr::AggFunction(_, _) => match children {
                    Some(c) => {
                        if c.len() > 0 {
                            ExprKey { id: c[0] }
                        } else {
                            proof {
                                lemma_selected_fails(graph, list@, i + 1);
                            }
                            return None;
                        }
                    },
                    None => {
                        proof {
                            lemma_selected_fails(graph, list@, i + 1);
                        }
                        return None;
                    },
                },
                _ => expr_key,
            };
            keys.push(key);
            i += 1;
        }
        assert(list@.take(i as int) =~= list@);
        Some(keys)
    }

    /// Compiles a query over a single table into a flow: a scan of the
    /// table, a filter for each predicate, and the delivery of the select
    /// list, of which aggregate functions are stripped to their arguments.
    /// The expressions of the query move into the flow. On a fault the query
    /// is left as it was.
    pub fn compile(qgm: &mut QGM) -> (res: Result<NodeFlow, String>)
        ensures
            match res {
                Ok(flow) => {
                    &&& compile_fault(old(qgm)) is None
                    &&& flow.id == 99
                    &&& flow.graph == old(qgm).expr_graph
                    &&& node_views(flow.nodes@) == compiled_nodes(old(qgm))
                    &&& final(qgm).expr_graph.nodes@.len() == 0
                    &&& final(qgm).main_qblock_key == old(qgm).main_qblock_key
                    &&& final(qgm).cte_list == old(qgm).cte_list
                    &&& final(qgm).qblock_graph == old(qgm).qblock_graph
                    &&& final(qgm).metadata == old(qgm).metadata
                },
                Err(e) => compile_fault(old(qgm)) == Some(e@) && *final(qgm) == *old(qgm),
            },
    {
        if qgm.main_qblock_key.id >= qgm.qblock_graph.len() {
            return Err(String::from_str("Compiler: the query has no main block"));
        }
        let topqblock = qgm.qblock_graph.get_value(qgm.main_qblock_key.id);
        // Currently only single-table queries supported.
        if topqblock.quns.len() != 1 {
            return Err(String::from_str("Compiler: only single-table queries are supported"));
        }
        let qun = &topqblock.quns[0];
        let name = match &qun.tablename {
            Some(name) => {
                if qun.qblock.is_some() {
                    return Err(String::from_str("Compiler: only single-table queries are supported"));
                }
                name.clone()
            },
            None => {
                return Err(String::from_str("Compiler: only single-table queries are supported"));
            },
        };
        // Compile selectlist, temporarily stripping agg functions
        let select_list = match Self::select(&qgm.expr_graph, &topqblock.select_list) {
            Some(l) => l,
            None => {
                return Err(String::from_str("Compiler: the select list names an expression that does not exist"));
            },
        };
        // Turn QUN -> CSV, pred_list -> Filter
        let mut arena = arena_new();
        assert(arena_views(&arena) =~= Seq::<NodeView>::empty());
        let ghost preds = predicates_of(topqblock);
        let ghost scan = NodeView {
            id: 0,
            children: Seq::empty(),
            inner: InnerView::CSV { filename: name@, npartitions: 4 },
        };
        let mut topnode = CSVNode::new(&mut arena, name, 4);
        assert(arena_views(&arena) =~= seq![scan] + filter_nodes(preds, 0));
        if let Some(pred_list) = &topqblock.pred_list {
            let mut i: usize = 0;
            while i < pred_list.len()
                invariant
                    i <= pred_list@.len(),
                    preds == pred_list@,
                    topnode == i,
                    arena_views(&arena) == seq![scan] + filter_nodes(preds, i as nat),
                decreases pred_list@.len() - i,
            {
                proof {
                    lemma_filter_nodes_len(preds, i as nat);
                }
                topnode = filter(&mut arena, topnode, pred_list[i]);
                assert(arena_views(&arena) =~= seq![scan] + filter_nodes(preds, (i + 1) as nat));
                i += 1;
            }
        }
        proof {
            lemma_filter_nodes_len(preds, preds.len());
        }
        let ghost wanted = select_list@;
        let _ = emit(&mut arena, topnode, Some(select_list));
        let ghost views = arena_views(&arena);
        let nodes = arena_into_vec(arena);
        let mut graph = ExprGraph::new();
        std::mem::swap(&mut qgm.expr_graph, &mut graph);
        assert(views =~= compiled_nodes(old(qgm)));
        Ok(NodeFlow { id: 99, nodes, graph })
    }
}

/// There is one filter per predicate.
proof fn lemma_filter_nodes_len(preds: Seq<ExprKey>, n: nat)
    ensures
        filter_nodes(preds, n).len() == n,
    decreases n,
{
    if n > 0 {
        lemma_filter_nodes_len(preds, (n - 1) as nat);
    }
}

/// A select list with a prefix that has no expressions has none.
proof fn lemma_selected_fails(graph: &ExprGraph, list: Seq<NamedExpr>, k: int)
    requires
        0 <= k <= list.len(),
        selected_all(graph, list.take(k)) is None,
    ensures
        selected_all(graph, list) is None,
    decreases list.len() - k,
{
    if k == list.len() {
        assert(list.take(k) =~= list);
    } else {
        assert(list.take(k + 1).drop_last() =~= list.take(k));
        lemma_selected_fails(graph, list, k + 1);
    }
}

} // verus!
