//! Flows built node by node: every operator is a node allocated in an
//! arena, and names its inputs by the order of allocation.

use crate::expr::{AggType, Expr, ExprGraph, ExprKey, ExprProp, RelOp};
use crate::includes::{ColId, FlowNodeId};
use crate::row::{DataType, Datum};
use vstd::prelude::*;

verus! {

/// What a node does.
#[derive(Debug, PartialEq, Eq)]
pub enum NodeInner {
    /// Reads a file of separated values in `npartitions` partitions.
    CSV { filename: String, npartitions: usize },
    /// Keeps the rows of which the expression is true.
    Filter { expr: ExprKey },
    /// Keeps the listed columns, in that order.
    Project { colids: Vec<ColId> },
    /// Groups by the key columns and computes the aggregates, in
    /// `npartitions` partitions.
    Agg { keycolids: Vec<ColId>, aggcolids: Vec<(AggType, ColId)>, npartitions: usize },
    /// Joins its inputs on the listed pairs of columns.
    Join { joincols: Vec<(ColId, RelOp, ColId)> },
    /// Hands the rows on to the client, computing the listed expressions;
    /// all columns when there is no list.
    Emit { select_list: Option<Vec<ExprKey>> },
}

/// A node of a flow.
#[derive(Debug, PartialEq, Eq)]
pub struct Node {
    pub id: FlowNodeId,
    pub children: Vec<FlowNodeId>,
    pub inner: NodeInner,
}

/// A flow: its nodes in the order in which they were made, and the
/// expressions that they refer to.
#[derive(Debug)]
pub struct NodeFlow {
    pub id: usize,
    pub nodes: Vec<Node>,
    pub graph: ExprGraph,
}

/// The arena of the `typed_arena` crate, in which the nodes of a flow are
/// allocated.
#[verifier::external_type_specification]
#[verifier::external_body]
#[verifier::reject_recursive_types(T)]
pub struct ExArena<T>(typed_arena::Arena<T>);

pub type NodeArena = typed_arena::Arena<Node>;

/// The nodes allocated in an arena, in the order of allocation.
pub uninterp spec fn arena_nodes(arena: typed_arena::Arena<Node>) -> Seq<Node>;

/// An arena without nodes: `typed_arena::Arena::new`.
#[verifier::external_body]
pub(crate) fn arena_new() -> (arena: NodeArena)
    ensures
        arena_nodes(arena) == Seq::<Node>::empty(),
{
    typed_arena::Arena::new()
}

/// Number of nodes allocated: `typed_arena::Arena::len`.
#[verifier::external_body]
pub(crate) fn arena_len(arena: &NodeArena) -> (n: usize)
    ensures
        n == arena_nodes(*arena).len(),
{
    arena.len()
}

/// Allocates a node after those allocated before: `typed_arena::Arena::alloc`.
#[verifier::external_body]
pub(crate) fn arena_alloc(arena: &mut NodeArena, node: Node)
    ensures
        arena_nodes(*final(arena)) == arena_nodes(*old(arena)).push(node),
{
    arena.alloc(node);
}

/// The nodes of an arena in the order in which they were allocated:
/// `typed_arena::Arena::into_vec`.
#[verifier::external_body]
pub(crate) fn arena_into_vec(arena: NodeArena) -> (nodes: Vec<Node>)
    ensures
        nodes@ == arena_nodes(arena),
{
    arena.into_vec()
}

/// The mathematical value of the nodes allocated in an arena.
pub open spec fn arena_views(arena: &NodeArena) -> Seq<NodeView> {
    node_views(arena_nodes(*arena))
}

/// Allocates a node with the given inputs and returns its id, the number of
/// nodes allocated before it.
pub fn add_node(arena: &mut NodeArena, children: Vec<FlowNodeId>, inner: NodeInner) -> (id: FlowNodeId)
    ensures
        id == arena_views(old(arena)).len(),
        arena_nodes(*final(arena)) == arena_nodes(*old(arena)).push(Node { id, children, inner }),
        arena_views(final(arena)) == arena_views(old(arena)).push((Node { id, children, inner })@),
{
    let id = arena_len(arena);
    arena_alloc(arena, Node { id, children, inner });
    assert(arena_views(arena) =~= arena_views(old(arena)).push((Node { id, children, inner })@));
    id
}

/// The list of one id.
fn single(id: FlowNodeId) -> (ids: Vec<FlowNodeId>)
    ensures
        ids@ == seq![id],
{
    let mut ids: Vec<FlowNodeId> = Vec::new();
    ids.push(id);
    ids
}

/// Builders of the nodes of a flow. Each one allocates a node that reads
/// from the node `child` and returns its id.
pub struct CSVNode {}

impl CSVNode {
    /// A scan of `filename` in `npartitions` partitions.
    pub fn new(arena: &mut NodeArena, filename: String, npartitions: usize) -> (id: FlowNodeId)
        ensures
            id == arena_views(old(arena)).len(),
            arena_views(final(arena)) == arena_views(old(arena)).push(
                NodeView { id, children: Seq::empty(), inner: InnerView::CSV { filename: filename@, npartitions } },
            ),
    {
        add_node(arena, Vec::new(), NodeInner::CSV { filename, npartitions })
    }
}

/// A filter over node `child`.
pub fn filter(arena: &mut NodeArena, child: FlowNodeId, expr: ExprKey) -> (id: FlowNodeId)
    ensures
        id == arena_views(old(arena)).len(),
        arena_views(final(arena)) == arena_views(old(arena)).push(
            NodeView { id, children: seq![child], inner: InnerView::Filter { expr } },
        ),
{
    add_node(arena, single(child), NodeInner::Filter { expr })
}

/// A projection of node `child` on the columns `colids`.
pub fn project(arena: &mut NodeArena, child: FlowNodeId, colids: Vec<ColId>) -> (id: FlowNodeId)
    ensures
        id == arena_views(old(arena)).len(),
        arena_views(final(arena)) == arena_views(old(arena)).push(
            NodeView { id, children: seq![child], inner: InnerView::Project { colids: colids@ } },
        ),
{
    add_node(arena, single(child), NodeInner::Project { colids })
}

/// An aggregation of node `child`.
pub fn agg(
    arena: &mut NodeArena,
    child: FlowNodeId,
    keycolids: Vec<ColId>,
    aggcolids: Vec<(AggType, ColId)>,
    npartitions: usize,
) -> (id: FlowNodeId)
    ensures
        id == arena_views(old(arena)).len(),
        arena_views(final(arena)) == arena_views(old(arena)).push(
            NodeView {
                id,
                children: seq![child],
                inner: InnerView::Agg { keycolids: keycolids@, aggcolids: aggcolids@, npartitions },
            },
        ),
{
    add_node(arena, single(child), NodeInner::Agg { keycolids, aggcolids, npartitions })
}

/// A join of node `child` with the nodes `others`.
pub fn join(arena: &mut NodeArena, child: FlowNodeId, others: Vec<FlowNodeId>, joincols: Vec<(ColId, RelOp, ColId)>) -> (id:
    FlowNodeId)
    ensures
        id == arena_views(old(arena)).len(),
        arena_views(final(arena)) == arena_views(old(arena)).push(
            NodeView { id, children: seq![child] + others@, inner: InnerView::Join { joincols: joincols@ } },
        ),
{
    let mut children = single(child);
    let mut others = others;
    children.append(&mut others);
    add_node(arena, children, NodeInner::Join { joincols })
}

/// The end of a flow over node `child`.
pub fn emit(arena: &mut NodeArena, child: FlowNodeId, select_list: Option<Vec<ExprKey>>) -> (id: FlowNodeId)
    ensures
        id == arena_views(old(arena)).len(),
        arena_views(final(arena)) == arena_views(old(arena)).push(
            NodeView {
                id,
                children: seq![child],
                inner: InnerView::Emit {
                    select_list: match select_list {
                        Some(l) => Some(l@),
                        None => None,
                    },
                },
            },
        ),
{
    add_node(arena, single(child), NodeInner::Emit { select_list })
}

/// The mathematical value of what a node does.
pub enum InnerView {
    CSV { filename: Seq<char>, npartitions: usize },
    Filter { expr: ExprKey },
    Project { colids: Seq<ColId> },
    Agg { keycolids: Seq<ColId>, aggcolids: Seq<(AggType, ColId)>, npartitions: usize },
    Join { joincols: Seq<(ColId, RelOp, ColId)> },
    Emit { select_list: Option<Seq<ExprKey>> },
}

/// The mathematical value of a node.
pub struct NodeView {
    pub id: FlowNodeId,
    pub children: Seq<FlowNodeId>,
    pub inner: InnerView,
}

impl View for Node {
    type V = NodeView;

    open spec fn view(&self) -> NodeView {
        NodeView {
            id: self.id,
            children: self.children@,
            inner: match self.inner {
                NodeInner::CSV { filename, npartitions } => InnerView::CSV { filename: filename@, npartitions },
                NodeInner::Filter { expr } => InnerView::Filter { expr },
                NodeInner::Project { colids } => InnerView::Project { colids: colids@ },
                NodeInner::Agg { keycolids, aggcolids, npartitions } => InnerView::Agg {
                    keycolids: keycolids@,
                    aggcolids: aggcolids@,
                    npartitions,
                },
                NodeInner::Join { joincols } => InnerView::Join { joincols: joincols@ },
                NodeInner::Emit { select_list } => InnerView::Emit {
                    select_list: match select_list {
                        Some(l) => Some(l@),
                        None => None,
                    },
                },
            },
        }
    }
}

/// The mathematical value of a list of nodes.
pub open spec fn node_views(nodes: Seq<Node>) -> Seq<NodeView> {
    Seq::new(nodes.len(), |i: int| nodes[i]@)
}

/// The path of the file `name` under the directory `data_dir`.
pub open spec fn data_path(data_dir: Seq<char>, name: Seq<char>) -> Seq<char> {
    data_dir + "/"@ + name
}

/// The path of the file `name` under the directory `data_dir`.
fn data_file(data_dir: &str, name: &str) -> (path: String)
    ensures
        path@ == data_path(data_dir@, name@),
{
    String::from_str(data_dir).concat("/").concat(name)
}

/// The nodes of the simple flow over the employee file under `data_dir`.
pub open spec fn simple_nodes(data_dir: Seq<char>) -> Seq<NodeView> {
    seq![
        NodeView {
            id: 0,
            children: Seq::empty(),
            inner: InnerView::CSV { filename: data_path(data_dir, "emp.csv"@), npartitions: 4 },
        },
        NodeView { id: 1, children: seq![0usize], inner: InnerView::Filter { expr: ExprKey { id: 2 } } },
        NodeView { id: 2, children: seq![1usize], inner: InnerView::Project { colids: seq![2usize, 1, 0] } },
        NodeView {
            id: 3,
            children: seq![2usize],
            inner: InnerView::Agg {
                keycolids: seq![0usize],
                aggcolids: seq![(AggType::COUNT, 0usize), (AggType::SUM, 1), (AggType::MIN, 2), (AggType::MAX, 2)],
                npartitions: 3,
            },
        },
        NodeView { id: 4, children: seq![3usize], inner: InnerView::Emit { select_list: None } },
    ]
}

/// The simple flow: the employee file under `data_dir`, read in four
/// partitions; the rows whose second column is greater than 10; the columns
/// in the order third, second, first; grouped by the first of those in three
/// partitions, with a count, a sum, a minimum and a maximum; handed on.
pub fn make_simple_flow(data_dir: &str) -> (flow: NodeFlow)
    ensures
        flow.id == 99,
        node_views(flow.nodes@) == simple_nodes(data_dir@),
        flow.graph.wf(),
        flow.graph.nodes@.len() == 3,
        flow.graph.value_of(0) == Expr::CID(0, 1),
        flow.graph.value_of(1) == Expr::Literal(Datum::INT(10)),
        flow.graph.value_of(2) == Expr::RelExpr(RelOp::Gt),
        flow.graph.children_of(2) == seq![0usize, 1],
{
    let mut arena = arena_new();
    assert(arena_views(&arena) =~= Seq::<NodeView>::empty());
    // Expression: $column-1 > ?
    let mut graph = ExprGraph::new();
    let column = graph.add_node_with_props(Expr::CID(0, 1), ExprProp { data_type: DataType::INT }, None);
    let literal = graph.add_node_with_props(
        Expr::Literal(Datum::INT(10)),
        ExprProp { data_type: DataType::INT },
        None,
    );
    let mut operands: Vec<usize> = Vec::new();
    operands.push(column);
    operands.push(literal);
    let expr = graph.add_node_with_props(
        Expr::RelExpr(RelOp::Gt),
        ExprProp { data_type: DataType::BOOL },
        Some(operands),
    );
    let csvfilename = data_file(data_dir, "emp.csv");
    let csv = CSVNode::new(&mut arena, csvfilename, 4);  // name,age,dept_id
    let filtered = filter(&mut arena, csv, ExprKey { id: expr });  // age > ?
    let mut colids: Vec<ColId> = Vec::new();
    colids.push(2);
    colids.push(1);
    colids.push(0);
    assert(colids@ =~= seq![2usize, 1, 0]);
    let projected = project(&mut arena, filtered, colids);  // dept_id, age, name
    let mut keycolids: Vec<ColId> = Vec::new();
    keycolids.push(0);
    let mut aggcolids: Vec<(AggType, ColId)> = Vec::new();
    aggcolids.push((AggType::COUNT, 0));
    aggcolids.push((AggType::SUM, 1));
    aggcolids.push((AggType::MIN, 2));
    aggcolids.push((AggType::MAX, 2));
    assert(keycolids@ =~= seq![0usize]);
    assert(aggcolids@ =~= seq![(AggType::COUNT, 0usize), (AggType::SUM, 1), (AggType::MIN, 2), (AggType::MAX, 2)]);
    let aggregated = agg(&mut arena, projected, keycolids, aggcolids, 3);
    let _ = emit(&mut arena, aggregated, None);
    let ghost views = arena_views(&arena);
    let nodes = arena_into_vec(arena);
    assert(node_views(nodes@) == views);
    assert(views =~= simple_nodes(data_dir@));
    NodeFlow { id: 99, nodes, graph }
}

/// The nodes of the flow that counts the employees of every department.
pub open spec fn mvp_nodes(data_dir: Seq<char>) -> Seq<NodeView> {
    seq![
        NodeView {
            id: 0,
            children: Seq::empty(),
            inner: InnerView::CSV { filename: data_path(data_dir, "emp.csv"@), npartitions: 4 },
        },
        NodeView { id: 1, children: seq![0usize], inner: InnerView::Project { colids: seq![2usize] } },
        NodeView {
            id: 2,
            children: seq![1usize],
            inner: InnerView::Agg {
                keycolids: seq![0usize],
                aggcolids: seq![(AggType::COUNT, 0usize)],
                npartitions: 3,
            },
        },
    ]
}

/// The smallest flow of any use: the employee file under `data_dir`, its
/// third column, and a count per value of it.
pub fn make_mvp_flow(data_dir: &str) -> (flow: NodeFlow)
    ensures
        flow.id == 98,
        node_views(flow.nodes@) == mvp_nodes(data_dir@),
        flow.graph.nodes@.len() == 0,
{
    let mut arena = arena_new();
    assert(arena_views(&arena) =~= Seq::<NodeView>::empty());
    let csvfilename = data_file(data_dir, "emp.csv");
    let csv = CSVNode::new(&mut arena, csvfilename, 4);
    let mut colids: Vec<ColId> = Vec::new();
    colids.push(2);
    assert(colids@ =~= seq![2usize]);
    let projected = project(&mut arena, csv, colids);
    let mut keycolids: Vec<ColId> = Vec::new();
    keycolids.push(0);
    let mut aggcolids: Vec<(AggType, ColId)> = Vec::new();
    aggcolids.push((AggType::COUNT, 0));
    assert(keycolids@ =~= seq![0usize]);
    assert(aggcolids@ =~= seq![(AggType::COUNT, 0usize)]);
    let _ = agg(&mut arena, projected, keycolids, aggcolids, 3);
    let ghost views = arena_views(&arena);
    let nodes = arena_into_vec(arena);
    assert(node_views(nodes@) == views);
    assert(views =~= mvp_nodes(data_dir@));
    NodeFlow { id: 98, nodes, graph: ExprGraph::new() }
}

/// The nodes of the flow that joins employees and departments.
pub open spec fn join_nodes(data_dir: Seq<char>) -> Seq<NodeView> {
    seq![
        NodeView {
            id: 0,
            children: Seq::empty(),
            inner: InnerView::CSV { filename: data_path(data_dir, "emp.csv"@), npartitions: 4 },
        },
        NodeView { id: 1, children: seq![0usize], inner: InnerView::Project { colids: seq![0usize, 1, 2] } },
        NodeView {
            id: 2,
            children: seq![1usize],
            inner: InnerView::Agg {
                keycolids: seq![0usize],
                aggcolids: seq![(AggType::COUNT, 1usize)],
                npartitions: 3,
            },
        },
        NodeView {
            id: 3,
            children: Seq::empty(),
            inner: InnerView::CSV { filename: data_path(data_dir, "dept.csv"@), npartitions: 4 },
        },
        NodeView {
            id: 4,
            children: seq![2usize, 3],
            inner: InnerView::Join { joincols: seq![(2usize, RelOp::Eq, 0usize)] },
        },
        NodeView {
            id: 5,
            children: seq![4usize],
            inner: InnerView::Agg {
                keycolids: seq![0usize],
                aggcolids: seq![(AggType::COUNT, 1usize)],
                npartitions: 3,
            },
        },
    ]
}

/// The join flow: the employees under `data_dir`, counted per name, joined
/// with the departments on the department id, and counted again.
pub fn make_join_flow(data_dir: &str) -> (flow: NodeFlow)
    ensures
        flow.id == 97,
        node_views(flow.nodes@) == join_nodes(data_dir@),
        flow.graph.nodes@.len() == 0,
{
    let mut arena = arena_new();
    assert(arena_views(&arena) =~= Seq::<NodeView>::empty());
    let empfilename = data_file(data_dir, "emp.csv");
    let deptfilename = data_file(data_dir, "dept.csv");
    let emp = CSVNode::new(&mut arena, empfilename, 4);
    let mut colids: Vec<ColId> = Vec::new();
    colids.push(0);
    colids.push(1);
    colids.push(2);
    assert(colids@ =~= seq![0usize, 1, 2]);
    let emp = project(&mut arena, emp, colids);
    let mut keycolids: Vec<ColId> = Vec::new();
    keycolids.push(0);
    let mut aggcolids: Vec<(AggType, ColId)> = Vec::new();
    aggcolids.push((AggType::COUNT, 1));
    assert(keycolids@ =~= seq![0usize]);
    assert(aggcolids@ =~= seq![(AggType::COUNT, 1usize)]);
    let emp = agg(&mut arena, emp, keycolids, aggcolids, 3);
    let dept = CSVNode::new(&mut arena, deptfilename, 4);
    let mut joincols: Vec<(ColId, RelOp, ColId)> = Vec::new();
    joincols.push((2, RelOp::Eq, 0));
    assert(joincols@ =~= seq![(2usize, RelOp::Eq, 0usize)]);
    let joined = join(&mut arena, emp, single(dept), joincols);
    assert(seq![emp] + seq![dept] =~= seq![2usize, 3]);
    let mut keycolids: Vec<ColId> = Vec::new();
    keycolids.push(0);
    let mut aggcolids: Vec<(AggType, ColId)> = Vec::new();
    aggcolids.push((AggType::COUNT, 1));
    assert(keycolids@ =~= seq![0usize]);
    assert(aggcolids@ =~= seq![(AggType::COUNT, 1usize)]);
    let _ = agg(&mut arena, joined, keycolids, aggcolids, 3);
    let ghost views = arena_views(&arena);
    let nodes = arena_into_vec(arena);
    assert(node_views(nodes@) == views);
    assert(views =~= join_nodes(data_dir@));
    NodeFlow { id: 97, nodes, graph: ExprGraph::new() }
}

} // verus!
