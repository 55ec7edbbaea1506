//! Physical operators and the projection map that resolves column
//! references to positions in a chunk.

use crate::expr::ExprKey;
use crate::graph::{Graph, Node};
use crate::includes::{ColId, QunCol};
use crate::pcode::{codes_of, PCode, PInstruction};
use crate::pop_aggregation::{Aggregation, AggregationView};
use crate::pop_csv::{CSVDir, ScanView, CSV};
use crate::pop_hashjoin::{HashJoin, HashJoinView};
use crate::pop_repartition::{RepartitionRead, RepartitionReadView, RepartitionWrite, RepartitionWriteView};
use vstd::prelude::*;

verus! {

/// Key of a node in a physical plan.
#[derive(Debug, Clone, Copy, PartialEq, Eq, Structural, Hash)]
pub struct POPKey {
    pub id: usize,
}

/// What a column of a chunk stands for: a column of a base table, or the
/// value of an expression computed by the operator.
#[derive(Debug, Clone, Copy, PartialEq, Eq, Structural, Hash)]
pub enum Projection {
    QunCol(QunCol),
    VirtCol(ExprKey),
}

/// From projections to positions in the chunk that an operator reads.
#[derive(Debug)]
pub struct ProjectionMap {
    /// Every assignment made, oldest first. A later one overrides an earlier
    /// one for the same projection.
    pub entries: Vec<(Projection, ColId)>,
}

/// The map that a list of assignments amounts to.
pub open spec fn map_of(entries: Seq<(Projection, ColId)>) -> Map<Projection, ColId>
    decreases entries.len(),
{
    if entries.len() == 0 {
        Map::empty()
    } else {
        map_of(entries.drop_last()).insert(entries.last().0, entries.last().1)
    }
}

/// The assignment that no later one overrides is the one that the map holds.
pub proof fn lemma_map_of_last(entries: Seq<(Projection, ColId)>, k: int)
    requires
        0 <= k < entries.len(),
        forall|j: int| k < j < entries.len() ==> entries[j].0 != entries[k].0,
    ensures
        map_of(entries).contains_key(entries[k].0),
        map_of(entries)[entries[k].0] == entries[k].1,
    decreases entries.len(),
{
    if k < entries.len() - 1 {
        lemma_map_of_last(entries.drop_last(), k);
    }
}

/// A projection that was never assigned is not in the map.
pub proof fn lemma_map_of_absent(entries: Seq<(Projection, ColId)>, prj: Projection)
    requires
        forall|j: int| 0 <= j < entries.len() ==> entries[j].0 != prj,
    ensures
        !map_of(entries).contains_key(prj),
    decreases entries.len(),
{
    if entries.len() > 0 {
        lemma_map_of_absent(entries.drop_last(), prj);
    }
}

impl View for ProjectionMap {
    type V = Map<Projection, ColId>;

    open spec fn view(&self) -> Map<Projection, ColId> {
        map_of(self.entries@)
    }
}

impl ProjectionMap {
    /// The empty map.
    pub fn new() -> (m: ProjectionMap)
        ensures
            m@ == Map::<Projection, ColId>::empty(),
    {
        ProjectionMap { entries: Vec::new() }
    }

    /// Assigns position `colid` to `prj`, in place of any earlier assignment.
    pub fn set(&mut self, prj: Projection, colid: ColId)
        ensures
            final(self)@ == old(self)@.insert(prj, colid),
    {
        self.entries.push((prj, colid));
        assert(self.entries@.drop_last() =~= old(self).entries@);
    }

    /// The position assigned to `prj`, if any.
    pub fn get(&self, prj: Projection) -> (res: Option<ColId>)
        ensures
            res == if self@.contains_key(prj) {
                Some(self@[prj])
            } else {
                None
            },
    {
        let mut i = self.entries.len();
        while i > 0
            invariant
                i <= self.entries@.len(),
                forall|j: int| i <= j < self.entries@.len() ==> self.entries@[j].0 != prj,
            decreases i,
        {
            i -= 1;
            if self.entries[i].0 == prj {
                proof {
                    lemma_map_of_last(self.entries@, i as int);
                }
                return Some(self.entries[i].1);
            }
        }
        proof {
            lemma_map_of_absent(self.entries@, prj);
        }
        None
    }
}

/// What every physical operator does to the rows it produces, and where it
/// runs.
#[derive(Debug, PartialEq, Eq)]
pub struct POPProps {
    /// Programs of the predicates: a row is kept when all are true of it.
    pub predicates: Option<Vec<PCode>>,
    /// The columns handed on, as positions in the operator's own rows.
    pub cols: Option<Vec<ColId>>,
    /// Programs of the computed columns, appended to the rows.
    pub virtcols: Option<Vec<PCode>>,
    /// Number of partitions that the operator runs in.
    pub npartitions: usize,
    /// Position of the operator in the execution order of its stage.
    pub index_in_stage: usize,
}

impl POPProps {
    /// Properties of an operator that is not yet placed in a stage.
    pub fn new(
        predicates: Option<Vec<PCode>>,
        cols: Option<Vec<ColId>>,
        virtcols: Option<Vec<PCode>>,
        npartitions: usize,
    ) -> (props: POPProps)
        ensures
            props.predicates == predicates,
            props.cols == cols,
            props.virtcols == virtcols,
            props.npartitions == npartitions,
            props.index_in_stage == 0,
    {
        POPProps { predicates, cols, virtcols, npartitions, index_in_stage: 0 }
    }
}

/// A physical operator. Its inputs are its children in the graph.
#[derive(Debug, PartialEq, Eq)]
pub enum POP {
    CSV(CSV),
    CSVDir(CSVDir),
    HashJoin(HashJoin),
    RepartitionWrite(RepartitionWrite),
    RepartitionRead(RepartitionRead),
    Aggregation(Aggregation),
}

pub type POPGraph = Graph<POP, POPProps>;

/// The mathematical value of the properties of a physical operator.
pub struct POPPropsView {
    pub predicates: Option<Seq<Seq<PInstruction>>>,
    pub cols: Option<Seq<ColId>>,
    pub virtcols: Option<Seq<Seq<PInstruction>>>,
    pub npartitions: usize,
    pub index_in_stage: usize,
}

impl View for POPProps {
    type V = POPPropsView;

    open spec fn view(&self) -> POPPropsView {
        POPPropsView {
            predicates: codes_of(self.predicates),
            cols: match self.cols {
                Some(c) => Some(c@),
                None => None,
            },
            virtcols: codes_of(self.virtcols),
            npartitions: self.npartitions,
            index_in_stage: self.index_in_stage,
        }
    }
}

/// The mathematical value of a physical operator.
pub enum POPView {
    CSV(ScanView),
    CSVDir(ScanView),
    HashJoin(HashJoinView),
    RepartitionWrite(RepartitionWriteView),
    RepartitionRead(RepartitionReadView),
    Aggregation(AggregationView),
}

impl View for POP {
    type V = POPView;

    open spec fn view(&self) -> POPView {
        match self {
            POP::CSV(x) => POPView::CSV(x@),
            POP::CSVDir(x) => POPView::CSVDir(x@),
            POP::HashJoin(x) => POPView::HashJoin(x@),
            POP::RepartitionWrite(x) => POPView::RepartitionWrite(x@),
            POP::RepartitionRead(x) => POPView::RepartitionRead(x@),
            POP::Aggregation(x) => POPView::Aggregation(x@),
        }
    }
}

/// The mathematical value of a node of a physical plan.
pub struct PopNodeView {
    pub value: POPView,
    pub props: POPPropsView,
    pub children: Option<Seq<usize>>,
}

/// The mathematical value of the nodes of a physical plan.
pub open spec fn pop_views(nodes: Seq<Node<POP, POPProps>>) -> Seq<PopNodeView> {
    Seq::new(
        nodes.len(),
        |k: int|
            PopNodeView {
                value: nodes[k].value@,
                props: nodes[k].properties@,
                children: match nodes[k].children {
                    Some(c) => Some(c@),
                    None => None,
                },
            },
    )
}

/// Places operator `key` at position `index` of its stage. Nothing else
/// changes.
pub fn set_index_in_stage(pop_graph: &mut POPGraph, key: POPKey, index: usize)
    requires
        old(pop_graph).has(key.id),
    ensures
        final(pop_graph).wf() == old(pop_graph).wf(),
        final(pop_graph).nodes@.len() == old(pop_graph).nodes@.len(),
        forall|k: int| 0 <= k < old(pop_graph).nodes@.len() && k != key.id ==> final(pop_graph).nodes@[k] == old(pop_graph).nodes@[k],
        final(pop_graph).value_of(key.id) == old(pop_graph).value_of(key.id),
        final(pop_graph).nodes@[key.id as int].children == old(pop_graph).nodes@[key.id as int].children,
        final(pop_graph).props_of(key.id) == (POPProps { index_in_stage: index, ..old(pop_graph).props_of(key.id) }),
{
    pop_graph.nodes[key.id].properties.index_in_stage = index;
    proof {
        assert forall|k: int| 0 <= k < pop_graph.nodes@.len() implies pop_graph.nodes@[k].child_keys() == old(pop_graph).nodes@[k].child_keys() by {}
    }
}

} // verus!
