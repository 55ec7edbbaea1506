//! The stage graph: the parts of a physical plan that run between
//! repartition boundaries, and the shuffles that connect them.

use crate::includes::StageId;
use crate::lop::LOPKey;
use crate::pop::{POPGraph, POPKey};
use vstd::prelude::*;

verus! {

/// A shuffle: rows flow from the producer stage to the consumer stage.
#[derive(Debug, Clone, Copy, PartialEq, Eq, Structural, Hash)]
pub struct StageLink(pub StageId, pub StageId);

/// One stage.
#[derive(Debug, Clone, Copy, PartialEq, Eq, Structural)]
pub struct Stage {
    pub stage_id: StageId,
    /// The stage that consumes what this one produces; none for the root.
    pub parent_stage_id: Option<StageId>,
    /// The logical operator at which the stage was opened.
    pub root_lop_key: LOPKey,
    /// The physical operator that a task of this stage pulls from.
    pub root_pop_key: Option<POPKey>,
    /// Number of tasks of this stage: the partition count of its root.
    pub npartitions: usize,
    /// Number of physical operators assigned to the stage so far.
    pub pop_count: usize,
}

impl Stage {
    /// The shuffle through which this stage feeds its consumer.
    pub open spec fn link(&self) -> Option<StageLink> {
        match self.parent_stage_id {
            Some(p) => Some(StageLink(self.stage_id, p)),
            None => None,
        }
    }

    /// The shuffle through which this stage feeds its consumer; none for
    /// the root stage.
    pub fn stage_link(&self) -> (link: Option<StageLink>)
        ensures
            link == self.link(),
    {
        match self.parent_stage_id {
            Some(p) => Some(StageLink(self.stage_id, p)),
            None => None,
        }
    }
}

/// The stages of a plan. The root stage comes first and every other stage
/// after its consumer, so running the stages from the last to the first
/// runs every producer before its consumer.
#[derive(Debug)]
pub struct StageGraph {
    pub stages: Vec<Stage>,
}

impl StageGraph {
    /// Every stage sits at the position of its id, and its consumer has a
    /// smaller id.
    pub open spec fn wf(&self) -> bool {
        forall|s: int|
            0 <= s < self.stages@.len() ==> {
                &&& (#[trigger] self.stages@[s]).stage_id == s
                &&& self.stages@[s].parent_stage_id matches Some(p) ==> p < s
            }
    }

    /// The graph without stages.
    pub fn new() -> (g: StageGraph)
        ensures
            g.wf(),
            g.stages@.len() == 0,
    {
        StageGraph { stages: Vec::new() }
    }

    /// Number of stages.
    pub fn len(&self) -> (n: usize)
        ensures
            n == self.stages@.len(),
    {
        self.stages.len()
    }

    /// Opens a stage at logical operator `root_lop_key` that feeds
    /// `parent_stage_id`, and returns its id. The stage has no root operator
    /// and no operators yet.
    pub fn add_stage(&mut self, root_lop_key: LOPKey, parent_stage_id: Option<StageId>) -> (stage_id: StageId)
        requires
            old(self).wf(),
            parent_stage_id matches Some(p) ==> p < old(self).stages@.len(),
        ensures
            final(self).wf(),
            stage_id == old(self).stages@.len(),
            final(self).stages@ == old(self).stages@.push(
                Stage { stage_id, parent_stage_id, root_lop_key, root_pop_key: None, npartitions: 0, pop_count: 0 },
            ),
    {
        let stage_id = self.stages.len();
        self.stages.push(
            Stage { stage_id, parent_stage_id, root_lop_key, root_pop_key: None, npartitions: 0, pop_count: 0 },
        );
        stage_id
    }

    /// Makes operator `pop_key` of `pop_graph` the root of stage `stage_id`.
    /// The stage gets as many partitions as that operator has.
    pub fn set_pop_key(&mut self, pop_graph: &POPGraph, stage_id: StageId, pop_key: POPKey)
        requires
            old(self).wf(),
            stage_id < old(self).stages@.len(),
            pop_graph.has(pop_key.id),
        ensures
            final(self).wf(),
            final(self).stages@ == old(self).stages@.update(
                stage_id as int,
                Stage {
                    root_pop_key: Some(pop_key),
                    npartitions: pop_graph.props_of(pop_key.id).npartitions,
                    ..old(self).stages@[stage_id as int]
                },
            ),
    {
        let stage = self.stages[stage_id];
        let npartitions = pop_graph.get_properties(pop_key.id).npartitions;
        self.stages.set(stage_id, Stage { root_pop_key: Some(pop_key), npartitions, ..stage });
    }

    /// Counts one more operator in stage `stage_id` and returns the new
    /// count.
    pub fn increment_pop(&mut self, stage_id: StageId) -> (count: usize)
        requires
            old(self).wf(),
            stage_id < old(self).stages@.len(),
            old(self).stages@[stage_id as int].pop_count < usize::MAX,
        ensures
            final(self).wf(),
            count == old(self).stages@[stage_id as int].pop_count + 1,
            final(self).stages@ == old(self).stages@.update(
                stage_id as int,
                Stage { pop_count: count, ..old(self).stages@[stage_id as int] },
            ),
    {
        let stage = self.stages[stage_id];
        let n = stage.pop_count + 1;
        self.stages.set(stage_id, Stage { pop_count: n, ..stage });
        n
    }

    /// The stage with id `stage_id`.
    pub fn get_stage(&self, stage_id: StageId) -> (stage: &Stage)
        requires
            stage_id < self.stages@.len(),
        ensures
            *stage == self.stages@[stage_id as int],
    {
        &self.stages[stage_id]
    }

    /// The order in which the stages run: from the last one opened to the
    /// root, so that every producer runs before its consumer.
    pub fn execution_order(&self) -> (order: Vec<StageId>)
        ensures
            order@.len() == self.stages@.len(),
            forall|k: int| 0 <= k < order@.len() ==> #[trigger] order@[k] == self.stages@.len() - 1 - k,
    {
        let mut order: Vec<StageId> = Vec::new();
        let mut s = self.stages.len();
        while s > 0
            invariant
                s <= self.stages@.len(),
                order@.len() == self.stages@.len() - s,
                forall|k: int| 0 <= k < order@.len() ==> #[trigger] order@[k] == self.stages@.len() - 1 - k,
            decreases s,
        {
            s -= 1;
            order.push(s);
        }
        order
    }
}

} // verus!
