//! A flow: a physical plan and its stages, ready to run.

use crate::pop::POPGraph;
use crate::stage::StageGraph;
use vstd::prelude::*;

verus! {

/// A compiled query.
#[derive(Debug)]
pub struct Flow {
    /// Names the directories of the flow's spill files.
    pub id: usize,
    pub pop_graph: POPGraph,
    pub stage_graph: StageGraph,
}

impl Flow {
    /// Both graphs are well formed, and every stage has a root operator in
    /// the plan and as many partitions as that operator.
    pub open spec fn wf(&self) -> bool {
        &&& self.pop_graph.wf()
        &&& self.stage_graph.wf()
        &&& forall|s: int|
            0 <= s < self.stage_graph.stages@.len() ==> crate::pop_compile::stage_rooted(
                &self.pop_graph,
                &self.stage_graph,
                s,
            )
    }
}

} // verus!
