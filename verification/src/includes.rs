//! Identifiers shared by every module.

use vstd::prelude::*;

verus! {

/// Identifies a node of a flow.
pub type FlowNodeId = usize;

/// Position of a column, in a table or in a chunk.
pub type ColId = usize;

/// Index of one shard of a stage's parallel work.
pub type PartitionId = usize;

/// Identifies a query unit: one scan of a base table inside a query.
pub type QunId = usize;

/// Identifies a stage of a physical plan.
pub type StageId = usize;

/// A byte range `[start, end)` of a text file that one partition reads.
#[derive(Debug, Clone, Copy, PartialEq, Eq, Structural)]
pub struct TextFilePartition(pub u64, pub u64);

/// A column of a base table as seen by one query unit.
#[derive(Debug, Clone, Copy, PartialEq, Eq, Structural, Hash)]
pub struct QunCol(pub QunId, pub ColId);

} // verus!
