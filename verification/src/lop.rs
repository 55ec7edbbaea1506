//! Logical operators.

use crate::bitset::Bitset;
use crate::expr::{AggType, ExprKey};
use crate::graph::Graph;
use crate::includes::{QunCol, QunId};
use vstd::prelude::*;

verus! {

/// How the rows of an operator's output are spread over its partitions.
#[derive(Debug)]
pub enum PartType {
    /// No promise.
    ANY,
    /// Rows with equal values of the key expressions share a partition.
    HASHEXPR(Vec<ExprKey>),
    /// As they were read.
    RAW,
}

/// Partition count and kind of an operator's output.
#[derive(Debug)]
pub struct PartDesc {
    pub npartitions: usize,
    pub part_type: PartType,
}

/// A computed column: the expression that computes it.
pub type VirtCol = ExprKey;

/// A logical operator. Its inputs are its children in the graph.
#[derive(Debug)]
pub enum LOP {
    /// Reads the listed columns of a base table.
    TableScan { input_projection: Bitset<QunCol> },
    /// Joins its two children on equal keys: pairs of a left and a right
    /// expression.
    HashJoin { keys: Vec<(ExprKey, ExprKey)> },
    /// Redistributes the rows of its child.
    Repartition { part_type: PartType },
    /// Groups the rows of its child and computes aggregates per group.
    Aggregation { group_by: Vec<ExprKey>, aggs: Vec<(AggType, ExprKey)> },
}

/// Properties of a logical operator.
#[derive(Debug)]
pub struct LOPProps {
    /// The query units that the operator covers.
    pub quns: Bitset<QunId>,
    /// The table columns that it produces.
    pub cols: Bitset<QunCol>,
    /// The computed columns that it produces after those.
    pub virtcols: Option<Vec<VirtCol>>,
    /// The predicates that it applies.
    pub preds: Bitset<ExprKey>,
    /// How its output is partitioned.
    pub partdesc: PartDesc,
}

pub type LOPGraph = Graph<LOP, LOPProps>;

/// Key of a node in a logical plan.
#[derive(Debug, Clone, Copy, PartialEq, Eq, Structural, Hash)]
pub struct LOPKey {
    pub id: usize,
}

impl LOPProps {
    /// The computed columns, none when there is no list.
    pub open spec fn virtcol_keys(&self) -> Seq<VirtCol> {
        match self.virtcols {
            Some(v) => v@,
            None => Seq::empty(),
        }
    }

    /// The computed columns, where there is a list.
    pub open spec fn virtcol_list(&self) -> Option<Seq<VirtCol>> {
        match self.virtcols {
            Some(v) => Some(v@),
            None => None,
        }
    }

    /// Number of columns that the operator produces.
    pub open spec fn width(&self) -> nat {
        self.cols@.len() + self.virtcol_keys().len()
    }

    /// Sets are free of repetitions.
    pub open spec fn wf(&self) -> bool {
        &&& self.quns.wf()
        &&& self.cols.wf()
        &&& self.preds.wf()
    }
}

} // verus!
