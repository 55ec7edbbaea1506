//! The query graph: query blocks, their quantifiers and expressions, and
//! the tables that the quantifiers scan.

use crate::expr::{ExprGraph, ExprKey};
use crate::graph::Graph;
use crate::includes::QunId;
use crate::metadata::{CSVDesc, TableType};
use vstd::prelude::*;

verus! {

/// Key of a query block.
#[derive(Debug, Clone, Copy, PartialEq, Eq, Structural, Hash)]
pub struct QueryBlockKey {
    pub id: usize,
}

/// An expression of a select list, with its alias.
#[derive(Debug, PartialEq, Eq)]
pub struct NamedExpr {
    pub alias: Option<String>,
    pub expr_key: ExprKey,
}

/// A quantifier: one input of a query block, either a base table or a nested
/// query block.
#[derive(Debug, PartialEq, Eq)]
pub struct Quantifier {
    pub id: QunId,
    pub tablename: Option<String>,
    pub qblock: Option<QueryBlockKey>,
}

/// One query block.
#[derive(Debug, PartialEq, Eq)]
pub struct QueryBlock {
    pub select_list: Vec<NamedExpr>,
    pub quns: Vec<Quantifier>,
    pub pred_list: Option<Vec<ExprKey>>,
    pub group_by: Option<Vec<ExprKey>>,
    pub having_clause: Option<Vec<ExprKey>>,
}

/// Properties of a query block: none so far.
#[derive(Debug, Clone, Copy, PartialEq, Eq, Structural)]
pub struct QueryBlockProps {}

pub type QueryBlockGraph = Graph<QueryBlock, QueryBlockProps>;

/// The table behind one query unit.
#[derive(Debug, PartialEq, Eq)]
pub struct QunTable {
    pub qunid: QunId,
    pub table_type: TableType,
    pub desc: CSVDesc,
}

/// The tables of a query, by query unit.
#[derive(Debug, PartialEq, Eq)]
pub struct QGMMetadata {
    pub tables: Vec<QunTable>,
}

/// Position of the first entry for `qunid`.
pub open spec fn qun_position(tables: Seq<QunTable>, qunid: QunId) -> Option<int>
    decreases tables.len(),
{
    if tables.len() == 0 {
        None
    } else if tables[0].qunid == qunid {
        Some(0)
    } else {
        match qun_position(tables.skip(1), qunid) {
            Some(i) => Some(i + 1),
            None => None,
        }
    }
}

/// The first entry for the query unit is the one that the search finds.
proof fn lemma_qun_position(tables: Seq<QunTable>, qunid: QunId, k: int)
    requires
        0 <= k <= tables.len(),
        forall|j: int| 0 <= j < k ==> tables[j].qunid != qunid,
        k < tables.len() ==> tables[k].qunid == qunid,
    ensures
        qun_position(tables, qunid) == if k < tables.len() {
            Some(k)
        } else {
            None
        },
    decreases tables.len(),
{
    if tables.len() > 0 && k > 0 {
        let rest = tables.skip(1);
        assert forall|j: int| 0 <= j < k - 1 implies rest[j].qunid != qunid by {
            assert(rest[j] == tables[j + 1]);
        }
        lemma_qun_position(rest, qunid, k - 1);
    }
}

impl QGMMetadata {
    /// No tables.
    pub fn new() -> (m: QGMMetadata)
        ensures
            m.tables@.len() == 0,
    {
        QGMMetadata { tables: Vec::new() }
    }

    /// The table of query unit `qunid`, where one is known.
    pub open spec fn table_of(&self, qunid: QunId) -> Option<QunTable> {
        match qun_position(self.tables@, qunid) {
            Some(i) => Some(self.tables@[i]),
            None => None,
        }
    }

    /// Records the table of a query unit. An earlier entry for the same
    /// query unit keeps precedence.
    pub fn add_tabledesc(&mut self, qunid: QunId, table_type: TableType, desc: CSVDesc)
        ensures
            final(self).tables@ == old(self).tables@.push(QunTable { qunid, table_type, desc }),
    {
        self.tables.push(QunTable { qunid, table_type, desc });
    }

    /// The table of query unit `qunid`.
    pub fn get_tabledesc(&self, qunid: QunId) -> (res: Option<&QunTable>)
        ensures
            match res {
                Some(t) => self.table_of(qunid) == Some(*t),
                None => self.table_of(qunid) is None,
            },
    {
        let mut i: usize = 0;
        while i < self.tables.len()
            invariant
                i <= self.tables@.len(),
                forall|j: int| 0 <= j < i ==> self.tables@[j].qunid != qunid,
            decreases self.tables@.len() - i,
        {
            if self.tables[i].qunid == qunid {
                proof {
                    lemma_qun_position(self.tables@, qunid, i as int);
                }
                return Some(&self.tables[i]);
            }
            i += 1;
        }
        proof {
            lemma_qun_position(self.tables@, qunid, i as int);
        }
        None
    }
}

/// A query: its blocks, its expressions and its tables.
pub struct QGM {
    pub main_qblock_key: QueryBlockKey,
    pub cte_list: Vec<QueryBlockKey>,
    pub qblock_graph: QueryBlockGraph,
    pub expr_graph: ExprGraph,
    pub metadata: QGMMetadata,
}

impl QGM {
    /// Both graphs are acyclic, and a query block nests only blocks that
    /// were added before it.
    pub open spec fn wf(&self) -> bool {
        &&& self.expr_graph.wf()
        &&& self.qblock_graph.wf()
        &&& forall|k: int, j: int|
            0 <= k < self.qblock_graph.nodes@.len() && 0 <= j < self.qblock_graph.nodes@[k].value.quns@.len() ==> (
            #[trigger] self.qblock_graph.nodes@[k].value.quns@[j].qblock matches Some(b) ==> b.id < k)
    }

    /// Whether the query graph is well formed.
    pub fn check(&self) -> (ok: bool)
        ensures
            ok == self.wf(),
    {
        if !self.expr_graph.check() || !self.qblock_graph.check() {
            return false;
        }
        let mut k: usize = 0;
        while k < self.qblock_graph.len()
            invariant
                k <= self.qblock_graph.nodes@.len(),
                forall|a: int, j: int|
                    0 <= a < k && 0 <= j < self.qblock_graph.nodes@[a].value.quns@.len() ==> (
                    #[trigger] self.qblock_graph.nodes@[a].value.quns@[j].qblock matches Some(b) ==> b.id < a),
            decreases self.qblock_graph.nodes@.len() - k,
        {
            let quns = &self.qblock_graph.get_value(k).quns;
            let mut j: usize = 0;
            while j < quns.len()
                invariant
                    k < self.qblock_graph.nodes@.len(),
                    *quns == self.qblock_graph.nodes@[k as int].value.quns,
                    j <= quns@.len(),
                    forall|i: int| 0 <= i < j ==> ((#[trigger] quns@[i]).qblock matches Some(b) ==> b.id < k),
                decreases quns@.len() - j,
            {
                if let Some(b) = quns[j].qblock {
                    if b.id >= k {
                        assert(!(self.qblock_graph.nodes@[k as int].value.quns@[j as int].qblock matches Some(b)
                            ==> b.id < k));
                        return false;
                    }
                }
                j += 1;
            }
            k += 1;
        }
        true
    }
}

} // verus!
