//! Walks over a query: its blocks, their expressions and the columns that
//! those refer to.

use crate::expr::{Expr, ExprGraph, ExprKey};
use crate::includes::{QunCol, QunId};
use crate::qgm::{QueryBlock, QueryBlockGraph, QueryBlockKey, QGM};
use vstd::prelude::*;

verus! {

/// The query blocks of a query in the order of a walk, handed out one by
/// one.
pub struct QueryBlockIter {
    pub keys: Vec<QueryBlockKey>,
    pub position: usize,
}

impl QueryBlockIter {
    /// The next query block, if there is one.
    pub fn next(&mut self) -> (key: Option<QueryBlockKey>)
        ensures
            final(self).keys == old(self).keys,
            match key {
                Some(k) => old(self).position < old(self).keys@.len() && k == old(self).keys@[old(self).position as int]
                    && final(self).position == old(self).position + 1,
                None => old(self).position >= old(self).keys@.len() && final(self).position == old(self).position,
            },
    {
        if self.position < self.keys.len() {
            let key = self.keys[self.position];
            self.position = self.position + 1;
            Some(key)
        } else {
            None
        }
    }
}

/// The blocks met on a walk from block `key`: the block itself, then the
/// walks from the blocks nested in it, the last one first.
pub open spec fn block_walk(graph: &QueryBlockGraph, key: usize) -> Seq<QueryBlockKey>
    decreases key, 1nat, 0nat,
{
    if !graph.has(key) {
        Seq::empty()
    } else {
        seq![QueryBlockKey { id: key }] + nested_walk(graph, key, graph.value_of(key).quns@.len())
    }
}

/// The walks from the blocks nested by the first `n` quantifiers of block
/// `key`, the last of them first.
pub open spec fn nested_walk(graph: &QueryBlockGraph, key: usize, n: nat) -> Seq<QueryBlockKey>
    decreases key, 0nat, n,
{
    if n == 0 || !graph.has(key) || n > graph.value_of(key).quns@.len() {
        Seq::empty()
    } else {
        (match graph.value_of(key).quns@[n - 1].qblock {
            Some(b) => if b.id < key {
                block_walk(graph, b.id)
            } else {
                Seq::empty()
            },
            None => Seq::empty(),
        }) + nested_walk(graph, key, (n - 1) as nat)
    }
}

/// The walks from the first `n` blocks of a list, the last of them first.
pub open spec fn list_walk(graph: &QueryBlockGraph, list: Seq<QueryBlockKey>, n: nat) -> Seq<QueryBlockKey>
    decreases n,
{
    if n == 0 || n > list.len() {
        Seq::empty()
    } else {
        block_walk(graph, list[n - 1].id) + list_walk(graph, list, (n - 1) as nat)
    }
}

/// The expressions of a query block: those of the select list, then the
/// predicates, the grouping expressions and the conditions on groups.
pub open spec fn block_exprs(qblock: &QueryBlock) -> Seq<ExprKey> {
    Seq::new(qblock.select_list@.len(), |i: int| qblock.select_list@[i].expr_key) + optional(qblock.pred_list) + optional(
        qblock.group_by,
    ) + optional(qblock.having_clause)
}

/// The expressions of an optional list.
pub open spec fn optional(list: Option<Vec<ExprKey>>) -> Seq<ExprKey> {
    match list {
        Some(l) => l@,
        None => Seq::empty(),
    }
}

/// The column that an expression node refers to, if it is a column
/// reference.
pub open spec fn column_of(expr: Expr) -> Option<QunCol> {
    match expr {
        Expr::Column { qun_id, col_id, .. } => Some(QunCol(qun_id, col_id)),
        Expr::CID(qun_id, col_id) => Some(QunCol(qun_id, col_id)),
        _ => None,
    }
}

/// The columns that the nodes of a list refer to, in the order of the
/// list.
pub open spec fn columns_of(graph: &ExprGraph, keys: Seq<usize>) -> Seq<QunCol>
    decreases keys.len(),
{
    if keys.len() == 0 {
        Seq::empty()
    } else {
        let before = columns_of(graph, keys.drop_last());
        if graph.has(keys.last()) {
            match column_of(graph.value_of(keys.last())) {
                Some(c) => before.push(c),
                None => before,
            }
        } else {
            before
        }
    }
}

/// The columns that the expressions of a list refer to: for each
/// expression in order, the columns met on the walk from it.
pub open spec fn columns_of_exprs(graph: &ExprGraph, exprs: Seq<ExprKey>) -> Seq<QunCol>
    decreases exprs.len(),
{
    if exprs.len() == 0 {
        Seq::empty()
    } else {
        columns_of_exprs(graph, exprs.drop_last()) + columns_of(graph, graph.walk(exprs.last().id))
    }
}

/// The query units of a list of columns.
pub open spec fn quns_of(cols: Seq<QunCol>) -> Seq<QunId> {
    Seq::new(cols.len(), |i: int| cols[i].0)
}

impl ExprKey {
    /// The columns that the expression refers to, in the order of the walk
    /// from its root.
    pub fn iter_quncols(&self, expr_graph: &ExprGraph) -> (cols: Vec<QunCol>)
        requires
            expr_graph.wf(),
        ensures
            cols@ == columns_of(expr_graph, expr_graph.walk(self.id)),
    {
        let keys = expr_graph.iter(self.id);
        let mut cols: Vec<QunCol> = Vec::new();
        let mut i: usize = 0;
        assert(keys@.take(0) =~= Seq::<usize>::empty());
        while i < keys.len()
            invariant
                i <= keys@.len(),
                cols@ == columns_of(expr_graph, keys@.take(i as int)),
            decreases keys@.len() - i,
        {
            proof {
                assert(keys@.take(i + 1).drop_last() =~= keys@.take(i as int));
                assert(keys@.take(i + 1).last() == keys@[i as int]);
            }
            if keys[i] < expr_graph.len() {
                match expr_graph.get_value(keys[i]) {
                    Expr::Column { qun_id, col_id, offset: _ } => cols.push(QunCol(*qun_id, *col_id)),
                    Expr::CID(qun_id, col_id) => cols.push(QunCol(*qun_id, *col_id)),
                    _ => {},
                }
            }
            i += 1;
        }
        assert(keys@.take(i as int) =~= keys@);
        cols
    }

    /// The query units that the expression refers to, one for each column
    /// reference.
    pub fn iter_quns(&self, expr_graph: &ExprGraph) -> (quns: Vec<QunId>)
        requires
            expr_graph.wf(),
        ensures
            quns@ == quns_of(columns_of(expr_graph, expr_graph.walk(self.id))),
    {
        let cols = self.iter_quncols(expr_graph);
        let mut quns: Vec<QunId> = Vec::new();
        let mut i: usize = 0;
        while i < cols.len()
            invariant
                i <= cols@.len(),
                quns@.len() == i,
                forall|k: int| 0 <= k < i ==> #[trigger] quns@[k] == cols@[k].0,
            decreases cols@.len() - i,
        {
            quns.push(cols[i].0);
            i += 1;
        }
        assert(quns@ =~= quns_of(cols@));
        quns
    }
}

impl QueryBlockKey {
    /// The expressions of the query block.
    pub fn iter_preds(&self, qblock_graph: &QueryBlockGraph) -> (exprs: Vec<ExprKey>)
        requires
            qblock_graph.has(self.id),
        ensures
            exprs@ == block_exprs(&qblock_graph.value_of(self.id)),
    {
        let qblock = qblock_graph.get_value(self.id);
        // Append select_list expressions
        let mut exprs: Vec<ExprKey> = Vec::new();
        let mut i: usize = 0;
        while i < qblock.select_list.len()
            invariant
                i <= qblock.select_list@.len(),
                exprs@.len() == i,
                forall|k: int| 0 <= k < i ==> #[trigger] exprs@[k] == qblock.select_list@[k].expr_key,
            decreases qblock.select_list@.len() - i,
        {
            exprs.push(qblock.select_list[i].expr_key);
            i += 1;
        }
        assert(exprs@ =~= Seq::new(qblock.select_list@.len(), |i: int| qblock.select_list@[i].expr_key));
        // Append pred_list, group_by and having_clause expressions
        Self::append(&mut exprs, &qblock.pred_list);
        Self::append(&mut exprs, &qblock.group_by);
        Self::append(&mut exprs, &qblock.having_clause);
        exprs
    }

    /// Appends the expressions of an optional list.
    fn append(exprs: &mut Vec<ExprKey>, list: &Option<Vec<ExprKey>>)
        ensures
            final(exprs)@ == old(exprs)@ + optional(*list),
    {
        if let Some(list) = list {
            let mut i: usize = 0;
            while i < list.len()
                invariant
                    i <= list@.len(),
                    exprs@ == old(exprs)@ + list@.take(i as int),
                decreases list@.len() - i,
            {
                exprs.push(list[i]);
                assert(exprs@ =~= old(exprs)@ + list@.take(i + 1));
                i += 1;
            }
            assert(list@.take(i as int) =~= list@);
        } else {
            assert(exprs@ =~= old(exprs)@ + Seq::<ExprKey>::empty());
        }
    }

    /// The columns that the expressions of the query block refer to.
    pub fn iter_quncols(&self, qblock_graph: &QueryBlockGraph, expr_graph: &ExprGraph) -> (cols: Vec<QunCol>)
        requires
            qblock_graph.has(self.id),
            expr_graph.wf(),
        ensures
            cols@ == columns_of_exprs(expr_graph, block_exprs(&qblock_graph.value_of(self.id))),
    {
        let exprs = self.iter_preds(qblock_graph);
        let mut cols: Vec<QunCol> = Vec::new();
        let mut i: usize = 0;
        assert(exprs@.take(0) =~= Seq::<ExprKey>::empty());
        while i < exprs.len()
            invariant
                i <= exprs@.len(),
                expr_graph.wf(),
                cols@ == columns_of_exprs(expr_graph, exprs@.take(i as int)),
            decreases exprs@.len() - i,
        {
            proof {
                assert(exprs@.take(i + 1).drop_last() =~= exprs@.take(i as int));
                assert(exprs@.take(i + 1).last() == exprs@[i as int]);
            }
            let mut more = exprs[i].iter_quncols(expr_graph);
            cols.append(&mut more);
            i += 1;
        }
        assert(exprs@.take(i as int) =~= exprs@);
        cols
    }
}

/// The expressions of the blocks of a list, block after block.
pub open spec fn exprs_of_blocks(graph: &QueryBlockGraph, blocks: Seq<QueryBlockKey>) -> Seq<ExprKey>
    decreases blocks.len(),
{
    if blocks.len() == 0 {
        Seq::empty()
    } else {
        exprs_of_blocks(graph, blocks.drop_last()) + if graph.has(blocks.last().id) {
            block_exprs(&graph.value_of(blocks.last().id))
        } else {
            Seq::empty()
        }
    }
}

/// The columns that the expressions of the blocks of a list refer to,
/// block after block.
pub open spec fn columns_of_blocks(qgm: &QGM, blocks: Seq<QueryBlockKey>) -> Seq<QunCol>
    decreases blocks.len(),
{
    if blocks.len() == 0 {
        Seq::empty()
    } else {
        columns_of_blocks(qgm, blocks.drop_last()) + if qgm.qblock_graph.has(blocks.last().id) {
            columns_of_exprs(&qgm.expr_graph, block_exprs(&qgm.qblock_graph.value_of(blocks.last().id)))
        } else {
            Seq::empty()
        }
    }
}

/// The main block followed by the common table expressions.
pub open spec fn roots(qgm: &QGM) -> Seq<QueryBlockKey> {
    seq![qgm.main_qblock_key] + qgm.cte_list@
}

impl QGM {
    /// Appends the blocks met on a walk from block `key`.
    fn visit_block(&self, key: usize, keys: &mut Vec<QueryBlockKey>)
        requires
            self.wf(),
        ensures
            final(keys)@ == old(keys)@ + block_walk(&self.qblock_graph, key),
        decreases key, 1nat, 0nat,
    {
        if key >= self.qblock_graph.len() {
            assert(keys@ =~= old(keys)@ + block_walk(&self.qblock_graph, key));
            return ;
        }
        keys.push(QueryBlockKey { id: key });
        let n = self.qblock_graph.get_value(key).quns.len();
        self.visit_nested(key, n, keys);
        assert(keys@ =~= old(keys)@ + block_walk(&self.qblock_graph, key));
    }

    /// Appends the blocks met on the walks from the blocks nested by the
    /// first `n` quantifiers of block `key`, the last of them first.
    fn visit_nested(&self, key: usize, n: usize, keys: &mut Vec<QueryBlockKey>)
        requires
            self.wf(),
            self.qblock_graph.has(key),
            n <= self.qblock_graph.value_of(key).quns@.len(),
        ensures
            final(keys)@ == old(keys)@ + nested_walk(&self.qblock_graph, key, n as nat),
        decreases key, 0nat, n,
    {
        if n == 0 {
            assert(keys@ =~= old(keys)@ + nested_walk(&self.qblock_graph, key, n as nat));
            return ;
        }
        let qun = &self.qblock_graph.get_value(key).quns[n - 1];
        if let Some(b) = qun.qblock {
            assert(self.qblock_graph.nodes@[key as int].value.quns@[n - 1].qblock matches Some(x) ==> x.id < key);
            self.visit_block(b.id, keys);
        }
        self.visit_nested(key, n - 1, keys);
        assert(keys@ =~= old(keys)@ + nested_walk(&self.qblock_graph, key, n as nat));
    }

    /// The query blocks of the query in the order of a walk that starts
    /// with the last common table expression and ends with the main block;
    /// after each block come the blocks nested in it, the last one first.
    pub fn iter_qblocks(&self) -> (iter: QueryBlockIter)
        requires
            self.wf(),
        ensures
            iter.position == 0,
            iter.keys@ == list_walk(&self.qblock_graph, roots(self), roots(self).len()),
    {
        let mut queue: Vec<QueryBlockKey> = Vec::new();
        queue.push(self.main_qblock_key);
        let mut i: usize = 0;
        while i < self.cte_list.len()
            invariant
                i <= self.cte_list@.len(),
                queue@ == seq![self.main_qblock_key] + self.cte_list@.take(i as int),
            decreases self.cte_list@.len() - i,
        {
            queue.push(self.cte_list[i]);
            assert(queue@ =~= seq![self.main_qblock_key] + self.cte_list@.take(i + 1));
            i += 1;
        }
        assert(queue@ =~= roots(self)) by {
            assert(self.cte_list@.take(i as int) =~= self.cte_list@);
        }
        let mut keys: Vec<QueryBlockKey> = Vec::new();
        let mut n = queue.len();
        let ghost all = list_walk(&self.qblock_graph, queue@, queue@.len());
        while n > 0
            invariant
                n <= queue@.len(),
                self.wf(),
                all == list_walk(&self.qblock_graph, queue@, queue@.len()),
                keys@ + list_walk(&self.qblock_graph, queue@, n as nat) == all,
            decreases n,
        {
            let ghost before = keys@;
            self.visit_block(queue[n - 1].id, &mut keys);
            assert(keys@ + list_walk(&self.qblock_graph, queue@, (n - 1) as nat) =~= before + list_walk(
                &self.qblock_graph,
                queue@,
                n as nat,
            ));
            n -= 1;
        }
        assert(keys@ =~= all);
        QueryBlockIter { keys, position: 0 }
    }

    /// The expressions of all query blocks, in the order of the walk over
    /// the blocks.
    pub fn iter_preds(&self) -> (exprs: Vec<ExprKey>)
        requires
            self.wf(),
        ensures
            exprs@ == exprs_of_blocks(
                &self.qblock_graph,
                list_walk(&self.qblock_graph, roots(self), roots(self).len()),
            ),
    {
        let blocks = self.iter_qblocks().keys;
        let mut exprs: Vec<ExprKey> = Vec::new();
        let mut i: usize = 0;
        assert(blocks@.take(0) =~= Seq::<QueryBlockKey>::empty());
        while i < blocks.len()
            invariant
                i <= blocks@.len(),
                exprs@ == exprs_of_blocks(&self.qblock_graph, blocks@.take(i as int)),
            decreases blocks@.len() - i,
        {
            proof {
                assert(blocks@.take(i + 1).drop_last() =~= blocks@.take(i as int));
                assert(blocks@.take(i + 1).last() == blocks@[i as int]);
            }
            if blocks[i].id < self.qblock_graph.len() {
                let mut more = blocks[i].iter_preds(&self.qblock_graph);
                exprs.append(&mut more);
            } else {
                assert(exprs@ + Seq::<ExprKey>::empty() =~= exprs@);
            }
            i += 1;
        }
        assert(blocks@.take(i as int) =~= blocks@);
        exprs
    }

    /// The columns that the expressions of all query blocks refer to, in
    /// the order of the walk over the blocks.
    pub fn iter_quncols(&self) -> (cols: Vec<QunCol>)
        requires
            self.wf(),
        ensures
            cols@ == columns_of_blocks(self, list_walk(&self.qblock_graph, roots(self), roots(self).len())),
    {
        let blocks = self.iter_qblocks().keys;
        let mut cols: Vec<QunCol> = Vec::new();
        let mut i: usize = 0;
        assert(blocks@.take(0) =~= Seq::<QueryBlockKey>::empty());
        while i < blocks.len()
            invariant
                i <= blocks@.len(),
                self.wf(),
                cols@ == columns_of_blocks(self, blocks@.take(i as int)),
            decreases blocks@.len() - i,
        {
            proof {
                assert(blocks@.take(i + 1).drop_last() =~= blocks@.take(i as int));
                assert(blocks@.take(i + 1).last() == blocks@[i as int]);
            }
            if blocks[i].id < self.qblock_graph.len() {
                let mut more = blocks[i].iter_quncols(&self.qblock_graph, &self.expr_graph);
                cols.append(&mut more);
            } else {
                assert(cols@ + Seq::<QunCol>::empty() =~= cols@);
            }
            i += 1;
        }
        assert(blocks@.take(i as int) =~= blocks@);
        cols
    }
}

} // verus!
