//! Lowering of a logical plan into a physical plan cut into stages.

use crate::bitset::{distinct, Bitset};
use crate::chunk::{field_views, Field, Schema};
use crate::expr::{AggType, ExprGraph, ExprKey};
use crate::expr_compile::{spec_compile, CompileFault};
use crate::flow::Flow;
use crate::includes::{ColId, QunCol, StageId};
use crate::lop::{LOPGraph, LOPKey, LOPProps, PartType, VirtCol, LOP};
use crate::metadata::{ColDesc, TableType};
use crate::pcode::{code_views, codes_of, PCode, PInstruction};
use crate::pop::{
    lemma_map_of_absent, lemma_map_of_last, map_of, pop_views, set_index_in_stage, POPGraph, POPKey, POPProps,
    POPPropsView, POPView, PopNodeView, Projection, ProjectionMap, POP,
};
use crate::pop_aggregation::{Aggregation, AggregationView};
use crate::pop_csv::{CSVDir, ScanView, CSV};
use crate::pop_hashjoin::{HashJoin, HashJoinView};
use crate::pop_repartition::{RepartitionRead, RepartitionReadView, RepartitionWrite, RepartitionWriteView};
use crate::stage::{Stage, StageGraph, StageLink};
use crate::text::{decimal, usize_to_string};
use crate::qgm::QGM;
use crate::row::DataType;
use vstd::prelude::*;

verus! {

/// The assignments of the projection map of an operator whose input has the
/// table columns `cols` followed by the computed columns `virtcols`: each
/// column gets its position in that order.
pub open spec fn projection_entries(cols: Seq<QunCol>, virtcols: Seq<VirtCol>) -> Seq<(Projection, ColId)> {
    Seq::new(
        cols.len() + virtcols.len(),
        |k: int|
            if k < cols.len() {
                (Projection::QunCol(cols[k]), k as usize)
            } else {
                (Projection::VirtCol(virtcols[k - cols.len()]), k as usize)
            },
    )
}

/// The projection map for table columns `cols` and computed columns
/// `virtcols`.
pub open spec fn spec_projection_map(cols: Seq<QunCol>, virtcols: Seq<VirtCol>) -> Map<Projection, ColId> {
    map_of(projection_entries(cols, virtcols))
}

/// The computed columns of an optional list.
pub open spec fn virtcol_seq(virtcols: Option<&Vec<VirtCol>>) -> Seq<VirtCol> {
    match virtcols {
        Some(v) => v@,
        None => Seq::empty(),
    }
}

/// Position `k` is assigned to some projection.
pub open spec fn assigned(m: Map<Projection, ColId>, k: int) -> bool {
    exists|p: Projection| m.contains_key(p) && #[trigger] m[p] == k
}

/// A map built from assignments to distinct projections has one entry per
/// assignment.
proof fn lemma_map_of_distinct(entries: Seq<(Projection, ColId)>)
    requires
        forall|i: int, j: int| 0 <= i < j < entries.len() ==> entries[i].0 != entries[j].0,
    ensures
        map_of(entries).dom().finite(),
        map_of(entries).dom().len() == entries.len(),
        forall|k: int|
            0 <= k < entries.len() ==> map_of(entries).contains_key(#[trigger] entries[k].0) && map_of(entries)[entries[k].0]
                == entries[k].1,
        forall|p: Projection|
            map_of(entries).contains_key(p) ==> exists|k: int| 0 <= k < entries.len() && #[trigger] entries[k].0 == p,
    decreases entries.len(),
{
    if entries.len() > 0 {
        let front = entries.drop_last();
        lemma_map_of_distinct(front);
        lemma_map_of_absent(front, entries.last().0);
        assert forall|k: int| 0 <= k < entries.len() implies map_of(entries).contains_key(#[trigger] entries[k].0)
            && map_of(entries)[entries[k].0] == entries[k].1 by {
            lemma_map_of_last(entries, k);
        }
        assert forall|p: Projection| map_of(entries).contains_key(p) implies exists|k: int|
            0 <= k < entries.len() && #[trigger] entries[k].0 == p by {
            if p == entries.last().0 {
                assert(entries[entries.len() - 1].0 == p);
            } else {
                let k = choose|k: int| 0 <= k < front.len() && #[trigger] front[k].0 == p;
                assert(entries[k].0 == p);
            }
        }
    }
}

/// Bijectivity of the projection map: for table columns and computed
/// columns without repetitions the map holds one entry per column; the table
/// columns get the positions from zero up in their order and the computed
/// columns the positions after them, so that the positions are distinct and
/// cover everything below the number of columns.
pub proof fn lemma_projection_map_bijective(cols: Seq<QunCol>, virtcols: Seq<VirtCol>)
    requires
        distinct(cols),
        distinct(virtcols),
        cols.len() + virtcols.len() <= usize::MAX,
    ensures
        ({
            let m = spec_projection_map(cols, virtcols);
            let n = cols.len() + virtcols.len();
            &&& m.dom().finite()
            &&& m.dom().len() == n
            &&& forall|i: int|
                0 <= i < cols.len() ==> m.contains_key(Projection::QunCol(#[trigger] cols[i])) && m[Projection::QunCol(
                    cols[i],
                )] == i
            &&& forall|j: int|
                0 <= j < virtcols.len() ==> m.contains_key(Projection::VirtCol(#[trigger] virtcols[j]))
                    && m[Projection::VirtCol(virtcols[j])] == cols.len() + j
            &&& forall|p: Projection| m.contains_key(p) ==> 0 <= #[trigger] m[p] < n
            &&& forall|p: Projection, q: Projection|
                m.contains_key(p) && m.contains_key(q) && p != q ==> #[trigger] m[p] != #[trigger] m[q]
            &&& forall|k: int| 0 <= k < n ==> #[trigger] assigned(m, k)
        }),
{
    let entries = projection_entries(cols, virtcols);
    let m = spec_projection_map(cols, virtcols);
    let n = cols.len() + virtcols.len();
    lemma_map_of_distinct(entries);
    assert forall|i: int| 0 <= i < cols.len() implies m.contains_key(Projection::QunCol(#[trigger] cols[i]))
        && m[Projection::QunCol(cols[i])] == i by {
        assert(entries[i].0 == Projection::QunCol(cols[i]));
    }
    assert forall|j: int| 0 <= j < virtcols.len() implies m.contains_key(Projection::VirtCol(#[trigger] virtcols[j]))
        && m[Projection::VirtCol(virtcols[j])] == cols.len() + j by {
        assert(entries[cols.len() + j].0 == Projection::VirtCol(virtcols[j]));
    }
    assert forall|p: Projection| m.contains_key(p) implies 0 <= #[trigger] m[p] < n by {
        let k = choose|k: int| 0 <= k < entries.len() && #[trigger] entries[k].0 == p;
    }
    assert forall|p: Projection, q: Projection| m.contains_key(p) && m.contains_key(q) && p != q implies #[trigger] m[p]
        != #[trigger] m[q] by {
        let k = choose|k: int| 0 <= k < entries.len() && #[trigger] entries[k].0 == p;
        let l = choose|l: int| 0 <= l < entries.len() && #[trigger] entries[l].0 == q;
    }
    assert forall|k: int| 0 <= k < n implies #[trigger] assigned(m, k) by {
        let p = entries[k].0;
        assert(m.contains_key(p) && m[p] == k);
    }
}

/// The programs of a list of expressions, or the fault of the first
/// expression that has one.
pub open spec fn compile_all(graph: &ExprGraph, exprs: Seq<ExprKey>, proj: Map<Projection, ColId>) -> Result<
    Seq<Seq<PInstruction>>,
    CompileFault,
>
    decreases exprs.len(),
{
    if exprs.len() == 0 {
        Ok(Seq::empty())
    } else {
        match compile_all(graph, exprs.drop_last(), proj) {
            Err(f) => Err(f),
            Ok(codes) => match spec_compile(graph, exprs.last().id, proj) {
                Ok((code, _)) => Ok(codes.push(code)),
                Err(f) => Err(f),
            },
        }
    }
}

/// The positions of the columns `cols` under `proj`, or `Unresolved` when
/// one of them has none.
pub open spec fn resolve_all(cols: Seq<QunCol>, proj: Map<Projection, ColId>) -> Result<Seq<ColId>, CompileFault>
    decreases cols.len(),
{
    if cols.len() == 0 {
        Ok(Seq::empty())
    } else {
        match resolve_all(cols.drop_last(), proj) {
            Err(f) => Err(f),
            Ok(ixs) => if proj.contains_key(Projection::QunCol(cols.last())) {
                Ok(ixs.push(proj[Projection::QunCol(cols.last())]))
            } else {
                Err(CompileFault::Unresolved)
            },
        }
    }
}

/// The programs of an optional list of expressions: none for an empty list.
pub open spec fn compiled_list(graph: &ExprGraph, exprs: Seq<ExprKey>, proj: Map<Projection, ColId>) -> Result<
    Option<Seq<Seq<PInstruction>>>,
    CompileFault,
> {
    match compile_all(graph, exprs, proj) {
        Err(f) => Err(f),
        Ok(codes) => Ok(
            if exprs.len() == 0 {
                None
            } else {
                Some(codes)
            },
        ),
    }
}

/// The computed columns of an optional list, where there is a list.
pub open spec fn virtcol_opt(virtcols: Option<&Vec<VirtCol>>) -> Option<Seq<VirtCol>> {
    match virtcols {
        Some(v) => Some(v@),
        None => None,
    }
}

/// The programs of the computed columns: none where there is no list.
pub open spec fn compiled_virtcols(graph: &ExprGraph, virtcols: Option<Seq<VirtCol>>, proj: Map<Projection, ColId>) -> Result<
    Option<Seq<Seq<PInstruction>>>,
    CompileFault,
> {
    match virtcols {
        None => Ok(None),
        Some(v) => match compile_all(graph, v, proj) {
            Err(f) => Err(f),
            Ok(codes) => Ok(Some(codes)),
        },
    }
}

/// The positions of the columns handed on: none for an empty list.
pub open spec fn resolved_cols(cols: Seq<QunCol>, proj: Map<Projection, ColId>) -> Result<Option<Seq<ColId>>, CompileFault> {
    match resolve_all(cols, proj) {
        Err(f) => Err(f),
        Ok(ixs) => Ok(
            if cols.len() == 0 {
                None
            } else {
                Some(ixs)
            },
        ),
    }
}

/// The positions of an optional list.
pub open spec fn ids_of(v: Option<Vec<ColId>>) -> Option<Seq<ColId>> {
    match v {
        Some(c) => Some(c@),
        None => None,
    }
}

impl POP {
    /// The projection map of an operator whose input has the table columns
    /// `cols` followed by the computed columns `virtcols`.
    pub fn compute_projection_map(cols: &Bitset<QunCol>, virtcols: Option<&Vec<VirtCol>>) -> (proj_map: ProjectionMap)
        requires
            cols@.len() + virtcol_seq(virtcols).len() <= usize::MAX,
        ensures
            proj_map.entries@ == projection_entries(cols@, virtcol_seq(virtcols)),
            proj_map@ == spec_projection_map(cols@, virtcol_seq(virtcols)),
    {
        let ghost want = projection_entries(cols@, virtcol_seq(virtcols));
        let mut entries: Vec<(Projection, ColId)> = Vec::new();
        let elements = cols.elements();
        let mut ix: usize = 0;
        while ix < elements.len()
            invariant
                ix <= elements@.len(),
                elements@ == cols@,
                want == projection_entries(cols@, virtcol_seq(virtcols)),
                entries@ == want.take(ix as int),
            decreases elements@.len() - ix,
        {
            entries.push((Projection::QunCol(elements[ix]), ix));
            assert(entries@ =~= want.take(ix + 1));
            ix += 1;
        }
        if let Some(virtcols) = virtcols {
            let nrealcols = cols.len();
            let mut ix: usize = 0;
            while ix < virtcols.len()
                invariant
                    ix <= virtcols@.len(),
                    nrealcols == cols@.len(),
                    nrealcols + virtcols@.len() <= usize::MAX,
                    want == projection_entries(cols@, virtcols@),
                    entries@ == want.take(nrealcols + ix),
                decreases virtcols@.len() - ix,
            {
                entries.push((Projection::VirtCol(virtcols[ix]), nrealcols + ix));
                assert(entries@ =~= want.take(nrealcols + ix + 1));
                ix += 1;
            }
        }
        assert(entries@ =~= want);
        ProjectionMap { entries }
    }

    /// Compiles every expression of `exprs` against `proj_map`. Gives no
    /// list for no expressions, and the fault of the first expression that
    /// does not compile.
    pub fn compile_exprs(qgm: &QGM, exprs: &Vec<ExprKey>, proj_map: &ProjectionMap) -> (res: Result<
        Option<Vec<PCode>>,
        String,
    >)
        requires
            qgm.expr_graph.wf(),
        ensures
            match res {
                Ok(v) => compiled_list(&qgm.expr_graph, exprs@, proj_map@) == Ok::<
                    Option<Seq<Seq<PInstruction>>>,
                    CompileFault,
                >(codes_of(v)),
                Err(e) => compiled_list(&qgm.expr_graph, exprs@, proj_map@) matches Err(f) && e@ == f.text(),
            },
    {
        let codes = Self::compile_each(qgm, exprs, proj_map)?;
        if exprs.len() > 0 {
            Ok(Some(codes))
        } else {
            Ok(None)
        }
    }

    /// Compiles every expression of `exprs` against `proj_map`.
    fn compile_each(qgm: &QGM, exprs: &Vec<ExprKey>, proj_map: &ProjectionMap) -> (res: Result<Vec<PCode>, String>)
        requires
            qgm.expr_graph.wf(),
        ensures
            match res {
                Ok(v) => compile_all(&qgm.expr_graph, exprs@, proj_map@) == Ok::<Seq<Seq<PInstruction>>, CompileFault>(
                    code_views(v@),
                ),
                Err(e) => compile_all(&qgm.expr_graph, exprs@, proj_map@) matches Err(f) && e@ == f.text(),
            },
    {
        let mut pcodevec: Vec<PCode> = Vec::new();
        let mut i: usize = 0;
        proof {
            assert(exprs@.take(0) =~= Seq::<ExprKey>::empty());
            assert(code_views(pcodevec@) =~= Seq::<Seq<PInstruction>>::empty());
        }
        while i < exprs.len()
            invariant
                qgm.expr_graph.wf(),
                i <= exprs@.len(),
                compile_all(&qgm.expr_graph, exprs@.take(i as int), proj_map@) == Ok::<
                    Seq<Seq<PInstruction>>,
                    CompileFault,
                >(code_views(pcodevec@)),
            decreases exprs@.len() - i,
        {
            proof {
                assert(exprs@.take(i + 1).drop_last() =~= exprs@.take(i as int));
                assert(exprs@.take(i + 1).last() == exprs@[i as int]);
            }
            let mut pcode = PCode::new();
            match exprs[i].compile(&qgm.expr_graph, &mut pcode, proj_map) {
                Ok(_) => {},
                Err(e) => {
                    proof {
                        lemma_compile_all_fails(&qgm.expr_graph, exprs@, proj_map@, i + 1);
                    }
                    return Err(e);
                },
            }
            let ghost before = pcodevec@;
            pcodevec.push(pcode);
            proof {
                let code = spec_compile(&qgm.expr_graph, exprs@[i as int].id, proj_map@).unwrap().0;
                assert(pcode@ =~= code);
                assert(code_views(pcodevec@) =~= code_views(before).push(code));
            }
            i += 1;
        }
        proof {
            assert(exprs@.take(i as int) =~= exprs@);
        }
        Ok(pcodevec)
    }

    /// Compiles the predicates of an operator.
    pub fn compile_predicates(qgm: &QGM, preds: &Bitset<ExprKey>, proj_map: &ProjectionMap) -> (res: Result<
        Option<Vec<PCode>>,
        String,
    >)
        requires
            qgm.expr_graph.wf(),
        ensures
            match res {
                Ok(v) => compiled_list(&qgm.expr_graph, preds@, proj_map@) == Ok::<
                    Option<Seq<Seq<PInstruction>>>,
                    CompileFault,
                >(codes_of(v)),
                Err(e) => compiled_list(&qgm.expr_graph, preds@, proj_map@) matches Err(f) && e@ == f.text(),
            },
    {
        Self::compile_exprs(qgm, preds.elements(), proj_map)
    }

    /// Compiles the computed columns of an operator: a list, possibly
    /// empty, where the operator has a list, and none where it has none.
    pub fn compile_virtcols(qgm: &QGM, virtcols: Option<&Vec<VirtCol>>, proj_map: &ProjectionMap) -> (res: Result<
        Option<Vec<PCode>>,
        String,
    >)
        requires
            qgm.expr_graph.wf(),
        ensures
            match res {
                Ok(v) => compiled_virtcols(&qgm.expr_graph, virtcol_opt(virtcols), proj_map@) == Ok::<
                    Option<Seq<Seq<PInstruction>>>,
                    CompileFault,
                >(codes_of(v)),
                Err(e) => compiled_virtcols(&qgm.expr_graph, virtcol_opt(virtcols), proj_map@) matches Err(f) && e@
                    == f.text(),
            },
    {
        match virtcols {
            Some(virtcols) => {
                let codes = Self::compile_each(qgm, virtcols, proj_map)?;
                Ok(Some(codes))
            },
            None => Ok(None),
        }
    }

    /// Resolves the table columns `cols` to positions under `proj_map`.
    fn resolve_cols(cols: &Bitset<QunCol>, proj_map: &ProjectionMap) -> (res: Result<Option<Vec<ColId>>, String>)
        ensures
            match res {
                Ok(v) => resolved_cols(cols@, proj_map@) == Ok::<Option<Seq<ColId>>, CompileFault>(ids_of(v)),
                Err(e) => resolved_cols(cols@, proj_map@) matches Err(f) && e@ == f.text(),
            },
    {
        let elements = cols.elements();
        let mut out: Vec<ColId> = Vec::new();
        let mut i: usize = 0;
        proof {
            assert(cols@.take(0) =~= Seq::<QunCol>::empty());
        }
        while i < elements.len()
            invariant
                i <= elements@.len(),
                elements@ == cols@,
                resolve_all(cols@.take(i as int), proj_map@) == Ok::<Seq<ColId>, CompileFault>(out@),
            decreases elements@.len() - i,
        {
            proof {
                assert(cols@.take(i + 1).drop_last() =~= cols@.take(i as int));
                assert(cols@.take(i + 1).last() == cols@[i as int]);
            }
            match proj_map.get(Projection::QunCol(elements[i])) {
                Some(ix) => out.push(ix),
                None => {
                    proof {
                        lemma_resolve_all_fails(cols@, proj_map@, i + 1);
                    }
                    return Err(CompileFault::Unresolved.message());
                },
            }
            i += 1;
        }
        proof {
            assert(cols@.take(i as int) =~= cols@);
        }
        if out.len() > 0 {
            Ok(Some(out))
        } else {
            assert(out@ =~= Seq::<ColId>::empty());
            Ok(None)
        }
    }
}

/// A list with a prefix that does not compile does not compile, and has the
/// fault of the prefix.
proof fn lemma_compile_all_fails(graph: &ExprGraph, exprs: Seq<ExprKey>, proj: Map<Projection, ColId>, k: int)
    requires
        0 <= k <= exprs.len(),
        compile_all(graph, exprs.take(k), proj) is Err,
    ensures
        compile_all(graph, exprs, proj) == compile_all(graph, exprs.take(k), proj),
    decreases exprs.len() - k,
{
    if k == exprs.len() {
        assert(exprs.take(k) =~= exprs);
    } else {
        assert(exprs.take(k + 1).drop_last() =~= exprs.take(k));
        lemma_compile_all_fails(graph, exprs, proj, k + 1);
    }
}

/// A list with a prefix that does not resolve does not resolve.
proof fn lemma_resolve_all_fails(cols: Seq<QunCol>, proj: Map<Projection, ColId>, k: int)
    requires
        0 <= k <= cols.len(),
        resolve_all(cols.take(k), proj) is Err,
    ensures
        resolve_all(cols, proj) == resolve_all(cols.take(k), proj),
    decreases cols.len() - k,
{
    if k == cols.len() {
        assert(cols.take(k) =~= cols);
    } else {
        assert(cols.take(k + 1).drop_last() =~= cols.take(k));
        lemma_resolve_all_fails(cols, proj, k + 1);
    }
}

/// The properties of the physical form of an operator with properties
/// `props` whose input is laid out as `proj` says: its predicates, the
/// positions of the table columns it hands on, and its computed columns, all
/// resolved against `proj`. The fault is that of the predicates first, then
/// of the table columns, then of the computed columns.
pub open spec fn lowered_props(graph: &ExprGraph, props: &LOPProps, proj: Map<Projection, ColId>, npartitions: usize) -> Result<
    POPPropsView,
    CompileFault,
> {
    match compiled_list(graph, props.preds@, proj) {
        Err(f) => Err(f),
        Ok(predicates) => match lowered_projection(graph, props, proj) {
            Err(f) => Err(f),
            Ok((cols, virtcols)) => Ok(POPPropsView { predicates, cols, virtcols, npartitions, index_in_stage: 0 }),
        },
    }
}

/// The positions of the table columns that an operator hands on and the
/// programs of its computed columns.
pub open spec fn lowered_projection(graph: &ExprGraph, props: &LOPProps, proj: Map<Projection, ColId>) -> Result<
    (Option<Seq<ColId>>, Option<Seq<Seq<PInstruction>>>),
    CompileFault,
> {
    match resolved_cols(props.cols@, proj) {
        Err(f) => Err(f),
        Ok(cols) => match compiled_virtcols(graph, props.virtcol_list(), proj) {
            Err(f) => Err(f),
            Ok(virtcols) => Ok((cols, virtcols)),
        },
    }
}

/// Name and type of the columns of a table.
pub open spec fn scan_fields(columns: Seq<ColDesc>) -> Seq<(Seq<char>, DataType)> {
    Seq::new(columns.len(), |i: int| (columns[i].name@, columns[i].datatype))
}

/// The column positions of a list of table columns.
pub open spec fn column_ids(cols: Seq<QunCol>) -> Seq<ColId> {
    Seq::new(cols.len(), |i: int| cols[i].1)
}

/// The physical form of a table scan: the scan of the file or directory of
/// the table of the operator's first query unit, reading the columns of
/// `input_projection`, with predicates and projection resolved against
/// those columns. An operator of another kind is a fault of its own.
pub open spec fn lowered_scan(qgm: &QGM, lop: &LOP, props: &LOPProps) -> Result<(POPView, POPPropsView), CompileFault> {
    match lop {
        LOP::TableScan { input_projection } => if props.quns@.len() == 0 {
            Err(CompileFault::MalformedPlan)
        } else {
            match qgm.metadata.table_of(props.quns@[0]) {
                None => Err(CompileFault::UnknownTable),
                Some(table) => {
                    let proj = spec_projection_map(input_projection@, Seq::empty());
                    match lowered_props(&qgm.expr_graph, props, proj, props.partdesc.npartitions) {
                        Err(f) => Err(f),
                        Ok(pv) => {
                            let scan = ScanView {
                                pathname: table.desc.filename@,
                                fields: scan_fields(table.desc.columns@),
                                header: table.desc.header,
                                separator: table.desc.separator,
                                npartitions: props.partdesc.npartitions,
                                projection: column_ids(input_projection@),
                            };
                            Ok(
                                (
                                    match table.table_type {
                                        TableType::CSV => POPView::CSV(scan),
                                        TableType::CSVDIR => POPView::CSVDir(scan),
                                    },
                                    pv,
                                ),
                            )
                        },
                    }
                },
            }
        },
        _ => Err(CompileFault::NotATableScan),
    }
}

/// The nodes of `after` are those of `before` followed by `node`.
pub open spec fn appended(before: &POPGraph, after: &POPGraph, node: PopNodeView) -> bool {
    &&& after.wf()
    &&& after.nodes@.len() == before.nodes@.len() + 1
    &&& after.nodes@.drop_last() == before.nodes@
    &&& pop_views(after.nodes@).last() == node
}

impl POP {
    /// Resolves the table columns that an operator hands on and compiles
    /// its computed columns, both against `proj_map`.
    pub fn compile_projection(qgm: &QGM, lop_key: LOPKey, lopprops: &LOPProps, proj_map: &ProjectionMap) -> (res: Result<
        (Option<Vec<ColId>>, Option<Vec<PCode>>),
        String,
    >)
        requires
            qgm.expr_graph.wf(),
        ensures
            match res {
                Ok((cols, virtcols)) => lowered_projection(&qgm.expr_graph, lopprops, proj_map@) == Ok::<
                    (Option<Seq<ColId>>, Option<Seq<Seq<PInstruction>>>),
                    CompileFault,
                >((ids_of(cols), codes_of(virtcols))),
                Err(e) => lowered_projection(&qgm.expr_graph, lopprops, proj_map@) matches Err(f) && e@ == f.text(),
            },
    {
        let cols = Self::resolve_cols(&lopprops.cols, proj_map)?;
        let virtcols = Self::compile_virtcols(qgm, lopprops.virtcols.as_ref(), proj_map)?;
        Ok((cols, virtcols))
    }

    /// Predicates, projection and partition count of the physical form of
    /// an operator.
    fn lower_props(qgm: &QGM, lop_key: LOPKey, lopprops: &LOPProps, proj_map: &ProjectionMap, npartitions: usize) -> (res:
        Result<POPProps, String>)
        requires
            qgm.expr_graph.wf(),
        ensures
            match res {
                Ok(props) => lowered_props(&qgm.expr_graph, lopprops, proj_map@, npartitions) == Ok::<
                    POPPropsView,
                    CompileFault,
                >(props@),
                Err(e) => lowered_props(&qgm.expr_graph, lopprops, proj_map@, npartitions) matches Err(f) && e@
                    == f.text(),
            },
    {
        let predicates = Self::compile_predicates(qgm, &lopprops.preds, proj_map)?;
        let (cols, virtcols) = Self::compile_projection(qgm, lop_key, lopprops, proj_map)?;
        Ok(POPProps::new(predicates, cols, virtcols, npartitions))
    }

    /// Name and type of the columns of a table.
    fn table_fields(columns: &Vec<ColDesc>) -> (fields: Vec<Field>)
        ensures
            field_views(fields@) == scan_fields(columns@),
    {
        let mut fields: Vec<Field> = Vec::new();
        let mut i: usize = 0;
        while i < columns.len()
            invariant
                i <= columns@.len(),
                fields@.len() == i,
                forall|k: int| 0 <= k < i ==> (#[trigger] fields@[k])@ == (columns@[k].name@, columns@[k].datatype),
            decreases columns@.len() - i,
        {
            fields.push(Field { name: columns[i].name.clone(), data_type: columns[i].datatype });
            i += 1;
        }
        assert(field_views(fields@) =~= scan_fields(columns@));
        fields
    }

    /// The column positions of a list of table columns.
    fn column_positions(cols: &Vec<QunCol>) -> (ids: Vec<ColId>)
        ensures
            ids@ == column_ids(cols@),
    {
        let mut ids: Vec<ColId> = Vec::new();
        let mut i: usize = 0;
        while i < cols.len()
            invariant
                i <= cols@.len(),
                ids@.len() == i,
                forall|k: int| 0 <= k < i ==> #[trigger] ids@[k] == cols@[k].1,
            decreases cols@.len() - i,
        {
            ids.push(cols[i].1);
            i += 1;
        }
        assert(ids@ =~= column_ids(cols@));
        ids
    }

    /// Lowers the table scan `lop_key` and adds it to the physical plan.
    /// On a fault the plan is left as it was.
    pub fn compile_scan(qgm: &QGM, lop_graph: &LOPGraph, lop_key: LOPKey, pop_graph: &mut POPGraph) -> (res: Result<
        POPKey,
        String,
    >)
        requires
            qgm.expr_graph.wf(),
            lop_graph.has(lop_key.id),
            old(pop_graph).wf(),
        ensures
            match res {
                Ok(key) => {
                    &&& lowered_scan(qgm, &lop_graph.value_of(lop_key.id), &lop_graph.props_of(lop_key.id)) matches Ok(
                        (value, props),
                    )
                    &&& key.id == old(pop_graph).nodes@.len()
                    &&& appended(old(pop_graph), final(pop_graph), PopNodeView { value, props, children: None })
                },
                Err(e) => {
                    &&& lowered_scan(qgm, &lop_graph.value_of(lop_key.id), &lop_graph.props_of(lop_key.id)) matches Err(
                        f,
                    )
                    &&& e@ == f.text()
                    &&& *final(pop_graph) == *old(pop_graph)
                },
            },
    {
        let (lop, lopprops, _) = lop_graph.get3(lop_key.id);
        let input_projection = match lop {
            LOP::TableScan { input_projection } => input_projection,
            _ => {
                return Err(CompileFault::NotATableScan.message());
            },
        };
        if lopprops.quns.len() == 0 {
            return Err(CompileFault::MalformedPlan.message());
        }
        let qunid = lopprops.quns.elements()[0];
        let table = match qgm.metadata.get_tabledesc(qunid) {
            Some(t) => t,
            None => {
                return Err(CompileFault::UnknownTable.message());
            },
        };
        let ninputs = input_projection.len();
        let input_proj_map = Self::compute_projection_map(input_projection, None);
        let npartitions = lopprops.partdesc.npartitions;
        let props = Self::lower_props(qgm, lop_key, lopprops, &input_proj_map, npartitions)?;
        let projection = Self::column_positions(input_projection.elements());
        let fields = Self::table_fields(&table.desc.columns);
        let pop = match table.table_type {
            TableType::CSV => POP::CSV(
                CSV::new(
                    table.desc.filename.clone(),
                    fields,
                    table.desc.header,
                    table.desc.separator,
                    npartitions,
                    projection,
                ),
            ),
            TableType::CSVDIR => POP::CSVDir(
                CSVDir::new(
                    table.desc.filename.clone(),
                    fields,
                    table.desc.header,
                    table.desc.separator,
                    npartitions,
                    projection,
                ),
            ),
        };
        let ghost spec = lowered_scan(qgm, &lop_graph.value_of(lop_key.id), &lop_graph.props_of(lop_key.id));
        assert(spec is Ok);
        assert(spec.unwrap().1 == props@);
        assert(spec.unwrap().0 == pop@);
        let ghost value = pop@;
        let ghost pview = props@;
        let pop_key = pop_graph.add_node_with_props(pop, props, None);
        assert(pop_graph.nodes@.drop_last() =~= old(pop_graph).nodes@);
        assert(pop_views(pop_graph.nodes@).last() == PopNodeView { value, props: pview, children: None });
        Ok(POPKey { id: pop_key })
    }
}

/// The layout of the rows that an operator produces: its table columns,
/// then its computed columns.
pub open spec fn output_map(props: &LOPProps) -> Map<Projection, ColId> {
    spec_projection_map(props.cols@, props.virtcol_keys())
}

/// The `j`-th input of logical operator `key`, where the operator lists it
/// and it was added before the operator.
pub open spec fn input(lop_graph: &LOPGraph, key: usize, j: int) -> Option<usize> {
    let children = lop_graph.children_of(key);
    if 0 <= j < children.len() && children[j] < key {
        Some(children[j])
    } else {
        None
    }
}

/// The assignments of the projection map of a join: the columns of the left
/// input at their positions, then those of the right input, moved up by the
/// width of the left input.
pub open spec fn join_entries(left: &LOPProps, right: &LOPProps) -> Seq<(Projection, ColId)> {
    let l = projection_entries(left.cols@, left.virtcol_keys());
    let r = projection_entries(right.cols@, right.virtcol_keys());
    Seq::new(
        l.len() + r.len(),
        |k: int|
            if k < l.len() {
                l[k]
            } else {
                (r[k - l.len()].0, k as usize)
            },
    )
}

/// The left expressions of a list of key pairs.
pub open spec fn left_exprs(keys: Seq<(ExprKey, ExprKey)>) -> Seq<ExprKey> {
    Seq::new(keys.len(), |i: int| keys[i].0)
}

/// The right expressions of a list of key pairs.
pub open spec fn right_exprs(keys: Seq<(ExprKey, ExprKey)>) -> Seq<ExprKey> {
    Seq::new(keys.len(), |i: int| keys[i].1)
}

/// The kinds of a list of aggregates.
pub open spec fn agg_kinds(aggs: Seq<(AggType, ExprKey)>) -> Seq<AggType> {
    Seq::new(aggs.len(), |i: int| aggs[i].0)
}

/// The arguments of a list of aggregates.
pub open spec fn agg_args(aggs: Seq<(AggType, ExprKey)>) -> Seq<ExprKey> {
    Seq::new(aggs.len(), |i: int| aggs[i].1)
}

/// The physical form of a hash join: the key pairs compiled, the left
/// expressions against the layout of the left input and the right ones
/// against that of the right input; predicates and projection compiled
/// against the layout of the joined rows.
pub open spec fn lowered_join(qgm: &QGM, lop_graph: &LOPGraph, key: usize) -> Result<(POPView, POPPropsView), CompileFault> {
    match lop_graph.value_of(key) {
        LOP::HashJoin { keys } => match (input(lop_graph, key, 0), input(lop_graph, key, 1)) {
            (Some(c0), Some(c1)) => {
                let left = lop_graph.props_of(c0);
                let right = lop_graph.props_of(c1);
                let props = lop_graph.props_of(key);
                if left.width() + right.width() > usize::MAX {
                    Err(CompileFault::TooWide)
                } else {
                    match compile_all(&qgm.expr_graph, left_exprs(keys@), output_map(&left)) {
                        Err(f) => Err(f),
                        Ok(left_keys) => match compile_all(&qgm.expr_graph, right_exprs(keys@), output_map(&right)) {
                            Err(f) => Err(f),
                            Ok(right_keys) => match lowered_props(
                                &qgm.expr_graph,
                                &props,
                                map_of(join_entries(&left, &right)),
                                props.partdesc.npartitions,
                            ) {
                                Err(f) => Err(f),
                                Ok(pv) => Ok((POPView::HashJoin(HashJoinView { left_keys, right_keys }), pv)),
                            },
                        },
                    }
                }
            },
            _ => Err(CompileFault::MalformedPlan),
        },
        _ => Err(CompileFault::MalformedPlan),
    }
}

/// The physical form of an aggregation: grouping keys and the arguments of
/// the aggregates compiled against the layout of the input, and the kinds of
/// the aggregates kept beside them.
pub open spec fn lowered_aggregation(qgm: &QGM, lop_graph: &LOPGraph, key: usize) -> Result<
    (POPView, POPPropsView),
    CompileFault,
> {
    match lop_graph.value_of(key) {
        LOP::Aggregation { group_by, aggs } => match input(lop_graph, key, 0) {
            Some(c0) => {
                let child = lop_graph.props_of(c0);
                let props = lop_graph.props_of(key);
                if child.width() > usize::MAX {
                    Err(CompileFault::TooWide)
                } else {
                    match compile_all(&qgm.expr_graph, group_by@, output_map(&child)) {
                        Err(f) => Err(f),
                        Ok(keys) => match compile_all(&qgm.expr_graph, agg_args(aggs@), output_map(&child)) {
                            Err(f) => Err(f),
                            Ok(args) => Ok(
                                (
                                    POPView::Aggregation(AggregationView { keys, kinds: agg_kinds(aggs@), args }),
                                    POPPropsView {
                                        predicates: None,
                                        cols: None,
                                        virtcols: None,
                                        npartitions: props.partdesc.npartitions,
                                        index_in_stage: 0,
                                    },
                                ),
                            ),
                        },
                    }
                }
            },
            None => Err(CompileFault::MalformedPlan),
        },
        _ => Err(CompileFault::MalformedPlan),
    }
}

/// Name and type of column `k` of the rows that an operator with table
/// columns `cols` and computed columns `virtcols` produces. A table column
/// has the name and type that the catalog gives; a computed column is named
/// by its rank and has the declared type of its expression.
pub open spec fn field_at(qgm: &QGM, cols: Seq<QunCol>, virtcols: Seq<VirtCol>, k: int) -> Result<
    (Seq<char>, DataType),
    CompileFault,
> {
    if k < cols.len() {
        match qgm.metadata.table_of(cols[k].0) {
            None => Err(CompileFault::UnknownTable),
            Some(t) => if cols[k].1 < t.desc.columns@.len() {
                Ok((t.desc.columns@[cols[k].1 as int].name@, t.desc.columns@[cols[k].1 as int].datatype))
            } else {
                Err(CompileFault::Unresolved)
            },
        }
    } else {
        let j = k - cols.len();
        if qgm.expr_graph.has(virtcols[j].id) {
            Ok(("VIRTCOL_"@ + decimal(j as nat), qgm.expr_graph.props_of(virtcols[j].id).data_type))
        } else {
            Err(CompileFault::Malformed)
        }
    }
}

/// The first `n` fields of the schema, or the fault of the first column
/// that has one.
pub open spec fn shuffle_fields(qgm: &QGM, cols: Seq<QunCol>, virtcols: Seq<VirtCol>, n: nat) -> Result<
    Seq<(Seq<char>, DataType)>,
    CompileFault,
>
    decreases n,
{
    if n == 0 {
        Ok(Seq::empty())
    } else {
        match shuffle_fields(qgm, cols, virtcols, (n - 1) as nat) {
            Err(f) => Err(f),
            Ok(fields) => match field_at(qgm, cols, virtcols, n - 1) {
                Ok(field) => Ok(fields.push(field)),
                Err(f) => Err(f),
            },
        }
    }
}

/// The schema of the rows that an operator produces.
pub open spec fn shuffle_schema(qgm: &QGM, props: &LOPProps) -> Result<Seq<(Seq<char>, DataType)>, CompileFault> {
    shuffle_fields(qgm, props.cols@, props.virtcol_keys(), props.width())
}

/// A schema with a prefix that has a fault has that fault.
proof fn lemma_shuffle_fields_fails(qgm: &QGM, cols: Seq<QunCol>, virtcols: Seq<VirtCol>, k: nat, n: nat)
    requires
        k <= n,
        shuffle_fields(qgm, cols, virtcols, k) is Err,
    ensures
        shuffle_fields(qgm, cols, virtcols, n) == shuffle_fields(qgm, cols, virtcols, k),
    decreases n - k,
{
    if k < n {
        lemma_shuffle_fields_fails(qgm, cols, virtcols, k, (n - 1) as nat);
    }
}

/// The physical form of the write side of a shuffle over `link`: hash keys
/// and projection compiled against the layout of the input; it runs in as
/// many partitions as its input and writes for as many consumers as the
/// logical operator has partitions.
pub open spec fn lowered_repartition(qgm: &QGM, lop_graph: &LOPGraph, key: usize, link: StageLink) -> Result<
    (POPView, POPPropsView),
    CompileFault,
> {
    match lop_graph.value_of(key) {
        LOP::Repartition { part_type } => {
            let props = lop_graph.props_of(key);
            if props.preds@.len() != 0 {
                Err(CompileFault::MalformedPlan)
            } else {
                match input(lop_graph, key, 0) {
                    None => Err(CompileFault::MalformedPlan),
                    Some(c0) => {
                        let child = lop_graph.props_of(c0);
                        if child.width() > usize::MAX || props.width() > usize::MAX {
                            Err(CompileFault::TooWide)
                        } else {
                            match lowered_projection(&qgm.expr_graph, &props, output_map(&child)) {
                                Err(f) => Err(f),
                                Ok((cols, virtcols)) => match part_type {
                                    PartType::HASHEXPR(keys) => if keys@.len() == 0 || props.partdesc.npartitions == 0 {
                                        Err(CompileFault::InvalidPartition)
                                    } else {
                                        match compile_all(&qgm.expr_graph, keys@, output_map(&child)) {
                                            Err(f) => Err(f),
                                            Ok(repart_key) => match shuffle_schema(qgm, &props) {
                                                Err(f) => Err(f),
                                                Ok(schema) => Ok(
                                                    (
                                                        POPView::RepartitionWrite(
                                                            RepartitionWriteView {
                                                                repart_key,
                                                                schema,
                                                                cpartitions: props.partdesc.npartitions,
                                                                stage_link: link,
                                                            },
                                                        ),
                                                        POPPropsView {
                                                            predicates: None,
                                                            cols,
                                                            virtcols,
                                                            npartitions: child.partdesc.npartitions,
                                                            index_in_stage: 0,
                                                        },
                                                    ),
                                                ),
                                            },
                                        }
                                    },
                                    _ => Err(CompileFault::InvalidPartition),
                                },
                            }
                        }
                    },
                }
            }
        },
        _ => Err(CompileFault::MalformedPlan),
    }
}

/// The physical form of the read side of a shuffle over `link`: it hands on
/// every column of the rows written, in order, and runs in as many
/// partitions as the logical operator has.
pub open spec fn lowered_read(qgm: &QGM, lop_graph: &LOPGraph, key: usize, link: StageLink) -> Result<
    (POPView, POPPropsView),
    CompileFault,
> {
    let props = lop_graph.props_of(key);
    if props.width() > usize::MAX {
        Err(CompileFault::TooWide)
    } else {
        match shuffle_schema(qgm, &props) {
            Err(f) => Err(f),
            Ok(schema) => Ok(
                (
                    POPView::RepartitionRead(RepartitionReadView { schema, stage_link: link }),
                    POPPropsView {
                        predicates: None,
                        cols: Some(Seq::new(props.width(), |i: int| i as usize)),
                        virtcols: None,
                        npartitions: props.partdesc.npartitions,
                        index_in_stage: 0,
                    },
                ),
            ),
        }
    }
}

/// The ids of a list of keys.
pub open spec fn key_ids(keys: Seq<POPKey>) -> Seq<usize> {
    Seq::new(keys.len(), |i: int| keys[i].id)
}

impl POP {
    /// The ids of a list of keys.
    fn ids_of_keys(keys: &Vec<POPKey>) -> (ids: Vec<usize>)
        ensures
            ids@ == key_ids(keys@),
    {
        let mut ids: Vec<usize> = Vec::new();
        let mut i: usize = 0;
        while i < keys.len()
            invariant
                i <= keys@.len(),
                ids@.len() == i,
                forall|k: int| 0 <= k < i ==> #[trigger] ids@[k] == keys@[k].id,
            decreases keys@.len() - i,
        {
            ids.push(keys[i].id);
            i += 1;
        }
        assert(ids@ =~= key_ids(keys@));
        ids
    }

    /// The number of columns that an operator produces, where it can be
    /// counted.
    fn width_of(props: &LOPProps) -> (w: Option<usize>)
        ensures
            match w {
                Some(n) => n == props.width(),
                None => props.width() > usize::MAX,
            },
    {
        let nvirt = match &props.virtcols {
            Some(v) => v.len(),
            None => 0,
        };
        props.cols.len().checked_add(nvirt)
    }

    /// The layout of the rows that an operator produces.
    fn output_layout(props: &LOPProps) -> (res: Option<ProjectionMap>)
        ensures
            match res {
                Some(m) => m@ == output_map(props) && props.width() <= usize::MAX,
                None => props.width() > usize::MAX,
            },
    {
        match Self::width_of(props) {
            Some(_) => Some(Self::compute_projection_map(&props.cols, props.virtcols.as_ref())),
            None => None,
        }
    }

    /// The layout of the rows of a join: the columns of the left input, then
    /// those of the right input.
    fn join_layout(left: &LOPProps, right: &LOPProps) -> (res: Option<ProjectionMap>)
        ensures
            match res {
                Some(m) => m@ == map_of(join_entries(left, right)) && left.width() + right.width() <= usize::MAX,
                None => left.width() + right.width() > usize::MAX,
            },
    {
        let lw = match Self::width_of(left) {
            Some(w) => w,
            None => {
                return None;
            },
        };
        let rw = match Self::width_of(right) {
            Some(w) => w,
            None => {
                return None;
            },
        };
        if rw > usize::MAX - lw {
            return None;
        }
        let l = Self::compute_projection_map(&left.cols, left.virtcols.as_ref());
        let r = Self::compute_projection_map(&right.cols, right.virtcols.as_ref());
        let ghost want = join_entries(left, right);
        let mut entries = l.entries;
        let mut k: usize = 0;
        assert(entries@ =~= want.take(lw as int));
        while k < r.entries.len()
            invariant
                k <= r.entries@.len(),
                r.entries@ == projection_entries(right.cols@, right.virtcol_keys()),
                lw == left.width(),
                rw == right.width(),
                lw + rw <= usize::MAX,
                want == join_entries(left, right),
                entries@ == want.take(lw + k),
            decreases r.entries@.len() - k,
        {
            entries.push((r.entries[k].0, lw + k));
            assert(entries@ =~= want.take(lw + k + 1));
            k += 1;
        }
        assert(entries@ =~= want);
        Some(ProjectionMap { entries })
    }

    /// The schema of the rows that an operator produces.
    fn schema_of(qgm: &QGM, props: &LOPProps, width: usize) -> (res: Result<Schema, String>)
        requires
            width == props.width(),
        ensures
            match res {
                Ok(schema) => shuffle_schema(qgm, props) == Ok::<Seq<(Seq<char>, DataType)>, CompileFault>(schema@),
                Err(e) => shuffle_schema(qgm, props) matches Err(f) && e@ == f.text(),
            },
    {
        let ghost cols = props.cols@;
        let ghost virtcols = props.virtcol_keys();
        let mut fields: Vec<Field> = Vec::new();
        let ncols = props.cols.len();
        let mut k: usize = 0;
        assert(field_views(fields@) =~= Seq::<(Seq<char>, DataType)>::empty());
        while k < width
            invariant
                k <= width,
                width == props.width(),
                ncols == props.cols@.len(),
                cols == props.cols@,
                virtcols == props.virtcol_keys(),
                shuffle_fields(qgm, cols, virtcols, k as nat) == Ok::<Seq<(Seq<char>, DataType)>, CompileFault>(
                    field_views(fields@),
                ),
            decreases width - k,
        {
            let ghost before = fields@;
            let field = if k < ncols {
                let quncol = props.cols.elements()[k];
                match qgm.metadata.get_tabledesc(quncol.0) {
                    None => {
                        proof {
                            lemma_shuffle_fields_fails(qgm, cols, virtcols, (k + 1) as nat, width as nat);
                        }
                        return Err(CompileFault::UnknownTable.message());
                    },
                    Some(t) => {
                        if quncol.1 < t.desc.columns.len() {
                            let column = &t.desc.columns[quncol.1];
                            Field { name: column.name.clone(), data_type: column.datatype }
                        } else {
                            proof {
                                lemma_shuffle_fields_fails(qgm, cols, virtcols, (k + 1) as nat, width as nat);
                            }
                            return Err(CompileFault::Unresolved.message());
                        }
                    },
                }
            } else {
                let j = k - ncols;
                let virtcol = match &props.virtcols {
                    Some(v) => v[j],
                    None => {
                        return Err(CompileFault::Malformed.message());
                    },
                };
                if virtcol.id < qgm.expr_graph.len() {
                    Field {
                        name: String::from_str("VIRTCOL_").concat(usize_to_string(j).as_str()),
                        data_type: qgm.expr_graph.get_properties(virtcol.id).data_type,
                    }
                } else {
                    proof {
                        lemma_shuffle_fields_fails(qgm, cols, virtcols, (k + 1) as nat, width as nat);
                    }
                    return Err(CompileFault::Malformed.message());
                }
            };
            assert(field_at(qgm, cols, virtcols, k as int) == Ok::<(Seq<char>, DataType), CompileFault>(field@));
            fields.push(field);
            assert(field_views(fields@) =~= field_views(before).push(field@));
            k += 1;
        }
        Ok(Schema::new(fields))
    }
}

/// Every key names a node of the plan.
pub open spec fn keys_in(keys: Seq<POPKey>, pop_graph: &POPGraph) -> bool {
    forall|j: int| 0 <= j < keys.len() ==> pop_graph.has(#[trigger] keys[j].id)
}

impl POP {
    /// The `j`-th input of logical operator `key`.
    fn input_key(lop_graph: &LOPGraph, key: usize, j: usize) -> (res: Option<usize>)
        requires
            lop_graph.wf(),
            lop_graph.has(key),
        ensures
            res == input(lop_graph, key, j as int),
    {
        match &lop_graph.get(key).children {
            Some(c) => {
                if j < c.len() {
                    assert(lop_graph.nodes@[key as int].child_keys()[j as int] < key);
                    Some(c[j])
                } else {
                    None
                }
            },
            None => None,
        }
    }

    /// Adds an operator with the given inputs to the plan.
    fn add_pop(pop_graph: &mut POPGraph, pop: POP, props: POPProps, pop_children: Vec<POPKey>) -> (key: POPKey)
        requires
            old(pop_graph).wf(),
            keys_in(pop_children@, old(pop_graph)),
        ensures
            key.id == old(pop_graph).nodes@.len(),
            appended(
                old(pop_graph),
                final(pop_graph),
                PopNodeView { value: pop@, props: props@, children: Some(key_ids(pop_children@)) },
            ),
    {
        let ids = Self::ids_of_keys(&pop_children);
        let ghost value = pop@;
        let ghost pview = props@;
        let id = pop_graph.add_node_with_props(pop, props, Some(ids));
        assert(pop_graph.nodes@.drop_last() =~= old(pop_graph).nodes@);
        assert(pop_views(pop_graph.nodes@).last() == PopNodeView {
            value,
            props: pview,
            children: Some(key_ids(pop_children@)),
        });
        POPKey { id }
    }

    /// The left and the right expressions of a list of key pairs.
    fn split_pairs(keys: &Vec<(ExprKey, ExprKey)>) -> (res: (Vec<ExprKey>, Vec<ExprKey>))
        ensures
            res.0@ == left_exprs(keys@),
            res.1@ == right_exprs(keys@),
    {
        let mut left: Vec<ExprKey> = Vec::new();
        let mut right: Vec<ExprKey> = Vec::new();
        let mut i: usize = 0;
        while i < keys.len()
            invariant
                i <= keys@.len(),
                left@.len() == i,
                right@.len() == i,
                forall|k: int| 0 <= k < i ==> #[trigger] left@[k] == keys@[k].0,
                forall|k: int| 0 <= k < i ==> #[trigger] right@[k] == keys@[k].1,
            decreases keys@.len() - i,
        {
            left.push(keys[i].0);
            right.push(keys[i].1);
            i += 1;
        }
        assert(left@ =~= left_exprs(keys@));
        assert(right@ =~= right_exprs(keys@));
        (left, right)
    }

    /// The kinds and the arguments of a list of aggregates.
    fn split_aggs(aggs: &Vec<(AggType, ExprKey)>) -> (res: (Vec<AggType>, Vec<ExprKey>))
        ensures
            res.0@ == agg_kinds(aggs@),
            res.1@ == agg_args(aggs@),
    {
        let mut kinds: Vec<AggType> = Vec::new();
        let mut args: Vec<ExprKey> = Vec::new();
        let mut i: usize = 0;
        while i < aggs.len()
            invariant
                i <= aggs@.len(),
                kinds@.len() == i,
                args@.len() == i,
                forall|k: int| 0 <= k < i ==> #[trigger] kinds@[k] == aggs@[k].0,
                forall|k: int| 0 <= k < i ==> #[trigger] args@[k] == aggs@[k].1,
            decreases aggs@.len() - i,
        {
            kinds.push(aggs[i].0);
            args.push(aggs[i].1);
            i += 1;
        }
        assert(kinds@ =~= agg_kinds(aggs@));
        assert(args@ =~= agg_args(aggs@));
        (kinds, args)
    }

    /// Lowers the hash join `lop_key`, whose inputs were lowered to
    /// `pop_children`, and adds it to the physical plan. On a fault the plan
    /// is left as it was.
    pub fn compile_join(
        qgm: &QGM,
        lop_graph: &LOPGraph,
        lop_key: LOPKey,
        pop_graph: &mut POPGraph,
        pop_children: Vec<POPKey>,
    ) -> (res: Result<POPKey, String>)
        requires
            qgm.expr_graph.wf(),
            lop_graph.wf(),
            lop_graph.has(lop_key.id),
            old(pop_graph).wf(),
            keys_in(pop_children@, old(pop_graph)),
        ensures
            match res {
                Ok(key) => {
                    &&& lowered_join(qgm, lop_graph, lop_key.id) matches Ok((value, props))
                    &&& key.id == old(pop_graph).nodes@.len()
                    &&& appended(
                        old(pop_graph),
                        final(pop_graph),
                        PopNodeView { value, props, children: Some(key_ids(pop_children@)) },
                    )
                },
                Err(e) => {
                    &&& lowered_join(qgm, lop_graph, lop_key.id) matches Err(f)
                    &&& e@ == f.text()
                    &&& *final(pop_graph) == *old(pop_graph)
                },
            },
    {
        let (lop, lopprops, _) = lop_graph.get3(lop_key.id);
        let keys = match lop {
            LOP::HashJoin { keys } => keys,
            _ => {
                return Err(CompileFault::MalformedPlan.message());
            },
        };
        let c0 = Self::input_key(lop_graph, lop_key.id, 0);
        let c1 = Self::input_key(lop_graph, lop_key.id, 1);
        let (c0, c1) = match (c0, c1) {
            (Some(c0), Some(c1)) => (c0, c1),
            _ => {
                return Err(CompileFault::MalformedPlan.message());
            },
        };
        let left = lop_graph.get_properties(c0);
        let right = lop_graph.get_properties(c1);
        let proj_map = match Self::join_layout(left, right) {
            Some(m) => m,
            None => {
                return Err(CompileFault::TooWide.message());
            },
        };
        let left_map = Self::compute_projection_map(&left.cols, left.virtcols.as_ref());
        let right_map = Self::compute_projection_map(&right.cols, right.virtcols.as_ref());
        let (left_exprs, right_exprs) = Self::split_pairs(keys);
        let left_keys = Self::compile_each(qgm, &left_exprs, &left_map)?;
        let right_keys = Self::compile_each(qgm, &right_exprs, &right_map)?;
        let props = Self::lower_props(qgm, lop_key, lopprops, &proj_map, lopprops.partdesc.npartitions)?;
        let pop = POP::HashJoin(HashJoin::new(left_keys, right_keys));
        Ok(Self::add_pop(pop_graph, pop, props, pop_children))
    }

    /// Lowers the aggregation `lop_key`, whose input was lowered to
    /// `pop_children`, and adds it to the physical plan. On a fault the plan
    /// is left as it was.
    pub fn compile_aggregation(
        qgm: &QGM,
        lop_graph: &LOPGraph,
        lop_key: LOPKey,
        pop_graph: &mut POPGraph,
        pop_children: Vec<POPKey>,
    ) -> (res: Result<POPKey, String>)
        requires
            qgm.expr_graph.wf(),
            lop_graph.wf(),
            lop_graph.has(lop_key.id),
            old(pop_graph).wf(),
            keys_in(pop_children@, old(pop_graph)),
        ensures
            match res {
                Ok(key) => {
                    &&& lowered_aggregation(qgm, lop_graph, lop_key.id) matches Ok((value, props))
                    &&& key.id == old(pop_graph).nodes@.len()
                    &&& appended(
                        old(pop_graph),
                        final(pop_graph),
                        PopNodeView { value, props, children: Some(key_ids(pop_children@)) },
                    )
                },
                Err(e) => {
                    &&& lowered_aggregation(qgm, lop_graph, lop_key.id) matches Err(f)
                    &&& e@ == f.text()
                    &&& *final(pop_graph) == *old(pop_graph)
                },
            },
    {
        let (lop, lopprops, _) = lop_graph.get3(lop_key.id);
        let (group_by, aggs) = match lop {
            LOP::Aggregation { group_by, aggs } => (group_by, aggs),
            _ => {
                return Err(CompileFault::MalformedPlan.message());
            },
        };
        let c0 = match Self::input_key(lop_graph, lop_key.id, 0) {
            Some(c0) => c0,
            None => {
                return Err(CompileFault::MalformedPlan.message());
            },
        };
        let child = lop_graph.get_properties(c0);
        let proj_map = match Self::output_layout(child) {
            Some(m) => m,
            None => {
                return Err(CompileFault::TooWide.message());
            },
        };
        let keys = Self::compile_each(qgm, group_by, &proj_map)?;
        let (kinds, arg_exprs) = Self::split_aggs(aggs);
        let args = Self::compile_each(qgm, &arg_exprs, &proj_map)?;
        let props = POPProps::new(None, None, None, lopprops.partdesc.npartitions);
        let pop = POP::Aggregation(Aggregation::new(keys, kinds, args));
        Ok(Self::add_pop(pop_graph, pop, props, pop_children))
    }

    /// Lowers the repartition `lop_key` to the write side of a shuffle over
    /// `stage_link`, with the lowered input `pop_children`, and adds it to
    /// the physical plan. On a fault the plan is left as it was.
    pub fn compile_repartition(
        qgm: &QGM,
        lop_graph: &LOPGraph,
        lop_key: LOPKey,
        pop_graph: &mut POPGraph,
        pop_children: Vec<POPKey>,
        stage_link: StageLink,
    ) -> (res: Result<POPKey, String>)
        requires
            qgm.expr_graph.wf(),
            lop_graph.wf(),
            lop_graph.has(lop_key.id),
            old(pop_graph).wf(),
            keys_in(pop_children@, old(pop_graph)),
        ensures
            match res {
                Ok(key) => {
                    &&& lowered_repartition(qgm, lop_graph, lop_key.id, stage_link) matches Ok((value, props))
                    &&& key.id == old(pop_graph).nodes@.len()
                    &&& appended(
                        old(pop_graph),
                        final(pop_graph),
                        PopNodeView { value, props, children: Some(key_ids(pop_children@)) },
                    )
                },
                Err(e) => {
                    &&& lowered_repartition(qgm, lop_graph, lop_key.id, stage_link) matches Err(f)
                    &&& e@ == f.text()
                    &&& *final(pop_graph) == *old(pop_graph)
                },
            },
    {
        let (lop, lopprops, _) = lop_graph.get3(lop_key.id);
        let part_type = match lop {
            LOP::Repartition { part_type } => part_type,
            _ => {
                return Err(CompileFault::MalformedPlan.message());
            },
        };
        if lopprops.preds.len() != 0 {
            return Err(CompileFault::MalformedPlan.message());
        }
        let c0 = match Self::input_key(lop_graph, lop_key.id, 0) {
            Some(c0) => c0,
            None => {
                return Err(CompileFault::MalformedPlan.message());
            },
        };
        let child = lop_graph.get_properties(c0);
        let proj_map = match Self::output_layout(child) {
            Some(m) => m,
            None => {
                return Err(CompileFault::TooWide.message());
            },
        };
        let width = match Self::width_of(lopprops) {
            Some(w) => w,
            None => {
                return Err(CompileFault::TooWide.message());
            },
        };
        let (cols, virtcols) = Self::compile_projection(qgm, lop_key, lopprops, &proj_map)?;
        let cpartitions = lopprops.partdesc.npartitions;
        let keys = match part_type {
            PartType::HASHEXPR(keys) => keys,
            _ => {
                return Err(CompileFault::InvalidPartition.message());
            },
        };
        if keys.len() == 0 || cpartitions == 0 {
            return Err(CompileFault::InvalidPartition.message());
        }
        let repart_key = Self::compile_each(qgm, keys, &proj_map)?;
        let schema = Self::schema_of(qgm, lopprops, width)?;
        let props = POPProps::new(None, cols, virtcols, child.partdesc.npartitions);
        let pop = POP::RepartitionWrite(RepartitionWrite::new(repart_key, schema, stage_link, cpartitions));
        Ok(Self::add_pop(pop_graph, pop, props, pop_children))
    }

    /// Adds to the physical plan the read side of the shuffle over
    /// `stage_link` that the repartition `lop_key` asks for; its input,
    /// `pop_children`, is the write side. On a fault the plan is left as it
    /// was.
    pub fn compile_repartition_read(
        qgm: &QGM,
        lop_graph: &LOPGraph,
        lop_key: LOPKey,
        pop_graph: &mut POPGraph,
        pop_children: Vec<POPKey>,
        stage_link: StageLink,
    ) -> (res: Result<POPKey, String>)
        requires
            lop_graph.has(lop_key.id),
            old(pop_graph).wf(),
            keys_in(pop_children@, old(pop_graph)),
        ensures
            match res {
                Ok(key) => {
                    &&& lowered_read(qgm, lop_graph, lop_key.id, stage_link) matches Ok((value, props))
                    &&& key.id == old(pop_graph).nodes@.len()
                    &&& appended(
                        old(pop_graph),
                        final(pop_graph),
                        PopNodeView { value, props, children: Some(key_ids(pop_children@)) },
                    )
                },
                Err(e) => {
                    &&& lowered_read(qgm, lop_graph, lop_key.id, stage_link) matches Err(f)
                    &&& e@ == f.text()
                    &&& *final(pop_graph) == *old(pop_graph)
                },
            },
    {
        let lopprops = lop_graph.get_properties(lop_key.id);
        let ncols = match Self::width_of(lopprops) {
            Some(w) => w,
            None => {
                return Err(CompileFault::TooWide.message());
            },
        };
        let schema = Self::schema_of(qgm, lopprops, ncols)?;
        let mut cols: Vec<ColId> = Vec::new();
        let mut i: usize = 0;
        while i < ncols
            invariant
                i <= ncols,
                cols@.len() == i,
                forall|k: int| 0 <= k < i ==> #[trigger] cols@[k] == k,
            decreases ncols - i,
        {
            cols.push(i);
            i += 1;
        }
        assert(cols@ =~= Seq::new(lopprops.width(), |i: int| i as usize));
        let props = POPProps::new(None, Some(cols), None, lopprops.partdesc.npartitions);
        let pop = POP::RepartitionRead(RepartitionRead::new(schema, stage_link));
        Ok(Self::add_pop(pop_graph, pop, props, pop_children))
    }
}

/// A physical plan under construction: its operators and its stages.
pub struct PlanView {
    pub pops: Seq<PopNodeView>,
    pub stages: Seq<Stage>,
}

/// The plan that two graphs hold.
pub open spec fn plan_of(pop_graph: &POPGraph, stage_graph: &StageGraph) -> PlanView {
    PlanView { pops: pop_views(pop_graph.nodes@), stages: stage_graph.stages@ }
}

/// No stage counts more operators than the plan has.
pub open spec fn counts_bounded(plan: PlanView) -> bool {
    forall|s: int| 0 <= s < plan.stages.len() ==> (#[trigger] plan.stages[s]).pop_count <= plan.pops.len()
}

/// The plan after `node` has been added as the next operator of `stage`:
/// the node gets the position that the stage's count gives, and the stage
/// counts one more.
pub open spec fn placed(plan: PlanView, node: (POPView, POPPropsView), children: Option<Seq<usize>>, stage: int) -> PlanView {
    PlanView {
        pops: plan.pops.push(
            PopNodeView {
                value: node.0,
                props: POPPropsView { index_in_stage: plan.stages[stage].pop_count, ..node.1 },
                children,
            },
        ),
        stages: plan.stages.update(
            stage,
            Stage { pop_count: (plan.stages[stage].pop_count + 1) as usize, ..plan.stages[stage] },
        ),
    }
}

/// The plan after operator `key` has become the root of `stage`, which gets
/// `npartitions` partitions.
pub open spec fn rooted(plan: PlanView, stage: int, key: usize, npartitions: usize) -> PlanView {
    PlanView {
        stages: plan.stages.update(
            stage,
            Stage { root_pop_key: Some(POPKey { id: key }), npartitions, ..plan.stages[stage] },
        ),
        ..plan
    }
}

/// The plan after a stage has been opened at logical operator `key`, to
/// feed `parent`.
pub open spec fn opened(plan: PlanView, key: usize, parent: StageId) -> PlanView {
    PlanView {
        stages: plan.stages.push(
            Stage {
                stage_id: plan.stages.len() as usize,
                parent_stage_id: Some(parent),
                root_lop_key: LOPKey { id: key },
                root_pop_key: None,
                npartitions: 0,
                pop_count: 0,
            },
        ),
        ..plan
    }
}

/// The physical form of logical operator `key` by its kind. `link` is the
/// shuffle that a repartition writes to.
pub open spec fn lowered_node(qgm: &QGM, lop_graph: &LOPGraph, key: usize, link: StageLink) -> Result<
    (POPView, POPPropsView),
    CompileFault,
> {
    match lop_graph.value_of(key) {
        LOP::TableScan { .. } => lowered_scan(qgm, &lop_graph.value_of(key), &lop_graph.props_of(key)),
        LOP::HashJoin { .. } => lowered_join(qgm, lop_graph, key),
        LOP::Repartition { .. } => lowered_repartition(qgm, lop_graph, key, link),
        LOP::Aggregation { .. } => lowered_aggregation(qgm, lop_graph, key),
    }
}

/// Lowering of the logical operator `key` into `plan`, for a consumer in
/// stage `stage_id`: the plan afterwards and the key of the operator that
/// the consumer reads from, or the first fault met.
///
/// A repartition opens a stage that feeds `stage_id`; any other operator
/// stays in `stage_id`. The inputs are lowered first, left to right, into
/// that stage; then the operator itself is added as the stage's next
/// operator. A repartition becomes the write side of a shuffle and the root
/// of the stage it opened, followed by the read side, which is added to
/// `stage_id` and is what the consumer reads from.
pub open spec fn lower(qgm: &QGM, lop_graph: &LOPGraph, key: usize, plan: PlanView, stage_id: StageId) -> Result<
    (PlanView, usize),
    CompileFault,
>
    decreases key, 1nat, 0nat,
{
    if !lop_graph.has(key) {
        Err(CompileFault::MalformedPlan)
    } else {
        let shuffles = lop_graph.value_of(key) is Repartition;
        let stage = if shuffles {
            plan.stages.len() as usize
        } else {
            stage_id
        };
        let start = if shuffles {
            opened(plan, key, stage_id)
        } else {
            plan
        };
        let link = StageLink(stage, stage_id);
        match lower_inputs(qgm, lop_graph, key, lop_graph.children_of(key).len(), start, stage) {
            Err(f) => Err(f),
            Ok((plan2, inputs)) => match lowered_node(qgm, lop_graph, key, link) {
                Err(f) => Err(f),
                Ok(node) => {
                    let k = plan2.pops.len() as usize;
                    let children = if lop_graph.value_of(key) is TableScan {
                        None
                    } else {
                        Some(inputs)
                    };
                    if !shuffles {
                        Ok((placed(plan2, node, children, stage as int), k))
                    } else {
                        let plan3 = placed(rooted(plan2, stage as int, k, node.1.npartitions), node, children, stage as int);
                        match lowered_read(qgm, lop_graph, key, link) {
                            Err(f) => Err(f),
                            Ok(read) => Ok((placed(plan3, read, Some(seq![k]), stage_id as int), (k + 1) as usize)),
                        }
                    }
                },
            },
        }
    }
}

/// Lowering of the first `n` inputs of logical operator `key` into `plan`,
/// all into stage `stage`: the plan afterwards and the keys of the lowered
/// inputs in order, or the first fault met.
pub open spec fn lower_inputs(
    qgm: &QGM,
    lop_graph: &LOPGraph,
    key: usize,
    n: nat,
    plan: PlanView,
    stage: StageId,
) -> Result<(PlanView, Seq<usize>), CompileFault>
    decreases key, 0nat, n,
{
    if n == 0 {
        Ok((plan, Seq::empty()))
    } else {
        match lower_inputs(qgm, lop_graph, key, (n - 1) as nat, plan, stage) {
            Err(f) => Err(f),
            Ok((plan1, keys)) => match input(lop_graph, key, n - 1) {
                None => Err(CompileFault::MalformedPlan),
                Some(c) => match lower(qgm, lop_graph, c, plan1, stage) {
                    Err(f) => Err(f),
                    Ok((plan2, k)) => Ok((plan2, keys.push(k))),
                },
            },
        }
    }
}

/// The plan as a lowering that meets a fault leaves it. Lowering stops at
/// the first fault: what was lowered before it stays in the plan, and
/// nothing is added after it. A fault of an input leaves the plan as the
/// lowering of that input left it, with no operator for `key` itself nor
/// for the inputs that follow; a repartition has opened its stage by then.
/// A fault of the operator's own lowering leaves the plan with its inputs;
/// a fault of the read side of a shuffle leaves it with the write side as
/// well.
pub open spec fn left_by(qgm: &QGM, lop_graph: &LOPGraph, key: usize, plan: PlanView, stage_id: StageId) -> PlanView
    decreases key, 1nat, 0nat,
{
    if !lop_graph.has(key) {
        plan
    } else {
        let shuffles = lop_graph.value_of(key) is Repartition;
        let stage = if shuffles {
            plan.stages.len() as usize
        } else {
            stage_id
        };
        let start = if shuffles {
            opened(plan, key, stage_id)
        } else {
            plan
        };
        let link = StageLink(stage, stage_id);
        let n = lop_graph.children_of(key).len();
        match lower_inputs(qgm, lop_graph, key, n, start, stage) {
            Err(_) => left_by_inputs(qgm, lop_graph, key, n, start, stage),
            Ok((plan2, inputs)) => match lowered_node(qgm, lop_graph, key, link) {
                Err(_) => plan2,
                Ok(node) => {
                    let k = plan2.pops.len() as usize;
                    let children = if lop_graph.value_of(key) is TableScan {
                        None
                    } else {
                        Some(inputs)
                    };
                    if shuffles {
                        placed(rooted(plan2, stage as int, k, node.1.npartitions), node, children, stage as int)
                    } else {
                        placed(plan2, node, children, stage as int)
                    }
                },
            },
        }
    }
}

/// The plan as the lowering of the first `n` inputs of logical operator
/// `key` leaves it where it meets a fault: the inputs before the one that
/// fails are in the plan, that one as far as its own lowering came, the
/// inputs after it not at all.
pub open spec fn left_by_inputs(
    qgm: &QGM,
    lop_graph: &LOPGraph,
    key: usize,
    n: nat,
    plan: PlanView,
    stage: StageId,
) -> PlanView
    decreases key, 0nat, n,
{
    if n == 0 {
        plan
    } else {
        match lower_inputs(qgm, lop_graph, key, (n - 1) as nat, plan, stage) {
            Err(_) => left_by_inputs(qgm, lop_graph, key, (n - 1) as nat, plan, stage),
            Ok((plan1, _)) => match input(lop_graph, key, n - 1) {
                None => plan1,
                Some(c) => left_by(qgm, lop_graph, c, plan1, stage),
            },
        }
    }
}

/// Stage `s` has a root operator in the plan and as many partitions as that
/// operator.
pub open spec fn stage_rooted(pop_graph: &POPGraph, stage_graph: &StageGraph, s: int) -> bool {
    &&& stage_graph.stages@[s].root_pop_key matches Some(k)
    &&& pop_graph.has(k.id)
    &&& stage_graph.stages@[s].npartitions == pop_graph.props_of(k.id).npartitions
}

/// What lowering into stage `stage_id` does to the stages: the stages that
/// were there stay as they were, but that `stage_id` counts more operators;
/// the stages that come new have their root operators.
pub open spec fn stages_grow(
    before: &StageGraph,
    after: &StageGraph,
    pop_graph: &POPGraph,
    stage_id: StageId,
) -> bool {
    &&& before.stages@.len() <= after.stages@.len()
    &&& forall|s: int| 0 <= s < before.stages@.len() && s != stage_id ==> #[trigger] after.stages@[s] == before.stages@[s]
    &&& after.stages@[stage_id as int].root_pop_key == before.stages@[stage_id as int].root_pop_key
    &&& after.stages@[stage_id as int].npartitions == before.stages@[stage_id as int].npartitions
    &&& forall|s: int| before.stages@.len() <= s < after.stages@.len() ==> #[trigger] stage_rooted(pop_graph, after, s)
}

/// The nodes of `before` are the first nodes of `after`, unchanged.
pub open spec fn extends(before: &POPGraph, after: &POPGraph) -> bool {
    &&& before.nodes@.len() <= after.nodes@.len()
    &&& forall|k: int| 0 <= k < before.nodes@.len() ==> after.nodes@[k] == before.nodes@[k]
}

impl POP {
    /// Makes the operator added last the next operator of `stage`: gives it
    /// the position that the stage's count says and counts it.
    fn place(pop_graph: &mut POPGraph, stage_graph: &mut StageGraph, stage: StageId, key: POPKey)
        requires
            old(pop_graph).wf(),
            old(stage_graph).wf(),
            stage < old(stage_graph).stages@.len(),
            key.id + 1 == old(pop_graph).nodes@.len(),
            forall|s: int|
                0 <= s < old(stage_graph).stages@.len() ==> (#[trigger] old(stage_graph).stages@[s]).pop_count < old(pop_graph).nodes@.len(),
        ensures
            final(pop_graph).wf(),
            final(stage_graph).wf(),
            final(pop_graph).nodes@.len() == old(pop_graph).nodes@.len(),
            forall|k: int| 0 <= k < key.id ==> final(pop_graph).nodes@[k] == old(pop_graph).nodes@[k],
            final(stage_graph).stages@ == old(stage_graph).stages@.update(
                stage as int,
                Stage {
                    pop_count: (old(stage_graph).stages@[stage as int].pop_count + 1) as usize,
                    ..old(stage_graph).stages@[stage as int]
                },
            ),
            pop_views(final(pop_graph).nodes@) == pop_views(old(pop_graph).nodes@).update(
                key.id as int,
                PopNodeView {
                    props: POPPropsView {
                        index_in_stage: old(stage_graph).stages@[stage as int].pop_count,
                        ..pop_views(old(pop_graph).nodes@)[key.id as int].props
                    },
                    ..pop_views(old(pop_graph).nodes@)[key.id as int]
                },
            ),
            counts_bounded(plan_of(final(pop_graph), final(stage_graph))),
            final(pop_graph).props_of(key.id).npartitions == old(pop_graph).props_of(key.id).npartitions,
    {
        let len = pop_graph.len();
        let count = stage_graph.get_stage(stage).pop_count;
        let new_pop_count = stage_graph.increment_pop(stage);
        set_index_in_stage(pop_graph, key, new_pop_count - 1);
        proof {
            assert(pop_views(pop_graph.nodes@) =~= pop_views(old(pop_graph).nodes@).update(
                key.id as int,
                PopNodeView {
                    props: POPPropsView {
                        index_in_stage: old(stage_graph).stages@[stage as int].pop_count,
                        ..pop_views(old(pop_graph).nodes@)[key.id as int].props
                    },
                    ..pop_views(old(pop_graph).nodes@)[key.id as int]
                },
            ));
        }
    }

    /// Lowers the first `n` inputs of logical operator `lop_key` into the
    /// plan, all into stage `stage_id`.
    fn compile_inputs(
        qgm: &QGM,
        lop_graph: &LOPGraph,
        lop_key: LOPKey,
        n: usize,
        pop_graph: &mut POPGraph,
        stage_graph: &mut StageGraph,
        stage_id: StageId,
    ) -> (res: Result<Vec<POPKey>, String>)
        requires
            qgm.expr_graph.wf(),
            lop_graph.wf(),
            lop_graph.has(lop_key.id),
            n <= lop_graph.children_of(lop_key.id).len(),
            old(pop_graph).wf(),
            old(stage_graph).wf(),
            stage_id < old(stage_graph).stages@.len(),
            counts_bounded(plan_of(old(pop_graph), old(stage_graph))),
        ensures
            match res {
                Ok(keys) => {
                    &&& lower_inputs(
                        qgm,
                        lop_graph,
                        lop_key.id,
                        n as nat,
                        plan_of(old(pop_graph), old(stage_graph)),
                        stage_id,
                    ) == Ok::<(PlanView, Seq<usize>), CompileFault>(
                        (plan_of(final(pop_graph), final(stage_graph)), key_ids(keys@)),
                    )
                    &&& final(pop_graph).wf()
                    &&& final(stage_graph).wf()
                    &&& extends(old(pop_graph), final(pop_graph))
                    &&& old(stage_graph).stages@.len() <= final(stage_graph).stages@.len()
                    &&& counts_bounded(plan_of(final(pop_graph), final(stage_graph)))
                    &&& keys_in(keys@, final(pop_graph))
                    &&& stages_grow(old(stage_graph), final(stage_graph), final(pop_graph), stage_id)
                },
                Err(e) => {
                    &&& lower_inputs(
                        qgm,
                        lop_graph,
                        lop_key.id,
                        n as nat,
                        plan_of(old(pop_graph), old(stage_graph)),
                        stage_id,
                    ) matches Err(f) && e@ == f.text()
                    &&& plan_of(final(pop_graph), final(stage_graph)) == left_by_inputs(
                        qgm,
                        lop_graph,
                        lop_key.id,
                        n as nat,
                        plan_of(old(pop_graph), old(stage_graph)),
                        stage_id,
                    )
                    &&& final(pop_graph).wf()
                    &&& final(stage_graph).wf()
                    &&& extends(old(pop_graph), final(pop_graph))
                    &&& old(stage_graph).stages@.len() <= final(stage_graph).stages@.len()
                },
            },
        decreases lop_key.id, 0nat, n,
    {
        if n == 0 {
            let keys: Vec<POPKey> = Vec::new();
            assert(key_ids(keys@) =~= Seq::<usize>::empty());
            return Ok(keys);
        }
        let mut keys = Self::compile_inputs(qgm, lop_graph, lop_key, n - 1, pop_graph, stage_graph, stage_id)?;
        let child = match Self::input_key(lop_graph, lop_key.id, n - 1) {
            Some(c) => c,
            None => {
                return Err(CompileFault::MalformedPlan.message());
            },
        };
        let ghost before = keys@;
        let ghost mid = *pop_graph;
        let ghost mid_stages = *stage_graph;
        let key = Self::compile_lop(qgm, lop_graph, LOPKey { id: child }, pop_graph, stage_graph, stage_id)?;
        keys.push(key);
        proof {
            assert(key_ids(keys@) =~= key_ids(before).push(key.id));
            assert forall|j: int| 0 <= j < keys@.len() implies pop_graph.has(#[trigger] keys@[j].id) by {
                if j < before.len() {
                    assert(mid.has(before[j].id));
                }
            }
            assert forall|s: int| old(stage_graph).stages@.len() <= s < stage_graph.stages@.len() implies #[trigger] stage_rooted(
                pop_graph,
                stage_graph,
                s,
            ) by {
                if s < mid_stages.stages@.len() {
                    assert(stage_rooted(&mid, &mid_stages, s));
                    assert(stage_graph.stages@[s] == mid_stages.stages@[s]);
                }
            }
        }
        Ok(keys)
    }

    /// Lowers the logical operator `lop_key` and everything below it into
    /// the plan, for a consumer in stage `stage_id`, and returns the key of
    /// the operator that the consumer reads from. Lowering stops at the
    /// first fault: the two graphs then hold what was lowered before it,
    /// and nothing else.
    #[verifier::rlimit(40)]
    pub fn compile_lop(
        qgm: &QGM,
        lop_graph: &LOPGraph,
        lop_key: LOPKey,
        pop_graph: &mut POPGraph,
        stage_graph: &mut StageGraph,
        stage_id: StageId,
    ) -> (res: Result<POPKey, String>)
        requires
            qgm.expr_graph.wf(),
            lop_graph.wf(),
            old(pop_graph).wf(),
            old(stage_graph).wf(),
            stage_id < old(stage_graph).stages@.len(),
            counts_bounded(plan_of(old(pop_graph), old(stage_graph))),
        ensures
            match res {
                Ok(key) => {
                    &&& lower(qgm, lop_graph, lop_key.id, plan_of(old(pop_graph), old(stage_graph)), stage_id) == Ok::<
                        (PlanView, usize),
                        CompileFault,
                    >((plan_of(final(pop_graph), final(stage_graph)), key.id))
                    &&& final(pop_graph).wf()
                    &&& final(stage_graph).wf()
                    &&& extends(old(pop_graph), final(pop_graph))
                    &&& old(stage_graph).stages@.len() <= final(stage_graph).stages@.len()
                    &&& counts_bounded(plan_of(final(pop_graph), final(stage_graph)))
                    &&& final(pop_graph).has(key.id)
                    &&& stages_grow(old(stage_graph), final(stage_graph), final(pop_graph), stage_id)
                },
                Err(e) => {
                    &&& lower(qgm, lop_graph, lop_key.id, plan_of(old(pop_graph), old(stage_graph)), stage_id) matches Err(
                        f,
                    ) && e@ == f.text()
                    &&& plan_of(final(pop_graph), final(stage_graph)) == left_by(
                        qgm,
                        lop_graph,
                        lop_key.id,
                        plan_of(old(pop_graph), old(stage_graph)),
                        stage_id,
                    )
                    &&& final(pop_graph).wf()
                    &&& final(stage_graph).wf()
                    &&& extends(old(pop_graph), final(pop_graph))
                    &&& old(stage_graph).stages@.len() <= final(stage_graph).stages@.len()
                },
            },
        decreases lop_key.id, 1nat, 0nat,
    {
        if lop_key.id >= lop_graph.len() {
            return Err(CompileFault::MalformedPlan.message());
        }
        let ghost plan0 = plan_of(pop_graph, stage_graph);
        let lop = lop_graph.get_value(lop_key.id);
        let shuffles = matches!(lop, LOP::Repartition { .. });
        let scans = matches!(lop, LOP::TableScan { .. });
        // Do we have a new stage?
        let effective_stage_id = if shuffles {
            stage_graph.add_stage(lop_key, Some(stage_id))
        } else {
            stage_id
        };
        let stage_link = StageLink(effective_stage_id, stage_id);
        // Compile children first
        let nchildren = match &lop_graph.get(lop_key.id).children {
            Some(c) => c.len(),
            None => 0,
        };
        let pop_children = Self::compile_inputs(
            qgm,
            lop_graph,
            lop_key,
            nchildren,
            pop_graph,
            stage_graph,
            effective_stage_id,
        )?;
        let ghost plan2 = plan_of(pop_graph, stage_graph);
        let ghost inputs = key_ids(pop_children@);
        let ghost graph2 = *pop_graph;
        let ghost stages2 = *stage_graph;
        let pop_key = match lop {
            LOP::TableScan { .. } => Self::compile_scan(qgm, lop_graph, lop_key, pop_graph)?,
            LOP::HashJoin { .. } => Self::compile_join(qgm, lop_graph, lop_key, pop_graph, pop_children)?,
            LOP::Repartition { .. } => Self::compile_repartition(
                qgm,
                lop_graph,
                lop_key,
                pop_graph,
                pop_children,
                stage_link,
            )?,
            LOP::Aggregation { .. } => Self::compile_aggregation(qgm, lop_graph, lop_key, pop_graph, pop_children)?,
        };
        let ghost node = lowered_node(qgm, lop_graph, lop_key.id, stage_link).unwrap();
        let ghost children = if scans {
            None
        } else {
            Some(inputs)
        };
        proof {
            assert(pop_views(pop_graph.nodes@).drop_last() =~= plan2.pops);
            assert(pop_views(pop_graph.nodes@) =~= plan2.pops.push(
                PopNodeView { value: node.0, props: node.1, children },
            ));
        }
        if shuffles {
            stage_graph.set_pop_key(pop_graph, effective_stage_id, pop_key);
        }
        // Assign indexes to POP, increment stage pop count
        Self::place(pop_graph, stage_graph, effective_stage_id, pop_key);
        let ghost plan3 = plan_of(pop_graph, stage_graph);
        let ghost graph3 = *pop_graph;
        let ghost stages3 = *stage_graph;
        proof {
            assert forall|k: int| 0 <= k < graph2.nodes@.len() implies graph3.nodes@[k] == graph2.nodes@[k] by {}
            assert forall|s: int| old(stage_graph).stages@.len() <= s < stages3.stages@.len() implies #[trigger] stage_rooted(
                &graph3,
                &stages3,
                s,
            ) by {
                if shuffles && s == effective_stage_id {
                } else {
                    assert(stage_rooted(&graph2, &stages2, s));
                    assert(stages3.stages@[s] == stages2.stages@[s]);
                }
            }
            assert(stages_grow(old(stage_graph), &stages3, &graph3, stage_id));
        }
        proof {
            let want = if shuffles {
                placed(
                    rooted(plan2, effective_stage_id as int, pop_key.id, node.1.npartitions),
                    node,
                    children,
                    effective_stage_id as int,
                )
            } else {
                placed(plan2, node, children, effective_stage_id as int)
            };
            assert(plan3.pops =~= want.pops);
            assert(plan3.stages =~= want.stages);
        }
        // Add the read side
        if shuffles {
            let mut above: Vec<POPKey> = Vec::new();
            above.push(pop_key);
            assert(key_ids(above@) =~= seq![pop_key.id]);
            let read_key = Self::compile_repartition_read(qgm, lop_graph, lop_key, pop_graph, above, stage_link)?;
            let ghost read = lowered_read(qgm, lop_graph, lop_key.id, stage_link).unwrap();
            proof {
                assert(pop_views(pop_graph.nodes@).drop_last() =~= plan3.pops);
            }
            Self::place(pop_graph, stage_graph, stage_id, read_key);
            proof {
                let want = placed(plan3, read, Some(seq![pop_key.id]), stage_id as int);
                let plan4 = plan_of(pop_graph, stage_graph);
                assert(plan4.pops =~= want.pops);
                assert(plan4.stages =~= want.stages);
                assert forall|k: int| 0 <= k < graph3.nodes@.len() implies pop_graph.nodes@[k] == graph3.nodes@[k] by {}
                assert forall|s: int| old(stage_graph).stages@.len() <= s < stage_graph.stages@.len() implies #[trigger] stage_rooted(
                    pop_graph,
                    stage_graph,
                    s,
                ) by {
                    assert(stage_rooted(&graph3, &stages3, s));
                    assert(stage_graph.stages@[s] == stages3.stages@[s]);
                }
            }
            return Ok(read_key);
        }
        Ok(pop_key)
    }
}

/// The plan before anything is lowered: no operators, and the root stage,
/// opened at the root of the logical plan.
pub open spec fn initial_plan(lop_key: LOPKey) -> PlanView {
    PlanView {
        pops: Seq::empty(),
        stages: seq![
            Stage {
                stage_id: 0,
                parent_stage_id: None,
                root_lop_key: lop_key,
                root_pop_key: None,
                npartitions: 0,
                pop_count: 0,
            },
        ],
    }
}

/// The physical plan of the logical plan under `lop_key`: everything
/// lowered into the root stage and the stages that repartitions open, and
/// the operator lowered last made the root of the root stage.
pub open spec fn compiled_plan(qgm: &QGM, lop_graph: &LOPGraph, lop_key: LOPKey) -> Result<PlanView, CompileFault> {
    match lower(qgm, lop_graph, lop_key.id, initial_plan(lop_key), 0) {
        Err(f) => Err(f),
        Ok((plan, root)) => Ok(rooted(plan, 0, root, plan.pops[root as int].props.npartitions)),
    }
}

impl POP {
    /// Compiles the logical plan under `lop_key` into a flow. Fails with the
    /// text of the first fault met; no flow is built then.
    pub fn compile(qgm: &QGM, lop_graph: &LOPGraph, lop_key: LOPKey) -> (res: Result<Flow, String>)
        requires
            qgm.expr_graph.wf(),
            lop_graph.wf(),
        ensures
            match res {
                Ok(flow) => {
                    &&& compiled_plan(qgm, lop_graph, lop_key) == Ok::<PlanView, CompileFault>(
                        plan_of(&flow.pop_graph, &flow.stage_graph),
                    )
                    &&& flow.wf()
                    &&& flow.id == 0
                },
                Err(e) => compiled_plan(qgm, lop_graph, lop_key) matches Err(f) && e@ == f.text(),
            },
    {
        // Build physical plan
        let mut pop_graph: POPGraph = POPGraph::new();
        let mut stage_graph = StageGraph::new();
        let root_stage_id = stage_graph.add_stage(lop_key, None);
        proof {
            assert(pop_views(pop_graph.nodes@) =~= Seq::<PopNodeView>::empty());
            assert(stage_graph.stages@ =~= initial_plan(lop_key).stages);
        }
        let root_pop_key = Self::compile_lop(qgm, lop_graph, lop_key, &mut pop_graph, &mut stage_graph, root_stage_id)?;
        let ghost lowered = stage_graph;
        stage_graph.set_pop_key(&pop_graph, root_stage_id, root_pop_key);
        // Build flow (POPs + Stages)
        let flow = Flow { id: 0, pop_graph, stage_graph };
        proof {
            assert forall|s: int| 0 <= s < flow.stage_graph.stages@.len() implies stage_rooted(
                &flow.pop_graph,
                &flow.stage_graph,
                s,
            ) by {
                if s > 0 {
                    assert(stage_rooted(&flow.pop_graph, &lowered, s));
                }
            }
        }
        Ok(flow)
    }
}

/// The two sides of a shuffle agree: where the write side and the read side
/// of a repartition can both be lowered, they are made for the same
/// shuffle, with the same schema, and the read side runs in as many
/// partitions as the write side writes for.
pub proof fn lemma_shuffle_sides_agree(qgm: &QGM, lop_graph: &LOPGraph, key: usize, link: StageLink)
    requires
        lowered_repartition(qgm, lop_graph, key, link) is Ok,
        lowered_read(qgm, lop_graph, key, link) is Ok,
    ensures
        lowered_repartition(qgm, lop_graph, key, link).unwrap().0 matches POPView::RepartitionWrite(w)
            && lowered_read(qgm, lop_graph, key, link).unwrap().0 matches POPView::RepartitionRead(r) && w.schema
            == r.schema && w.stage_link == r.stage_link && w.stage_link == link && w.cpartitions == lowered_read(
            qgm,
            lop_graph,
            key,
            link,
        ).unwrap().1.npartitions && w.cpartitions > 0,
{
}

} // verus!
