//! What every physical operator does to a chunk before handing it on: it
//! keeps the rows that satisfy its predicates, computes its virtual columns
//! and puts the columns in the order asked for.

use crate::chunk::{filter_chunk, rectangular, row_of, rows_of, Chunk, Column};
use crate::includes::ColId;
use crate::kernels::filtered;
use crate::pcode::{code_views, malformed_text, run_row, type_error_text, well_formed, PCode, PInstruction};
use crate::pop::{POPProps, POPPropsView};
use crate::row::DatumView;
use vstd::prelude::*;

verus! {

/// The program is true of the row.
pub open spec fn holds(code: Seq<PInstruction>, row: Seq<DatumView>) -> bool {
    run_row(code, row) == Some(DatumView::Bool(true))
}

/// The first `k` programs are true of the row.
pub open spec fn first_hold(preds: Seq<Seq<PInstruction>>, k: int, row: Seq<DatumView>) -> bool {
    forall|p: int| 0 <= p < k ==> holds(#[trigger] preds[p], row)
}

/// The program has a boolean value on every row of the batch.
pub open spec fn bool_valued(code: Seq<PInstruction>, columns: Seq<Seq<DatumView>>) -> bool {
    forall|i: int| 0 <= i < rows_of(columns) ==> (#[trigger] run_row(code, row_of(columns, i))) matches Some(DatumView::Bool(_))
}

/// The program has a value on every row of the batch.
pub open spec fn valued(code: Seq<PInstruction>, columns: Seq<Seq<DatumView>>) -> bool {
    forall|i: int| 0 <= i < rows_of(columns) ==> (#[trigger] run_row(code, row_of(columns, i))) is Some
}

/// Every program of the list has a boolean value on every row.
pub open spec fn all_bool_valued(preds: Seq<Seq<PInstruction>>, columns: Seq<Seq<DatumView>>) -> bool {
    forall|p: int| 0 <= p < preds.len() ==> bool_valued(#[trigger] preds[p], columns)
}

/// Every program of the list has a value on every row.
pub open spec fn all_valued(codes: Seq<Seq<PInstruction>>, columns: Seq<Seq<DatumView>>) -> bool {
    forall|k: int| 0 <= k < codes.len() ==> valued(#[trigger] codes[k], columns)
}

/// Every program of the list is well formed.
pub open spec fn all_well_formed(codes: Seq<Seq<PInstruction>>) -> bool {
    forall|k: int| 0 <= k < codes.len() ==> well_formed(#[trigger] codes[k])
}

/// For each row of the batch, whether all predicates are true of it.
pub open spec fn predicate_mask(preds: Seq<Seq<PInstruction>>, columns: Seq<Seq<DatumView>>) -> Seq<bool> {
    Seq::new(rows_of(columns), |i: int| first_hold(preds, preds.len() as int, row_of(columns, i)))
}

/// The values of a program on the rows of a batch.
pub open spec fn computed(code: Seq<PInstruction>, columns: Seq<Seq<DatumView>>) -> Seq<DatumView> {
    Seq::new(rows_of(columns), |i: int| run_row(code, row_of(columns, i)).unwrap())
}

/// The programs of an optional list, none when there is no list.
pub open spec fn programs(list: Option<Seq<Seq<PInstruction>>>) -> Seq<Seq<PInstruction>> {
    match list {
        Some(l) => l,
        None => Seq::empty(),
    }
}

/// The rows that pass the predicates, column by column.
pub open spec fn kept_columns(props: POPPropsView, columns: Seq<Seq<DatumView>>) -> Seq<Seq<DatumView>> {
    match props.predicates {
        Some(preds) => Seq::new(columns.len(), |c: int| filtered(columns[c], predicate_mask(preds, columns))),
        None => columns,
    }
}

/// Every position of the list names a column of a batch of `width` columns.
pub open spec fn in_range(cols: Option<Seq<ColId>>, width: nat) -> bool {
    match cols {
        Some(c) => forall|j: int| 0 <= j < c.len() ==> #[trigger] c[j] < width,
        None => true,
    }
}

/// Why properties cannot be applied to a batch, if they cannot: a program
/// is malformed; or a position is out of range; or a predicate has no
/// boolean value on some row, or a virtual column no value on some row that
/// passes the predicates.
pub open spec fn apply_fault(props: POPPropsView, columns: Seq<Seq<DatumView>>) -> Option<Seq<char>> {
    if !all_well_formed(programs(props.predicates)) || !all_well_formed(programs(props.virtcols)) {
        Some(malformed_text())
    } else if !in_range(props.cols, columns.len()) {
        Some(column_range_text())
    } else if !all_bool_valued(programs(props.predicates), columns) || !all_valued(
        programs(props.virtcols),
        kept_columns(props, columns),
    ) {
        Some(type_error_text())
    } else {
        None
    }
}

/// The batch that an operator hands on for the batch `columns` it
/// produced: of the rows that satisfy all predicates, the columns listed in
/// `cols` in that order (all columns where there is no list), followed by
/// the virtual columns, each computed from the kept rows.
pub open spec fn applied(props: POPPropsView, columns: Seq<Seq<DatumView>>) -> Seq<Seq<DatumView>> {
    let kept = kept_columns(props, columns);
    let chosen = match props.cols {
        Some(c) => Seq::new(c.len(), |j: int| kept[c[j] as int]),
        None => kept,
    };
    let virt = programs(props.virtcols);
    chosen + Seq::new(virt.len(), |k: int| computed(virt[k], kept))
}

/// Text of the error for a column position beyond the batch.
pub open spec fn column_range_text() -> Seq<char> {
    "Operator: column position out of range"@
}

/// Whether every program of the list is well formed.
pub(crate) fn codes_well_formed(codes: &Vec<PCode>) -> (ok: bool)
    ensures
        ok == all_well_formed(code_views(codes@)),
{
    let mut k: usize = 0;
    while k < codes.len()
        invariant
            k <= codes@.len(),
            forall|j: int| 0 <= j < k ==> well_formed(#[trigger] code_views(codes@)[j]),
        decreases codes@.len() - k,
    {
        if !codes[k].is_well_formed() {
            assert(!well_formed(code_views(codes@)[k as int]));
            return false;
        }
        k += 1;
    }
    true
}

/// Whether every program of the list is well formed.
fn programs_well_formed(codes: &Option<Vec<PCode>>) -> (ok: bool)
    ensures
        ok == all_well_formed(programs(crate::pcode::codes_of(*codes))),
{
    match codes {
        None => true,
        Some(list) => {
            let mut k: usize = 0;
            while k < list.len()
                invariant
                    k <= list@.len(),
                    *codes == Some(*list),
                    forall|j: int| 0 <= j < k ==> well_formed(#[trigger] code_views(list@)[j]),
                decreases list@.len() - k,
            {
                if !list[k].is_well_formed() {
                    assert(programs(crate::pcode::codes_of(*codes)) == code_views(list@));
                    assert(!well_formed(code_views(list@)[k as int]));
                    return false;
                }
                k += 1;
            }
            true
        },
    }
}

/// For each row of `chunk`, whether all predicates are true of it; `None`
/// when a predicate has no boolean value on some row.
fn mask_of(preds: &Vec<PCode>, chunk: &Chunk) -> (res: Option<Vec<bool>>)
    requires
        chunk.wf(),
        all_well_formed(code_views(preds@)),
    ensures
        res is Some <==> all_bool_valued(code_views(preds@), chunk@),
        res matches Some(mask) ==> mask@ == predicate_mask(code_views(preds@), chunk@),
{
    let n = chunk.len();
    let ghost codes = code_views(preds@);
    let mut mask: Vec<bool> = Vec::new();
    let mut i: usize = 0;
    while i < n
        invariant
            i <= n,
            mask@.len() == i,
            forall|k: int| 0 <= k < i ==> #[trigger] mask@[k] == true,
        decreases n - i,
    {
        mask.push(true);
        i += 1;
    }
    let mut p: usize = 0;
    while p < preds.len()
        invariant
            chunk.wf(),
            n == chunk.spec_len(),
            codes == code_views(preds@),
            all_well_formed(codes),
            p <= preds@.len(),
            mask@.len() == n,
            forall|q: int| 0 <= q < p ==> bool_valued(#[trigger] codes[q], chunk@),
            forall|k: int| 0 <= k < n ==> #[trigger] mask@[k] == first_hold(codes, p as int, chunk.row(k)),
        decreases preds@.len() - p,
    {
        assert(well_formed(codes[p as int]));
        assert(codes[p as int] == preds@[p as int]@);
        let column = match preds[p].eval(chunk) {
            Ok(c) => c,
            Err(_) => {
                proof {
                    let i = choose|i: int|
                        0 <= i < chunk.spec_len() && !((#[trigger] run_row(preds@[p as int]@, chunk.row(i))) is Some);
                    assert(run_row(codes[p as int], row_of(chunk@, i)) is None);
                }
                return None;
            },
        };
        let ghost before = mask@;
        match column {
            Column::Bool(v) => {
                let mut next: Vec<bool> = Vec::new();
                let mut k: usize = 0;
                while k < n
                    invariant
                        k <= n,
                        n == chunk.spec_len(),
                        mask@.len() == n,
                        v@.len() == n,
                        next@.len() == k,
                        forall|j: int| 0 <= j < k ==> #[trigger] next@[j] == (mask@[j] && v@[j]),
                    decreases n - k,
                {
                    next.push(mask[k] && v[k]);
                    k += 1;
                }
                mask = next;
                proof {
                    assert forall|k: int| 0 <= k < n implies #[trigger] mask@[k] == first_hold(
                        codes,
                        p + 1,
                        chunk.row(k),
                    ) by {
                        assert(run_row(codes[p as int], chunk.row(k)) == Some(column@[k]));
                        assert(before[k] == first_hold(codes, p as int, chunk.row(k)));
                        if first_hold(codes, p + 1, chunk.row(k)) {
                            assert(holds(codes[p as int], chunk.row(k)));
                            assert(first_hold(codes, p as int, chunk.row(k)));
                        }
                    }
                    assert(bool_valued(codes[p as int], chunk@)) by {
                        assert forall|i: int| 0 <= i < rows_of(chunk@) implies (#[trigger] run_row(
                            codes[p as int],
                            row_of(chunk@, i),
                        )) matches Some(DatumView::Bool(_)) by {
                            assert(run_row(codes[p as int], chunk.row(i)) == Some(column@[i]));
                        }
                    }
                }
            },
            _ => {
                if n > 0 {
                    proof {
                        assert(run_row(codes[p as int], chunk.row(0)) == Some(column@[0]));
                        assert(!bool_valued(codes[p as int], chunk@));
                    }
                    return None;
                }
                assert(bool_valued(codes[p as int], chunk@));
                assert forall|k: int| 0 <= k < n implies #[trigger] mask@[k] == first_hold(codes, p + 1, chunk.row(k)) by {}
            },
        }
        p += 1;
    }
    assert(mask@ =~= predicate_mask(codes, chunk@));
    Some(mask)
}

/// The values of every program on the rows of `chunk`; `None` when a
/// program has no value on some row.
pub(crate) fn compute_columns(codes: &Vec<PCode>, chunk: &Chunk) -> (res: Option<Vec<Column>>)
    requires
        chunk.wf(),
        all_well_formed(code_views(codes@)),
    ensures
        res is Some <==> all_valued(code_views(codes@), chunk@),
        res matches Some(cols) ==> cols@.len() == codes@.len() && forall|k: int|
            0 <= k < codes@.len() ==> (#[trigger] cols@[k])@ == computed(code_views(codes@)[k], chunk@),
{
    let ghost views = code_views(codes@);
    let mut cols: Vec<Column> = Vec::new();
    let mut k: usize = 0;
    while k < codes.len()
        invariant
            chunk.wf(),
            views == code_views(codes@),
            all_well_formed(views),
            k <= codes@.len(),
            cols@.len() == k,
            forall|j: int| 0 <= j < k ==> valued(#[trigger] views[j], chunk@),
            forall|j: int| 0 <= j < k ==> (#[trigger] cols@[j])@ == computed(views[j], chunk@),
        decreases codes@.len() - k,
    {
        assert(well_formed(views[k as int]));
        match codes[k].eval(chunk) {
            Ok(c) => {
                proof {
                    assert(views[k as int] == codes@[k as int]@);
                    assert forall|i: int| 0 <= i < rows_of(chunk@) implies (#[trigger] run_row(
                        views[k as int],
                        row_of(chunk@, i),
                    )) is Some by {
                        assert(run_row(codes@[k as int]@, chunk.row(i)) is Some);
                    }
                    assert(c@ =~= computed(views[k as int], chunk@)) by {
                        assert forall|i: int| 0 <= i < rows_of(chunk@) implies c@[i] == computed(
                            views[k as int],
                            chunk@,
                        )[i] by {
                            assert(run_row(codes@[k as int]@, chunk.row(i)) == Some(c@[i]));
                        }
                    }
                }
                cols.push(c);
            },
            Err(_) => {
                proof {
                    assert(views[k as int] == codes@[k as int]@);
                    let i = choose|i: int|
                        0 <= i < chunk.spec_len() && !((#[trigger] run_row(codes@[k as int]@, chunk.row(i))) is Some);
                    assert(run_row(views[k as int], row_of(chunk@, i)) is None);
                }
                return None;
            },
        }
        k += 1;
    }
    Some(cols)
}

impl POPProps {
    /// Applies predicates, virtual columns and column order to `chunk`.
    pub fn apply(&self, chunk: &Chunk) -> (res: Result<Chunk, String>)
        requires
            chunk.wf(),
        ensures
            match res {
                Ok(out) => apply_fault(self@, chunk@) is None && out@ == applied(self@, chunk@) && out.wf(),
                Err(e) => apply_fault(self@, chunk@) == Some(e@),
            },
    {
        if !programs_well_formed(&self.predicates) || !programs_well_formed(&self.virtcols) {
            return Err(String::from_str("PCode: malformed program"));
        }
        let width = chunk.width();
        if let Some(cols) = &self.cols {
            let mut j: usize = 0;
            while j < cols.len()
                invariant
                    j <= cols@.len(),
                    width == chunk@.len(),
                    self.cols == Some(*cols),
                    all_well_formed(programs(self@.predicates)),
                    all_well_formed(programs(self@.virtcols)),
                    forall|k: int| 0 <= k < j ==> #[trigger] cols@[k] < width,
                decreases cols@.len() - j,
            {
                if cols[j] >= width {
                    assert(!(self@.cols.unwrap()[j as int] < chunk@.len()));
                    return Err(String::from_str("Operator: column position out of range"));
                }
                j += 1;
            }
        }
        // Rows that satisfy the predicates.
        let kept = match &self.predicates {
            Some(preds) => {
                let mask = match mask_of(preds, chunk) {
                    Some(m) => m,
                    None => {
                        return Err(String::from_str("PCode: runtime type error"));
                    },
                };
                match filter_chunk(chunk, &mask) {
                    Ok(kept) => {
                        assert(kept@ =~= kept_columns(self@, chunk@));
                        kept
                    },
                    Err(e) => {
                        return Err(e);
                    },
                }
            },
            None => chunk.clone(),
        };
        assert(kept@ == kept_columns(self@, chunk@));
        assert(rectangular(kept@));
        let ghost virt = programs(self@.virtcols);
        let virtual_columns = match &self.virtcols {
            Some(codes) => match compute_columns(codes, &kept) {
                Some(v) => v,
                None => {
                    return Err(String::from_str("PCode: runtime type error"));
                },
            },
            None => Vec::new(),
        };
        assert(virtual_columns@.len() == virt.len());
        let mut arrays: Vec<Column> = Vec::new();
        match &self.cols {
            Some(cols) => {
                let mut j: usize = 0;
                while j < cols.len()
                    invariant
                        j <= cols@.len(),
                        kept@.len() == width,
                        forall|k: int| 0 <= k < cols@.len() ==> #[trigger] cols@[k] < width,
                        arrays@.len() == j,
                        forall|k: int| 0 <= k < j ==> (#[trigger] arrays@[k])@ == kept@[cols@[k] as int],
                    decreases cols@.len() - j,
                {
                    arrays.push(kept.arrays[cols[j]].clone());
                    j += 1;
                }
            },
            None => {
                let mut c: usize = 0;
                while c < kept.arrays.len()
                    invariant
                        c <= kept.arrays@.len(),
                        arrays@.len() == c,
                        forall|k: int| 0 <= k < c ==> (#[trigger] arrays@[k])@ == kept@[k],
                    decreases kept.arrays@.len() - c,
                {
                    arrays.push(kept.arrays[c].clone());
                    c += 1;
                }
            },
        }
        let ghost chosen = arrays@;
        let mut virtual_columns = virtual_columns;
        let ghost computed_columns = virtual_columns@;
        arrays.append(&mut virtual_columns);
        let out = Chunk { arrays };
        proof {
            assert(out.arrays@ =~= chosen + computed_columns);
            assert(out@ =~= applied(self@, chunk@));
            assert forall|c: int| 0 <= c < out@.len() implies (#[trigger] out@[c]).len() == rows_of(kept@) by {
                if c < chosen.len() {
                    match self.cols {
                        Some(cols) => {
                            assert(out@[c] == kept@[cols@[c] as int]);
                        },
                        None => {
                            assert(out@[c] == kept@[c]);
                        },
                    }
                }
            }
        }
        Ok(out)
    }
}

} // verus!
