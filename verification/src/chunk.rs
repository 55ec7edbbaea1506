//! Columnar batches: typed arrays of equal length.

use crate::kernels::{
    bool_hash, count_true, filter_bools, filter_ints, filter_strs, filtered, hash_bools, hash_ints, hash_strs, int_hash,
    lemma_filtered_len, lemma_filtered_map, str_hash,
};
use crate::row::{datum_views, DataType, Datum, DatumView};
use crate::text::string_views;
use vstd::prelude::*;

verus! {

/// A typed array. `Null(n)` is an array of `n` NULLs.
#[derive(Debug, PartialEq, Eq)]
pub enum Column {
    Int(Vec<i64>),
    Str(Vec<String>),
    Bool(Vec<bool>),
    Null(usize),
}

impl View for Column {
    type V = Seq<DatumView>;

    open spec fn view(&self) -> Seq<DatumView> {
        match self {
            Column::Int(v) => Seq::new(v@.len(), |i: int| DatumView::Int(v@[i] as int)),
            Column::Str(v) => Seq::new(v@.len(), |i: int| DatumView::Str(v@[i]@)),
            Column::Bool(v) => Seq::new(v@.len(), |i: int| DatumView::Bool(v@[i])),
            Column::Null(n) => Seq::new(*n as nat, |i: int| DatumView::Null),
        }
    }
}

impl Clone for Column {
    fn clone(&self) -> (res: Self)
        ensures
            res@ == self@,
            res.data_type() == self.data_type(),
    {
        match self {
            Column::Int(v) => {
                let w = v.clone();
                assert(w@ =~= v@);
                Column::Int(w)
            },
            Column::Str(v) => {
                let w = v.clone();
                assert(w@ =~= v@);
                Column::Str(w)
            },
            Column::Bool(v) => {
                let w = v.clone();
                assert(w@ =~= v@);
                Column::Bool(w)
            },
            Column::Null(n) => Column::Null(*n),
        }
    }
}

impl Column {
    /// The type of the elements.
    pub open spec fn data_type(&self) -> DataType {
        match self {
            Column::Int(_) => DataType::INT,
            Column::Str(_) => DataType::STR,
            Column::Bool(_) => DataType::BOOL,
            Column::Null(_) => DataType::NULL,
        }
    }

    /// Number of elements.
    pub fn len(&self) -> (n: usize)
        ensures
            n == self@.len(),
    {
        match self {
            Column::Int(v) => v.len(),
            Column::Str(v) => v.len(),
            Column::Bool(v) => v.len(),
            Column::Null(n) => *n,
        }
    }

    /// The element at position `i`.
    pub fn get(&self, i: usize) -> (d: Datum)
        requires
            i < self@.len(),
        ensures
            d@ == self@[i as int],
    {
        match self {
            Column::Int(v) => Datum::INT(v[i]),
            Column::Str(v) => Datum::STR(v[i].clone()),
            Column::Bool(v) => Datum::BOOL(v[i]),
            Column::Null(_) => Datum::NULL,
        }
    }

    /// An array of `n` copies of `d`.
    pub fn repeat(d: &Datum, n: usize) -> (col: Column)
        ensures
            col@ == Seq::new(n as nat, |i: int| d@),
            col.data_type() == d@.data_type(),
    {
        match d {
            Datum::INT(x) => {
                let mut v: Vec<i64> = Vec::new();
                let mut i: usize = 0;
                while i < n
                    invariant
                        i <= n,
                        v@.len() == i,
                        forall|j: int| 0 <= j < i ==> v@[j] == *x,
                    decreases n - i,
                {
                    v.push(*x);
                    i += 1;
                }
                let col = Column::Int(v);
                assert(col@ =~= Seq::new(n as nat, |i: int| d@));
                col
            },
            Datum::STR(s) => {
                let mut v: Vec<String> = Vec::new();
                let mut i: usize = 0;
                while i < n
                    invariant
                        i <= n,
                        v@.len() == i,
                        forall|j: int| 0 <= j < i ==> v@[j]@ == s@,
                    decreases n - i,
                {
                    v.push(s.clone());
                    i += 1;
                }
                let col = Column::Str(v);
                assert(col@ =~= Seq::new(n as nat, |i: int| d@));
                col
            },
            Datum::BOOL(b) => {
                let mut v: Vec<bool> = Vec::new();
                let mut i: usize = 0;
                while i < n
                    invariant
                        i <= n,
                        v@.len() == i,
                        forall|j: int| 0 <= j < i ==> v@[j] == *b,
                    decreases n - i,
                {
                    v.push(*b);
                    i += 1;
                }
                let col = Column::Bool(v);
                assert(col@ =~= Seq::new(n as nat, |i: int| d@));
                col
            },
            Datum::NULL => {
                let col = Column::Null(n);
                assert(col@ =~= Seq::new(n as nat, |i: int| d@));
                col
            },
        }
    }
}

/// The values of the arrays of a chunk, column by column.
pub open spec fn column_views(arrays: Seq<Column>) -> Seq<Seq<DatumView>> {
    Seq::new(arrays.len(), |c: int| arrays[c]@)
}

/// A row batch: arrays of identical length, one per column.
#[derive(Debug, PartialEq, Eq)]
pub struct Chunk {
    pub arrays: Vec<Column>,
}

impl View for Chunk {
    type V = Seq<Seq<DatumView>>;

    open spec fn view(&self) -> Seq<Seq<DatumView>> {
        column_views(self.arrays@)
    }
}

/// Number of rows of a batch given by its columns: the length of the first
/// column, zero when there is none.
pub open spec fn rows_of(columns: Seq<Seq<DatumView>>) -> nat {
    if columns.len() == 0 {
        0
    } else {
        columns[0].len()
    }
}

/// Row `i` of a batch given by its columns.
pub open spec fn row_of(columns: Seq<Seq<DatumView>>, i: int) -> Seq<DatumView> {
    Seq::new(columns.len(), |c: int| columns[c][i])
}

/// All columns have the same length.
pub open spec fn rectangular(columns: Seq<Seq<DatumView>>) -> bool {
    forall|c: int| 0 <= c < columns.len() ==> (#[trigger] columns[c]).len() == rows_of(columns)
}

impl Chunk {
    /// All arrays have the same length.
    pub open spec fn wf(&self) -> bool {
        rectangular(self@)
    }

    /// Number of rows.
    pub open spec fn spec_len(&self) -> nat {
        rows_of(self@)
    }

    /// Row `i`, as the values at position `i` of every column.
    pub open spec fn row(&self, i: int) -> Seq<DatumView> {
        row_of(self@, i)
    }

    /// The chunk without columns, which has no rows: the end of a stream.
    pub fn empty() -> (chunk: Chunk)
        ensures
            chunk.wf(),
            chunk@.len() == 0,
            chunk.spec_len() == 0,
    {
        Chunk { arrays: Vec::new() }
    }

    /// A chunk of the given arrays, or `None` when their lengths differ.
    pub fn try_new(arrays: Vec<Column>) -> (res: Option<Chunk>)
        ensures
            res is Some <==> rectangular(column_views(arrays@)),
            res is Some ==> res.unwrap().arrays == arrays,
    {
        if arrays.len() > 0 {
            let n = arrays[0].len();
            let mut c: usize = 1;
            while c < arrays.len()
                invariant
                    1 <= c <= arrays.len(),
                    n == arrays@[0]@.len(),
                    forall|k: int| 0 <= k < c ==> (#[trigger] arrays@[k])@.len() == n,
                decreases arrays.len() - c,
            {
                if arrays[c].len() != n {
                    assert(column_views(arrays@)[c as int].len() != rows_of(column_views(arrays@)));
                    return None;
                }
                c += 1;
            }
        }
        Some(Chunk { arrays })
    }

    /// A chunk of the given arrays, which must have equal lengths.
    pub fn new(arrays: Vec<Column>) -> (chunk: Chunk)
        requires
            rectangular(column_views(arrays@)),
        ensures
            chunk.arrays == arrays,
            chunk.wf(),
    {
        Chunk { arrays }
    }

    /// Number of rows.
    pub fn len(&self) -> (n: usize)
        ensures
            n == self.spec_len(),
    {
        if self.arrays.len() == 0 {
            0
        } else {
            self.arrays[0].len()
        }
    }

    /// Number of columns.
    pub fn width(&self) -> (n: usize)
        ensures
            n == self@.len(),
    {
        self.arrays.len()
    }

    /// The arrays, one per column.
    pub fn columns(&self) -> (arrays: &Vec<Column>)
        ensures
            *arrays == self.arrays,
    {
        &self.arrays
    }
}

impl Clone for Chunk {
    fn clone(&self) -> (res: Self)
        ensures
            res@ == self@,
    {
        let mut arrays: Vec<Column> = Vec::new();
        let mut c: usize = 0;
        while c < self.arrays.len()
            invariant
                c <= self.arrays.len(),
                arrays@.len() == c,
                forall|k: int| 0 <= k < c ==> (#[trigger] arrays@[k])@ == self.arrays@[k]@,
            decreases self.arrays.len() - c,
        {
            arrays.push(self.arrays[c].clone());
            c += 1;
        }
        let res = Chunk { arrays };
        assert(res@ =~= self@);
        res
    }
}

/// Name and type of one column.
#[derive(Debug, PartialEq, Eq)]
pub struct Field {
    pub name: String,
    pub data_type: DataType,
}

impl Clone for Field {
    fn clone(&self) -> (res: Self)
        ensures
            res == *self,
    {
        Field { name: self.name.clone(), data_type: self.data_type }
    }
}

/// Names and types of the columns of a stream of chunks.
#[derive(Debug, PartialEq, Eq)]
pub struct Schema {
    pub fields: Vec<Field>,
}

impl Clone for Schema {
    fn clone(&self) -> (res: Self)
        ensures
            res.fields@ == self.fields@,
    {
        let fields = self.fields.clone();
        assert(fields@ =~= self.fields@);
        Schema { fields }
    }
}

impl Schema {
    /// The schema of the given fields.
    pub fn new(fields: Vec<Field>) -> (schema: Schema)
        ensures
            schema.fields == fields,
    {
        Schema { fields }
    }

}

impl View for Field {
    type V = (Seq<char>, DataType);

    open spec fn view(&self) -> (Seq<char>, DataType) {
        (self.name@, self.data_type)
    }
}

/// Name and type of each field of a list.
pub open spec fn field_views(fields: Seq<Field>) -> Seq<(Seq<char>, DataType)> {
    Seq::new(fields.len(), |i: int| fields[i]@)
}

impl View for Schema {
    type V = Seq<(Seq<char>, DataType)>;

    open spec fn view(&self) -> Seq<(Seq<char>, DataType)> {
        field_views(self.fields@)
    }
}

/// The hash of NULL.
pub const NULL_HASH: u64 = 0;

/// The 64-bit hash of a scalar: that of its value among the values of its
/// type, and a fixed number for NULL.
pub open spec fn datum_hash(d: DatumView) -> u64 {
    match d {
        DatumView::Int(v) => int_hash(v as i64),
        DatumView::Str(s) => str_hash(s),
        DatumView::Bool(b) => bool_hash(b),
        DatumView::Null => NULL_HASH,
    }
}

/// A constant sequence filtered is a constant sequence.
proof fn lemma_filtered_const<T>(n: nat, v: T, mask: Seq<bool>)
    requires
        mask.len() == n,
    ensures
        filtered(Seq::new(n, |i: int| v), mask) == Seq::new(count_true(mask), |i: int| v),
    decreases n,
{
    let values = Seq::new(n, |i: int| v);
    if n > 0 {
        lemma_filtered_const((n - 1) as nat, v, mask.drop_last());
        assert(values.drop_last() =~= Seq::new((n - 1) as nat, |i: int| v));
        assert(filtered(values, mask) =~= Seq::new(count_true(mask), |i: int| v));
    } else {
        assert(filtered(values, mask) =~= Seq::new(count_true(mask), |i: int| v));
    }
}

impl Column {
    /// The hash of every element.
    pub fn hash(&self) -> (hashes: Vec<u64>)
        ensures
            hashes@.len() == self@.len(),
            forall|i: int| 0 <= i < self@.len() ==> #[trigger] hashes@[i] == datum_hash(self@[i]),
    {
        match self {
            Column::Int(v) => hash_ints(v),
            Column::Str(v) => hash_strs(v),
            Column::Bool(v) => hash_bools(v),
            Column::Null(n) => {
                let mut hashes: Vec<u64> = Vec::new();
                let mut i: usize = 0;
                while i < *n
                    invariant
                        i <= *n,
                        hashes@.len() == i,
                        forall|k: int| 0 <= k < i ==> #[trigger] hashes@[k] == NULL_HASH,
                    decreases *n - i,
                {
                    hashes.push(NULL_HASH);
                    i += 1;
                }
                hashes
            },
        }
    }

    /// The elements at the positions where `mask` is true, in order.
    pub fn filter(&self, mask: &Vec<bool>) -> (kept: Column)
        requires
            self@.len() == mask@.len(),
        ensures
            kept@ == filtered(self@, mask@),
            kept.data_type() == self.data_type(),
    {
        match self {
            Column::Int(v) => {
                let kept = Column::Int(filter_ints(v, mask));
                proof {
                    let f = |x: i64| DatumView::Int(x as int);
                    lemma_filtered_map(v@, mask@, f);
                    assert(self@ =~= v@.map_values(f));
                    assert(kept@ =~= filtered(v@, mask@).map_values(f));
                }
                kept
            },
            Column::Str(v) => {
                let w = filter_strs(v, mask);
                let kept = Column::Str(w);
                proof {
                    let f = |s: Seq<char>| DatumView::Str(s);
                    lemma_filtered_map(string_views(v@), mask@, f);
                    assert(self@ =~= string_views(v@).map_values(f));
                    assert(kept@ =~= string_views(w@).map_values(f));
                }
                kept
            },
            Column::Bool(v) => {
                let kept = Column::Bool(filter_bools(v, mask));
                proof {
                    let f = |x: bool| DatumView::Bool(x);
                    lemma_filtered_map(v@, mask@, f);
                    assert(self@ =~= v@.map_values(f));
                    assert(kept@ =~= filtered(v@, mask@).map_values(f));
                }
                kept
            },
            Column::Null(n) => {
                let mut count: usize = 0;
                let mut i: usize = 0;
                while i < mask.len()
                    invariant
                        i <= mask@.len(),
                        count == count_true(mask@.take(i as int)),
                        count <= i,
                    decreases mask@.len() - i,
                {
                    proof {
                        assert(mask@.take(i + 1).drop_last() =~= mask@.take(i as int));
                    }
                    if mask[i] {
                        count += 1;
                    }
                    i += 1;
                }
                proof {
                    assert(mask@.take(i as int) =~= mask@);
                    lemma_filtered_const(*n as nat, DatumView::Null, mask@);
                }
                Column::Null(count)
            },
        }
    }
}

/// The rows of a batch given by its columns.
pub open spec fn chunk_rows(columns: Seq<Seq<DatumView>>) -> Seq<Seq<DatumView>> {
    Seq::new(rows_of(columns), |i: int| row_of(columns, i))
}

/// Filtering every column of a batch by one mask filters its rows by it.
pub proof fn lemma_filter_rows(columns: Seq<Seq<DatumView>>, kept: Seq<Seq<DatumView>>, mask: Seq<bool>)
    requires
        rectangular(columns),
        mask.len() == rows_of(columns),
        kept.len() == columns.len(),
        forall|c: int| 0 <= c < columns.len() ==> #[trigger] kept[c] == filtered(columns[c], mask),
    ensures
        rectangular(kept),
        rows_of(kept) == count_true(mask),
        chunk_rows(kept) == filtered(chunk_rows(columns), mask),
    decreases mask.len(),
{
    assert forall|c: int| 0 <= c < kept.len() implies (#[trigger] kept[c]).len() == count_true(mask) by {
        lemma_filtered_len(columns[c], mask);
    }
    if columns.len() == 0 {
        assert(chunk_rows(kept) =~= filtered(chunk_rows(columns), mask));
    } else if mask.len() == 0 {
        assert(chunk_rows(kept) =~= filtered(chunk_rows(columns), mask));
    } else {
        let shorter = Seq::new(columns.len(), |c: int| columns[c].drop_last());
        let kept_shorter = Seq::new(columns.len(), |c: int| filtered(columns[c].drop_last(), mask.drop_last()));
        lemma_filter_rows(shorter, kept_shorter, mask.drop_last());
        let rows = chunk_rows(columns);
        assert(rows.drop_last() =~= chunk_rows(shorter)) by {
            assert forall|i: int| 0 <= i < rows.len() - 1 implies rows[i] =~= chunk_rows(shorter)[i] by {}
        }
        let n = mask.len() as int;
        if mask.last() {
            assert(chunk_rows(kept) =~= chunk_rows(kept_shorter).push(rows.last())) by {
                assert forall|i: int| 0 <= i < count_true(mask) implies chunk_rows(kept)[i] =~= chunk_rows(
                    kept_shorter,
                ).push(rows.last())[i] by {
                    assert forall|c: int| 0 <= c < columns.len() implies chunk_rows(kept)[i][c] == chunk_rows(
                        kept_shorter,
                    ).push(rows.last())[i][c] by {
                        assert(kept[c] == kept_shorter[c].push(columns[c].last()));
                        lemma_filtered_len(columns[c].drop_last(), mask.drop_last());
                    }
                }
            }
        } else {
            assert(chunk_rows(kept) =~= chunk_rows(kept_shorter)) by {
                assert(kept =~= kept_shorter);
            }
        }
    }
}

/// Text of the error for a mask that has not one entry per row.
pub open spec fn mask_length_text() -> Seq<char> {
    "Filter: the mask must have one entry per row"@
}

/// The rows of `chunk` at the positions where `mask` is true, in order.
/// Fails when the mask has not one entry per row.
pub fn filter_chunk(chunk: &Chunk, mask: &Vec<bool>) -> (res: Result<Chunk, String>)
    requires
        chunk.wf(),
    ensures
        res is Ok <==> mask@.len() == chunk.spec_len(),
        res matches Ok(kept) ==> {
            &&& kept.wf()
            &&& kept@.len() == chunk@.len()
            &&& forall|c: int| 0 <= c < chunk@.len() ==> #[trigger] kept@[c] == filtered(chunk@[c], mask@)
            &&& forall|c: int|
                0 <= c < chunk@.len() ==> (#[trigger] kept.arrays@[c]).data_type() == chunk.arrays@[c].data_type()
            &&& chunk_rows(kept@) == filtered(chunk_rows(chunk@), mask@)
            &&& kept.spec_len() == count_true(mask@)
        },
        res matches Err(e) ==> e@ == mask_length_text(),
{
    if mask.len() != chunk.len() {
        return Err(String::from_str("Filter: the mask must have one entry per row"));
    }
    let mut arrays: Vec<Column> = Vec::new();
    let mut c: usize = 0;
    while c < chunk.arrays.len()
        invariant
            chunk.wf(),
            mask@.len() == chunk.spec_len(),
            c <= chunk.arrays@.len(),
            arrays@.len() == c,
            forall|k: int| 0 <= k < c ==> (#[trigger] arrays@[k])@ == filtered(chunk@[k], mask@),
            forall|k: int| 0 <= k < c ==> (#[trigger] arrays@[k]).data_type() == chunk.arrays@[k].data_type(),
        decreases chunk.arrays@.len() - c,
    {
        assert(chunk@[c as int].len() == rows_of(chunk@));
        arrays.push(chunk.arrays[c].filter(mask));
        c += 1;
    }
    let kept = Chunk { arrays };
    proof {
        lemma_filter_rows(chunk@, kept@, mask@);
    }
    Ok(kept)
}

/// Whether every value of the list has type `t`.
pub open spec fn all_of_type(values: Seq<DatumView>, t: DataType) -> bool {
    forall|i: int| 0 <= i < values.len() ==> (#[trigger] values[i]).data_type() == t
}

impl Column {
    /// The array of the given values, which must be of one type; `None`
    /// when they are not. No values give an array of no NULLs.
    pub fn from_datums(values: &Vec<Datum>) -> (res: Option<Column>)
        ensures
            res is Some <==> values@.len() == 0 || all_of_type(datum_views(values@), values@[0]@.data_type()),
            res matches Some(col) ==> col@ == datum_views(values@),
    {
        let ghost views = datum_views(values@);
        if values.len() == 0 {
            let col = Column::Null(0);
            assert(col@ =~= views);
            return Some(col);
        }
        match &values[0] {
            Datum::INT(_) => {
                let mut out: Vec<i64> = Vec::new();
                let mut i: usize = 0;
                while i < values.len()
                    invariant
                        i <= values@.len(),
                        views == datum_views(values@),
                        out@.len() == i,
                        values@.len() > 0 && values@[0]@.data_type() == DataType::INT,
                        forall|k: int| 0 <= k < i ==> views[k] == DatumView::Int(#[trigger] out@[k] as int),
                    decreases values@.len() - i,
                {
                    match &values[i] {
                        Datum::INT(v) => out.push(*v),
                        _ => {
                            assert(views[i as int].data_type() != DataType::INT);
                            return None;
                        },
                    }
                    i += 1;
                }
                let col = Column::Int(out);
                assert(col@ =~= views);
                assert(all_of_type(views, DataType::INT));
                Some(col)
            },
            Datum::STR(_) => {
                let mut out: Vec<String> = Vec::new();
                let mut i: usize = 0;
                while i < values.len()
                    invariant
                        i <= values@.len(),
                        views == datum_views(values@),
                        out@.len() == i,
                        values@.len() > 0 && values@[0]@.data_type() == DataType::STR,
                        forall|k: int| 0 <= k < i ==> views[k] == DatumView::Str((#[trigger] out@[k])@),
                    decreases values@.len() - i,
                {
                    match &values[i] {
                        Datum::STR(v) => out.push(v.clone()),
                        _ => {
                            assert(views[i as int].data_type() != DataType::STR);
                            return None;
                        },
                    }
                    i += 1;
                }
                let col = Column::Str(out);
                assert(col@ =~= views);
                assert(all_of_type(views, DataType::STR));
                Some(col)
            },
            Datum::BOOL(_) => {
                let mut out: Vec<bool> = Vec::new();
                let mut i: usize = 0;
                while i < values.len()
                    invariant
                        i <= values@.len(),
                        views == datum_views(values@),
                        out@.len() == i,
                        values@.len() > 0 && values@[0]@.data_type() == DataType::BOOL,
                        forall|k: int| 0 <= k < i ==> views[k] == DatumView::Bool(#[trigger] out@[k]),
                    decreases values@.len() - i,
                {
                    match &values[i] {
                        Datum::BOOL(v) => out.push(*v),
                        _ => {
                            assert(views[i as int].data_type() != DataType::BOOL);
                            return None;
                        },
                    }
                    i += 1;
                }
                let col = Column::Bool(out);
                assert(col@ =~= views);
                assert(all_of_type(views, DataType::BOOL));
                Some(col)
            },
            Datum::NULL => {
                let mut i: usize = 0;
                while i < values.len()
                    invariant
                        i <= values@.len(),
                        views == datum_views(values@),
                        values@.len() > 0 && values@[0]@.data_type() == DataType::NULL,
                        forall|k: int| 0 <= k < i ==> #[trigger] views[k] == DatumView::Null,
                    decreases values@.len() - i,
                {
                    match &values[i] {
                        Datum::NULL => {},
                        _ => {
                            assert(views[i as int].data_type() != DataType::NULL);
                            return None;
                        },
                    }
                    i += 1;
                }
                let col = Column::Null(values.len());
                assert(col@ =~= views);
                assert(all_of_type(views, DataType::NULL));
                Some(col)
            },
        }
    }
}

impl Column {
    /// The elements at the given positions, in the order of the positions.
    pub fn take(&self, positions: &Vec<usize>) -> (taken: Column)
        requires
            forall|j: int| 0 <= j < positions@.len() ==> #[trigger] positions@[j] < self@.len(),
        ensures
            taken@.len() == positions@.len(),
            forall|j: int| 0 <= j < positions@.len() ==> #[trigger] taken@[j] == self@[positions@[j] as int],
            taken.data_type() == self.data_type(),
    {
        match self {
            Column::Int(v) => {
                let mut out: Vec<i64> = Vec::new();
                let mut j: usize = 0;
                while j < positions.len()
                    invariant
                        j <= positions@.len(),
                        forall|k: int| 0 <= k < positions@.len() ==> #[trigger] positions@[k] < v@.len(),
                        out@.len() == j,
                        forall|k: int| 0 <= k < j ==> #[trigger] out@[k] == v@[positions@[k] as int],
                    decreases positions@.len() - j,
                {
                    out.push(v[positions[j]]);
                    j += 1;
                }
                Column::Int(out)
            },
            Column::Str(v) => {
                let mut out: Vec<String> = Vec::new();
                let mut j: usize = 0;
                while j < positions.len()
                    invariant
                        j <= positions@.len(),
                        forall|k: int| 0 <= k < positions@.len() ==> #[trigger] positions@[k] < v@.len(),
                        out@.len() == j,
                        forall|k: int| 0 <= k < j ==> (#[trigger] out@[k])@ == v@[positions@[k] as int]@,
                    decreases positions@.len() - j,
                {
                    out.push(v[positions[j]].clone());
                    j += 1;
                }
                Column::Str(out)
            },
            Column::Bool(v) => {
                let mut out: Vec<bool> = Vec::new();
                let mut j: usize = 0;
                while j < positions.len()
                    invariant
                        j <= positions@.len(),
                        forall|k: int| 0 <= k < positions@.len() ==> #[trigger] positions@[k] < v@.len(),
                        out@.len() == j,
                        forall|k: int| 0 <= k < j ==> #[trigger] out@[k] == v@[positions@[k] as int],
                    decreases positions@.len() - j,
                {
                    out.push(v[positions[j]]);
                    j += 1;
                }
                Column::Bool(out)
            },
            Column::Null(_) => Column::Null(positions.len()),
        }
    }

    /// The elements of `self` followed by those of `other`; `None` when the
    /// two arrays hold values of different types or are too long together.
    pub fn concat(&self, other: &Column) -> (res: Option<Column>)
        ensures
            res is Some <==> compatible(self@, other@) && self@.len() + other@.len() <= usize::MAX,
            res matches Some(both) ==> both@ == self@ + other@,
    {
        let n = self.len();
        let m = other.len();
        if n == 0 {
            let both = other.clone();
            assert(both@ =~= self@ + other@);
            return Some(both);
        }
        if m == 0 {
            let both = self.clone();
            assert(both@ =~= self@ + other@);
            return Some(both);
        }
        match (self, other) {
            (Column::Int(a), Column::Int(b)) => {
                let mut out = a.clone();
                let mut tail = b.clone();
                out.append(&mut tail);
                let total = out.len();
                let both = Column::Int(out);
                assert(both@ =~= self@ + other@);
                Some(both)
            },
            (Column::Str(a), Column::Str(b)) => {
                let mut out = a.clone();
                let mut tail = b.clone();
                out.append(&mut tail);
                let total = out.len();
                let both = Column::Str(out);
                assert(both@ =~= self@ + other@);
                Some(both)
            },
            (Column::Bool(a), Column::Bool(b)) => {
                let mut out = a.clone();
                let mut tail = b.clone();
                out.append(&mut tail);
                let total = out.len();
                let both = Column::Bool(out);
                assert(both@ =~= self@ + other@);
                Some(both)
            },
            (Column::Null(a), Column::Null(b)) => {
                match a.checked_add(*b) {
                    Some(n) => {
                        let both = Column::Null(n);
                        assert(both@ =~= self@ + other@);
                        Some(both)
                    },
                    None => None,
                }
            },
            _ => {
                assert(self@[0].data_type() == self.data_type());
                assert(other@[0].data_type() == other.data_type());
                None
            },
        }
    }
}

/// Whether the values of two arrays can stand in one array: one of them is
/// empty, or they are of the same type.
pub open spec fn compatible(a: Seq<DatumView>, b: Seq<DatumView>) -> bool {
    a.len() == 0 || b.len() == 0 || a[0].data_type() == b[0].data_type()
}

impl Chunk {
    /// Whether all arrays have the same length.
    pub fn check(&self) -> (ok: bool)
        ensures
            ok == self.wf(),
    {
        if self.arrays.len() == 0 {
            return true;
        }
        let n = self.arrays[0].len();
        let mut c: usize = 1;
        while c < self.arrays.len()
            invariant
                1 <= c <= self.arrays@.len(),
                n == self@[0].len(),
                forall|k: int| 0 <= k < c ==> (#[trigger] self@[k]).len() == n,
            decreases self.arrays@.len() - c,
        {
            if self.arrays[c].len() != n {
                assert(self@[c as int].len() != rows_of(self@));
                return false;
            }
            c += 1;
        }
        true
    }
}

} // verus!
