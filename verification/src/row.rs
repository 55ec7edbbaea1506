//! Scalar values and rows.

use crate::includes::ColId;
use vstd::prelude::*;

verus! {

/// The type of a column or of an expression. `NULL` is the type of the NULL
/// literal alone; table columns are `INT`, `STR` or `BOOL`.
#[derive(Debug, Clone, Copy, PartialEq, Eq, Structural, Hash)]
pub enum DataType {
    INT,
    STR,
    BOOL,
    NULL,
}

/// A typed scalar.
#[derive(Debug, PartialEq, Eq, Hash)]
pub enum Datum {
    INT(i64),
    STR(String),
    BOOL(bool),
    NULL,
}

/// The mathematical value of a [`Datum`].
pub enum DatumView {
    Int(int),
    Str(Seq<char>),
    Bool(bool),
    Null,
}

impl DatumView {
    /// The type that a column holding this value has.
    pub open spec fn data_type(self) -> DataType {
        match self {
            DatumView::Int(_) => DataType::INT,
            DatumView::Str(_) => DataType::STR,
            DatumView::Bool(_) => DataType::BOOL,
            DatumView::Null => DataType::NULL,
        }
    }
}

impl View for Datum {
    type V = DatumView;

    open spec fn view(&self) -> DatumView {
        match self {
            Datum::INT(i) => DatumView::Int(*i as int),
            Datum::STR(s) => DatumView::Str(s@),
            Datum::BOOL(b) => DatumView::Bool(*b),
            Datum::NULL => DatumView::Null,
        }
    }
}

impl Clone for Datum {
    fn clone(&self) -> (res: Self)
        ensures
            res == *self,
    {
        match self {
            Datum::INT(i) => Datum::INT(*i),
            Datum::STR(s) => Datum::STR(s.clone()),
            Datum::BOOL(b) => Datum::BOOL(*b),
            Datum::NULL => Datum::NULL,
        }
    }
}

impl Datum {
    /// The type of this value.
    pub fn data_type(&self) -> (t: DataType)
        ensures
            t == self@.data_type(),
    {
        match self {
            Datum::INT(_) => DataType::INT,
            Datum::STR(_) => DataType::STR,
            Datum::BOOL(_) => DataType::BOOL,
            Datum::NULL => DataType::NULL,
        }
    }
}

/// The values of the data in a sequence of scalars.
pub open spec fn datum_views(values: Seq<Datum>) -> Seq<DatumView> {
    Seq::new(values.len(), |i: int| values[i]@)
}

/// An ordered vector of scalars.
#[derive(Debug, PartialEq, Eq)]
pub struct Row {
    pub values: Vec<Datum>,
}

impl View for Row {
    type V = Seq<DatumView>;

    open spec fn view(&self) -> Seq<DatumView> {
        datum_views(self.values@)
    }
}

impl Row {
    /// A row holding `values`, in order.
    pub fn new(values: Vec<Datum>) -> (row: Row)
        ensures
            row.values == values,
    {
        Row { values }
    }

    /// Number of columns.
    pub fn len(&self) -> (n: usize)
        ensures
            n == self@.len(),
    {
        self.values.len()
    }

    /// The value at column `ix`.
    pub fn get_column(&self, ix: ColId) -> (d: &Datum)
        requires
            ix < self@.len(),
        ensures
            d@ == self@[ix as int],
            *d == self.values@[ix as int],
    {
        &self.values[ix]
    }
}

/// Whether two scalars have the same value.
pub fn datum_eq(a: &Datum, b: &Datum) -> (same: bool)
    ensures
        same == (a@ == b@),
{
    match (a, b) {
        (Datum::INT(x), Datum::INT(y)) => *x == *y,
        (Datum::STR(s), Datum::STR(t)) => *s == *t,
        (Datum::BOOL(x), Datum::BOOL(y)) => *x == *y,
        (Datum::NULL, Datum::NULL) => true,
        _ => false,
    }
}

/// Whether two lists of scalars have the same values.
pub fn datums_eq(a: &Vec<Datum>, b: &Vec<Datum>) -> (same: bool)
    ensures
        same == (datum_views(a@) == datum_views(b@)),
{
    if a.len() != b.len() {
        assert(datum_views(a@).len() != datum_views(b@).len());
        return false;
    }
    let mut i: usize = 0;
    while i < a.len()
        invariant
            i <= a@.len(),
            a@.len() == b@.len(),
            forall|k: int| 0 <= k < i ==> (#[trigger] a@[k])@ == b@[k]@,
        decreases a@.len() - i,
    {
        if !datum_eq(&a[i], &b[i]) {
            assert(datum_views(a@)[i as int] != datum_views(b@)[i as int]);
            return false;
        }
        i += 1;
    }
    assert(datum_views(a@) =~= datum_views(b@));
    true
}

} // verus!
