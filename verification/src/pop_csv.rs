//! The scan of a text file of separated values.

use crate::chunk::{field_views, Chunk, Column, Field};
use crate::includes::{ColId, TextFilePartition};
use crate::row::{DataType, DatumView};
use crate::text::{bounded_value, parse_bounded, split, split_fields, string_views};
use vstd::prelude::*;

verus! {

/// Scan of one file.
#[derive(Debug, PartialEq, Eq)]
pub struct CSV {
    pub pathname: String,
    /// Names and types of the columns of the file, in file order.
    pub fields: Vec<Field>,
    pub header: bool,
    pub separator: char,
    /// Number of byte ranges that the file is read in.
    pub npartitions: usize,
    /// The columns of the file that the scan hands on, in order.
    pub projection: Vec<ColId>,
}

impl CSV {
    /// A scan with the given properties.
    pub fn new(
        pathname: String,
        fields: Vec<Field>,
        header: bool,
        separator: char,
        npartitions: usize,
        projection: Vec<ColId>,
    ) -> (csv: CSV)
        ensures
            csv.pathname == pathname,
            csv.fields == fields,
            csv.header == header,
            csv.separator == separator,
            csv.npartitions == npartitions,
            csv.projection == projection,
    {
        CSV { pathname, fields, header, separator, npartitions, projection }
    }
}

/// Scan of a directory of files that share a schema.
#[derive(Debug, PartialEq, Eq)]
pub struct CSVDir {
    pub dirname: String,
    pub fields: Vec<Field>,
    pub header: bool,
    pub separator: char,
    pub npartitions: usize,
    pub projection: Vec<ColId>,
}

impl CSVDir {
    /// A scan with the given properties.
    pub fn new(
        dirname: String,
        fields: Vec<Field>,
        header: bool,
        separator: char,
        npartitions: usize,
        projection: Vec<ColId>,
    ) -> (csv: CSVDir)
        ensures
            csv.dirname == dirname,
            csv.fields == fields,
            csv.header == header,
            csv.separator == separator,
            csv.npartitions == npartitions,
            csv.projection == projection,
    {
        CSVDir { dirname, fields, header, separator, npartitions, projection }
    }
}

/// The mathematical value of a scan of a file or of a directory.
pub struct ScanView {
    pub pathname: Seq<char>,
    pub fields: Seq<(Seq<char>, DataType)>,
    pub header: bool,
    pub separator: char,
    pub npartitions: usize,
    pub projection: Seq<ColId>,
}

impl View for CSV {
    type V = ScanView;

    open spec fn view(&self) -> ScanView {
        ScanView {
            pathname: self.pathname@,
            fields: field_views(self.fields@),
            header: self.header,
            separator: self.separator,
            npartitions: self.npartitions,
            projection: self.projection@,
        }
    }
}

impl View for CSVDir {
    type V = ScanView;

    open spec fn view(&self) -> ScanView {
        ScanView {
            pathname: self.dirname@,
            fields: field_views(self.fields@),
            header: self.header,
            separator: self.separator,
            npartitions: self.npartitions,
            projection: self.projection@,
        }
    }
}

/// The first position at or after `pos` where a line starts: the start of
/// the file, a position right after a line feed, or the end of the file.
pub open spec fn line_start(bytes: Seq<u8>, pos: int) -> int
    decreases bytes.len() - pos,
{
    if pos <= 0 {
        0
    } else if pos >= bytes.len() {
        bytes.len() as int
    } else if bytes[pos - 1] == 10u8 {
        pos
    } else {
        line_start(bytes, pos + 1)
    }
}

/// Where partition `k` of `npartitions` begins: at the first line start at
/// or after the `k`-th of `npartitions` equal parts of the file.
pub open spec fn boundary(bytes: Seq<u8>, npartitions: int, k: int) -> int {
    if k <= 0 {
        0
    } else if k >= npartitions {
        bytes.len() as int
    } else {
        line_start(bytes, k * bytes.len() / npartitions)
    }
}

/// A line start lies in the file, and not before the position asked for.
proof fn lemma_line_start_bounds(bytes: Seq<u8>, pos: int)
    ensures
        0 <= line_start(bytes, pos) <= bytes.len(),
        pos <= bytes.len() ==> pos <= line_start(bytes, pos) || pos < 0,
    decreases bytes.len() - pos,
{
    if pos > 0 && pos < bytes.len() && bytes[pos - 1] != 10u8 {
        lemma_line_start_bounds(bytes, pos + 1);
    }
}

/// A later position has no earlier line start.
proof fn lemma_line_start_monotone(bytes: Seq<u8>, p: int, q: int)
    requires
        p <= q,
    ensures
        line_start(bytes, p) <= line_start(bytes, q),
    decreases bytes.len() - p,
{
    lemma_line_start_bounds(bytes, q);
    lemma_line_start_bounds(bytes, p);
    if p <= 0 {
    } else if p >= bytes.len() {
    } else if bytes[p - 1] == 10u8 {
    } else if p == q {
    } else {
        lemma_line_start_monotone(bytes, p + 1, q);
    }
}

/// The first line start at or after `pos`.
fn next_line_start(bytes: &Vec<u8>, pos: usize) -> (start: usize)
    requires
        pos <= bytes@.len(),
    ensures
        start == line_start(bytes@, pos as int),
        pos <= start <= bytes@.len(),
{
    let mut p = pos;
    while p > 0 && p < bytes.len() && bytes[p - 1] != 10u8
        invariant
            pos <= p <= bytes@.len(),
            line_start(bytes@, pos as int) == line_start(bytes@, p as int),
        decreases bytes@.len() - p,
    {
        p += 1;
    }
    p
}

/// The byte ranges in which a file is read by `npartitions` partitions:
/// consecutive ranges that cover the file and begin where lines begin, cut
/// near the equal parts of the file.
pub fn split_file(bytes: &Vec<u8>, npartitions: usize) -> (parts: Vec<TextFilePartition>)
    requires
        npartitions > 0,
    ensures
        parts@.len() == npartitions,
        forall|k: int|
            0 <= k < npartitions ==> {
                &&& (#[trigger] parts@[k]).0 == boundary(bytes@, npartitions as int, k)
                &&& parts@[k].1 == boundary(bytes@, npartitions as int, k + 1)
                &&& parts@[k].0 <= parts@[k].1 <= bytes@.len()
            },
{
    let len = bytes.len();
    let mut parts: Vec<TextFilePartition> = Vec::new();
    let mut start: usize = 0;
    let mut k: usize = 0;
    while k < npartitions
        invariant
            k <= npartitions,
            npartitions > 0,
            len == bytes@.len(),
            start == boundary(bytes@, npartitions as int, k as int),
            start <= len,
            parts@.len() == k,
            forall|j: int|
                0 <= j < k ==> {
                    &&& (#[trigger] parts@[j]).0 == boundary(bytes@, npartitions as int, j)
                    &&& parts@[j].1 == boundary(bytes@, npartitions as int, j + 1)
                    &&& parts@[j].0 <= parts@[j].1 <= bytes@.len()
                },
        decreases npartitions - k,
    {
        let end = if k + 1 >= npartitions {
            len
        } else {
            assert((k + 1) * len <= 0xffff_ffff_ffff_ffff * 0xffff_ffff_ffff_ffff) by (nonlinear_arith)
                requires
                    0 <= k + 1 <= 0xffff_ffff_ffff_ffff,
                    0 <= len <= 0xffff_ffff_ffff_ffff,
            ;
            let nominal = ((k as u128 + 1) * (len as u128)) / (npartitions as u128);
            assert(nominal <= len) by (nonlinear_arith)
                requires
                    nominal == ((k + 1) * len) / (npartitions as int),
                    k + 1 < npartitions,
                    0 <= len,
            ;
            next_line_start(bytes, nominal as usize)
        };
        proof {
            if k + 1 < npartitions && k > 0 {
                let p = k * len / (npartitions as int);
                let q = (k + 1) * len / (npartitions as int);
                assert(p <= q) by (nonlinear_arith)
                    requires
                        p == k * len / (npartitions as int),
                        q == (k + 1) * len / (npartitions as int),
                        npartitions > 0,
                        0 <= len,
                        0 <= k,
                ;
                lemma_line_start_monotone(bytes@, p, q);
            }
            lemma_line_start_bounds(bytes@, (k + 1) * len / (npartitions as int));
        }
        parts.push(TextFilePartition(start as u64, end as u64));
        start = end;
        k += 1;
    }
    parts
}

/// The value that a field of a line has in a column of type `t`: an
/// integer for `INT`, `true` or `false` for `BOOL`, the text itself for
/// `STR`. `None` where the text does not read as a value of the type.
pub open spec fn field_value(t: DataType, text: Seq<char>) -> Option<DatumView> {
    match t {
        DataType::INT => match bounded_value(text, i64::MIN as int, i64::MAX as int) {
            Some(v) => Some(DatumView::Int(v)),
            None => None,
        },
        DataType::BOOL => if text == "true"@ {
            Some(DatumView::Bool(true))
        } else if text == "false"@ {
            Some(DatumView::Bool(false))
        } else {
            None
        },
        DataType::STR => Some(DatumView::Str(text)),
        DataType::NULL => Some(DatumView::Null),
    }
}

/// The value that line `line` has in column `c` of a file with the given
/// fields; `None` where the line has no such field or the field does not
/// read as a value of the column's type.
pub open spec fn cell(fields: Seq<Field>, sep: char, line: Seq<char>, c: ColId) -> Option<DatumView> {
    if c < fields.len() && c < split(line, sep).len() {
        field_value(fields[c as int].data_type, split(line, sep)[c as int])
    } else {
        None
    }
}

/// Every line has a value in every projected column.
pub open spec fn parses(fields: Seq<Field>, sep: char, lines: Seq<String>, projection: Seq<ColId>) -> bool {
    forall|i: int, j: int|
        0 <= i < lines.len() && 0 <= j < projection.len() ==> (#[trigger] cell(fields, sep, lines[i]@, projection[j])) is Some
}

/// The chunk that the lines give: one row per line, one column per
/// projected column.
pub open spec fn parsed_columns(fields: Seq<Field>, sep: char, lines: Seq<String>, projection: Seq<ColId>) -> Seq<
    Seq<DatumView>,
> {
    Seq::new(
        projection.len(),
        |j: int| Seq::new(lines.len(), |i: int| cell(fields, sep, lines[i]@, projection[j]).unwrap()),
    )
}

/// Text of the error for a line that does not fit the schema.
pub open spec fn parse_text() -> Seq<char> {
    "CSV: a line does not fit the schema"@
}

/// An array builder of one type.
enum Builder {
    Int(Vec<i64>),
    Str(Vec<String>),
    Bool(Vec<bool>),
    Null(usize),
}

impl CSV {
    /// Parses the lines of a partition of the file into a chunk with the
    /// projected columns, one row per line. Fails when a line lacks a
    /// projected field or a field does not read as a value of its column's
    /// type.
    pub fn parse_lines(&self, lines: &Vec<String>) -> (res: Result<Chunk, String>)
        ensures
            match res {
                Ok(chunk) => {
                    &&& parses(self.fields@, self.separator, lines@, self.projection@)
                    &&& chunk.wf()
                    &&& chunk@ == parsed_columns(self.fields@, self.separator, lines@, self.projection@)
                },
                Err(e) => !parses(self.fields@, self.separator, lines@, self.projection@) && e@ == parse_text(),
            },
    {
        // The fields of every line.
        let mut rows: Vec<Vec<String>> = Vec::new();
        let mut i: usize = 0;
        while i < lines.len()
            invariant
                i <= lines@.len(),
                rows@.len() == i,
                forall|k: int| 0 <= k < i ==> string_views((#[trigger] rows@[k])@) == split(lines@[k]@, self.separator),
            decreases lines@.len() - i,
        {
            rows.push(split_fields(lines[i].as_str(), self.separator));
            i += 1;
        }
        let mut arrays: Vec<Column> = Vec::new();
        let mut j: usize = 0;
        while j < self.projection.len()
            invariant
                j <= self.projection@.len(),
                rows@.len() == lines@.len(),
                forall|k: int|
                    0 <= k < rows@.len() ==> string_views((#[trigger] rows@[k])@) == split(lines@[k]@, self.separator),
                arrays@.len() == j,
                forall|c: int, i: int|
                    0 <= c < j && 0 <= i < lines@.len() ==> (#[trigger] cell(
                        self.fields@,
                        self.separator,
                        lines@[i]@,
                        self.projection@[c],
                    )) is Some,
                forall|c: int|
                    0 <= c < j ==> (#[trigger] arrays@[c])@ == Seq::new(
                        lines@.len(),
                        |i: int| cell(self.fields@, self.separator, lines@[i]@, self.projection@[c]).unwrap(),
                    ),
            decreases self.projection@.len() - j,
        {
            let c = self.projection[j];
            if c >= self.fields.len() {
                if lines.len() > 0 {
                    assert(cell(self.fields@, self.separator, lines@[0]@, self.projection@[j as int]) is None);
                    return Err(String::from_str("CSV: a line does not fit the schema"));
                }
                let col = Column::Null(0);
                assert(col@ =~= Seq::new(
                    lines@.len(),
                    |i: int| cell(self.fields@, self.separator, lines@[i]@, self.projection@[j as int]).unwrap(),
                ));
                arrays.push(col);
                j += 1;
                continue ;
            }
            let t = self.fields[c].data_type;
            let column = match Self::parse_column(&rows, c, t) {
                Some(col) => col,
                None => {
                    proof {
                        let i = choose|i: int|
                            0 <= i < rows@.len() && !(c < rows@[i]@.len() && (#[trigger] field_value(
                                t,
                                rows@[i]@[c as int]@,
                            )) is Some);
                        assert(string_views(rows@[i]@) == split(lines@[i]@, self.separator));
                        if c < rows@[i]@.len() {
                            assert(string_views(rows@[i]@)[c as int] == rows@[i]@[c as int]@);
                        }
                        assert(cell(self.fields@, self.separator, lines@[i]@, self.projection@[j as int]) is None);
                    }
                    return Err(String::from_str("CSV: a line does not fit the schema"));
                },
            };
            proof {
                assert forall|i: int| 0 <= i < lines@.len() implies (#[trigger] cell(
                    self.fields@,
                    self.separator,
                    lines@[i]@,
                    self.projection@[j as int],
                )) == Some(column@[i]) by {
                    assert(string_views(rows@[i]@) == split(lines@[i]@, self.separator));
                    assert(c < rows@[i]@.len() && field_value(t, rows@[i]@[c as int]@) == Some(column@[i]));
                    assert(string_views(rows@[i]@)[c as int] == rows@[i]@[c as int]@);
                }
                assert(column@ =~= Seq::new(
                    lines@.len(),
                    |i: int| cell(self.fields@, self.separator, lines@[i]@, self.projection@[j as int]).unwrap(),
                ));
            }
            arrays.push(column);
            j += 1;
        }
        let chunk = Chunk { arrays };
        proof {
            assert(chunk@ =~= parsed_columns(self.fields@, self.separator, lines@, self.projection@));
            assert forall|c: int| 0 <= c < chunk@.len() implies (#[trigger] chunk@[c]).len() == crate::chunk::rows_of(
                chunk@,
            ) by {
                assert(chunk@[c].len() == lines@.len());
                assert(chunk@[0].len() == lines@.len());
            }
        }
        Ok(chunk)
    }

    /// The values of field `c` of every row as an array of type `t`; `None`
    /// when a row has no such field or the field does not read as a value
    /// of the type.
    fn parse_column(rows: &Vec<Vec<String>>, c: usize, t: DataType) -> (res: Option<Column>)
        ensures
            res is Some <==> forall|i: int|
                0 <= i < rows@.len() ==> c < rows@[i]@.len() && (#[trigger] field_value(t, rows@[i]@[c as int]@)) is Some,
            res matches Some(col) ==> col@.len() == rows@.len() && forall|i: int|
                0 <= i < rows@.len() ==> c < rows@[i]@.len() && field_value(t, rows@[i]@[c as int]@) == Some(
                    #[trigger] col@[i],
                ),
    {
        let mut builder = match t {
            DataType::INT => Builder::Int(Vec::new()),
            DataType::STR => Builder::Str(Vec::new()),
            DataType::BOOL => Builder::Bool(Vec::new()),
            DataType::NULL => Builder::Null(0),
        };
        let mut i: usize = 0;
        while i < rows.len()
            invariant
                i <= rows@.len(),
                match builder {
                    Builder::Int(v) => t == DataType::INT && v@.len() == i && forall|k: int|
                        0 <= k < i ==> field_value(t, rows@[k]@[c as int]@) == Some(DatumView::Int(#[trigger] v@[k] as int)),
                    Builder::Str(v) => t == DataType::STR && v@.len() == i && forall|k: int|
                        0 <= k < i ==> field_value(t, rows@[k]@[c as int]@) == Some(DatumView::Str((#[trigger] v@[k])@)),
                    Builder::Bool(v) => t == DataType::BOOL && v@.len() == i && forall|k: int|
                        0 <= k < i ==> field_value(t, rows@[k]@[c as int]@) == Some(DatumView::Bool(#[trigger] v@[k])),
                    Builder::Null(n) => t == DataType::NULL && n == i,
                },
                forall|k: int| 0 <= k < i ==> c < (#[trigger] rows@[k])@.len(),
            decreases rows@.len() - i,
        {
            if c >= rows[i].len() {
                assert(!(c < rows@[i as int]@.len()));
                return None;
            }
            let text = &rows[i][c];
            match builder {
                Builder::Int(mut v) => {
                    match parse_bounded(text.as_str(), i64::MIN, i64::MAX) {
                        Some(x) => v.push(x),
                        None => {
                            assert(field_value(t, rows@[i as int]@[c as int]@) is None);
                            return None;
                        },
                    }
                    builder = Builder::Int(v);
                },
                Builder::Str(mut v) => {
                    v.push(text.clone());
                    builder = Builder::Str(v);
                },
                Builder::Bool(mut v) => {
                    if *text == String::from_str("true") {
                        v.push(true);
                    } else if *text == String::from_str("false") {
                        v.push(false);
                    } else {
                        assert(field_value(t, rows@[i as int]@[c as int]@) is None);
                        return None;
                    }
                    builder = Builder::Bool(v);
                },
                Builder::Null(n) => {
                    builder = Builder::Null(n + 1);
                },
            }
            i += 1;
        }
        let col = match builder {
            Builder::Int(v) => Column::Int(v),
            Builder::Str(v) => Column::Str(v),
            Builder::Bool(v) => Column::Bool(v),
            Builder::Null(n) => Column::Null(n),
        };
        proof {
            assert forall|i: int| 0 <= i < rows@.len() implies c < rows@[i]@.len() && field_value(
                t,
                rows@[i]@[c as int]@,
            ) == Some(#[trigger] col@[i]) by {
                assert(c < rows@[i]@.len());
            }
            assert forall|i: int| 0 <= i < rows@.len() implies c < rows@[i]@.len() && (#[trigger] field_value(
                t,
                rows@[i]@[c as int]@,
            )) is Some by {
                assert(field_value(t, rows@[i]@[c as int]@) == Some(col@[i]));
            }
        }
        Some(col)
    }
}

} // verus!
