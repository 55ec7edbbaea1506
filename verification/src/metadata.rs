//! The catalog: descriptors of the tables that queries can scan, and the
//! inference of a schema from a sample of a file.

use crate::row::DataType;
use crate::text::{
    bounded_value, decimal, parse_bounded, push_char, split, split_fields, string_views, to_upper, uppercase,
    usize_to_string,
};
use vstd::prelude::*;

verus! {

/// How a table is stored.
#[derive(Debug, Clone, Copy, PartialEq, Eq, Structural, Hash)]
pub enum TableType {
    /// One text file of separated values.
    CSV,
    /// A directory of such files.
    CSVDIR,
}

/// A column of a table.
#[derive(Debug, PartialEq, Eq)]
pub struct ColDesc {
    pub colid: usize,
    pub name: String,
    pub datatype: DataType,
}

impl ColDesc {
    /// A column with the given position, name and type.
    pub fn new(colid: usize, name: String, datatype: DataType) -> (col: ColDesc)
        ensures
            col.colid == colid,
            col.name == name,
            col.datatype == datatype,
    {
        ColDesc { colid, name, datatype }
    }
}

impl Clone for ColDesc {
    fn clone(&self) -> (res: Self)
        ensures
            res == *self,
    {
        ColDesc { colid: self.colid, name: self.name.clone(), datatype: self.datatype }
    }
}

/// Whether a value reads as a signed integer of 64 bits.
pub open spec fn is_int_text(s: Seq<char>) -> bool {
    bounded_value(s, i64::MIN as int, i64::MAX as int) is Some
}

/// Whether a value is literally `true` or `false`.
pub open spec fn is_bool_text(s: Seq<char>) -> bool {
    s == "true"@ || s == "false"@
}

/// The type that a single value suggests.
pub open spec fn value_type(s: Seq<char>) -> DataType {
    if is_int_text(s) {
        DataType::INT
    } else if is_bool_text(s) {
        DataType::BOOL
    } else {
        DataType::STR
    }
}

/// Every value that the rows hold at column `c` is empty or an integer.
pub open spec fn all_int(rows: Seq<Seq<Seq<char>>>, c: int) -> bool {
    forall|r: int| 0 <= r < rows.len() && c < rows[r].len() ==> (#[trigger] rows[r])[c].len() == 0 || is_int_text(rows[r][c])
}

/// Every value that the rows hold at column `c` is `true` or `false`.
pub open spec fn all_bool(rows: Seq<Seq<Seq<char>>>, c: int) -> bool {
    forall|r: int| 0 <= r < rows.len() && c < rows[r].len() ==> is_bool_text((#[trigger] rows[r])[c])
}

/// The type of column `c` inferred from sampled rows: `INT` if every
/// non-empty value reads as a signed integer; else `BOOL` if every value is
/// literally `true` or `false`; else `STR`.
pub open spec fn inferred_type(rows: Seq<Seq<Seq<char>>>, c: int) -> DataType {
    if all_int(rows, c) {
        DataType::INT
    } else if all_bool(rows, c) {
        DataType::BOOL
    } else {
        DataType::STR
    }
}

/// The fields of every line.
pub open spec fn split_lines(lines: Seq<String>, sep: char) -> Seq<Seq<Seq<char>>> {
    Seq::new(lines.len(), |r: int| split(lines[r]@, sep))
}

/// The name of column `c` of a file whose first line has the fields `first`:
/// the field in upper case where the file has a header, `COL_` and the
/// position where it has none.
pub open spec fn column_name(first: Seq<Seq<char>>, header: bool, c: int) -> Seq<char> {
    if header {
        uppercase(first[c])
    } else {
        "COL_"@ + decimal(c as nat)
    }
}

/// Number of columns inferred from the lines of a file: as many as both the
/// first line and the first line after it have fields; none when the file
/// has fewer than two lines.
pub open spec fn inferred_width(lines: Seq<String>, sep: char) -> nat {
    if lines.len() < 2 {
        0
    } else {
        let a = split(lines[0]@, sep).len();
        let b = split(lines[1]@, sep).len();
        if a <= b {
            a
        } else {
            b
        }
    }
}

/// `cols` is the schema inferred from `lines`: the first line names the
/// columns, the lines after it are the sample.
pub open spec fn is_inferred(cols: Seq<ColDesc>, lines: Seq<String>, sep: char, header: bool) -> bool {
    &&& cols.len() == inferred_width(lines, sep)
    &&& forall|c: int|
        0 <= c < cols.len() ==> {
            &&& (#[trigger] cols[c]).colid == c
            &&& cols[c].name@ == column_name(split(lines[0]@, sep), header, c)
            &&& cols[c].datatype == inferred_type(split_lines(lines.skip(1), sep), c)
        }
}

/// Descriptor of a table kept in a text file of separated values.
#[derive(Debug, PartialEq, Eq)]
pub struct CSVDesc {
    pub filename: String,
    pub header: bool,
    pub separator: char,
    pub columns: Vec<ColDesc>,
}

impl CSVDesc {
    /// The descriptor of the file `filename`, its schema inferred from
    /// `lines`, the lines of the file.
    pub fn new(filename: String, separator: char, header: bool, lines: &Vec<String>) -> (desc: Self)
        ensures
            desc.filename == filename,
            desc.header == header,
            desc.separator == separator,
            is_inferred(desc.columns@, lines@, separator, header),
    {
        let columns = Self::infer_metadata(lines, separator, header);
        CSVDesc { filename, header, separator, columns }
    }

    /// The type that a single value suggests.
    pub fn infer_datatype(str: &String) -> (t: DataType)
        ensures
            t == value_type(str@),
    {
        if parse_bounded(str.as_str(), i64::MIN, i64::MAX).is_some() {
            DataType::INT
        } else if Self::is_bool(str) {
            DataType::BOOL
        } else {
            DataType::STR
        }
    }

    /// Whether a value is literally `true` or `false`.
    fn is_bool(s: &String) -> (b: bool)
        ensures
            b == is_bool_text(s@),
    {
        let t = String::from_str("true");
        let f = String::from_str("false");
        *s == t || *s == f
    }

    /// The type of column `c` given the sampled rows.
    fn infer_column(rows: &Vec<Vec<String>>, c: usize) -> (t: DataType)
        ensures
            t == inferred_type(Seq::new(rows@.len(), |r: int| string_views(rows@[r]@)), c as int),
    {
        let ghost views = Seq::new(rows@.len(), |r: int| string_views(rows@[r]@));
        let mut ints = true;
        let mut bools = true;
        let mut r: usize = 0;
        while r < rows.len()
            invariant
                r <= rows@.len(),
                views == Seq::new(rows@.len(), |r: int| string_views(rows@[r]@)),
                ints == all_int(views.take(r as int), c as int),
                bools == all_bool(views.take(r as int), c as int),
            decreases rows@.len() - r,
        {
            let ghost before = views.take(r as int);
            let ghost after = views.take(r + 1);
            proof {
                assert(forall|k: int| 0 <= k < r ==> after[k] == before[k]);
                assert(after[r as int] == views[r as int]);
            }
            if c < rows[r].len() {
                let value = &rows[r][c];
                assert(value@ == views[r as int][c as int]);
                let is_int = value.as_str().unicode_len() == 0 || parse_bounded(
                    value.as_str(),
                    i64::MIN,
                    i64::MAX,
                ).is_some();
                let is_bool = Self::is_bool(value);
                proof {
                    if !is_int {
                        assert(!all_int(after, c as int)) by {
                            assert(!(after[r as int][c as int].len() == 0 || is_int_text(after[r as int][c as int])));
                        }
                    }
                    if !is_bool {
                        assert(!all_bool(after, c as int)) by {
                            assert(!is_bool_text(after[r as int][c as int]));
                        }
                    }
                    if !ints {
                        let k = choose|k: int|
                            0 <= k < before.len() && c < before[k].len() && !((#[trigger] before[k])[c as int].len() == 0
                                || is_int_text(before[k][c as int]));
                        assert(!(after[k][c as int].len() == 0 || is_int_text(after[k][c as int])));
                    }
                    if !bools {
                        let k = choose|k: int|
                            0 <= k < before.len() && c < before[k].len() && !is_bool_text((#[trigger] before[k])[c as int]);
                        assert(!is_bool_text(after[k][c as int]));
                    }
                }
                ints = ints && is_int;
                bools = bools && is_bool;
            } else {
                proof {
                    if !ints {
                        let k = choose|k: int|
                            0 <= k < before.len() && c < before[k].len() && !((#[trigger] before[k])[c as int].len() == 0
                                || is_int_text(before[k][c as int]));
                        assert(!(after[k][c as int].len() == 0 || is_int_text(after[k][c as int])));
                    }
                    if !bools {
                        let k = choose|k: int|
                            0 <= k < before.len() && c < before[k].len() && !is_bool_text((#[trigger] before[k])[c as int]);
                        assert(!is_bool_text(after[k][c as int]));
                    }
                }
            }
            r += 1;
        }
        proof {
            assert(views.take(r as int) =~= views);
        }
        if ints {
            DataType::INT
        } else if bools {
            DataType::BOOL
        } else {
            DataType::STR
        }
    }

    /// The schema inferred from the lines of a file.
    pub fn infer_metadata(lines: &Vec<String>, separator: char, header: bool) -> (cols: Vec<ColDesc>)
        ensures
            is_inferred(cols@, lines@, separator, header),
    {
        let mut cols: Vec<ColDesc> = Vec::new();
        if lines.len() < 2 {
            return cols;
        }
        let first = split_fields(lines[0].as_str(), separator);
        // The sample: every line after the first, split into fields.
        let mut rows: Vec<Vec<String>> = Vec::new();
        let mut r: usize = 1;
        while r < lines.len()
            invariant
                1 <= r <= lines@.len(),
                rows@.len() == r - 1,
                forall|k: int| 0 <= k < rows@.len() ==> string_views((#[trigger] rows@[k])@) == split(lines@[k + 1]@, separator),
            decreases lines@.len() - r,
        {
            rows.push(split_fields(lines[r].as_str(), separator));
            r += 1;
        }
        let ghost sample = Seq::new(rows@.len(), |r: int| string_views(rows@[r]@));
        proof {
            assert(sample =~= split_lines(lines@.skip(1), separator));
            assert(first@.len() == string_views(first@).len());
            assert(rows@[0]@.len() == string_views(rows@[0]@).len());
        }
        let width = if first.len() <= rows[0].len() {
            first.len()
        } else {
            rows[0].len()
        };
        let mut c: usize = 0;
        while c < width
            invariant
                c <= width,
                width <= first@.len(),
                width == inferred_width(lines@, separator),
                string_views(first@) == split(lines@[0]@, separator),
                sample == Seq::new(rows@.len(), |r: int| string_views(rows@[r]@)),
                sample == split_lines(lines@.skip(1), separator),
                cols@.len() == c,
                forall|k: int|
                    0 <= k < c ==> {
                        &&& (#[trigger] cols@[k]).colid == k
                        &&& cols@[k].name@ == column_name(split(lines@[0]@, separator), header, k)
                        &&& cols@[k].datatype == inferred_type(sample, k)
                    },
            decreases width - c,
        {
            let name = if header {
                assert(first@[c as int]@ == string_views(first@)[c as int]);
                to_upper(first[c].as_str())
            } else {
                String::from_str("COL_").concat(usize_to_string(c).as_str())
            };
            let datatype = Self::infer_column(&rows, c);
            cols.push(ColDesc { colid: c, name, datatype });
            c += 1;
        }
        cols
    }
}

/// What every kind of table can say of itself.
pub trait TableDesc {
    /// The file or directory that holds the table.
    fn filename(&self) -> &String;

    /// The columns of the table.
    fn columns(&self) -> &Vec<ColDesc>;

    /// Whether the file starts with the names of the columns.
    fn header(&self) -> bool;

    /// The character between the fields of a line.
    fn separator(&self) -> char;

    /// A line of text on the table.
    fn describe(&self) -> String;

    /// The column called `colname`.
    fn get_column(&self, colname: &String) -> Option<&ColDesc>;
}

/// Position of the first column called `name`, if there is one.
pub open spec fn column_named(cols: Seq<ColDesc>, name: Seq<char>) -> Option<int>
    decreases cols.len(),
{
    if cols.len() == 0 {
        None
    } else if cols[0].name@ == name {
        Some(0)
    } else {
        match column_named(cols.skip(1), name) {
            Some(i) => Some(i + 1),
            None => None,
        }
    }
}

/// The first column of the name is the one that the search finds.
proof fn lemma_column_named(cols: Seq<ColDesc>, name: Seq<char>, k: int)
    requires
        0 <= k <= cols.len(),
        forall|j: int| 0 <= j < k ==> cols[j].name@ != name,
        k < cols.len() ==> cols[k].name@ == name,
    ensures
        column_named(cols, name) == if k < cols.len() {
            Some(k)
        } else {
            None
        },
    decreases cols.len(),
{
    if cols.len() > 0 && k > 0 {
        let rest = cols.skip(1);
        assert forall|j: int| 0 <= j < k - 1 implies rest[j].name@ != name by {
            assert(rest[j] == cols[j + 1]);
        }
        lemma_column_named(rest, name, k - 1);
    }
}

impl TableDesc for CSVDesc {
    fn columns(&self) -> (cols: &Vec<ColDesc>)
        ensures
            *cols == self.columns,
    {
        &self.columns
    }

    fn filename(&self) -> (name: &String)
        ensures
            *name == self.filename,
    {
        &self.filename
    }

    /// The kind of the table and the file that holds it.
    fn describe(&self) -> (text: String)
        ensures
            text@ == "Type: CSV, "@ + self.filename@,
    {
        String::from_str("Type: CSV, ").concat(self.filename.as_str())
    }

    /// The first column called `colname`.
    fn get_column(&self, colname: &String) -> (col: Option<&ColDesc>)
        ensures
            match col {
                Some(cd) => column_named(self.columns@, colname@) matches Some(i) && *cd == self.columns@[i],
                None => column_named(self.columns@, colname@) is None,
            },
    {
        let mut i: usize = 0;
        while i < self.columns.len()
            invariant
                i <= self.columns@.len(),
                forall|j: int| 0 <= j < i ==> self.columns@[j].name@ != colname@,
            decreases self.columns@.len() - i,
        {
            if self.columns[i].name == *colname {
                proof {
                    lemma_column_named(self.columns@, colname@, i as int);
                }
                return Some(&self.columns[i]);
            }
            i += 1;
        }
        proof {
            lemma_column_named(self.columns@, colname@, i as int);
        }
        None
    }

    fn header(&self) -> (h: bool)
        ensures
            h == self.header,
    {
        self.header
    }

    fn separator(&self) -> (sep: char)
        ensures
            sep == self.separator,
    {
        self.separator
    }
}

/// The value given for `key` in a list of options; the last one where the
/// key occurs more than once.
pub open spec fn option_of(options: Seq<(String, String)>, key: Seq<char>) -> Option<Seq<char>>
    decreases options.len(),
{
    if options.len() == 0 {
        None
    } else if options.last().0@ == key {
        Some(options.last().1@)
    } else {
        option_of(options.drop_last(), key)
    }
}

/// The last option of the key is the one that the search finds.
proof fn lemma_option_of(options: Seq<(String, String)>, key: Seq<char>, k: int)
    requires
        -1 <= k < options.len(),
        forall|j: int| k < j < options.len() ==> options[j].0@ != key,
        k >= 0 ==> options[k].0@ == key,
    ensures
        option_of(options, key) == if k >= 0 {
            Some(options[k].1@)
        } else {
            None
        },
    decreases options.len(),
{
    if options.len() > 0 && k < options.len() - 1 {
        lemma_option_of(options.drop_last(), key, k);
    }
}

/// The value given for `key` in a list of options.
pub fn option_value<'a>(options: &'a Vec<(String, String)>, key: &str) -> (value: Option<&'a String>)
    ensures
        match value {
            Some(v) => option_of(options@, key@) == Some(v@),
            None => option_of(options@, key@) is None,
        },
{
    let wanted = String::from_str(key);
    let mut i = options.len();
    while i > 0
        invariant
            i <= options@.len(),
            wanted@ == key@,
            forall|j: int| i <= j < options@.len() ==> options@[j].0@ != key@,
        decreases i,
    {
        i -= 1;
        if options[i].0 == wanted {
            proof {
                lemma_option_of(options@, key@, i as int);
            }
            return Some(&options[i].1);
        }
    }
    proof {
        lemma_option_of(options@, key@, -1);
    }
    None
}

/// Whether the `HEADER` option says that the file starts with the names of
/// its columns: `Y` or `YES`.
pub open spec fn header_of(options: Seq<(String, String)>) -> bool {
    option_of(options, "HEADER"@) == Some("Y"@) || option_of(options, "HEADER"@) == Some("YES"@)
}

/// The separator that the `SEPARATOR` option names: its value where that is
/// a single ASCII character, a comma otherwise.
pub open spec fn separator_of(options: Seq<(String, String)>) -> char {
    match option_of(options, "SEPARATOR"@) {
        Some(s) => if s.len() == 1 && (s[0] as u32) < 128 {
            s[0]
        } else {
            ','
        },
        None => ',',
    }
}

/// Position of the table called `name` in the catalog, if it is there.
pub open spec fn table_named(tables: Seq<(String, CSVDesc)>, name: Seq<char>) -> Option<int>
    decreases tables.len(),
{
    if tables.len() == 0 {
        None
    } else if tables[0].0@ == name {
        Some(0)
    } else {
        match table_named(tables.skip(1), name) {
            Some(i) => Some(i + 1),
            None => None,
        }
    }
}

/// The first table of the name is the one that the search finds.
proof fn lemma_table_named(tables: Seq<(String, CSVDesc)>, name: Seq<char>, k: int)
    requires
        0 <= k <= tables.len(),
        forall|j: int| 0 <= j < k ==> tables[j].0@ != name,
        k < tables.len() ==> tables[k].0@ == name,
    ensures
        table_named(tables, name) == if k < tables.len() {
            Some(k)
        } else {
            None
        },
    decreases tables.len(),
{
    if tables.len() > 0 && k > 0 {
        let rest = tables.skip(1);
        assert forall|j: int| 0 <= j < k - 1 implies rest[j].0@ != name by {
            assert(rest[j] == tables[j + 1]);
        }
        lemma_table_named(rest, name, k - 1);
    }
}

/// Why a table cannot be cataloged.
#[derive(Debug, Clone, Copy, PartialEq, Eq, Structural)]
pub enum CatalogFault {
    /// A table of that name is in the catalog already.
    Duplicate,
    /// The `TYPE` option is missing or names a kind other than `CSV`.
    UnknownType,
    /// The `PATH` option is missing.
    NoPath,
}

/// The text that reports a fault of cataloging the table `name`.
pub open spec fn catalog_fault_text(fault: CatalogFault, name: Seq<char>) -> Seq<char> {
    match fault {
        CatalogFault::Duplicate => "Table "@ + name + " cannot be cataloged more than once."@,
        CatalogFault::UnknownType => "Table "@ + name + " has no supported TYPE."@,
        CatalogFault::NoPath => "Table "@ + name + " has no PATH."@,
    }
}

/// The text that says that there is no table `name`.
pub open spec fn no_table_text(name: Seq<char>) -> Seq<char> {
    "Table "@ + name + " does not exist."@
}

/// The fault, if any, of cataloging a table called `name` (already in upper
/// case) with the given options.
pub open spec fn catalog_fault(tables: Seq<(String, CSVDesc)>, name: Seq<char>, options: Seq<(String, String)>) -> Option<
    CatalogFault,
> {
    if table_named(tables, name) is Some {
        Some(CatalogFault::Duplicate)
    } else if option_of(options, "TYPE"@) != Some("CSV"@) {
        Some(CatalogFault::UnknownType)
    } else if option_of(options, "PATH"@) is None {
        Some(CatalogFault::NoPath)
    } else {
        None
    }
}

/// The catalog of tables, by name. Names are kept in upper case.
pub struct Metadata {
    pub tables: Vec<(String, CSVDesc)>,
}

impl Metadata {
    /// The empty catalog.
    pub fn new() -> (m: Metadata)
        ensures
            m.tables@.len() == 0,
    {
        Metadata { tables: Vec::new() }
    }

    /// Position of the table called `name`.
    fn find(&self, name: &String) -> (res: Option<usize>)
        ensures
            match res {
                Some(i) => table_named(self.tables@, name@) == Some(i as int) && i < self.tables@.len(),
                None => table_named(self.tables@, name@) is None,
            },
    {
        let mut i: usize = 0;
        while i < self.tables.len()
            invariant
                i <= self.tables@.len(),
                forall|j: int| 0 <= j < i ==> self.tables@[j].0@ != name@,
            decreases self.tables@.len() - i,
        {
            if self.tables[i].0 == *name {
                proof {
                    lemma_table_named(self.tables@, name@, i as int);
                }
                return Some(i);
            }
            i += 1;
        }
        proof {
            lemma_table_named(self.tables@, name@, i as int);
        }
        None
    }

    /// The file to read for the table `name`, described by `options`, before
    /// it can be added to the catalog: the value of the `PATH` option. Fails
    /// when the name is taken, when `TYPE` is not `CSV`, or when there is no
    /// `PATH`, in that order.
    pub fn table_path(&self, name: &String, options: &Vec<(String, String)>) -> (res: Result<String, String>)
        ensures
            match res {
                Ok(path) => {
                    &&& catalog_fault(self.tables@, uppercase(name@), options@) is None
                    &&& path@ == option_of(options@, "PATH"@).unwrap()
                },
                Err(e) => {
                    &&& catalog_fault(self.tables@, uppercase(name@), options@) matches Some(f)
                    &&& e@ == catalog_fault_text(f, uppercase(name@))
                },
            },
    {
        let name = to_upper(name.as_str());
        if self.find(&name).is_some() {
            let text = String::from_str("Table ").concat(name.as_str()).concat(" cannot be cataloged more than once.");
            return Err(text);
        }
        let is_csv = match option_value(options, "TYPE") {
            Some(t) => *t == String::from_str("CSV"),
            None => false,
        };
        if !is_csv {
            let text = String::from_str("Table ").concat(name.as_str()).concat(" has no supported TYPE.");
            return Err(text);
        }
        match option_value(options, "PATH") {
            Some(p) => Ok(p.clone()),
            None => {
                let text = String::from_str("Table ").concat(name.as_str()).concat(" has no PATH.");
                Err(text)
            },
        }
    }

    /// Adds the table `name`, described by `options`, to the catalog. The
    /// schema is inferred from `lines`, the lines of the file that the `PATH`
    /// option names. Fails, and leaves the catalog as it was, when the name
    /// is taken, when `TYPE` is not `CSV`, or when there is no `PATH`.
    pub fn catalog_table(&mut self, name: String, options: Vec<(String, String)>, lines: &Vec<String>) -> (res: Result<
        (),
        String,
    >)
        ensures
            match res {
                Ok(_) => {
                    &&& catalog_fault(old(self).tables@, uppercase(name@), options@) is None
                    &&& final(self).tables@.len() == old(self).tables@.len() + 1
                    &&& final(self).tables@.drop_last() == old(self).tables@
                    &&& final(self).tables@.last().0@ == uppercase(name@)
                    &&& final(self).tables@.last().1.filename@ == option_of(options@, "PATH"@).unwrap()
                    &&& final(self).tables@.last().1.header == header_of(options@)
                    &&& final(self).tables@.last().1.separator == separator_of(options@)
                    &&& is_inferred(
                        final(self).tables@.last().1.columns@,
                        lines@,
                        separator_of(options@),
                        header_of(options@),
                    )
                },
                Err(e) => {
                    &&& catalog_fault(old(self).tables@, uppercase(name@), options@) matches Some(f)
                    &&& e@ == catalog_fault_text(f, uppercase(name@))
                    &&& final(self).tables@ == old(self).tables@
                },
            },
    {
        let path = self.table_path(&name, &options)?;
        let name = to_upper(name.as_str());
        let header = match option_value(&options, "HEADER") {
            Some(h) => *h == String::from_str("Y") || *h == String::from_str("YES"),
            None => false,
        };
        let separator = match option_value(&options, "SEPARATOR") {
            Some(sep) => {
                if sep.as_str().unicode_len() == 1 {
                    let c = sep.as_str().get_char(0);
                    if (c as u32) < 128 {
                        c
                    } else {
                        ','
                    }
                } else {
                    ','
                }
            },
            None => ',',
        };
        let desc = CSVDesc::new(path, separator, header, lines);
        self.tables.push((name, desc));
        assert(self.tables@.drop_last() =~= old(self).tables@);
        Ok(())
    }

    /// The descriptor of the table `name`, whatever the case of the name.
    pub fn get_tabledesc(&self, name: &String) -> (desc: Option<&CSVDesc>)
        ensures
            match desc {
                Some(d) => table_named(self.tables@, uppercase(name@)) matches Some(i) && *d == self.tables@[i].1,
                None => table_named(self.tables@, uppercase(name@)) is None,
            },
    {
        let upper = to_upper(name.as_str());
        match self.find(&upper) {
            Some(i) => Some(&self.tables[i].1),
            None => None,
        }
    }
}

/// The name of a type as it is shown.
pub open spec fn type_label(t: DataType) -> Seq<char> {
    match t {
        DataType::INT => "INT"@,
        DataType::STR => "STR"@,
        DataType::BOOL => "BOOL"@,
        DataType::NULL => "NULL"@,
    }
}

/// The line that describes a column.
pub open spec fn column_line(col: ColDesc) -> Seq<char> {
    "      "@ + col.name@ + " "@ + type_label(col.datatype)
}

/// The lines that describe the first `n` columns.
pub open spec fn column_lines(cols: Seq<ColDesc>, n: nat) -> Seq<Seq<char>>
    decreases n,
{
    if n == 0 {
        Seq::empty()
    } else {
        column_lines(cols, (n - 1) as nat).push(column_line(cols[n - 1]))
    }
}

/// The lines that describe the table `name` apart from its columns: its
/// name, its file, whether the file has a header, the separator, and the
/// number of columns.
pub open spec fn heading(name: Seq<char>, desc: CSVDesc) -> Seq<Seq<char>> {
    seq![
        "Table "@ + name,
        "  FILENAME = \""@ + desc.filename@ + "\""@,
        "  HEADER = "@ + if desc.header {
            "true"@
        } else {
            "false"@
        },
        "  SEPARATOR = '"@ + seq![desc.separator] + "'"@,
        "  "@ + decimal(desc.columns@.len()) + " COLUMNS"@,
    ]
}

/// The lines that describe the table `name`: the heading, and one line per
/// column with its name and type.
pub open spec fn description(name: Seq<char>, desc: CSVDesc) -> Seq<Seq<char>> {
    heading(name, desc) + column_lines(desc.columns@, desc.columns@.len())
}

/// A character as a string.
fn char_string(c: char) -> (s: String)
    ensures
        s@ == seq![c],
{
    let mut s = String::new();
    push_char(&mut s, c);
    assert(s@ =~= seq![c]);
    s
}

impl Metadata {
    /// The lines that describe the table `name`, whatever the case of the
    /// name. Fails when there is no such table.
    pub fn describe_table(&self, name: String) -> (res: Result<Vec<String>, String>)
        ensures
            match res {
                Ok(lines) => table_named(self.tables@, uppercase(name@)) matches Some(i) && string_views(lines@)
                    == description(uppercase(name@), self.tables@[i].1),
                Err(e) => table_named(self.tables@, uppercase(name@)) is None && e@ == no_table_text(uppercase(name@)),
            },
    {
        let upper = to_upper(name.as_str());
        let tbldesc = match self.find(&upper) {
            Some(i) => &self.tables[i].1,
            None => {
                return Err(String::from_str("Table ").concat(upper.as_str()).concat(" does not exist."));
            },
        };
        let mut lines: Vec<String> = Vec::new();
        lines.push(String::from_str("Table ").concat(upper.as_str()));
        lines.push(String::from_str("  FILENAME = \"").concat(tbldesc.filename.as_str()).concat("\""));
        lines.push(
            String::from_str("  HEADER = ").concat(
                if tbldesc.header {
                    "true"
                } else {
                    "false"
                },
            ),
        );
        lines.push(String::from_str("  SEPARATOR = '").concat(char_string(tbldesc.separator).as_str()).concat("'"));
        lines.push(String::from_str("  ").concat(usize_to_string(tbldesc.columns.len()).as_str()).concat(" COLUMNS"));
        let ghost head = string_views(lines@);
        assert(head =~= heading(uppercase(name@), *tbldesc));
        let mut c: usize = 0;
        while c < tbldesc.columns.len()
            invariant
                c <= tbldesc.columns@.len(),
                head.len() == 5,
                string_views(lines@) == head + column_lines(tbldesc.columns@, c as nat),
            decreases tbldesc.columns@.len() - c,
        {
            let cd = &tbldesc.columns[c];
            let type_text = match cd.datatype {
                DataType::INT => "INT",
                DataType::STR => "STR",
                DataType::BOOL => "BOOL",
                DataType::NULL => "NULL",
            };
            let ghost before = lines@;
            lines.push(String::from_str("      ").concat(cd.name.as_str()).concat(" ").concat(type_text));
            assert(string_views(lines@) =~= string_views(before).push(column_line(*cd)));
            assert(string_views(lines@) =~= head + column_lines(tbldesc.columns@, (c + 1) as nat));
            c += 1;
        }
        assert(string_views(lines@) =~= description(uppercase(name@), *tbldesc));
        Ok(lines)
    }
}

} // verus!
