use vstd::prelude::*;

use crate::str_map::StrMap;

verus! {

/// The type of a column: required or optional, string or integer.
#[derive(PartialEq, Eq, Structural, Debug, Clone, Copy)]
pub enum ColType {
    RequiredString,
    OptionalString,
    RequiredInt,
    OptionalInt,
}

/// Whether a column of this type holds strings (else it holds integers).
pub open spec fn holds_strings(t: ColType) -> bool {
    t is RequiredString || t is OptionalString
}

/// The column type that a type name stands for: `RS`, `OS`, `RI` or `OI`
/// (first letter required or optional, second string or integer).
pub open spec fn coltype_of(s: Seq<char>) -> Option<ColType> {
    if s == "RS"@ {
        Some(ColType::RequiredString)
    } else if s == "OS"@ {
        Some(ColType::OptionalString)
    } else if s == "RI"@ {
        Some(ColType::RequiredInt)
    } else if s == "OI"@ {
        Some(ColType::OptionalInt)
    } else {
        None
    }
}

/// Reads a column type name; `None` for any name but the four valid ones.
pub fn string_to_coltype(s: &String) -> (r: Option<ColType>)
    ensures
        r == coltype_of(s@),
{
    if *s == "RS".to_owned() {
        Some(ColType::RequiredString)
    } else if *s == "OS".to_owned() {
        Some(ColType::OptionalString)
    } else if *s == "RI".to_owned() {
        Some(ColType::RequiredInt)
    } else if *s == "OI".to_owned() {
        Some(ColType::OptionalInt)
    } else {
        None
    }
}

/// Whether a database has tables yet or has been selected.
#[derive(PartialEq, Eq, Structural, Debug, Clone, Copy)]
pub enum DbStatus {
    Empty,
    Selected,
}

/// A table: its columns in the order they were declared, the names of its
/// string and of its integer columns, and its rows, each row split into its
/// string values and its integer values. A cell of an optional column may
/// hold no value (`None`).
#[derive(Debug)]
pub struct DbTable {
    pub name: String,
    pub columns: Vec<(String, ColType)>,
    pub str_cols: Vec<String>,
    pub int_cols: Vec<String>,
    pub str_rows: Vec<Vec<Option<String>>>,
    pub int_rows: Vec<Vec<Option<usize>>>,
}

/// A table as plain values.
pub struct TableView {
    pub name: Seq<char>,
    pub columns: Seq<(Seq<char>, ColType)>,
    pub str_cols: Seq<Seq<char>>,
    pub int_cols: Seq<Seq<char>>,
    pub str_rows: Seq<Seq<Option<Seq<char>>>>,
    pub int_rows: Seq<Seq<Option<usize>>>,
}

/// The columns as plain values.
pub open spec fn columns_view(cols: Seq<(String, ColType)>) -> Seq<(Seq<char>, ColType)> {
    Seq::new(cols.len(), |i: int| (cols[i].0@, cols[i].1))
}

impl View for DbTable {
    type V = TableView;

    open spec fn view(&self) -> TableView {
        TableView {
            name: self.name@,
            columns: columns_view(self.columns@),
            str_cols: self.str_cols.deep_view(),
            int_cols: self.int_cols.deep_view(),
            str_rows: self.str_rows.deep_view(),
            int_rows: self.int_rows.deep_view(),
        }
    }
}

/// Whether a column of this type may hold no value.
pub open spec fn is_optional(t: ColType) -> bool {
    t is OptionalString || t is OptionalInt
}

/// The names of the string columns, in declaration order.
pub open spec fn str_names(cols: Seq<(Seq<char>, ColType)>) -> Seq<Seq<char>>
    decreases cols.len(),
{
    if cols.len() == 0 {
        Seq::empty()
    } else if holds_strings(cols.last().1) {
        str_names(cols.drop_last()).push(cols.last().0)
    } else {
        str_names(cols.drop_last())
    }
}

/// The names of the integer columns, in declaration order.
pub open spec fn int_names(cols: Seq<(Seq<char>, ColType)>) -> Seq<Seq<char>>
    decreases cols.len(),
{
    if cols.len() == 0 {
        Seq::empty()
    } else if !holds_strings(cols.last().1) {
        int_names(cols.drop_last()).push(cols.last().0)
    } else {
        int_names(cols.drop_last())
    }
}

/// Which string columns are optional, in declaration order.
pub open spec fn str_optional(cols: Seq<(Seq<char>, ColType)>) -> Seq<bool>
    decreases cols.len(),
{
    if cols.len() == 0 {
        Seq::empty()
    } else if holds_strings(cols.last().1) {
        str_optional(cols.drop_last()).push(is_optional(cols.last().1))
    } else {
        str_optional(cols.drop_last())
    }
}

/// Which integer columns are optional, in declaration order.
pub open spec fn int_optional(cols: Seq<(Seq<char>, ColType)>) -> Seq<bool>
    decreases cols.len(),
{
    if cols.len() == 0 {
        Seq::empty()
    } else if !holds_strings(cols.last().1) {
        int_optional(cols.drop_last()).push(is_optional(cols.last().1))
    } else {
        int_optional(cols.drop_last())
    }
}

/// Whether the `j`-th of the columns that `flags` describes is optional.
pub open spec fn flag_at(flags: Seq<bool>, j: int) -> bool {
    0 <= j < flags.len() && flags[j]
}

/// No two columns share a name.
pub open spec fn names_distinct(cols: Seq<(Seq<char>, ColType)>) -> bool {
    forall|i: int, j: int| 0 <= i < j < cols.len() ==> #[trigger] cols[i].0 != #[trigger] cols[j].0
}

/// As many string rows as integer rows, each as wide as its columns.
pub open spec fn rows_fit<S, I>(
    str_rows: Seq<Seq<S>>,
    int_rows: Seq<Seq<I>>,
    n_str: nat,
    n_int: nat,
) -> bool {
    &&& str_rows.len() == int_rows.len()
    &&& forall|r: int| 0 <= r < str_rows.len() ==> #[trigger] str_rows[r].len() == n_str
    &&& forall|r: int| 0 <= r < int_rows.len() ==> #[trigger] int_rows[r].len() == n_int
}

/// Every cell of a column that is not optional holds a value.
pub open spec fn values_present<T>(rows: Seq<Seq<Option<T>>>, optional: Seq<bool>) -> bool {
    forall|r: int, j: int|
        0 <= r < rows.len() && 0 <= j < rows[r].len() && !flag_at(optional, j) ==> #[trigger] rows[r][j] is Some
}

/// A table is well formed when its string and integer column lists are those
/// of its declared columns, column names are distinct, every row fits and
/// every required cell holds a value.
pub open spec fn table_wf(t: TableView) -> bool {
    &&& t.str_cols == str_names(t.columns)
    &&& t.int_cols == int_names(t.columns)
    &&& names_distinct(t.columns)
    &&& rows_fit(t.str_rows, t.int_rows, t.str_cols.len(), t.int_cols.len())
    &&& values_present(t.str_rows, str_optional(t.columns))
    &&& values_present(t.int_rows, int_optional(t.columns))
}

/// Whether rows can be added to a table: they fit its columns and hold a
/// value in every required cell.
pub open spec fn rows_acceptable(
    t: TableView,
    str_rows: Seq<Seq<Option<Seq<char>>>>,
    int_rows: Seq<Seq<Option<usize>>>,
) -> bool {
    &&& rows_fit(str_rows, int_rows, t.str_cols.len(), t.int_cols.len())
    &&& values_present(str_rows, str_optional(t.columns))
    &&& values_present(int_rows, int_optional(t.columns))
}

/// The table after appending rows.
pub open spec fn with_rows(
    t: TableView,
    str_rows: Seq<Seq<Option<Seq<char>>>>,
    int_rows: Seq<Seq<Option<usize>>>,
) -> TableView {
    TableView { str_rows: t.str_rows + str_rows, int_rows: t.int_rows + int_rows, ..t }
}

proof fn lemma_names_step(cols: Seq<(Seq<char>, ColType)>, i: int)
    requires
        0 <= i < cols.len(),
    ensures
        str_names(cols.subrange(0, i + 1)) == (if holds_strings(cols[i].1) {
            str_names(cols.subrange(0, i)).push(cols[i].0)
        } else {
            str_names(cols.subrange(0, i))
        }),
        int_names(cols.subrange(0, i + 1)) == (if !holds_strings(cols[i].1) {
            int_names(cols.subrange(0, i)).push(cols[i].0)
        } else {
            int_names(cols.subrange(0, i))
        }),
        str_optional(cols.subrange(0, i + 1)) == (if holds_strings(cols[i].1) {
            str_optional(cols.subrange(0, i)).push(is_optional(cols[i].1))
        } else {
            str_optional(cols.subrange(0, i))
        }),
        int_optional(cols.subrange(0, i + 1)) == (if !holds_strings(cols[i].1) {
            int_optional(cols.subrange(0, i)).push(is_optional(cols[i].1))
        } else {
            int_optional(cols.subrange(0, i))
        }),
{
    assert(cols.subrange(0, i + 1).drop_last() =~= cols.subrange(0, i));
}

/// Which string columns and which integer columns are optional.
pub fn optional_flags(cols: &Vec<(String, ColType)>) -> (r: (Vec<bool>, Vec<bool>))
    ensures
        r.0@ == str_optional(columns_view(cols@)),
        r.1@ == int_optional(columns_view(cols@)),
{
    let ghost cv = columns_view(cols@);
    let mut s: Vec<bool> = Vec::new();
    let mut n: Vec<bool> = Vec::new();
    let mut i: usize = 0;
    while i < cols.len()
        invariant
            cv == columns_view(cols@),
            i <= cols@.len(),
            s@ == str_optional(cv.subrange(0, i as int)),
            n@ == int_optional(cv.subrange(0, i as int)),
        decreases cols@.len() - i,
    {
        proof {
            lemma_names_step(cv, i as int);
        }
        let t = cols[i].1;
        let opt = match t {
            ColType::OptionalString | ColType::OptionalInt => true,
            _ => false,
        };
        match t {
            ColType::RequiredString | ColType::OptionalString => s.push(opt),
            _ => n.push(opt),
        }
        i = i + 1;
    }
    proof {
        assert(cv.subrange(0, cols@.len() as int) =~= cv);
    }
    (s, n)
}

/// Whether the rows fit tables with `n_str` string and `n_int` integer columns.
fn rows_fit_exec(
    str_rows: &Vec<Vec<Option<String>>>,
    int_rows: &Vec<Vec<Option<usize>>>,
    n_str: usize,
    n_int: usize,
) -> (b: bool)
    ensures
        b == rows_fit(str_rows.deep_view(), int_rows.deep_view(), n_str as nat, n_int as nat),
{
    if str_rows.len() != int_rows.len() {
        return false;
    }
    let n = str_rows.len();
    let mut r: usize = 0;
    while r < n
        invariant
            n == str_rows@.len(),
            n == int_rows@.len(),
            r <= n,
            forall|q: int| 0 <= q < r ==> #[trigger] str_rows@[q]@.len() == n_str,
            forall|q: int| 0 <= q < r ==> #[trigger] int_rows@[q]@.len() == n_int,
        decreases n - r,
    {
        if str_rows[r].len() != n_str || int_rows[r].len() != n_int {
            proof {
                assert(str_rows.deep_view()[r as int].len() == str_rows@[r as int]@.len());
                assert(int_rows.deep_view()[r as int].len() == int_rows@[r as int]@.len());
            }
            return false;
        }
        r = r + 1;
    }
    proof {
        assert forall|q: int| 0 <= q < str_rows.deep_view().len() implies #[trigger] str_rows.deep_view()[q].len()
            == n_str by {
            assert(str_rows.deep_view()[q].len() == str_rows@[q]@.len());
        }
        assert forall|q: int| 0 <= q < int_rows.deep_view().len() implies #[trigger] int_rows.deep_view()[q].len()
            == n_int by {
            assert(int_rows.deep_view()[q].len() == int_rows@[q]@.len());
        }
    }
    true
}

/// Whether every cell of a column that is not optional holds a value.
fn values_present_exec<T: DeepView>(rows: &Vec<Vec<Option<T>>>, optional: &Vec<bool>) -> (b: bool)
    ensures
        b == values_present(rows.deep_view(), optional@),
{
    let mut r: usize = 0;
    while r < rows.len()
        invariant
            r <= rows@.len(),
            forall|q: int, j: int|
                0 <= q < r && 0 <= j < rows.deep_view()[q].len() && !flag_at(optional@, j)
                    ==> #[trigger] rows.deep_view()[q][j] is Some,
        decreases rows@.len() - r,
    {
        let row = &rows[r];
        let mut j: usize = 0;
        while j < row.len()
            invariant
                r < rows@.len(),
                row == rows@[r as int],
                j <= row@.len(),
                forall|q: int, k: int|
                    0 <= q < r && 0 <= k < rows.deep_view()[q].len() && !flag_at(optional@, k)
                        ==> #[trigger] rows.deep_view()[q][k] is Some,
                forall|k: int|
                    0 <= k < j && !flag_at(optional@, k) ==> #[trigger] row@[k] is Some,
            decreases row@.len() - j,
        {
            let required = !(j < optional.len() && optional[j]);
            if required && row[j].is_none() {
                proof {
                    assert(rows.deep_view()[r as int][j as int] == row@[j as int].deep_view());
                }
                return false;
            }
            j = j + 1;
        }
        proof {
            assert forall|q: int, k: int|
                0 <= q < r + 1 && 0 <= k < rows.deep_view()[q].len() && !flag_at(optional@, k)
                    implies #[trigger] rows.deep_view()[q][k] is Some by {
                if q == r {
                    assert(rows.deep_view()[q][k] == row@[k].deep_view());
                }
            }
        }
        r = r + 1;
    }
    true
}

impl DbTable {
    /// Makes a table with the given columns and rows. `None` when two columns
    /// share a name, a row does not fit the columns, or a cell of a required
    /// column holds no value.
    pub fn new(
        name: String,
        col_names_types: Vec<(String, ColType)>,
        str_rows: Vec<Vec<Option<String>>>,
        int_rows: Vec<Vec<Option<usize>>>,
    ) -> (r: Option<DbTable>)
        ensures
            ({
                let cols = columns_view(col_names_types@);
                let n_str = str_names(cols).len();
                let n_int = int_names(cols).len();
                r is Some <==> names_distinct(cols) && rows_fit(
                    str_rows.deep_view(),
                    int_rows.deep_view(),
                    n_str,
                    n_int,
                ) && values_present(str_rows.deep_view(), str_optional(cols)) && values_present(
                    int_rows.deep_view(),
                    int_optional(cols),
                )
            }),
            r matches Some(t) ==> t@ == (TableView {
                name: name@,
                columns: columns_view(col_names_types@),
                str_cols: str_names(columns_view(col_names_types@)),
                int_cols: int_names(columns_view(col_names_types@)),
                str_rows: str_rows.deep_view(),
                int_rows: int_rows.deep_view(),
            }),
            r matches Some(t) ==> table_wf(t@),
    {
        let ghost cols = columns_view(col_names_types@);
        let n = col_names_types.len();
        let mut str_cols: Vec<String> = Vec::new();
        let mut int_cols: Vec<String> = Vec::new();
        let mut i: usize = 0;
        while i < n
            invariant
                n == col_names_types@.len(),
                cols == columns_view(col_names_types@),
                i <= n,
                names_distinct(cols.subrange(0, i as int)),
                str_cols.deep_view() == str_names(cols.subrange(0, i as int)),
                int_cols.deep_view() == int_names(cols.subrange(0, i as int)),
            decreases n - i,
        {
            let mut j: usize = 0;
            while j < i
                invariant
                    n == col_names_types@.len(),
                    cols == columns_view(col_names_types@),
                    j <= i < n,
                    forall|q: int| 0 <= q < j ==> cols[q].0 != cols[i as int].0,
                decreases i - j,
            {
                if col_names_types[j].0 == col_names_types[i].0 {
                    proof {
                        let sub = cols.subrange(0, n as int);
                        assert(sub =~= cols);
                        assert(cols[j as int].0 == cols[i as int].0);
                    }
                    return None;
                }
                j = j + 1;
            }
            proof {
                lemma_names_step(cols, i as int);
                let sub = cols.subrange(0, i + 1);
                assert forall|a: int, b: int| 0 <= a < b < sub.len() implies #[trigger] sub[a].0
                    != #[trigger] sub[b].0 by {
                    assert(sub[a] == cols[a] && sub[b] == cols[b]);
                    if b < i {
                        assert(cols.subrange(0, i as int)[a] == cols[a]);
                        assert(cols.subrange(0, i as int)[b] == cols[b]);
                    }
                }
            }
            let entry = &col_names_types[i];
            let ghost sv = str_cols.deep_view();
            let ghost iv = int_cols.deep_view();
            match entry.1 {
                ColType::RequiredString | ColType::OptionalString => {
                    str_cols.push(entry.0.clone());
                    proof {
                        assert(str_cols.deep_view() =~= sv.push(cols[i as int].0));
                    }
                },
                _ => {
                    int_cols.push(entry.0.clone());
                    proof {
                        assert(int_cols.deep_view() =~= iv.push(cols[i as int].0));
                    }
                },
            }
            i = i + 1;
        }
        proof {
            assert(cols.subrange(0, n as int) =~= cols);
        }
        if !rows_fit_exec(&str_rows, &int_rows, str_cols.len(), int_cols.len()) {
            return None;
        }
        let (str_opt, int_opt) = optional_flags(&col_names_types);
        if !values_present_exec(&str_rows, &str_opt) || !values_present_exec(&int_rows, &int_opt) {
            return None;
        }
        Some(DbTable { name, columns: col_names_types, str_cols, int_cols, str_rows, int_rows })
    }

    /// Which string columns and which integer columns are optional.
    pub fn optional_flags(&self) -> (r: (Vec<bool>, Vec<bool>))
        ensures
            r.0@ == str_optional(self@.columns),
            r.1@ == int_optional(self@.columns),
    {
        optional_flags(&self.columns)
    }

    /// Appends rows to the table when they fit its columns and hold a value
    /// in every required cell (and reports whether it did); otherwise leaves
    /// it as it is.
    pub fn insert(
        &mut self,
        str_rows: Vec<Vec<Option<String>>>,
        int_rows: Vec<Vec<Option<usize>>>,
    ) -> (ok: bool)
        ensures
            ok == rows_acceptable(old(self)@, str_rows.deep_view(), int_rows.deep_view()),
            ok ==> final(self)@ == with_rows(old(self)@, str_rows.deep_view(), int_rows.deep_view()),
            !ok ==> final(self)@ == old(self)@,
            table_wf(old(self)@) ==> table_wf(final(self)@),
    {
        if !rows_fit_exec(&str_rows, &int_rows, self.str_cols.len(), self.int_cols.len()) {
            return false;
        }
        let (str_opt, int_opt) = self.optional_flags();
        if !values_present_exec(&str_rows, &str_opt) || !values_present_exec(&int_rows, &int_opt) {
            return false;
        }
        let ghost old_sr = self.str_rows.deep_view();
        let ghost old_ir = self.int_rows.deep_view();
        let ghost new_sr = str_rows.deep_view();
        let ghost new_ir = int_rows.deep_view();
        let mut sr = str_rows;
        let mut ir = int_rows;
        self.str_rows.append(&mut sr);
        self.int_rows.append(&mut ir);
        proof {
            assert(self.str_rows.deep_view() =~= old_sr + new_sr);
            assert(self.int_rows.deep_view() =~= old_ir + new_ir);
            if table_wf(old(self)@) {
                lemma_with_rows_wf(old(self)@, new_sr, new_ir);
            }
        }
        true
    }
}

/// Appending acceptable rows keeps a table well formed.
pub proof fn lemma_with_rows_wf(
    t: TableView,
    str_rows: Seq<Seq<Option<Seq<char>>>>,
    int_rows: Seq<Seq<Option<usize>>>,
)
    requires
        table_wf(t),
        rows_acceptable(t, str_rows, int_rows),
    ensures
        table_wf(with_rows(t, str_rows, int_rows)),
{
    let t2 = with_rows(t, str_rows, int_rows);
    assert forall|r: int| 0 <= r < t2.str_rows.len() implies #[trigger] t2.str_rows[r].len()
        == t.str_cols.len() by {
        if r >= t.str_rows.len() {
            assert(t2.str_rows[r] == str_rows[r - t.str_rows.len()]);
        }
    }
    assert forall|r: int| 0 <= r < t2.int_rows.len() implies #[trigger] t2.int_rows[r].len()
        == t.int_cols.len() by {
        if r >= t.int_rows.len() {
            assert(t2.int_rows[r] == int_rows[r - t.int_rows.len()]);
        }
    }
    assert forall|r: int, j: int|
        0 <= r < t2.str_rows.len() && 0 <= j < t2.str_rows[r].len() && !flag_at(
            str_optional(t.columns),
            j,
        ) implies #[trigger] t2.str_rows[r][j] is Some by {
        if r >= t.str_rows.len() {
            assert(t2.str_rows[r] == str_rows[r - t.str_rows.len()]);
        }
    }
    assert forall|r: int, j: int|
        0 <= r < t2.int_rows.len() && 0 <= j < t2.int_rows[r].len() && !flag_at(
            int_optional(t.columns),
            j,
        ) implies #[trigger] t2.int_rows[r][j] is Some by {
        if r >= t.int_rows.len() {
            assert(t2.int_rows[r] == int_rows[r - t.int_rows.len()]);
        }
    }
}

/// A database: a name, its tables by name, and its status.
#[derive(Debug)]
pub struct Db {
    pub name: String,
    pub tables: StrMap<DbTable>,
    pub status: DbStatus,
}

/// A database as plain values.
pub struct DbView {
    pub name: Seq<char>,
    pub tables: Map<Seq<char>, TableView>,
    pub status: DbStatus,
}

impl View for Db {
    type V = DbView;

    open spec fn view(&self) -> DbView {
        DbView {
            name: self.name@,
            tables: self.tables@.map_values(|t: DbTable| t@),
            status: self.status,
        }
    }
}

/// Every table of the database is well formed.
pub open spec fn db_wf(d: DbView) -> bool {
    forall|k: Seq<char>| #[trigger] d.tables.contains_key(k) ==> table_wf(d.tables[k])
}

impl Db {
    /// A database with no tables.
    pub fn new(name: String) -> (d: Db)
        ensures
            d@ == (DbView { name: name@, tables: Map::empty(), status: DbStatus::Empty }),
    {
        let d = Db { name, tables: StrMap::new(), status: DbStatus::Empty };
        proof {
            assert(d@.tables =~= Map::<Seq<char>, TableView>::empty());
        }
        d
    }
}

} // verus!
