use vstd::prelude::*;

use std::collections::BTreeMap;

use crate::db::{
    coltype_of, columns_view, db_wf, int_names, lemma_with_rows_wf, names_distinct, rows_fit,
    flag_at, int_optional, rows_acceptable, str_names, str_optional, string_to_coltype, table_wf, with_rows, ColType, Db, DbStatus, DbTable, DbView,
    TableView,
};
use crate::load_balancer::StatusFlag;
use crate::str_map::StrMap;
use crate::text::{
    parse_usize, parse_usize_spec, split_whitespace, split_words, to_lowercase, unicode_lowercase,
};

verus! {

/// How many arguments a keyword takes.
#[derive(PartialEq, Eq, Structural, Debug, Clone, Copy)]
pub enum KeywordNumArgs {
    Empty,
    Single,
    Double,
    Tripe,
    /// at least one argument
    Variable,
    /// at least two arguments (`insert_into`: a table name and values)
    VariableTwoPlus,
    /// an odd number of arguments, at least three (`create_table`: a table
    /// name, then a name and a type for each column)
    VariableThreePlusOdd,
}

/// What a keyword does to the databases.
#[derive(PartialEq, Eq, Structural, Debug, Clone, Copy)]
pub enum CommandFunctionality {
    NoOp,
    UpdateCols,
    UpdateTable,
    UpdateDb,
    CreateDb,
    CreateTable,
    InsertIntoTable,
}

/// What is known of a keyword: how many arguments it takes and what it does.
#[derive(PartialEq, Eq, Structural, Debug, Clone, Copy)]
pub struct KeywordAttrs {
    pub num_args: KeywordNumArgs,
    pub command_functionality: CommandFunctionality,
}

/// A word of a command: the word, whether it is a keyword, and the keyword's
/// attributes (those of no keyword for other words).
#[derive(Debug, Clone)]
pub struct CommandWordDat {
    pub name: String,
    pub keyword: bool,
    pub attrs: KeywordAttrs,
}

/// A word of a command as plain values.
pub struct WordView {
    pub name: Seq<char>,
    pub keyword: bool,
    pub attrs: KeywordAttrs,
}

impl View for CommandWordDat {
    type V = WordView;

    open spec fn view(&self) -> WordView {
        WordView { name: self.name@, keyword: self.keyword, attrs: self.attrs }
    }
}

/// Why a command was refused.
#[derive(PartialEq, Eq, Structural, Debug, Clone, Copy)]
pub enum CommandError {
    /// The last word is a keyword that takes arguments.
    LastWordTakesArgs,
    /// A keyword got a number of arguments it does not take.
    WrongArgCount,
    /// The current database does not exist.
    UnknownDatabase,
    /// `create_table` names a table that already exists.
    TableExists,
    /// A column type is not one of `RS`, `OS`, `RI`, `OI`.
    UnknownColumnType,
    /// The table could not be made (two columns share a name).
    TableNotCreated,
    /// `insert_into` names a table that does not exist.
    UnknownTable,
    /// `insert_into` got a number of values other than the table's columns.
    WrongValueCount,
    /// A value for an integer column is not a number (nor `?` in an optional
    /// column).
    NotAnInteger,
}

/// The databases as plain values.
pub open spec fn dbs_view(m: Map<Seq<char>, (StatusFlag, Db)>) -> Map<
    Seq<char>,
    (StatusFlag, DbView),
> {
    m.map_values(|e: (StatusFlag, Db)| (e.0, e.1@))
}

/// How running (part of) a command ends: with the databases it leaves, or
/// refused, or in a panic of the interpreter; in the last two cases with the
/// databases as they stand at that point.
pub enum CommandOutcome {
    Done(Map<Seq<char>, (StatusFlag, DbView)>),
    Refused(CommandError, Map<Seq<char>, (StatusFlag, DbView)>),
    Panics(Map<Seq<char>, (StatusFlag, DbView)>),
}

/// The attributes given to a word that is not a keyword.
pub open spec fn plain_word_attrs() -> KeywordAttrs {
    KeywordAttrs { num_args: KeywordNumArgs::Empty, command_functionality: CommandFunctionality::NoOp }
}

/// The keywords the interpreter knows.
pub open spec fn keyword_table() -> Map<Seq<char>, KeywordAttrs> {
    Map::empty().insert(
        "from"@,
        KeywordAttrs {
            num_args: KeywordNumArgs::Single,
            command_functionality: CommandFunctionality::UpdateTable,
        },
    ).insert(
        "insert_into"@,
        KeywordAttrs {
            num_args: KeywordNumArgs::VariableTwoPlus,
            command_functionality: CommandFunctionality::InsertIntoTable,
        },
    ).insert(
        "create_table"@,
        KeywordAttrs {
            num_args: KeywordNumArgs::VariableThreePlusOdd,
            command_functionality: CommandFunctionality::CreateTable,
        },
    ).insert(
        "create_db"@,
        KeywordAttrs {
            num_args: KeywordNumArgs::Single,
            command_functionality: CommandFunctionality::CreateDb,
        },
    )
}

/// Whether `count` arguments are acceptable for a keyword of kind `kind`.
pub open spec fn arg_count_ok(kind: KeywordNumArgs, count: int) -> bool {
    match kind {
        KeywordNumArgs::Empty => count == 0,
        KeywordNumArgs::Single => count == 1,
        KeywordNumArgs::Double => count == 2,
        KeywordNumArgs::Tripe => count == 3,
        KeywordNumArgs::Variable => count >= 1,
        KeywordNumArgs::VariableTwoPlus => count >= 2,
        KeywordNumArgs::VariableThreePlusOdd => count >= 3 && count % 2 == 1,
    }
}

/// The word of a command that `word` becomes, given the keywords known.
pub open spec fn classify_word(keywords: Map<Seq<char>, KeywordAttrs>, word: Seq<char>) -> WordView {
    let lower = unicode_lowercase(word);
    if keywords.contains_key(lower) {
        WordView { name: word, keyword: true, attrs: keywords[lower] }
    } else {
        WordView { name: word, keyword: false, attrs: plain_word_attrs() }
    }
}

/// The words of `command`, classified.
pub open spec fn command_words(keywords: Map<Seq<char>, KeywordAttrs>, command: Seq<char>) -> Seq<
    WordView,
> {
    split_words(command).map_values(|w: Seq<char>| classify_word(keywords, w))
}

/// The position of the first keyword at or after `j` (the number of words if
/// there is none).
pub open spec fn next_keyword_from(ws: Seq<WordView>, j: int) -> int
    decreases ws.len() - j,
{
    if j >= ws.len() {
        ws.len() as int
    } else if ws[j].keyword {
        j
    } else {
        next_keyword_from(ws, j + 1)
    }
}

/// The arguments of the keyword at `k`: the words up to the next keyword.
pub open spec fn args_of(ws: Seq<WordView>, k: int) -> Seq<Seq<char>> {
    ws.subrange(k + 1, next_keyword_from(ws, k + 1)).map_values(|w: WordView| w.name)
}

/// The database that `create_db` makes.
pub open spec fn fresh_db(name: Seq<char>) -> (StatusFlag, DbView) {
    (StatusFlag::Clean, DbView { name, tables: Map::empty(), status: DbStatus::Empty })
}

/// The columns that `create_table` arguments (after the table name) declare.
pub open spec fn declared_columns(rest: Seq<Seq<char>>) -> Seq<(Seq<char>, ColType)> {
    Seq::new(rest.len() / 2, |p: int| (rest[2 * p], coltype_of(rest[2 * p + 1]).unwrap()))
}

/// A new table with the given columns and no rows.
pub open spec fn empty_table(name: Seq<char>, cols: Seq<(Seq<char>, ColType)>) -> TableView {
    TableView {
        name,
        columns: cols,
        str_cols: str_names(cols),
        int_cols: int_names(cols),
        str_rows: Seq::empty(),
        int_rows: Seq::empty(),
    }
}

/// The databases after replacing the tables of database `cur`.
pub open spec fn with_tables(
    dbs: Map<Seq<char>, (StatusFlag, DbView)>,
    cur: Seq<char>,
    tables: Map<Seq<char>, TableView>,
) -> Map<Seq<char>, (StatusFlag, DbView)> {
    dbs.insert(cur, (dbs[cur].0, DbView { tables, ..dbs[cur].1 }))
}

/// `create_table name col type col type ...` run on database `cur`.
pub open spec fn create_table_step(
    args: Seq<Seq<char>>,
    dbs: Map<Seq<char>, (StatusFlag, DbView)>,
    cur: Seq<char>,
) -> CommandOutcome {
    if !dbs.contains_key(cur) {
        CommandOutcome::Refused(CommandError::UnknownDatabase, dbs)
    } else if args.len() == 0 {
        CommandOutcome::Panics(dbs)
    } else {
        let db = dbs[cur].1;
        let name = args[0];
        let rest = args.drop_first();
        if db.tables.contains_key(name) {
            CommandOutcome::Refused(CommandError::TableExists, dbs)
        } else if exists|p: int|
            0 <= p < rest.len() / 2 && #[trigger] coltype_of(rest[2 * p + 1]) is None {
            CommandOutcome::Refused(CommandError::UnknownColumnType, dbs)
        } else if rest.len() % 2 == 1 {
            CommandOutcome::Panics(dbs)
        } else if !names_distinct(declared_columns(rest)) {
            CommandOutcome::Refused(CommandError::TableNotCreated, dbs)
        } else {
            CommandOutcome::Done(
                with_tables(
                    dbs,
                    cur,
                    db.tables.insert(name, empty_table(name, declared_columns(rest))),
                ),
            )
        }
    }
}

/// The value an `insert_into` argument gives a string cell: none for `?` in
/// an optional column, else the argument itself.
pub open spec fn str_cell(optional: bool, arg: Seq<char>) -> Option<Seq<char>> {
    if optional && arg == "?"@ {
        None
    } else {
        Some(arg)
    }
}

/// Whether an `insert_into` argument is acceptable for an integer cell:
/// `?` in an optional column, or a number.
pub open spec fn int_arg_ok(optional: bool, arg: Seq<char>) -> bool {
    (optional && arg == "?"@) || parse_usize_spec(arg) is Some
}

/// The value an `insert_into` argument gives an integer cell: none for `?`
/// in an optional column, else the number it reads as.
pub open spec fn int_cell(optional: bool, arg: Seq<char>) -> Option<usize> {
    if optional && arg == "?"@ {
        None
    } else {
        parse_usize_spec(arg)
    }
}

/// The string values of an `insert_into` row: the arguments after the table
/// name, one per string column.
pub open spec fn str_values(args: Seq<Seq<char>>, optional: Seq<bool>, n_str: int) -> Seq<
    Option<Seq<char>>,
> {
    Seq::new(n_str as nat, |j: int| str_cell(flag_at(optional, j), args[1 + j]))
}

/// The integer values of an `insert_into` row: the arguments after the
/// table name and the string values.
pub open spec fn int_values(
    args: Seq<Seq<char>>,
    optional: Seq<bool>,
    n_str: int,
    n_int: int,
) -> Seq<Option<usize>> {
    Seq::new(n_int as nat, |j: int| int_cell(flag_at(optional, j), args[1 + n_str + j]))
}

/// `insert_into name values...` run on database `cur`: the string values
/// come first, in the order of the string columns, then the integer values;
/// every column needs a value, and `?` stands for no value in an optional
/// column.
pub open spec fn insert_step(
    args: Seq<Seq<char>>,
    dbs: Map<Seq<char>, (StatusFlag, DbView)>,
    cur: Seq<char>,
) -> CommandOutcome {
    if !dbs.contains_key(cur) {
        CommandOutcome::Refused(CommandError::UnknownDatabase, dbs)
    } else if args.len() == 0 {
        CommandOutcome::Panics(dbs)
    } else {
        let db = dbs[cur].1;
        let name = args[0];
        if !db.tables.contains_key(name) {
            CommandOutcome::Refused(CommandError::UnknownTable, dbs)
        } else {
            let t = db.tables[name];
            let n_str = t.str_cols.len() as int;
            let n_int = t.int_cols.len() as int;
            let int_opt = int_optional(t.columns);
            if args.len() - 1 != n_str + n_int {
                CommandOutcome::Refused(CommandError::WrongValueCount, dbs)
            } else if exists|i: int|
                1 + n_str <= i < args.len() && !#[trigger] int_arg_ok(
                    flag_at(int_opt, i - 1 - n_str),
                    args[i],
                ) {
                CommandOutcome::Refused(CommandError::NotAnInteger, dbs)
            } else {
                let srow = str_values(args, str_optional(t.columns), n_str);
                let irow = int_values(args, int_opt, n_str, n_int);
                CommandOutcome::Done(
                    with_tables(
                        dbs,
                        cur,
                        db.tables.insert(name, with_rows(t, seq![srow], seq![irow])),
                    ),
                )
            }
        }
    }
}

/// What the keyword at position `k` does.
pub open spec fn keyword_step(
    ws: Seq<WordView>,
    k: int,
    dbs: Map<Seq<char>, (StatusFlag, DbView)>,
    cur: Seq<char>,
) -> CommandOutcome {
    let a = ws[k].attrs;
    if k == ws.len() - 1 && a.num_args != KeywordNumArgs::Empty {
        CommandOutcome::Refused(CommandError::LastWordTakesArgs, dbs)
    } else if !arg_count_ok(a.num_args, next_keyword_from(ws, k + 1) - k - 1) {
        CommandOutcome::Refused(CommandError::WrongArgCount, dbs)
    } else {
        let args = args_of(ws, k);
        match a.command_functionality {
            CommandFunctionality::CreateDb => if args.len() == 0 {
                CommandOutcome::Panics(dbs)
            } else {
                CommandOutcome::Done(dbs.insert(args[0], fresh_db(args[0])))
            },
            CommandFunctionality::CreateTable => create_table_step(args, dbs, cur),
            CommandFunctionality::InsertIntoTable => insert_step(args, dbs, cur),
            _ => CommandOutcome::Done(dbs),
        }
    }
}

/// The outcome of running the first `k` words of a command.
pub open spec fn run_upto(
    ws: Seq<WordView>,
    k: int,
    dbs: Map<Seq<char>, (StatusFlag, DbView)>,
    cur: Seq<char>,
) -> CommandOutcome
    decreases k,
{
    if k <= 0 {
        CommandOutcome::Done(dbs)
    } else {
        match run_upto(ws, k - 1, dbs, cur) {
            CommandOutcome::Done(d) => if ws[k - 1].keyword {
                keyword_step(ws, k - 1, d, cur)
            } else {
                CommandOutcome::Done(d)
            },
            other => other,
        }
    }
}

/// The outcome of running a whole command: its keywords in order, each on
/// the databases the ones before it left, stopping at the first refusal.
pub open spec fn command_outcome(
    ws: Seq<WordView>,
    dbs: Map<Seq<char>, (StatusFlag, DbView)>,
    cur: Seq<char>,
) -> CommandOutcome {
    run_upto(ws, ws.len() as int, dbs, cur)
}

/// Once refused or panicked, a command stays so.
proof fn lemma_run_stops(
    ws: Seq<WordView>,
    k: int,
    n: int,
    dbs: Map<Seq<char>, (StatusFlag, DbView)>,
    cur: Seq<char>,
)
    requires
        0 <= k <= n,
        !(run_upto(ws, k, dbs, cur) is Done),
    ensures
        run_upto(ws, n, dbs, cur) == run_upto(ws, k, dbs, cur),
    decreases n - k,
{
    if k < n {
        lemma_run_stops(ws, k, n - 1, dbs, cur);
    }
}

/// The interpreter: the keywords it knows, the columns of the current query
/// and the words of the current command by position.
#[derive(Debug)]
pub struct CmdInterpreter {
    pub keywords: StrMap<KeywordAttrs>,
    pub current_columns: Vec<String>,
    pub current_btreemap: BTreeMap<usize, CommandWordDat>,
}

impl CmdInterpreter {
    /// The current command's words are numbered `0` to `n - 1`.
    pub open spec fn well_indexed(&self) -> bool {
        forall|k: usize|
            #[trigger] self.current_btreemap@.contains_key(k) <==> (k as int) < self.current_btreemap@.len()
    }

    /// The words of the current command, in order.
    pub open spec fn words(&self) -> Seq<WordView> {
        Seq::new(self.current_btreemap@.len(), |i: int| self.current_btreemap@[i as usize]@)
    }

    /// An interpreter that knows the keywords and has no command yet.
    pub fn new() -> (interp: Self)
        ensures
            interp.keywords@ == keyword_table(),
            interp.current_columns@.len() == 0,
            interp.current_btreemap@ == Map::<usize, CommandWordDat>::empty(),
            interp.well_indexed(),
    {
        let interp = CmdInterpreter {
            keywords: Self::create_keywords_map(),
            current_columns: Vec::new(),
            current_btreemap: BTreeMap::new(),
        };
        interp
    }

    /// The keywords the interpreter knows.
    pub fn create_keywords_map() -> (keywords: StrMap<KeywordAttrs>)
        ensures
            keywords@ == keyword_table(),
    {
        let mut keywords = StrMap::new();
        keywords.insert(
            "from".to_owned(),
            KeywordAttrs {
                num_args: KeywordNumArgs::Single,
                command_functionality: CommandFunctionality::UpdateTable,
            },
        );
        keywords.insert(
            "insert_into".to_owned(),
            KeywordAttrs {
                num_args: KeywordNumArgs::VariableTwoPlus,
                command_functionality: CommandFunctionality::InsertIntoTable,
            },
        );
        keywords.insert(
            "create_table".to_owned(),
            KeywordAttrs {
                num_args: KeywordNumArgs::VariableThreePlusOdd,
                command_functionality: CommandFunctionality::CreateTable,
            },
        );
        keywords.insert(
            "create_db".to_owned(),
            KeywordAttrs {
                num_args: KeywordNumArgs::Single,
                command_functionality: CommandFunctionality::CreateDb,
            },
        );
        keywords
    }

    /// Whether `word`, lowercased, is a keyword.
    pub fn is_keyword(&self, word: &str) -> (b: bool)
        ensures
            b == self.keywords@.contains_key(unicode_lowercase(word@)),
    {
        let lower = to_lowercase(word);
        self.keywords.contains_key(&lower)
    }

    /// The attributes of a keyword, looked up in lowercase.
    pub fn get_keyword_attrs(&self, keyword: String) -> (attrs: KeywordAttrs)
        requires
            self.keywords@.contains_key(unicode_lowercase(keyword@)),
        ensures
            attrs == self.keywords@[unicode_lowercase(keyword@)],
    {
        let lower = to_lowercase(keyword.as_str());
        *self.keywords.get(&lower).unwrap()
    }

    /// Splits `command` into words and records each, by position, with
    /// whether it is a keyword.
    pub fn set_btreemap(&mut self, command: String)
        ensures
            final(self).keywords == old(self).keywords,
            final(self).current_columns == old(self).current_columns,
            final(self).well_indexed(),
            final(self).words() == command_words(old(self).keywords@, command@),
    {
        let words = split_whitespace(command.as_str());
        let ghost expected = command_words(self.keywords@, command@);
        let mut command_btreemap: BTreeMap<usize, CommandWordDat> = BTreeMap::new();
        let n = words.len();
        let mut index: usize = 0;
        while index < n
            invariant
                n == words@.len(),
                n == split_words(command@).len(),
                forall|i: int| 0 <= i < n ==> #[trigger] words@[i]@ == split_words(command@)[i],
                expected == command_words(self.keywords@, command@),
                index <= n,
                forall|k: usize|
                    #[trigger] command_btreemap@.contains_key(k) <==> (k as int) < index,
                forall|k: usize|
                    (k as int) < index ==> #[trigger] command_btreemap@[k]@ == expected[k as int],
            decreases n - index,
        {
            let word = &words[index];
            if self.is_keyword(word.as_str()) {
                let attrs = self.get_keyword_attrs(word.clone());
                command_btreemap.insert(
                    index,
                    CommandWordDat { name: word.clone(), keyword: true, attrs },
                );
            } else {
                command_btreemap.insert(
                    index,
                    CommandWordDat { name: word.clone(), keyword: false, attrs: plain_attrs() },
                );
            }
            index = index + 1;
        }
        proof {
            assert(command_btreemap@.dom() =~= Set::new(|k: usize| (k as int) < n));
            lemma_count_indices(n);
        }
        self.current_btreemap = command_btreemap;
        proof {
            assert(self.words() =~= expected);
        }
    }

    /// Whether `arg_count` arguments are acceptable for a keyword of kind
    /// `arg_type`.
    pub fn validate_number_of_args(arg_type: KeywordNumArgs, arg_count: usize) -> (ok: bool)
        ensures
            ok == arg_count_ok(arg_type, arg_count as int),
    {
        match arg_type {
            KeywordNumArgs::Empty => arg_count == 0,
            KeywordNumArgs::Single => arg_count == 1,
            KeywordNumArgs::Double => arg_count == 2,
            KeywordNumArgs::Tripe => arg_count == 3,
            KeywordNumArgs::Variable => arg_count >= 1,
            KeywordNumArgs::VariableTwoPlus => arg_count >= 2,
            KeywordNumArgs::VariableThreePlusOdd => arg_count >= 3 && arg_count % 2 == 1,
        }
    }
}

/// The characters of each string.
pub open spec fn strings_view(v: Seq<String>) -> Seq<Seq<char>> {
    Seq::new(v.len(), |i: int| v[i]@)
}

/// The outcome as the result a run reports: `None` for a panic.
pub open spec fn outcome_result(o: CommandOutcome) -> Option<Result<(), CommandError>> {
    match o {
        CommandOutcome::Done(_) => Some(Ok(())),
        CommandOutcome::Refused(e, _) => Some(Err(e)),
        CommandOutcome::Panics(_) => None,
    }
}

/// The databases an outcome leaves.
pub open spec fn outcome_dbs(o: CommandOutcome) -> Map<Seq<char>, (StatusFlag, DbView)> {
    match o {
        CommandOutcome::Done(d) => d,
        CommandOutcome::Refused(_, d) => d,
        CommandOutcome::Panics(d) => d,
    }
}

proof fn lemma_dbs_view_insert(m: Map<Seq<char>, (StatusFlag, Db)>, k: Seq<char>, v: (StatusFlag, Db))
    ensures
        dbs_view(m.insert(k, v)) == dbs_view(m).insert(k, (v.0, v.1@)),
{
    assert(dbs_view(m.insert(k, v)) =~= dbs_view(m).insert(k, (v.0, v.1@)));
}

proof fn lemma_tables_view_insert(m: Map<Seq<char>, DbTable>, k: Seq<char>, t: DbTable)
    ensures
        m.insert(k, t).map_values(|t: DbTable| t@) == m.map_values(|t: DbTable| t@).insert(k, t@),
{
    assert(m.insert(k, t).map_values(|t: DbTable| t@) =~= m.map_values(|t: DbTable| t@).insert(
        k,
        t@,
    ));
}

impl CmdInterpreter {
    /// Whether the word at position `j` is a keyword.
    fn keyword_at(&self, j: usize) -> (b: bool)
        requires
            self.well_indexed(),
            j < self.current_btreemap@.len(),
        ensures
            b == self.words()[j as int].keyword,
    {
        match self.current_btreemap.get(&j) {
            Some(w) => w.keyword,
            None => {
                proof {
                    assert(false);
                }
                false
            },
        }
    }

    /// The word at position `j`.
    fn word_at(&self, j: usize) -> (w: &CommandWordDat)
        requires
            self.well_indexed(),
            j < self.current_btreemap@.len(),
        ensures
            w@ == self.words()[j as int],
    {
        self.current_btreemap.get(&j).unwrap()
    }

    /// The position of the first keyword after position `k`.
    fn next_keyword(&self, k: usize) -> (j: usize)
        requires
            self.well_indexed(),
            k < self.current_btreemap@.len(),
        ensures
            j == next_keyword_from(self.words(), k + 1),
            k < j <= self.current_btreemap@.len(),
    {
        let ghost ws = self.words();
        let n = self.current_btreemap.len();
        let mut j = k + 1;
        while j < n && !self.keyword_at(j)
            invariant
                n == ws.len(),
                ws == self.words(),
                self.well_indexed(),
                k < j <= n,
                next_keyword_from(ws, k + 1) == next_keyword_from(ws, j as int),
            decreases n - j,
        {
            j = j + 1;
        }
        j
    }

    /// The words strictly between positions `k` and `j`.
    fn words_between(&self, k: usize, j: usize) -> (args: Vec<String>)
        requires
            self.well_indexed(),
            k < j <= self.current_btreemap@.len(),
        ensures
            strings_view(args@) == self.words().subrange(k + 1, j as int).map_values(
                |w: WordView| w.name,
            ),
    {
        let ghost ws = self.words();
        let mut args: Vec<String> = Vec::new();
        let mut i = k + 1;
        while i < j
            invariant
                ws == self.words(),
                self.well_indexed(),
                k < i <= j,
                j <= ws.len(),
                args@.len() == i - k - 1,
                forall|q: int| 0 <= q < args@.len() ==> #[trigger] args@[q]@ == ws[k + 1 + q].name,
            decreases j - i,
        {
            let w = self.word_at(i);
            args.push(w.name.clone());
            i = i + 1;
        }
        proof {
            assert(strings_view(args@) =~= ws.subrange(k + 1, j as int).map_values(
                |w: WordView| w.name,
            ));
        }
        args
    }

    /// `create_db name`: adds a database with no tables, marked clean.
    fn create_db(args: &Vec<String>, database_list: &mut StrMap<(StatusFlag, Db)>) -> (r: Option<
        Result<(), CommandError>,
    >)
        ensures
            ({
                let o = if args@.len() == 0 {
                    CommandOutcome::Panics(dbs_view(old(database_list)@))
                } else {
                    CommandOutcome::Done(
                        dbs_view(old(database_list)@).insert(
                            strings_view(args@)[0],
                            fresh_db(strings_view(args@)[0]),
                        ),
                    )
                };
                r == outcome_result(o) && dbs_view(final(database_list)@) == outcome_dbs(o)
            }),
    {
        if args.len() == 0 {
            return None;
        }
        let db = Db::new(args[0].clone());
        let ghost entry = (StatusFlag::Clean, db);
        database_list.insert(args[0].clone(), (StatusFlag::Clean, db));
        proof {
            lemma_dbs_view_insert(old(database_list)@, args@[0]@, entry);
            assert(db@.tables =~= Map::<Seq<char>, TableView>::empty());
        }
        Some(Ok(()))
    }

    /// `create_table name col type col type ...` on database `current_database`.
    fn create_table(
        args: &Vec<String>,
        database_list: &mut StrMap<(StatusFlag, Db)>,
        current_database: &String,
    ) -> (r: Option<Result<(), CommandError>>)
        ensures
            ({
                let o = create_table_step(
                    strings_view(args@),
                    dbs_view(old(database_list)@),
                    current_database@,
                );
                r == outcome_result(o) && dbs_view(final(database_list)@) == outcome_dbs(o)
            }),
    {
        let ghost sargs = strings_view(args@);
        let ghost rest = sargs.drop_first();
        let ghost dbs0 = dbs_view(database_list@);
        let entry = match database_list.get(current_database) {
            Some(e) => e,
            None => {
                return Some(Err(CommandError::UnknownDatabase));
            },
        };
        if args.len() == 0 {
            return None;
        }
        let name = &args[0];
        if entry.1.tables.contains_key(name) {
            return Some(Err(CommandError::TableExists));
        }
        let m = args.len();
        let mut cols: Vec<(String, ColType)> = Vec::new();
        let mut i: usize = 1;
        while i < m
            invariant
                m == args@.len(),
                m > 0,
                sargs == strings_view(args@),
                rest == sargs.drop_first(),
                dbs0 == dbs_view(database_list@),
                dbs0 == dbs_view(old(database_list)@),
                dbs0.contains_key(current_database@),
                !dbs0[current_database@].1.tables.contains_key(sargs[0]),
                i == 1 + 2 * cols@.len(),
                i <= m + 1,
                i <= m || i == m + 1,
                2 * cols@.len() <= rest.len(),
                forall|q: int| 0 <= q < cols@.len() ==> #[trigger] coltype_of(rest[2 * q + 1]) is Some,
                columns_view(cols@) == Seq::new(
                    cols@.len(),
                    |q: int| (rest[2 * q], coltype_of(rest[2 * q + 1]).unwrap()),
                ),
            decreases m - i,
        {
            if i + 1 >= m {
                proof {
                    assert(rest.len() == 2 * cols@.len() + 1);
                    assert forall|p: int| 0 <= p < rest.len() / 2 implies !(#[trigger] coltype_of(
                        rest[2 * p + 1],
                    ) is None) by {}
                }
                return None;
            }
            let ghost before = cols@;
            match string_to_coltype(&args[i + 1]) {
                None => {
                    proof {
                        let p = cols@.len() as int;
                        assert(rest[2 * p + 1] == args@[i + 1]@);
                        assert(coltype_of(rest[2 * p + 1]) is None);
                    }
                    return Some(Err(CommandError::UnknownColumnType));
                },
                Some(t) => {
                    cols.push((args[i].clone(), t));
                    proof {
                        let p = before.len() as int;
                        assert(rest[2 * p] == args@[i as int]@);
                        assert(rest[2 * p + 1] == args@[i + 1]@);
                        assert forall|q: int| 0 <= q < cols@.len() implies #[trigger] coltype_of(
                            rest[2 * q + 1],
                        ) is Some by {
                            if q < p {
                                assert(cols@[q] == before[q]);
                            }
                        }
                        let ghost prev_view = columns_view(before);
                        assert(prev_view == Seq::new(
                            before.len(),
                            |q: int| (rest[2 * q], coltype_of(rest[2 * q + 1]).unwrap()),
                        ));
                        assert forall|q: int| 0 <= q < cols@.len() implies columns_view(cols@)[q]
                            == (rest[2 * q], coltype_of(rest[2 * q + 1]).unwrap()) by {
                            if q < p {
                                assert(cols@[q] == before[q]);
                                assert(prev_view[q] == (
                                    rest[2 * q],
                                    coltype_of(rest[2 * q + 1]).unwrap(),
                                ));
                            }
                        }
                        assert(columns_view(cols@) =~= Seq::new(
                            cols@.len(),
                            |q: int| (rest[2 * q], coltype_of(rest[2 * q + 1]).unwrap()),
                        ));
                    }
                },
            }
            i = i + 2;
        }
        proof {
            assert(rest.len() == 2 * cols@.len());
            assert forall|p: int| 0 <= p < rest.len() / 2 implies !(#[trigger] coltype_of(
                rest[2 * p + 1],
            ) is None) by {}
            assert(columns_view(cols@) =~= declared_columns(rest));
        }
        let ghost cols_v = columns_view(cols@);
        let no_str_rows: Vec<Vec<Option<String>>> = Vec::new();
        let no_int_rows: Vec<Vec<Option<usize>>> = Vec::new();
        proof {
            assert(no_str_rows.deep_view() =~= Seq::<Seq<Option<Seq<char>>>>::empty());
            assert(no_int_rows.deep_view() =~= Seq::<Seq<Option<usize>>>::empty());
        }
        let table = DbTable::new(name.clone(), cols, no_str_rows, no_int_rows);
        match table {
            None => Some(Err(CommandError::TableNotCreated)),
            Some(t) => {
                let ghost tv = t@;
                assert(tv == empty_table(sargs[0], declared_columns(rest)));
                let ghost old_list = database_list@;
                let removed = database_list.remove(current_database);
                match removed {
                    Some(e) => {
                        let mut e = e;
                        let ghost old_tables = e.1.tables@;
                        e.1.tables.insert(name.clone(), t);
                        proof {
                            lemma_tables_view_insert(old_tables, sargs[0], t);
                        }
                        let ghost new_entry = e;
                        database_list.insert(current_database.clone(), e);
                        proof {
                            lemma_dbs_view_insert(
                                old_list.remove(current_database@),
                                current_database@,
                                new_entry,
                            );
                            assert(old_list.remove(current_database@).insert(
                                current_database@,
                                new_entry,
                            ) =~= old_list.insert(current_database@, new_entry));
                            lemma_dbs_view_insert(old_list, current_database@, new_entry);
                        }
                        Some(Ok(()))
                    },
                    None => {
                        proof {
                            assert(false);
                        }
                        None
                    },
                }
            },
        }
    }
}

impl CmdInterpreter {
    /// `insert_into name values...` on database `current_database`.
    fn insert_into_table(
        args: &Vec<String>,
        database_list: &mut StrMap<(StatusFlag, Db)>,
        current_database: &String,
    ) -> (r: Option<Result<(), CommandError>>)
        ensures
            ({
                let o = insert_step(
                    strings_view(args@),
                    dbs_view(old(database_list)@),
                    current_database@,
                );
                r == outcome_result(o) && dbs_view(final(database_list)@) == outcome_dbs(o)
            }),
    {
        let ghost sargs = strings_view(args@);
        let ghost dbs0 = dbs_view(database_list@);
        let entry = match database_list.get(current_database) {
            Some(e) => e,
            None => {
                return Some(Err(CommandError::UnknownDatabase));
            },
        };
        if args.len() == 0 {
            return None;
        }
        let name = &args[0];
        let table = match entry.1.tables.get(name) {
            Some(t) => t,
            None => {
                return Some(Err(CommandError::UnknownTable));
            },
        };
        let ghost tv = table@;
        assert(tv == dbs0[current_database@].1.tables[sargs[0]]);
        let n_str = table.str_cols.len();
        let n_int = table.int_cols.len();
        let m1 = args.len() - 1;
        if m1 < n_str || m1 - n_str != n_int {
            return Some(Err(CommandError::WrongValueCount));
        }
        let (str_opt, int_opt) = table.optional_flags();
        let ghost so = str_optional(tv.columns);
        let ghost io = int_optional(tv.columns);
        let none_mark = "?".to_owned();
        let mut int_row: Vec<Option<usize>> = Vec::new();
        let mut i = 1 + n_str;
        while i < args.len()
            invariant
                sargs == strings_view(args@),
                args@.len() == 1 + n_str + n_int,
                1 + n_str <= i <= args@.len(),
                dbs0 == dbs_view(database_list@),
                dbs0 == dbs_view(old(database_list)@),
                dbs0.contains_key(current_database@),
                dbs0[current_database@].1.tables.contains_key(sargs[0]),
                tv == dbs0[current_database@].1.tables[sargs[0]],
                n_str == tv.str_cols.len(),
                n_int == tv.int_cols.len(),
                io == int_optional(tv.columns),
                int_opt@ == io,
                none_mark@ == "?"@,
                int_row@ == Seq::new(
                    (i - 1 - n_str) as nat,
                    |j: int| int_cell(flag_at(io, j), sargs[1 + n_str + j]),
                ),
                forall|q: int|
                    1 + n_str <= q < i ==> #[trigger] int_arg_ok(flag_at(io, q - 1 - n_str), sargs[q]),
            decreases args@.len() - i,
        {
            let j = i - 1 - n_str;
            let optional = j < int_opt.len() && int_opt[j];
            let ghost before = int_row@;
            if optional && args[i] == none_mark {
                int_row.push(None);
            } else {
                match parse_usize(args[i].as_str()) {
                    None => {
                        proof {
                            assert(!int_arg_ok(flag_at(io, i - 1 - n_str), sargs[i as int]));
                        }
                        return Some(Err(CommandError::NotAnInteger));
                    },
                    Some(v) => {
                        int_row.push(Some(v));
                    },
                }
            }
            proof {
                assert(int_row@ =~= Seq::new(
                    (i + 1 - 1 - n_str) as nat,
                    |j: int| int_cell(flag_at(io, j), sargs[1 + n_str + j]),
                ));
            }
            i = i + 1;
        }
        proof {
            assert(!exists|q: int|
                1 + n_str <= q < sargs.len() && !#[trigger] int_arg_ok(
                    flag_at(io, q - 1 - n_str),
                    sargs[q],
                ));
            assert(int_row@ =~= int_values(sargs, io, n_str as int, n_int as int));
        }
        let mut str_row: Vec<Option<String>> = Vec::new();
        let mut k: usize = 1;
        let str_end = 1 + n_str;
        while k < str_end
            invariant
                str_end == 1 + n_str,
                sargs == strings_view(args@),
                args@.len() == 1 + n_str + n_int,
                1 <= k <= 1 + n_str,
                so == str_optional(tv.columns),
                str_opt@ == so,
                none_mark@ == "?"@,
                str_row@.len() == k - 1,
                forall|q: int|
                    0 <= q < str_row@.len() ==> #[trigger] str_row@[q].deep_view() == str_cell(
                        flag_at(so, q),
                        sargs[1 + q],
                    ),
            decreases str_end - k,
        {
            let j = k - 1;
            let optional = j < str_opt.len() && str_opt[j];
            if optional && args[k] == none_mark {
                str_row.push(None);
            } else {
                str_row.push(Some(args[k].clone()));
            }
            k = k + 1;
        }
        let ghost srow = str_values(sargs, so, n_str as int);
        let ghost irow = int_values(sargs, io, n_str as int, n_int as int);
        let mut str_rows: Vec<Vec<Option<String>>> = Vec::new();
        str_rows.push(str_row);
        let mut int_rows: Vec<Vec<Option<usize>>> = Vec::new();
        int_rows.push(int_row);
        proof {
            assert(str_rows.deep_view()[0] =~= srow);
            assert(str_rows.deep_view() =~= seq![srow]);
            assert(int_rows.deep_view()[0] =~= irow);
            assert(int_rows.deep_view() =~= seq![irow]);
        }
        let ghost old_list = database_list@;
        let mut e = match database_list.remove(current_database) {
            Some(e) => e,
            None => {
                proof {
                    assert(false);
                }
                return None;
            },
        };
        let ghost old_tables = e.1.tables@;
        let mut t = match e.1.tables.remove(name) {
            Some(t) => t,
            None => {
                proof {
                    assert(false);
                }
                return None;
            },
        };
        assert(t@ == tv);
        proof {
            assert(rows_acceptable(tv, seq![srow], seq![irow])) by {
                assert(seq![srow][0] == srow);
                assert(seq![irow][0] == irow);
                assert forall|j: int| 0 <= j < n_int && !flag_at(io, j) implies #[trigger] irow[j] is Some by {
                    let q = 1 + n_str + j;
                    assert(int_arg_ok(flag_at(io, q - 1 - n_str), sargs[q]));
                    assert(q - 1 - n_str == j);
                }
            }
        }
        let fits = t.insert(str_rows, int_rows);
        assert(fits);
        e.1.tables.insert(name.clone(), t);
        proof {
            lemma_tables_view_insert(old_tables.remove(sargs[0]), sargs[0], t);
            assert(old_tables.remove(sargs[0]).insert(sargs[0], t) =~= old_tables.insert(
                sargs[0],
                t,
            ));
            lemma_tables_view_insert(old_tables, sargs[0], t);
        }
        let ghost new_entry = e;
        database_list.insert(current_database.clone(), e);
        proof {
            lemma_dbs_view_insert(old_list.remove(current_database@), current_database@, new_entry);
            assert(old_list.remove(current_database@).insert(current_database@, new_entry)
                =~= old_list.insert(current_database@, new_entry));
            lemma_dbs_view_insert(old_list, current_database@, new_entry);
        }
        Some(Ok(()))
    }

    /// Runs the keyword at position `k` on the databases; `None` where the
    /// interpreter would panic (the databases are then untouched).
    fn apply_keyword(
        &self,
        k: usize,
        database_list: &mut StrMap<(StatusFlag, Db)>,
        current_database: &String,
    ) -> (r: Option<Result<(), CommandError>>)
        requires
            self.well_indexed(),
            k < self.current_btreemap@.len(),
        ensures
            ({
                let o = keyword_step(
                    self.words(),
                    k as int,
                    dbs_view(old(database_list)@),
                    current_database@,
                );
                r == outcome_result(o) && dbs_view(final(database_list)@) == outcome_dbs(o)
            }),
    {
        let ghost ws = self.words();
        let n = self.current_btreemap.len();
        let attrs = self.word_at(k).attrs;
        if k == n - 1 && attrs.num_args != KeywordNumArgs::Empty {
            return Some(Err(CommandError::LastWordTakesArgs));
        }
        let next = self.next_keyword(k);
        if !Self::validate_number_of_args(attrs.num_args, next - k - 1) {
            return Some(Err(CommandError::WrongArgCount));
        }
        let args = self.words_between(k, next);
        assert(strings_view(args@) == args_of(ws, k as int));
        match attrs.command_functionality {
            CommandFunctionality::CreateDb => Self::create_db(&args, database_list),
            CommandFunctionality::CreateTable => Self::create_table(
                &args,
                database_list,
                current_database,
            ),
            CommandFunctionality::InsertIntoTable => Self::insert_into_table(
                &args,
                database_list,
                current_database,
            ),
            _ => Some(Ok(())),
        }
    }

    /// Runs the current command on the databases, keyword by keyword, with
    /// `current_database` as the database its tables belong to. Stops at the
    /// first keyword that is refused, with its reason; gives back `None`, and
    /// leaves the databases as the keywords before it left them, where the
    /// interpreter would panic (a keyword given no argument where it needs
    /// one, or `create_table` given a column without a type).
    pub fn try_interpret_command(
        &self,
        database_list: &mut StrMap<(StatusFlag, Db)>,
        current_database: &String,
    ) -> (r: Option<Result<(), CommandError>>)
        requires
            self.well_indexed(),
        ensures
            ({
                let o = command_outcome(
                    self.words(),
                    dbs_view(old(database_list)@),
                    current_database@,
                );
                r == outcome_result(o) && dbs_view(final(database_list)@) == outcome_dbs(o)
            }),
    {
        let ghost ws = self.words();
        let ghost dbs0 = dbs_view(database_list@);
        let n = self.current_btreemap.len();
        let mut k: usize = 0;
        while k < n
            invariant
                ws == self.words(),
                self.well_indexed(),
                n == ws.len(),
                k <= n,
                dbs0 == dbs_view(old(database_list)@),
                run_upto(ws, k as int, dbs0, current_database@) == CommandOutcome::Done(
                    dbs_view(database_list@),
                ),
            decreases n - k,
        {
            if self.keyword_at(k) {
                let step = self.apply_keyword(k, database_list, current_database);
                match step {
                    Some(Ok(())) => {},
                    _ => {
                        proof {
                            lemma_run_stops(ws, k + 1, n as int, dbs0, current_database@);
                        }
                        return step;
                    },
                }
            }
            k = k + 1;
        }
        Some(Ok(()))
    }

    /// Runs the current command on the databases (see
    /// `try_interpret_command`), for a command on which the interpreter
    /// does not panic; tells why it was refused.
    pub fn execute_command(
        &self,
        database_list: &mut StrMap<(StatusFlag, Db)>,
        current_database: &String,
    ) -> (r: Result<(), CommandError>)
        requires
            self.well_indexed(),
            !(command_outcome(self.words(), dbs_view(old(database_list)@), current_database@) is Panics),
        ensures
            ({
                let o = command_outcome(
                    self.words(),
                    dbs_view(old(database_list)@),
                    current_database@,
                );
                Some(r) == outcome_result(o) && dbs_view(final(database_list)@) == outcome_dbs(o)
            }),
    {
        match self.try_interpret_command(database_list, current_database) {
            Some(r) => r,
            None => {
                proof {
                    assert(false);
                }
                Ok(())
            },
        }
    }

    /// Runs the current command on the databases (see
    /// `try_interpret_command`), for a command on which the interpreter
    /// does not panic; true when no keyword was refused.
    pub fn interpret_command(
        &mut self,
        database_list: &mut StrMap<(StatusFlag, Db)>,
        current_database: String,
    ) -> (ok: bool)
        requires
            old(self).well_indexed(),
            !(command_outcome(old(self).words(), dbs_view(old(database_list)@), current_database@) is Panics),
        ensures
            *final(self) == *old(self),
            ({
                let o = command_outcome(
                    old(self).words(),
                    dbs_view(old(database_list)@),
                    current_database@,
                );
                ok == (o is Done) && dbs_view(final(database_list)@) == outcome_dbs(o)
            }),
    {
        let r = self.execute_command(database_list, &current_database);
        r.is_ok()
    }
}

/// Every table of every database is well formed.
pub open spec fn dbs_wf(dbs: Map<Seq<char>, (StatusFlag, DbView)>) -> bool {
    forall|k: Seq<char>| #[trigger] dbs.contains_key(k) ==> db_wf(dbs[k].1)
}

proof fn lemma_step_keeps_wf(
    ws: Seq<WordView>,
    k: int,
    dbs: Map<Seq<char>, (StatusFlag, DbView)>,
    cur: Seq<char>,
)
    requires
        0 <= k < ws.len(),
        dbs_wf(dbs),
    ensures
        dbs_wf(outcome_dbs(keyword_step(ws, k, dbs, cur))),
{
    let a = ws[k].attrs;
    let args = args_of(ws, k);
    let o = keyword_step(ws, k, dbs, cur);
    if o is Done && a.command_functionality == CommandFunctionality::CreateDb {
        let d = dbs.insert(args[0], fresh_db(args[0]));
        assert forall|key: Seq<char>| #[trigger] d.contains_key(key) implies db_wf(d[key].1) by {
            if key != args[0] {
                assert(dbs.contains_key(key));
            }
        }
    }
    if o is Done && a.command_functionality == CommandFunctionality::CreateTable {
        let db = dbs[cur].1;
        let rest = args.drop_first();
        let t = empty_table(args[0], declared_columns(rest));
        let tables = db.tables.insert(args[0], t);
        let d = with_tables(dbs, cur, tables);
        assert(table_wf(t));
        assert(db_wf(d[cur].1)) by {
            assert forall|n: Seq<char>| #[trigger] tables.contains_key(n) implies table_wf(
                tables[n],
            ) by {
                if n != args[0] {
                    assert(db.tables.contains_key(n));
                }
            }
        }
        assert forall|key: Seq<char>| #[trigger] d.contains_key(key) implies db_wf(d[key].1) by {
            if key != cur {
                assert(dbs.contains_key(key));
            }
        }
    }
    if o is Done && a.command_functionality == CommandFunctionality::InsertIntoTable {
        let db = dbs[cur].1;
        let t = db.tables[args[0]];
        let n_str = t.str_cols.len() as int;
        let n_int = t.int_cols.len() as int;
        let so = str_optional(t.columns);
        let io = int_optional(t.columns);
        let srow = str_values(args, so, n_str);
        let irow = int_values(args, io, n_str, n_int);
        assert(db.tables.contains_key(args[0]));
        assert(table_wf(t));
        assert(rows_acceptable(t, seq![srow], seq![irow])) by {
            assert(seq![srow][0] == srow);
            assert(seq![irow][0] == irow);
            assert forall|j: int| 0 <= j < n_int && !flag_at(io, j) implies #[trigger] irow[j] is Some by {
                let i = 1 + n_str + j;
                assert(int_arg_ok(flag_at(io, i - 1 - n_str), args[i]));
                assert(i - 1 - n_str == j);
            }
        }
        lemma_with_rows_wf(t, seq![srow], seq![irow]);
        let tables = db.tables.insert(args[0], with_rows(t, seq![srow], seq![irow]));
        let d = with_tables(dbs, cur, tables);
        assert(db_wf(d[cur].1)) by {
            assert forall|n: Seq<char>| #[trigger] tables.contains_key(n) implies table_wf(
                tables[n],
            ) by {
                if n != args[0] {
                    assert(db.tables.contains_key(n));
                }
            }
        }
        assert forall|key: Seq<char>| #[trigger] d.contains_key(key) implies db_wf(d[key].1) by {
            if key != cur {
                assert(dbs.contains_key(key));
            }
        }
    }
}

proof fn lemma_run_keeps_wf(
    ws: Seq<WordView>,
    k: int,
    dbs: Map<Seq<char>, (StatusFlag, DbView)>,
    cur: Seq<char>,
)
    requires
        0 <= k <= ws.len(),
        dbs_wf(dbs),
    ensures
        dbs_wf(outcome_dbs(run_upto(ws, k, dbs, cur))),
    decreases k,
{
    if k > 0 {
        lemma_run_keeps_wf(ws, k - 1, dbs, cur);
        if let CommandOutcome::Done(d) = run_upto(ws, k - 1, dbs, cur) {
            if ws[k - 1].keyword {
                lemma_step_keeps_wf(ws, k - 1, d, cur);
            }
        }
    }
}

/// Running a command keeps every table well formed: its string and integer
/// columns are those declared, no two columns share a name, every row has
/// one cell per column, and only cells of optional columns hold no value; whether the command is accepted or refused, and
/// up to the point where the interpreter would panic.
pub proof fn lemma_command_keeps_tables_well_formed(
    ws: Seq<WordView>,
    dbs: Map<Seq<char>, (StatusFlag, DbView)>,
    cur: Seq<char>,
)
    requires
        dbs_wf(dbs),
    ensures
        dbs_wf(outcome_dbs(command_outcome(ws, dbs, cur))),
{
    lemma_run_keeps_wf(ws, ws.len() as int, dbs, cur);
}

/// A command without keywords is accepted and changes no database.
pub proof fn lemma_no_keyword_no_change(
    ws: Seq<WordView>,
    dbs: Map<Seq<char>, (StatusFlag, DbView)>,
    cur: Seq<char>,
)
    requires
        forall|i: int| 0 <= i < ws.len() ==> !(#[trigger] ws[i].keyword),
    ensures
        command_outcome(ws, dbs, cur) == CommandOutcome::Done(dbs),
{
    assert forall|k: int| 0 <= k <= ws.len() implies run_upto(ws, k, dbs, cur) == CommandOutcome::Done(
        dbs,
    ) by {
        lemma_run_plain(ws, k, dbs, cur);
    }
}

proof fn lemma_run_plain(
    ws: Seq<WordView>,
    k: int,
    dbs: Map<Seq<char>, (StatusFlag, DbView)>,
    cur: Seq<char>,
)
    requires
        0 <= k <= ws.len(),
        forall|i: int| 0 <= i < ws.len() ==> !(#[trigger] ws[i].keyword),
    ensures
        run_upto(ws, k, dbs, cur) == CommandOutcome::Done(dbs),
    decreases k,
{
    if k > 0 {
        lemma_run_plain(ws, k - 1, dbs, cur);
        assert(!ws[k - 1].keyword);
    }
}

/// The keyword attributes the interpreter itself gives out.
pub open spec fn known_attrs(a: KeywordAttrs) -> bool {
    exists|k: Seq<char>| #[trigger] keyword_table().contains_key(k) && keyword_table()[k] == a
}

proof fn lemma_known_step_no_panic(
    ws: Seq<WordView>,
    k: int,
    dbs: Map<Seq<char>, (StatusFlag, DbView)>,
    cur: Seq<char>,
)
    requires
        0 <= k < ws.len(),
        known_attrs(ws[k].attrs),
    ensures
        !(keyword_step(ws, k, dbs, cur) is Panics),
{
    let key = choose|key: Seq<char>|
        #[trigger] keyword_table().contains_key(key) && keyword_table()[key] == ws[k].attrs;
    let nk = next_keyword_from(ws, k + 1);
    lemma_next_keyword_bounds(ws, k + 1);
    let args = args_of(ws, k);
    assert(args.len() == nk - k - 1);
}

proof fn lemma_next_keyword_bounds(ws: Seq<WordView>, j: int)
    requires
        0 <= j <= ws.len(),
    ensures
        j <= next_keyword_from(ws, j) <= ws.len(),
    decreases ws.len() - j,
{
    if j < ws.len() {
        lemma_next_keyword_bounds(ws, j + 1);
    }
}

proof fn lemma_known_run_no_panic(
    ws: Seq<WordView>,
    k: int,
    dbs: Map<Seq<char>, (StatusFlag, DbView)>,
    cur: Seq<char>,
)
    requires
        0 <= k <= ws.len(),
        forall|i: int| 0 <= i < ws.len() && #[trigger] ws[i].keyword ==> known_attrs(ws[i].attrs),
    ensures
        !(run_upto(ws, k, dbs, cur) is Panics),
    decreases k,
{
    if k > 0 {
        lemma_known_run_no_panic(ws, k - 1, dbs, cur);
        if let CommandOutcome::Done(d) = run_upto(ws, k - 1, dbs, cur) {
            if ws[k - 1].keyword {
                lemma_known_step_no_panic(ws, k - 1, d, cur);
            }
        }
    }
}

/// With the keywords the interpreter knows, no command makes it panic: each
/// keyword that needs arguments is refused when it has none, and
/// `create_table` is refused unless every column has a type.
pub proof fn lemma_own_keywords_never_panic(
    command: Seq<char>,
    dbs: Map<Seq<char>, (StatusFlag, DbView)>,
    cur: Seq<char>,
)
    ensures
        !(command_outcome(command_words(keyword_table(), command), dbs, cur) is Panics),
{
    let ws = command_words(keyword_table(), command);
    assert forall|i: int| 0 <= i < ws.len() && #[trigger] ws[i].keyword implies known_attrs(
        ws[i].attrs,
    ) by {
        let lower = unicode_lowercase(split_words(command)[i]);
        assert(keyword_table().contains_key(lower));
    }
    lemma_known_run_no_panic(ws, ws.len() as int, dbs, cur);
}

/// Keywords are recognised whatever their case: two words with the same
/// lowercase form are both keywords, with the same attributes, or neither.
pub proof fn lemma_keywords_case_insensitive(
    keywords: Map<Seq<char>, KeywordAttrs>,
    w1: Seq<char>,
    w2: Seq<char>,
)
    requires
        unicode_lowercase(w1) == unicode_lowercase(w2),
    ensures
        classify_word(keywords, w1).keyword == classify_word(keywords, w2).keyword,
        classify_word(keywords, w1).attrs == classify_word(keywords, w2).attrs,
{
}

/// The attributes given to a word that is not a keyword.
pub fn plain_attrs() -> (a: KeywordAttrs)
    ensures
        a == plain_word_attrs(),
{
    KeywordAttrs { num_args: KeywordNumArgs::Empty, command_functionality: CommandFunctionality::NoOp }
}

/// The set of the first `n` indices has `n` elements.
pub(crate) proof fn lemma_count_indices(n: usize)
    ensures
        Set::new(|k: usize| (k as int) < n).finite(),
        Set::new(|k: usize| (k as int) < n).len() == n,
    decreases n,
{
    if n == 0 {
        assert(Set::new(|k: usize| (k as int) < n) =~= Set::<usize>::empty());
    } else {
        lemma_count_indices((n - 1) as usize);
        assert(Set::new(|k: usize| (k as int) < n) =~= Set::new(|k: usize| (k as int) < n - 1).insert(
            (n - 1) as usize,
        ));
    }
}

} // verus!
