use vstd::prelude::*;

use crate::cmd_interpreter::{
    args_of, keyword_step, next_keyword_from, CommandFunctionality, CommandOutcome, KeywordAttrs,
    KeywordNumArgs, WordView,
};
use crate::db::{coltype_of, flag_at, int_optional, str_optional, table_wf, DbStatus, DbView};
use crate::load_balancer::StatusFlag;
use crate::text::parse_usize_spec;

verus! {

/// No word at or after position `j` is a keyword.
pub open spec fn plain_from(ws: Seq<WordView>, j: int) -> bool {
    forall|i: int| j <= i < ws.len() ==> !(#[trigger] ws[i].keyword)
}

proof fn lemma_next_keyword_plain(ws: Seq<WordView>, j: int)
    requires
        0 <= j <= ws.len(),
        plain_from(ws, j),
    ensures
        next_keyword_from(ws, j) == ws.len(),
    decreases ws.len() - j,
{
    if j < ws.len() {
        lemma_next_keyword_plain(ws, j + 1);
    }
}

proof fn lemma_args_plain(ws: Seq<WordView>, k: int)
    requires
        0 <= k < ws.len(),
        plain_from(ws, k + 1),
    ensures
        args_of(ws, k).len() == ws.len() - k - 1,
        forall|i: int| 0 <= i < ws.len() - k - 1 ==> #[trigger] args_of(ws, k)[i] == ws[k + 1 + i].name,
        next_keyword_from(ws, k + 1) == ws.len(),
{
    lemma_next_keyword_plain(ws, k + 1);
}

/// `create_db n` adds database `n`, empty and clean, and leaves every other
/// database as it was.
pub proof fn law_create_db_adds_one_database(
    ws: Seq<WordView>,
    k: int,
    dbs: Map<Seq<char>, (StatusFlag, DbView)>,
    cur: Seq<char>,
)
    requires
        0 <= k,
        k + 2 <= ws.len(),
        ws[k].keyword,
        ws[k].attrs == (KeywordAttrs {
            num_args: KeywordNumArgs::Single,
            command_functionality: CommandFunctionality::CreateDb,
        }),
        !ws[k + 1].keyword,
        k + 2 == ws.len() || ws[k + 2].keyword,
    ensures
        ({
            let n = ws[k + 1].name;
            keyword_step(ws, k, dbs, cur) matches CommandOutcome::Done(d) && d.dom() == dbs.dom().insert(
                n,
            ) && (forall|x: Seq<char>| x != n && dbs.contains_key(x) ==> #[trigger] d[x] == dbs[x])
                && d[n].0 == StatusFlag::Clean && d[n].1.name == n && d[n].1.tables == Map::<
                Seq<char>,
                crate::db::TableView,
            >::empty() && d[n].1.status == DbStatus::Empty
        }),
{
    assert(next_keyword_from(ws, k + 2) == k + 2);
    assert(next_keyword_from(ws, k + 1) == k + 2);
    assert(args_of(ws, k)[0] == ws[k + 1].name);
    if let CommandOutcome::Done(d) = keyword_step(ws, k, dbs, cur) {
        assert(d.dom() =~= dbs.dom().insert(ws[k + 1].name));
    }
}

/// `create_table name c1 t1 c2 t2 ...` on the current database, with a name
/// no table there has, valid column types and distinct column names, adds
/// that table, with those columns in that order and no rows, and keeps every
/// other table and every other database as it was.
pub proof fn law_create_table_adds_one_table(
    ws: Seq<WordView>,
    k: int,
    dbs: Map<Seq<char>, (StatusFlag, DbView)>,
    cur: Seq<char>,
)
    requires
        0 <= k,
        ws[k].keyword,
        ws[k].attrs == (KeywordAttrs {
            num_args: KeywordNumArgs::VariableThreePlusOdd,
            command_functionality: CommandFunctionality::CreateTable,
        }),
        plain_from(ws, k + 1),
        ws.len() - k - 1 >= 3,
        (ws.len() - k - 2) % 2 == 0,
        dbs.contains_key(cur),
        !dbs[cur].1.tables.contains_key(ws[k + 1].name),
        forall|p: int|
            0 <= p < (ws.len() - k - 2) / 2 ==> #[trigger] coltype_of(ws[k + 3 + 2 * p].name) is Some,
        forall|p: int, q: int|
            0 <= p < q < (ws.len() - k - 2) / 2 ==> #[trigger] ws[k + 2 + 2 * p].name
                != #[trigger] ws[k + 2 + 2 * q].name,
    ensures
        ({
            let name = ws[k + 1].name;
            let old_tables = dbs[cur].1.tables;
            let n_cols = (ws.len() - k - 2) / 2;
            keyword_step(ws, k, dbs, cur) matches CommandOutcome::Done(d) && d.dom() == dbs.dom()
                && (forall|x: Seq<char>| x != cur && dbs.contains_key(x) ==> #[trigger] d[x] == dbs[x])
                && d[cur].0 == dbs[cur].0 && d[cur].1.name == dbs[cur].1.name && d[cur].1.status
                == dbs[cur].1.status && d[cur].1.tables.dom() == old_tables.dom().insert(name) && (
            forall|t: Seq<char>| #[trigger]
                old_tables.contains_key(t) ==> d[cur].1.tables[t] == old_tables[t]) && ({
                let nt = d[cur].1.tables[name];
                &&& nt.name == name
                &&& nt.columns.len() == n_cols
                &&& forall|p: int|
                    0 <= p < n_cols ==> #[trigger] nt.columns[p] == (
                        ws[k + 2 + 2 * p].name,
                        coltype_of(ws[k + 3 + 2 * p].name).unwrap(),
                    )
                &&& nt.str_rows.len() == 0
                &&& nt.int_rows.len() == 0
            })
        }),
{
    lemma_args_plain(ws, k);
    let args = args_of(ws, k);
    let rest = args.drop_first();
    let n_cols = (ws.len() - k - 2) / 2;
    assert(rest.len() / 2 == n_cols);
    assert forall|p: int| 0 <= p < rest.len() / 2 implies !(#[trigger] coltype_of(
        rest[2 * p + 1],
    ) is None) by {
        assert(rest[2 * p + 1] == ws[k + 3 + 2 * p].name);
    }
    let cols = crate::cmd_interpreter::declared_columns(rest);
    assert forall|p: int| 0 <= p < n_cols implies #[trigger] cols[p] == (
        ws[k + 2 + 2 * p].name,
        coltype_of(ws[k + 3 + 2 * p].name).unwrap(),
    ) by {
        assert(rest[2 * p] == ws[k + 2 + 2 * p].name);
        assert(rest[2 * p + 1] == ws[k + 3 + 2 * p].name);
    }
    assert(crate::db::names_distinct(cols)) by {
        assert forall|i: int, j: int| 0 <= i < j < cols.len() implies #[trigger] cols[i].0
            != #[trigger] cols[j].0 by {
            assert(cols[i].0 == ws[k + 2 + 2 * i].name);
            assert(cols[j].0 == ws[k + 2 + 2 * j].name);
        }
    }
    if let CommandOutcome::Done(d) = keyword_step(ws, k, dbs, cur) {
        assert(d.dom() =~= dbs.dom());
        assert(d[cur].1.tables.dom() =~= dbs[cur].1.tables.dom().insert(ws[k + 1].name));
    }
}

/// `create_table` never replaces a table: naming a table the current
/// database already has, it is refused and changes nothing.
pub proof fn law_create_table_keeps_existing_table(
    ws: Seq<WordView>,
    k: int,
    dbs: Map<Seq<char>, (StatusFlag, DbView)>,
    cur: Seq<char>,
)
    requires
        0 <= k,
        ws[k].keyword,
        ws[k].attrs == (KeywordAttrs {
            num_args: KeywordNumArgs::VariableThreePlusOdd,
            command_functionality: CommandFunctionality::CreateTable,
        }),
        plain_from(ws, k + 1),
        ws.len() - k - 1 >= 3,
        (ws.len() - k - 2) % 2 == 0,
        dbs.contains_key(cur),
        dbs[cur].1.tables.contains_key(ws[k + 1].name),
    ensures
        keyword_step(ws, k, dbs, cur) == CommandOutcome::Refused(
            crate::cmd_interpreter::CommandError::TableExists,
            dbs,
        ),
{
    lemma_args_plain(ws, k);
}

/// `insert_into name v1 v2 ...` on an existing well-formed table, with one
/// value per column and a number (or `?` for an optional column) for every
/// integer column, appends exactly one row: each string cell is the value
/// given, unchanged (no value only for `?` in an optional column), and each
/// integer cell is the number given (no value only for `?` in an optional
/// column). Every other table and database, and the table's columns, stay.
pub proof fn law_insert_appends_the_values_given(
    ws: Seq<WordView>,
    k: int,
    dbs: Map<Seq<char>, (StatusFlag, DbView)>,
    cur: Seq<char>,
)
    requires
        0 <= k,
        ws[k].keyword,
        ws[k].attrs == (KeywordAttrs {
            num_args: KeywordNumArgs::VariableTwoPlus,
            command_functionality: CommandFunctionality::InsertIntoTable,
        }),
        plain_from(ws, k + 1),
        ws.len() - k - 1 >= 2,
        dbs.contains_key(cur),
        dbs[cur].1.tables.contains_key(ws[k + 1].name),
        table_wf(dbs[cur].1.tables[ws[k + 1].name]),
        ({
            let t = dbs[cur].1.tables[ws[k + 1].name];
            &&& ws.len() - k - 2 == t.str_cols.len() + t.int_cols.len()
            &&& forall|j: int|
                0 <= j < t.int_cols.len() ==> (flag_at(int_optional(t.columns), j) && #[trigger] ws[k
                    + 2 + t.str_cols.len() + j].name == "?"@) || parse_usize_spec(
                    ws[k + 2 + t.str_cols.len() + j].name,
                ) is Some
        }),
    ensures
        ({
            let name = ws[k + 1].name;
            let t = dbs[cur].1.tables[name];
            let n_str = t.str_cols.len() as int;
            let n_int = t.int_cols.len() as int;
            keyword_step(ws, k, dbs, cur) matches CommandOutcome::Done(d) && d.dom() == dbs.dom()
                && (forall|x: Seq<char>| x != cur && dbs.contains_key(x) ==> #[trigger] d[x] == dbs[x])
                && d[cur].0 == dbs[cur].0 && d[cur].1.name == dbs[cur].1.name && d[cur].1.tables.dom()
                == dbs[cur].1.tables.dom() && (forall|u: Seq<char>|
                u != name && #[trigger] dbs[cur].1.tables.contains_key(u) ==> d[cur].1.tables[u]
                    == dbs[cur].1.tables[u]) && ({
                let nt = d[cur].1.tables[name];
                &&& nt.name == t.name
                &&& nt.columns == t.columns
                &&& nt.str_cols == t.str_cols
                &&& nt.int_cols == t.int_cols
                &&& nt.str_rows.len() == t.str_rows.len() + 1
                &&& nt.int_rows.len() == t.int_rows.len() + 1
                &&& nt.str_rows.drop_last() == t.str_rows
                &&& nt.int_rows.drop_last() == t.int_rows
                &&& nt.str_rows.last().len() == n_str
                &&& nt.int_rows.last().len() == n_int
                &&& forall|j: int|
                    0 <= j < n_str ==> {
                        let a = ws[k + 2 + j].name;
                        #[trigger] nt.str_rows.last()[j] == if flag_at(str_optional(t.columns), j)
                            && a == "?"@ {
                            None
                        } else {
                            Some(a)
                        }
                    }
                &&& forall|j: int|
                    0 <= j < n_int ==> {
                        let a = ws[k + 2 + n_str + j].name;
                        match #[trigger] nt.int_rows.last()[j] {
                            None => flag_at(int_optional(t.columns), j) && a == "?"@,
                            Some(v) => parse_usize_spec(a) == Some(v) && !(flag_at(
                                int_optional(t.columns),
                                j,
                            ) && a == "?"@),
                        }
                    }
            })
        }),
{
    lemma_args_plain(ws, k);
    let args = args_of(ws, k);
    let name = ws[k + 1].name;
    let t = dbs[cur].1.tables[name];
    let n_str = t.str_cols.len() as int;
    let io = int_optional(t.columns);
    assert(args[0] == name);
    assert forall|i: int|
        1 + n_str <= i < args.len() implies #[trigger] crate::cmd_interpreter::int_arg_ok(
        flag_at(io, i - 1 - n_str),
        args[i],
    ) by {
        let j = i - 1 - n_str;
        assert(args[i] == ws[k + 2 + n_str + j].name);
    }
    if let CommandOutcome::Done(d) = keyword_step(ws, k, dbs, cur) {
        assert(d.dom() =~= dbs.dom());
        let nt = d[cur].1.tables[name];
        assert(d[cur].1.tables.dom() =~= dbs[cur].1.tables.dom());
        assert(nt.str_rows.drop_last() =~= t.str_rows);
        assert(nt.int_rows.drop_last() =~= t.int_rows);
        assert forall|j: int| 0 <= j < n_str implies #[trigger] nt.str_rows.last()[j] == (if flag_at(
            str_optional(t.columns),
            j,
        ) && ws[k + 2 + j].name == "?"@ {
            None
        } else {
            Some(ws[k + 2 + j].name)
        }) by {
            assert(args[1 + j] == ws[k + 2 + j].name);
        }
        assert forall|j: int| 0 <= j < t.int_cols.len() implies {
            let a = ws[k + 2 + n_str + j].name;
            match #[trigger] nt.int_rows.last()[j] {
                None => flag_at(io, j) && a == "?"@,
                Some(v) => parse_usize_spec(a) == Some(v) && !(flag_at(io, j) && a == "?"@),
            }
        } by {
            assert(args[1 + n_str + j] == ws[k + 2 + n_str + j].name);
        }
    }
}

/// A number's text is read only when, after an optional leading `+`, it
/// holds ASCII digits and nothing else: any other character (a `.`, a `-`,
/// a space, a non-ASCII digit) makes it unreadable.
pub proof fn law_parse_rejects_non_digits(s: Seq<char>, i: int)
    requires
        0 <= i < s.len(),
        !('0' <= s[i] <= '9'),
        !(i == 0 && s[i] == '+'),
    ensures
        parse_usize_spec(s) is None,
{
    let d = crate::text::unsigned_digits(s);
    if s.len() > 0 && s[0] == '+' {
        assert(d[i - 1] == s[i]);
    } else {
        assert(d[i] == s[i]);
    }
}

/// Nothing, or a `+` alone, is no number.
pub proof fn law_parse_needs_a_digit()
    ensures
        parse_usize_spec(Seq::<char>::empty()) is None,
        parse_usize_spec(seq!['+']) is None,
{
    assert(crate::text::unsigned_digits(seq!['+']) =~= Seq::<char>::empty());
}

/// A single digit reads as its value.
pub proof fn law_parse_one_digit(c: char)
    requires
        '0' <= c <= '9',
    ensures
        parse_usize_spec(seq![c]) == Some((c as int - '0' as int) as usize),
{
    let s = seq![c];
    assert(s[0] != '+');
    assert(crate::text::unsigned_digits(s) == s);
    assert(s.drop_last() =~= Seq::<char>::empty());
    assert(crate::text::digits_value(s.drop_last()) == 0);
    assert(crate::text::digits_value(s) == (c as int - '0' as int));
    assert(crate::text::all_digits(s));
}

/// Appending a digit to a number multiplies it by ten and adds the digit,
/// as long as the result fits in a `usize`; otherwise the text is no number.
pub proof fn law_parse_append_digit(s: Seq<char>, c: char)
    requires
        s.len() > 0,
        forall|i: int| 0 <= i < s.len() ==> '0' <= #[trigger] s[i] <= '9',
        '0' <= c <= '9',
    ensures
        parse_usize_spec(s.push(c)) == (match parse_usize_spec(s) {
            Some(v) => if v * 10 + (c as int - '0' as int) <= usize::MAX {
                Some((v * 10 + (c as int - '0' as int)) as usize)
            } else {
                None
            },
            None => None,
        }),
{
    let t = s.push(c);
    assert(crate::text::unsigned_digits(s) == s);
    assert(crate::text::unsigned_digits(t) == t);
    assert(t.drop_last() =~= s);
    assert(crate::text::all_digits(s));
    assert(crate::text::all_digits(t)) by {
        assert forall|i: int| 0 <= i < t.len() implies crate::text::is_digit(#[trigger] t[i]) by {
            if i < s.len() {
                assert(t[i] == s[i]);
            }
        }
    }
}

/// A leading `+` changes nothing.
pub proof fn law_parse_plus_sign(s: Seq<char>)
    requires
        s.len() > 0,
        s[0] != '+',
    ensures
        parse_usize_spec(seq!['+'] + s) == parse_usize_spec(s),
{
    assert((seq!['+'] + s).drop_first() =~= s);
}

/// Counts of arguments: a keyword taking a variable number of arguments
/// accepts every count of at least one (at least two, for
/// `VariableTwoPlus`), and `VariableThreePlusOdd` accepts exactly the odd
/// counts of at least three; the fixed kinds accept their one count only.
pub proof fn law_interpreter_arg_counts(n: int)
    requires
        n >= 0,
    ensures
        crate::cmd_interpreter::arg_count_ok(KeywordNumArgs::Variable, n) <==> n >= 1,
        crate::cmd_interpreter::arg_count_ok(KeywordNumArgs::VariableTwoPlus, n) <==> n >= 2,
        crate::cmd_interpreter::arg_count_ok(KeywordNumArgs::VariableThreePlusOdd, n) <==> (n >= 3
            && n % 2 == 1),
        crate::cmd_interpreter::arg_count_ok(KeywordNumArgs::Empty, n) <==> n == 0,
        crate::cmd_interpreter::arg_count_ok(KeywordNumArgs::Single, n) <==> n == 1,
        crate::cmd_interpreter::arg_count_ok(KeywordNumArgs::Double, n) <==> n == 2,
        crate::cmd_interpreter::arg_count_ok(KeywordNumArgs::Tripe, n) <==> n == 3,
{
}

/// In the query validator, a keyword taking a variable number of arguments
/// accepts one argument, and accepting some count it accepts one more; it
/// refuses none.
pub proof fn law_query_variable_counts(n: int)
    requires
        n >= 1,
    ensures
        crate::cmd_logic::arg_count_ok(crate::cmd_logic::KeywordNumArgs::Variable, n),
        crate::cmd_logic::arg_count_ok(crate::cmd_logic::KeywordNumArgs::Variable, n) ==> crate::cmd_logic::arg_count_ok(
            crate::cmd_logic::KeywordNumArgs::Variable,
            n + 1,
        ),
        !crate::cmd_logic::arg_count_ok(crate::cmd_logic::KeywordNumArgs::Variable, 0),
        crate::cmd_logic::arg_count_ok(crate::cmd_logic::KeywordNumArgs::Single, n) <==> n == 1,
{
}

proof fn lemma_query_next_keyword(ws: Seq<crate::cmd_logic::WordView>, j: int, e: int)
    requires
        0 <= j <= e <= ws.len(),
        forall|i: int| j <= i < e ==> !(#[trigger] ws[i].keyword),
        e == ws.len() || ws[e].keyword,
    ensures
        crate::cmd_logic::next_keyword_from(ws, j) == e,
    decreases e - j,
{
    if j < e {
        lemma_query_next_keyword(ws, j + 1, e);
    }
}

/// A query `select c1 ... cm from t`, with any number `m >= 1` of columns,
/// passes the argument-count validation.
pub proof fn law_select_any_number_of_columns(ws: Seq<crate::cmd_logic::WordView>, m: int)
    requires
        m >= 1,
        ws.len() == m + 3,
        ws[0].keyword,
        ws[0].attrs.num_args == crate::cmd_logic::KeywordNumArgs::Variable,
        forall|i: int| 1 <= i <= m ==> !(#[trigger] ws[i].keyword),
        ws[m + 1].keyword,
        ws[m + 1].attrs.num_args == crate::cmd_logic::KeywordNumArgs::Single,
        !ws[m + 2].keyword,
    ensures
        crate::cmd_logic::arg_counts_ok(ws),
{
    lemma_query_next_keyword(ws, 1, m + 1);
    lemma_query_next_keyword(ws, m + 2, m + 3);
    assert forall|k: int|
        0 <= k < ws.len() && #[trigger] ws[k].keyword implies crate::cmd_logic::arg_count_ok(
        ws[k].attrs.num_args,
        crate::cmd_logic::next_keyword_from(ws, k + 1) - k - 1,
    ) by {
        assert(k == 0 || k == m + 1);
    }
}

} // verus!
