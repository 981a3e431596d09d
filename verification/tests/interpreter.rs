use rusql::cmd_interpreter::{
    CmdInterpreter, CommandError, CommandFunctionality, KeywordAttrs, KeywordNumArgs,
};
use rusql::db::{ColType, DbStatus};
use rusql::load_balancer::StatusFlag;
use rusql::str_map::StrMap;
use rusql::db::Db;

fn new_dbs() -> StrMap<(StatusFlag, Db)> {
    StrMap::new()
}

fn run(interp: &mut CmdInterpreter, dbs: &mut StrMap<(StatusFlag, Db)>, cmd: &str, cur: &str) -> Result<(), CommandError> {
    interp.set_btreemap(cmd.to_string());
    interp.execute_command(dbs, &cur.to_string())
}

#[test]
fn cmd_interpreter_test_command_to_btreemap() {
    let mut interp = CmdInterpreter::new();
    interp.set_btreemap("select name from users;".to_string());
    let map = &interp.current_btreemap;
    assert_eq!(map.len(), 4);
    let names: Vec<&str> = map.values().map(|w| w.name.as_str()).collect();
    assert_eq!(names, vec!["select", "name", "from", "users;"]);
    assert!(!map[&0].keyword);
    assert!(!map[&1].keyword);
    assert!(map[&2].keyword);
    assert_eq!(map[&2].attrs.num_args, KeywordNumArgs::Single);
    assert_eq!(map[&2].attrs.command_functionality, CommandFunctionality::UpdateTable);
    assert!(!map[&3].keyword);
    assert_eq!(map[&3].attrs.num_args, KeywordNumArgs::Empty);
    assert_eq!(map[&3].attrs.command_functionality, CommandFunctionality::NoOp);
}

#[test]
fn set_btreemap_splits_on_any_whitespace() {
    let mut interp = CmdInterpreter::new();
    interp.set_btreemap("  CREATE_DB\t horses \n".to_string());
    let map = &interp.current_btreemap;
    assert_eq!(map.len(), 2);
    assert_eq!(map[&0].name, "CREATE_DB");
    assert!(map[&0].keyword);
    assert_eq!(map[&0].attrs.command_functionality, CommandFunctionality::CreateDb);
    assert_eq!(map[&1].name, "horses");
    interp.set_btreemap("   ".to_string());
    assert_eq!(interp.current_btreemap.len(), 0);
}

#[test]
fn keywords_are_case_insensitive() {
    let interp = CmdInterpreter::new();
    assert!(interp.is_keyword("from"));
    assert!(interp.is_keyword("FROM"));
    assert!(interp.is_keyword("Create_Table"));
    assert!(!interp.is_keyword("select"));
    assert!(!interp.is_keyword("fromage"));
    let attrs = interp.get_keyword_attrs("INSERT_INTO".to_string());
    assert_eq!(attrs.num_args, KeywordNumArgs::VariableTwoPlus);
    assert_eq!(attrs.command_functionality, CommandFunctionality::InsertIntoTable);
}

#[test]
fn keywords_map_holds_four_keywords() {
    let kw = CmdInterpreter::create_keywords_map();
    assert_eq!(kw.len(), 4);
    let ct = kw.get(&"create_table".to_string()).unwrap();
    assert_eq!(ct.num_args, KeywordNumArgs::VariableThreePlusOdd);
    assert!(kw.get(&"create_db".to_string()).is_some());
    assert!(kw.get(&"select".to_string()).is_none());
}

#[test]
fn validate_number_of_args_cases() {
    assert!(CmdInterpreter::validate_number_of_args(KeywordNumArgs::Empty, 0));
    assert!(!CmdInterpreter::validate_number_of_args(KeywordNumArgs::Empty, 1));
    assert!(CmdInterpreter::validate_number_of_args(KeywordNumArgs::Single, 1));
    assert!(!CmdInterpreter::validate_number_of_args(KeywordNumArgs::Single, 2));
    assert!(CmdInterpreter::validate_number_of_args(KeywordNumArgs::Double, 2));
    assert!(!CmdInterpreter::validate_number_of_args(KeywordNumArgs::Double, 3));
    assert!(CmdInterpreter::validate_number_of_args(KeywordNumArgs::Tripe, 3));
    assert!(!CmdInterpreter::validate_number_of_args(KeywordNumArgs::Tripe, 2));
    assert!(CmdInterpreter::validate_number_of_args(KeywordNumArgs::Variable, 5));
    assert!(!CmdInterpreter::validate_number_of_args(KeywordNumArgs::Variable, 0));
    assert!(CmdInterpreter::validate_number_of_args(KeywordNumArgs::VariableTwoPlus, 2));
    assert!(!CmdInterpreter::validate_number_of_args(KeywordNumArgs::VariableTwoPlus, 1));
    assert!(CmdInterpreter::validate_number_of_args(KeywordNumArgs::VariableThreePlusOdd, 3));
    assert!(CmdInterpreter::validate_number_of_args(KeywordNumArgs::VariableThreePlusOdd, 7));
    assert!(!CmdInterpreter::validate_number_of_args(KeywordNumArgs::VariableThreePlusOdd, 4));
    assert!(!CmdInterpreter::validate_number_of_args(KeywordNumArgs::VariableThreePlusOdd, 1));
}

#[test]
fn create_table_and_insert_rows() {
    let mut interp = CmdInterpreter::new();
    let mut dbs = new_dbs();
    assert_eq!(run(&mut interp, &mut dbs, "create_db horses", ""), Ok(()));
    let (flag, db) = dbs.get(&"horses".to_string()).unwrap();
    assert_eq!(*flag, StatusFlag::Clean);
    assert_eq!(db.name, "horses");
    assert_eq!(db.status, DbStatus::Empty);
    assert_eq!(db.tables.len(), 0);
    assert_eq!(
        run(&mut interp, &mut dbs, "create_table horseshoes type RS quality RS quantity RI price OI", "horses"),
        Ok(())
    );
    assert_eq!(run(&mut interp, &mut dbs, "insert_into horseshoes metal good 33 140", "horses"), Ok(()));
    assert_eq!(run(&mut interp, &mut dbs, "insert_into horseshoes wood bad +7 0", "horses"), Ok(()));
    let db = &dbs.get(&"horses".to_string()).unwrap().1;
    let t = db.tables.get(&"horseshoes".to_string()).unwrap();
    assert_eq!(t.name, "horseshoes");
    assert_eq!(t.str_cols, vec!["type".to_string(), "quality".to_string()]);
    assert_eq!(t.int_cols, vec!["quantity".to_string(), "price".to_string()]);
    assert_eq!(t.columns[3].1, ColType::OptionalInt);
    assert_eq!(t.columns[0].1, ColType::RequiredString);
    assert_eq!(
        t.str_rows,
        vec![
            vec![Some("metal".to_string()), Some("good".to_string())],
            vec![Some("wood".to_string()), Some("bad".to_string())]
        ]
    );
    assert_eq!(t.int_rows, vec![vec![Some(33usize), Some(140)], vec![Some(7), Some(0)]]);
}

#[test]
fn question_mark_means_no_value_in_optional_columns() {
    let mut interp = CmdInterpreter::new();
    let mut dbs = new_dbs();
    interp.set_btreemap("create_db d".to_string());
    assert!(interp.interpret_command(&mut dbs, "".to_string()));
    interp.set_btreemap("create_table t c1 RS c2 OI".to_string());
    assert!(interp.interpret_command(&mut dbs, "d".to_string()));
    interp.set_btreemap("insert_into t abc ?".to_string());
    assert!(interp.interpret_command(&mut dbs, "d".to_string()));
    let t = dbs.get(&"d".to_string()).unwrap().1.tables.get(&"t".to_string()).unwrap();
    assert_eq!(t.str_rows, vec![vec![Some("abc".to_string())]]);
    assert_eq!(t.int_rows, vec![vec![None]]);
}

#[test]
fn question_mark_in_required_and_optional_string_columns() {
    let mut interp = CmdInterpreter::new();
    let mut dbs = new_dbs();
    assert_eq!(run(&mut interp, &mut dbs, "create_db d", ""), Ok(()));
    assert_eq!(run(&mut interp, &mut dbs, "create_table t a RS b OS n RI", "d"), Ok(()));
    assert_eq!(run(&mut interp, &mut dbs, "insert_into t ? ? 4", "d"), Ok(()));
    assert_eq!(run(&mut interp, &mut dbs, "insert_into t x y ?", "d"), Err(CommandError::NotAnInteger));
    let t = dbs.get(&"d".to_string()).unwrap().1.tables.get(&"t".to_string()).unwrap();
    assert_eq!(t.str_rows, vec![vec![Some("?".to_string()), None]]);
    assert_eq!(t.int_rows, vec![vec![Some(4usize)]]);
}

#[test]
fn interpret_command_returns_bool() {
    let mut interp = CmdInterpreter::new();
    let mut dbs = new_dbs();
    interp.set_btreemap("create_db horses".to_string());
    assert!(interp.interpret_command(&mut dbs, "".to_string()));
    interp.set_btreemap("create_db".to_string());
    assert!(!interp.interpret_command(&mut dbs, "".to_string()));
    assert_eq!(dbs.len(), 1);
}

#[test]
fn command_without_keywords_changes_nothing() {
    let mut interp = CmdInterpreter::new();
    let mut dbs = new_dbs();
    assert_eq!(run(&mut interp, &mut dbs, "hello there world", "x"), Ok(()));
    assert_eq!(dbs.len(), 0);
}

#[test]
fn each_refusal_has_its_reason() {
    let mut interp = CmdInterpreter::new();
    let mut dbs = new_dbs();
    assert_eq!(run(&mut interp, &mut dbs, "hello create_db", ""), Err(CommandError::LastWordTakesArgs));
    assert_eq!(run(&mut interp, &mut dbs, "create_db a b", ""), Err(CommandError::WrongArgCount));
    assert_eq!(run(&mut interp, &mut dbs, "create_table t a RS b", ""), Err(CommandError::WrongArgCount));
    assert_eq!(run(&mut interp, &mut dbs, "create_table t a RS", "nope"), Err(CommandError::UnknownDatabase));
    assert_eq!(run(&mut interp, &mut dbs, "create_db d", ""), Ok(()));
    assert_eq!(run(&mut interp, &mut dbs, "create_table t a XS", "d"), Err(CommandError::UnknownColumnType));
    assert_eq!(run(&mut interp, &mut dbs, "create_table t a RS a RI", "d"), Err(CommandError::TableNotCreated));
    assert_eq!(run(&mut interp, &mut dbs, "create_table t a RS b RI", "d"), Ok(()));
    assert_eq!(run(&mut interp, &mut dbs, "create_table t c RS", "d"), Err(CommandError::TableExists));
    assert_eq!(run(&mut interp, &mut dbs, "insert_into u x 1", "d"), Err(CommandError::UnknownTable));
    assert_eq!(run(&mut interp, &mut dbs, "insert_into t", "d"), Err(CommandError::WrongArgCount));
    assert_eq!(run(&mut interp, &mut dbs, "insert_into t x 1 2", "d"), Err(CommandError::WrongValueCount));
    assert_eq!(run(&mut interp, &mut dbs, "insert_into t x ?", "d"), Err(CommandError::NotAnInteger));
    assert_eq!(run(&mut interp, &mut dbs, "insert_into t x -1", "d"), Err(CommandError::NotAnInteger));
    assert_eq!(
        run(&mut interp, &mut dbs, "insert_into t x 99999999999999999999999", "d"),
        Err(CommandError::NotAnInteger)
    );
    let t = dbs.get(&"d".to_string()).unwrap().1.tables.get(&"t".to_string()).unwrap();
    assert_eq!(t.str_rows.len(), 0);
    assert_eq!(t.int_rows.len(), 0);
}

#[test]
fn refusal_keeps_earlier_keywords_effects() {
    let mut interp = CmdInterpreter::new();
    let mut dbs = new_dbs();
    assert_eq!(run(&mut interp, &mut dbs, "create_db a create_db", ""), Err(CommandError::LastWordTakesArgs));
    assert!(dbs.contains_key(&"a".to_string()));
}

#[test]
fn create_db_replaces_an_existing_database() {
    let mut interp = CmdInterpreter::new();
    let mut dbs = new_dbs();
    assert_eq!(run(&mut interp, &mut dbs, "create_db d", ""), Ok(()));
    assert_eq!(run(&mut interp, &mut dbs, "create_table t a RS", "d"), Ok(()));
    assert_eq!(run(&mut interp, &mut dbs, "create_db d", ""), Ok(()));
    assert_eq!(dbs.get(&"d".to_string()).unwrap().1.tables.len(), 0);
    assert_eq!(dbs.len(), 1);
}

#[test]
fn try_run_reports_a_would_be_panic() {
    let mut interp = CmdInterpreter::new();
    interp.keywords.insert(
        "make".to_string(),
        KeywordAttrs { num_args: KeywordNumArgs::Empty, command_functionality: CommandFunctionality::CreateDb },
    );
    let mut dbs = new_dbs();
    interp.set_btreemap("create_db a make".to_string());
    assert_eq!(interp.try_interpret_command(&mut dbs, &"".to_string()), None);
    assert!(dbs.contains_key(&"a".to_string()));
    interp.set_btreemap("create_db b".to_string());
    assert_eq!(interp.try_interpret_command(&mut dbs, &"".to_string()), Some(Ok(())));
}
