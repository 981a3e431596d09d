use rusql::cmd_logic::{CommandInterpreter, KeywordCallback, KeywordNumArgs};

#[test]
fn cmd_logic_test_command_to_btreemap() {
    let interp = CommandInterpreter::new("select name from users;".to_string());
    let map = &interp.current_btreemap;
    assert_eq!(map.len(), 4);
    assert_eq!(map[&0].name, "select");
    assert!(map[&0].keyword);
    assert_eq!(map[&0].attrs.num_args, KeywordNumArgs::Variable);
    assert_eq!(map[&0].attrs.special_args, Some(vec!["*".to_string()]));
    assert_eq!(map[&0].attrs.callback_func, Some(KeywordCallback::SetColumns));
    assert!(!map[&1].keyword);
    assert_eq!(map[&2].name, "from");
    assert!(map[&2].keyword);
    assert_eq!(map[&2].attrs.num_args, KeywordNumArgs::Single);
    assert_eq!(map[&2].attrs.special_args, None);
    assert_eq!(map[&3].name, "users;");
    assert!(!map[&3].keyword);
    assert_eq!(map[&3].attrs.callback_func, None);
    assert!(interp.current_database.is_none());
    assert!(interp.current_columns.is_empty());
}

#[test]
fn cmd_logic_interpret_validates_argument_counts() {
    let interp = CommandInterpreter::new("select name from users".to_string());
    assert!(interp.interpret_command());
    let interp = CommandInterpreter::new("SELECT a b c FROM t".to_string());
    assert!(interp.interpret_command());
    let interp = CommandInterpreter::new("select from users".to_string());
    assert!(!interp.interpret_command());
    let interp = CommandInterpreter::new("select a from t u".to_string());
    assert!(!interp.interpret_command());
    let interp = CommandInterpreter::new("select a from".to_string());
    assert!(!interp.interpret_command());
    let interp = CommandInterpreter::new("nothing here".to_string());
    assert!(interp.interpret_command());
}

#[test]
fn cmd_logic_keywords_and_counts() {
    let interp = CommandInterpreter::new(String::new());
    assert_eq!(interp.current_btreemap.len(), 0);
    assert!(interp.is_keyword("Select"));
    assert!(interp.is_keyword("FROM"));
    assert!(!interp.is_keyword("create_db"));
    let attrs = interp.get_keyword_attrs("SELECT".to_string());
    assert_eq!(attrs.special_args, Some(vec!["*".to_string()]));
    assert_eq!(CommandInterpreter::create_keywords_map().len(), 2);
    assert!(CommandInterpreter::set_columns(vec!["a".to_string()]));
    assert!(CommandInterpreter::validate_number_of_args(KeywordNumArgs::Empty, 0));
    assert!(!CommandInterpreter::validate_number_of_args(KeywordNumArgs::Single, 0));
    assert!(CommandInterpreter::validate_number_of_args(KeywordNumArgs::Double, 2));
    assert!(CommandInterpreter::validate_number_of_args(KeywordNumArgs::Tripe, 3));
    assert!(!CommandInterpreter::validate_number_of_args(KeywordNumArgs::Variable, 0));
}
