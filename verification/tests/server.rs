use rusql::connection::{handle_request, FromClient, ServeAction};
use rusql::group_table::{Group, GroupTable};
use rusql::load_balancer::{startup_command_list, Connection, LoadBalancer, Permission, StatusFlag};
use std::sync::Arc;

#[test]
fn load_balancer_runs_startup_commands() {
    let mut lb = LoadBalancer::new();
    assert_eq!(lb.pages.len(), 0);
    assert_eq!(lb.connections.len(), 0);
    lb.execute_cmd();
    assert_eq!(lb.pages.len(), 1);
    let (flag, db) = lb.pages.get(&"horses".to_string()).unwrap();
    assert_eq!(*flag, StatusFlag::Clean);
    let t = db.tables.get(&"horseshoes".to_string()).unwrap();
    assert_eq!(t.str_cols, vec!["type".to_string(), "quality".to_string()]);
    assert_eq!(t.int_cols, vec!["quantity".to_string(), "price".to_string()]);
    assert_eq!(t.str_rows, vec![vec![Some("metal".to_string()), Some("good".to_string())]]);
    assert_eq!(t.int_rows, vec![vec![Some(33usize), Some(140)]]);
}

#[test]
fn load_balancer_run_command() {
    let mut lb = LoadBalancer::new();
    assert_eq!(lb.run_command("create_db x".to_string(), String::new()), Some(Ok(())));
    assert!(lb.pages.contains_key(&"x".to_string()));
    lb.connections.insert(
        "c1".to_string(),
        Connection { permission: Permission::ReadWrite, command: "create_db y".to_string(), can_execute: true },
    );
    assert_eq!(lb.connections.len(), 1);
}

#[test]
fn group_table_get_or_create() {
    let mut table = GroupTable::new();
    assert!(table.get(&"rust".to_string()).is_none());
    let g1 = table.get_or_create(Arc::new("rust".to_string()));
    assert_eq!(*g1.name, "rust");
    let g2 = table.get_or_create(Arc::new("rust".to_string()));
    assert!(Arc::ptr_eq(&g1, &g2));
    let g3 = table.get(&"rust".to_string()).unwrap();
    assert!(Arc::ptr_eq(&g1, &g3));
    let other = table.get_or_create(Arc::new("go".to_string()));
    assert_eq!(*other.name, "go");
    assert!(!Arc::ptr_eq(&g1, &other));
    let g = Group::new(Arc::new("z".to_string()));
    assert_eq!(*g.name, "z");
}

#[test]
fn serve_decisions() {
    let mut groups = GroupTable::new();
    let name = Arc::new("chat".to_string());
    match handle_request(
        &mut groups,
        FromClient::Post { group_name: name.clone(), message: Arc::new("hi".to_string()) },
    ) {
        ServeAction::NoSuchGroup(n) => assert_eq!(*n, "chat"),
        other => panic!("unexpected {:?}", other),
    }
    let joined = match handle_request(&mut groups, FromClient::Join { group_name: name.clone() }) {
        ServeAction::JoinGroup(g) => g,
        other => panic!("unexpected {:?}", other),
    };
    assert_eq!(*joined.name, "chat");
    match handle_request(
        &mut groups,
        FromClient::Post { group_name: name.clone(), message: Arc::new("hi".to_string()) },
    ) {
        ServeAction::PostToGroup(g, m) => {
            assert!(Arc::ptr_eq(&g, &joined));
            assert_eq!(*m, "hi");
        }
        other => panic!("unexpected {:?}", other),
    }
    match handle_request(&mut groups, FromClient::Query { command: "create_db x".to_string() }) {
        ServeAction::ReportQuery(c) => assert_eq!(c, "create_db x"),
        other => panic!("unexpected {:?}", other),
    }
}

#[test]
fn startup_leaves_the_insert_command_in_the_interpreter() {
    let mut lb = LoadBalancer::new();
    lb.execute_cmd();
    let names: Vec<&str> = lb.cmd_interpreter.current_btreemap.values().map(|w| w.name.as_str()).collect();
    assert_eq!(names, vec!["insert_into", "horseshoes", "metal", "good", "33", "140"]);
    assert!(lb.cmd_interpreter.current_columns.is_empty());
}

#[test]
fn startup_commands_listed() {
    let cmds = startup_command_list();
    assert_eq!(cmds.len(), 3);
    assert_eq!(cmds[0], ("create_db horses".to_string(), String::new()));
    assert_eq!(cmds[2].1, "horses");
    let mut lb = LoadBalancer::new();
    for (c, d) in cmds {
        assert_eq!(lb.run_command(c, d), Some(Ok(())));
    }
    let mut other = LoadBalancer::new();
    other.execute_cmd();
    assert_eq!(
        lb.pages.get(&"horses".to_string()).unwrap().1.tables.get(&"horseshoes".to_string()).unwrap().int_rows,
        other.pages.get(&"horses".to_string()).unwrap().1.tables.get(&"horseshoes".to_string()).unwrap().int_rows
    );
}
