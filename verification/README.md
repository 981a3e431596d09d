# rusql

A small in-memory SQL-like database with a command interpreter, verified with Verus.

- `src/text.rs`: splitting a command into whitespace-separated words, number parsing.
- `src/str_map.rs`: a map from strings to values, with its contents as a `Map`.
- `src/db.rs`: databases, tables, column types and rows.
- `src/cmd_interpreter.rs`: the interpreter (`create_db`, `create_table`, `insert_into`, `from`),
  its meaning as spec functions, and the laws it obeys.
- `src/cmd_logic.rs`: the simpler interpreter that only validates `select`/`from` queries.
- `src/load_balancer.rs`, `src/group_table.rs`, `src/connection.rs`: server state, chat groups
  and the decision taken for each client request.
- `app/main.rs`: the command-line program (runs the start-up commands and prints the tables).
