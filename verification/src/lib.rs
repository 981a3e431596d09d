pub mod cmd_interpreter;
pub mod cmd_logic;
pub mod connection;
pub mod db;
pub mod group_table;
pub mod laws;
pub mod load_balancer;
pub mod str_map;
pub mod text;
