use rusql::db::{string_to_coltype, ColType, Db, DbStatus, DbTable};
use rusql::str_map::StrMap;
use rusql::text::{is_whitespace, parse_usize, split_whitespace};

#[test]
fn str_map_read_after_write() {
    let mut m: StrMap<u32> = StrMap::new();
    assert_eq!(m.len(), 0);
    m.insert("a".to_string(), 1);
    m.insert("b".to_string(), 2);
    m.insert("a".to_string(), 3);
    assert_eq!(m.len(), 2);
    assert_eq!(m.get(&"a".to_string()), Some(&3));
    assert_eq!(m.get(&"b".to_string()), Some(&2));
    assert!(!m.contains_key(&"c".to_string()));
    assert_eq!(m.remove(&"a".to_string()), Some(3));
    assert_eq!(m.remove(&"a".to_string()), None);
    assert_eq!(m.len(), 1);
    let (k, v) = m.entry_at(0);
    assert_eq!((k.as_str(), *v), ("b", 2));
}

#[test]
fn coltype_names() {
    assert_eq!(string_to_coltype(&"RS".to_string()), Some(ColType::RequiredString));
    assert_eq!(string_to_coltype(&"OS".to_string()), Some(ColType::OptionalString));
    assert_eq!(string_to_coltype(&"RI".to_string()), Some(ColType::RequiredInt));
    assert_eq!(string_to_coltype(&"OI".to_string()), Some(ColType::OptionalInt));
    assert_eq!(string_to_coltype(&"rs".to_string()), None);
    assert_eq!(string_to_coltype(&"RSX".to_string()), None);
}

#[test]
fn table_new_needs_distinct_names_and_fitting_rows() {
    let cols = vec![("a".to_string(), ColType::OptionalInt), ("b".to_string(), ColType::RequiredString)];
    let t = DbTable::new("t".to_string(), cols.clone(), vec![vec![Some("x".to_string())]], vec![vec![None]])
        .unwrap();
    assert_eq!(t.str_cols, vec!["b".to_string()]);
    assert_eq!(t.int_cols, vec!["a".to_string()]);
    assert!(DbTable::new("t".to_string(), cols, vec![vec![None]], vec![vec![Some(1)]]).is_none());
    let dup = vec![("a".to_string(), ColType::OptionalInt), ("a".to_string(), ColType::RequiredString)];
    assert!(DbTable::new("t".to_string(), dup, vec![], vec![]).is_none());
    let cols = vec![("a".to_string(), ColType::OptionalInt)];
    assert!(DbTable::new("t".to_string(), cols, vec![vec![]], vec![]).is_none());
}

#[test]
fn table_insert_appends_fitting_rows_only() {
    let cols = vec![("s".to_string(), ColType::RequiredString), ("n".to_string(), ColType::RequiredInt)];
    let mut t = DbTable::new("t".to_string(), cols, vec![], vec![]).unwrap();
    assert!(t.insert(vec![vec![Some("x".to_string())]], vec![vec![Some(5)]]));
    assert!(!t.insert(vec![vec![Some("x".to_string()), Some("y".to_string())]], vec![vec![Some(5)]]));
    assert!(!t.insert(vec![vec![Some("x".to_string())]], vec![]));
    assert!(!t.insert(vec![vec![Some("x".to_string())]], vec![vec![None]]));
    assert_eq!(t.str_rows, vec![vec![Some("x".to_string())]]);
    assert_eq!(t.int_rows, vec![vec![Some(5usize)]]);
    assert_eq!(t.optional_flags(), (vec![false], vec![false]));
}

#[test]
fn new_db_is_empty() {
    let d = Db::new("x".to_string());
    assert_eq!(d.name, "x");
    assert_eq!(d.tables.len(), 0);
    assert_eq!(d.status, DbStatus::Empty);
}

#[test]
fn split_whitespace_words() {
    assert_eq!(split_whitespace("  a\tbc\n d  "), vec!["a".to_string(), "bc".to_string(), "d".to_string()]);
    assert!(split_whitespace("").is_empty());
    assert!(split_whitespace(" \t\n").is_empty());
    assert_eq!(split_whitespace("héllo\u{00A0}wörld"), vec!["héllo".to_string(), "wörld".to_string()]);
}

#[test]
fn parse_usize_cases() {
    assert_eq!(parse_usize("0"), Some(0));
    assert_eq!(parse_usize("140"), Some(140));
    assert_eq!(parse_usize("+7"), Some(7));
    assert_eq!(parse_usize("007"), Some(7));
    assert_eq!(parse_usize(""), None);
    assert_eq!(parse_usize("+"), None);
    assert_eq!(parse_usize("-1"), None);
    assert_eq!(parse_usize("1a"), None);
    assert_eq!(parse_usize(" 1"), None);
    assert_eq!(parse_usize("١"), None);
    assert_eq!(parse_usize(&usize::MAX.to_string()), Some(usize::MAX));
    assert_eq!(parse_usize("99999999999999999999999"), None);
    for text in ["12", "+3", "x", "", "18446744073709551616"] {
        assert_eq!(parse_usize(text), text.parse::<usize>().ok());
    }
}

#[test]
fn whitespace_characters() {
    for c in ['\t', '\n', '\u{0B}', '\u{0C}', '\r', ' ', '\u{85}', '\u{A0}', '\u{1680}', '\u{2000}',
        '\u{200A}', '\u{2028}', '\u{2029}', '\u{202F}', '\u{205F}', '\u{3000}'] {
        assert!(is_whitespace(c));
    }
    for c in ['a', 'Z', '0', '_', '\u{200B}', '\u{1F600}', '\u{08}', '\u{FEFF}'] {
        assert!(!is_whitespace(c));
    }
    for code in 0u32..0x11000 {
        if let Some(c) = char::from_u32(code) {
            assert_eq!(is_whitespace(c), c.is_whitespace());
        }
    }
}

#[test]
fn walking_a_map_meets_each_key_once() {
    let mut m: StrMap<u32> = StrMap::new();
    for (i, k) in ["x", "y", "z", "y"].iter().enumerate() {
        m.insert(k.to_string(), i as u32);
    }
    let mut seen: Vec<String> = Vec::new();
    for i in 0..m.len() {
        seen.push(m.entry_at(i).0.clone());
    }
    seen.sort();
    assert_eq!(seen, vec!["x".to_string(), "y".to_string(), "z".to_string()]);
}
