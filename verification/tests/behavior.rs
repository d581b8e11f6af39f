use mdb_catalog::catalog::{DbError, MDatabase, MTable};
use mdb_catalog::tokens::split_ws;

fn two_table_db() -> MDatabase {
    MDatabase::open_database("Biblio.mdb", "Titles Authors")
}

#[test]
fn split_ws_tokenizes_on_any_whitespace() {
    assert_eq!(split_ws("  a\tbb\nccc \r dd "), vec!["a", "bb", "ccc", "dd"]);
}

#[test]
fn split_ws_of_blank_text_is_empty() {
    assert_eq!(split_ws(""), Vec::<String>::new());
    assert_eq!(split_ws(" \t\n\r"), Vec::<String>::new());
}

#[test]
fn split_ws_splits_on_unicode_whitespace() {
    assert_eq!(
        split_ws("A\u{a0}B\u{2003}C\u{85}D\u{3000}E"),
        vec!["A", "B", "C", "D", "E"]
    );
    assert_eq!(split_ws("Title\u{2028}\u{202f}Titles\u{1680}"), vec!["Title", "Titles"]);
    let db = MDatabase::open_database("x.mdb", "A\u{a0}B");
    let mut names: Vec<String> = db.get_tables().into_iter().map(|p| p.0).collect();
    names.sort();
    assert_eq!(names, vec!["A", "B"]);
}

#[test]
fn split_ws_keeps_a_single_token_whole() {
    assert_eq!(split_ws("Publishers"), vec!["Publishers"]);
}

#[test]
fn unknown_table_is_rejected_without_effect() {
    let mut db = two_table_db();
    assert!(matches!(db.get_csv("Nope"), Err(DbError::UnknownTableError)));
    assert!(matches!(db.get_sql("Nope"), Err(DbError::UnknownTableError)));
    assert!(matches!(
        db.store_csv("Nope", "rows".to_string()),
        Err(DbError::UnknownTableError)
    ));
    assert!(matches!(
        db.store_sql("Nope", "stmts".to_string()),
        Err(DbError::UnknownTableError)
    ));
    for (_, entry) in db.get_tables() {
        assert!(entry.sql.is_none());
        assert!(entry.csv.is_none());
    }
}

#[test]
fn representations_are_cached_independently() {
    let mut db = two_table_db();
    db.store_csv("Titles", "a,b\n1,2\n".to_string()).unwrap();
    assert!(db.get_sql("Titles").unwrap().is_none());
    assert!(db.get_csv("Authors").unwrap().is_none());
    assert!(db.get_sql("Authors").unwrap().is_none());
    assert!(db.get_sql_schema().is_none());
    assert_eq!(db.get_csv("Titles").unwrap().unwrap(), "a,b\n1,2\n");
}

#[test]
fn failed_fetch_leaves_cache_unset_and_is_retried() {
    let mut db = two_table_db();
    // First attempt: the cache misses, and the external call fails, so
    // nothing is stored.
    assert!(db.get_csv("Titles").unwrap().is_none());
    // Second attempt: the cache still misses, so the fetch is attempted
    // again; this time it succeeds and its result is cached.
    assert!(db.get_csv("Titles").unwrap().is_none());
    let got = db.store_csv("Titles", "a,b\n1,2\n".to_string()).unwrap();
    assert_eq!(got, "a,b\n1,2\n");
    assert_eq!(db.get_csv("Titles").unwrap().unwrap(), "a,b\n1,2\n");
}

#[test]
fn setters_replace_one_field_each() {
    let mut t = MTable { sql: None, csv: None };
    t.set_sql("S".to_string());
    assert_eq!(t.sql.as_deref(), Some("S"));
    assert!(t.csv.is_none());
    t.set_csv("C".to_string());
    assert_eq!(t.csv.as_deref(), Some("C"));
    assert_eq!(t.sql.as_deref(), Some("S"));
}

#[test]
fn get_tables_copies_the_entries() {
    let mut db = two_table_db();
    db.store_sql("Authors", "INSERT INTO Authors VALUES (1);\n".to_string()).unwrap();
    let copy = db.get_tables();
    assert_eq!(copy.len(), 2);
    for (name, entry) in copy {
        if name == "Authors" {
            assert_eq!(entry.sql.as_deref(), Some("INSERT INTO Authors VALUES (1);\n"));
        } else {
            assert_eq!(name, "Titles");
            assert!(entry.sql.is_none());
        }
    }
}

#[test]
fn is_wf_spots_duplicate_names() {
    let dup = MDatabase {
        file: "f".to_string(),
        tables: vec![
            ("A".to_string(), MTable { sql: None, csv: None }),
            ("A".to_string(), MTable { sql: None, csv: None }),
        ],
        sql_schema: None,
    };
    assert!(!dup.is_wf());
    assert!(two_table_db().is_wf());
}
