use mdb_catalog::catalog::{MDatabase, MTable};

// Texts standing in for what the external toolset prints for the Biblio.mdb
// fixture: its table listing, its schema dump and the two dumps of the
// Titles table, each dump at least 100 characters long.

fn biblio_listing() -> &'static str {
    "Title Publishers Authors Author Titles\n"
}

fn biblio_schema() -> String {
    [
        "CREATE TABLE [Title] ([TitleID] INTEGER, [Name] TEXT, [Year] INTEGER);\n",
        "CREATE TABLE [Publishers] ([PubID] INTEGER, [Name] TEXT);\n",
        "CREATE TABLE [Authors] ([AuthorID] INTEGER, [Name] TEXT);\n",
        "CREATE TABLE [Author] ([AuthorID] INTEGER, [Alias] TEXT);\n",
        "CREATE TABLE [Titles] ([TitleID] INTEGER, [Name] TEXT, [PubID] INTEGER);\n",
    ]
    .concat()
}

fn titles_csv() -> String {
    [
        "TitleID,Name,PubID\n",
        "1,Structure and Interpretation of Computer Programs,1\n",
        "2,The C Programming Language,2\n",
        "3,The Mythical Man-Month,3\n",
    ]
    .concat()
}

fn titles_sql() -> String {
    [
        "INSERT INTO Titles (TitleID, Name, PubID) VALUES (1, \"Structure and Interpretation of Computer Programs\", 1);\n",
        "INSERT INTO Titles (TitleID, Name, PubID) VALUES (2, \"The C Programming Language\", 2);\n",
        "INSERT INTO Titles (TitleID, Name, PubID) VALUES (3, \"The Mythical Man-Month\", 3);\n",
    ]
    .concat()
}

fn biblio_db() -> MDatabase {
    MDatabase {
        file: "Biblio.mdb".to_string(),
        tables: vec![
            ("Title".to_string(), MTable { sql: None, csv: None }),
            ("Publishers".to_string(), MTable { sql: None, csv: None }),
            ("Authors".to_string(), MTable { sql: None, csv: None }),
            ("Author".to_string(), MTable { sql: None, csv: None }),
            ("Titles".to_string(), MTable { sql: None, csv: None }),
        ],
        sql_schema: None,
    }
}

fn cached(db: &MDatabase, table: &str) -> MTable {
    for (name, entry) in db.get_tables() {
        if name == table {
            return entry;
        }
    }
    panic!("no table {}", table);
}

#[test]
fn fetch_tables() {
    println!("{:#?}", MDatabase::open_database("Biblio.mdb", biblio_listing()));
}

#[test]
fn get_sql_schema() {
    let mut db = biblio_db();
    assert!(db.get_sql_schema().is_none());
    println!("{:#?}", db.store_sql_schema(biblio_schema()));
    println!("{:#?}", db);
    assert!(db.sql_schema.unwrap().len() >= 100)
}

#[test]
fn get_csv() {
    let mut db = biblio_db();
    assert!(db.get_csv("Titles").unwrap().is_none());
    println!("{:#?}", db.store_csv("Titles", titles_csv()).unwrap());
    println!("{:#?}", db);
    assert!(cached(&db, "Titles").csv.unwrap().len() >= 100)
}

#[test]
fn get_sql() {
    let mut db = biblio_db();
    assert!(db.get_sql("Titles").unwrap().is_none());
    println!("{:#?}", db.store_sql("Titles", titles_sql()).unwrap());
    println!("{:#?}", db);
    assert!(cached(&db, "Titles").sql.unwrap().len() >= 100)
}

#[test]
fn open_yields_discovered_table_set() {
    let db = MDatabase::open_database("Biblio.mdb", "Title Publishers\nAuthors\tAuthor  Titles\n");
    let mut names: Vec<String> = db.get_tables().into_iter().map(|p| p.0).collect();
    names.sort();
    assert_eq!(names, vec!["Author", "Authors", "Publishers", "Title", "Titles"]);
    assert_eq!(db.file, "Biblio.mdb");
    assert!(db.sql_schema.is_none());
    for (_, entry) in db.get_tables() {
        assert!(entry.sql.is_none());
        assert!(entry.csv.is_none());
    }
}

#[test]
fn open_deduplicates_repeated_names() {
    let db = MDatabase::open_database("x.mdb", "A B A B A");
    let mut names: Vec<String> = db.get_tables().into_iter().map(|p| p.0).collect();
    names.sort();
    assert_eq!(names, vec!["A", "B"]);
    assert!(db.is_wf());
}

#[test]
fn open_of_empty_listing_has_no_tables() {
    let db = MDatabase::open_database("empty.mdb", " \t\r\n ");
    assert_eq!(db.get_tables().len(), 0);
}

#[test]
fn schema_store_is_idempotent() {
    let mut db = biblio_db();
    let first = db.store_sql_schema(biblio_schema());
    assert_eq!(first, biblio_schema());
    let second = db.store_sql_schema("SOMETHING ELSE".to_string());
    assert_eq!(second, first);
    assert_eq!(db.get_sql_schema().unwrap(), first);
}

#[test]
fn csv_store_is_idempotent() {
    let mut db = biblio_db();
    let first = db.store_csv("Titles", titles_csv()).unwrap();
    assert_eq!(first, titles_csv());
    let second = db.store_csv("Titles", "other,rows\n".to_string()).unwrap();
    assert_eq!(second, first);
    assert_eq!(db.get_csv("Titles").unwrap().unwrap(), first);
}

#[test]
fn sql_store_is_idempotent() {
    let mut db = biblio_db();
    let first = db.store_sql("Titles", titles_sql()).unwrap();
    assert_eq!(first, titles_sql());
    let second = db.store_sql("Titles", "INSERT INTO Titles VALUES (9);\n".to_string()).unwrap();
    assert_eq!(second, first);
    assert_eq!(db.get_sql("Titles").unwrap().unwrap(), first);
}
