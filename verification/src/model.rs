//! Mathematical model of an opened catalog.
//!
//! A catalog is a source path, a mapping from table name to the two optional
//! cached dumps of that table, and an optional cached schema.  The `*_stored`
//! functions are the cache-population transitions: each inserts a fetched
//! text if the field is still empty and otherwise keeps the existing value,
//! returning the new model together with the text the caller receives.

use vstd::prelude::*;

verus! {

/// The cached representations of one table: an optional SQL dump and an
/// optional CSV dump.
pub ghost struct TableModel {
    pub sql: Option<Seq<char>>,
    pub csv: Option<Seq<char>>,
}

impl TableModel {
    /// A fresh entry with nothing fetched yet.
    pub open spec fn empty() -> TableModel {
        TableModel { sql: None, csv: None }
    }
}

/// One opened database: its file path, its fixed table set with the cached
/// per-table dumps, and the optional cached schema.
pub ghost struct CatalogModel {
    pub file: Seq<char>,
    pub tables: Map<Seq<char>, TableModel>,
    pub schema: Option<Seq<char>>,
}

impl CatalogModel {
    /// Records a fetched schema text if none is cached; returns the new
    /// model and the text the caller sees.
    pub open spec fn schema_stored(self, d: Seq<char>) -> (CatalogModel, Seq<char>) {
        match self.schema {
            Some(v) => (self, v),
            None => (CatalogModel { schema: Some(d), ..self }, d),
        }
    }

    /// Records a fetched CSV dump for table `t` if none is cached; returns
    /// the new model and the text the caller sees.
    pub open spec fn csv_stored(self, t: Seq<char>, d: Seq<char>) -> (CatalogModel, Seq<char>)
        recommends
            self.tables.contains_key(t),
    {
        match self.tables[t].csv {
            Some(v) => (self, v),
            None => (
                CatalogModel {
                    tables: self.tables.insert(t, TableModel { csv: Some(d), ..self.tables[t] }),
                    ..self
                },
                d,
            ),
        }
    }

    /// Records a fetched SQL dump for table `t` if none is cached; returns
    /// the new model and the text the caller sees.
    pub open spec fn sql_stored(self, t: Seq<char>, d: Seq<char>) -> (CatalogModel, Seq<char>)
        recommends
            self.tables.contains_key(t),
    {
        match self.tables[t].sql {
            Some(v) => (self, v),
            None => (
                CatalogModel {
                    tables: self.tables.insert(t, TableModel { sql: Some(d), ..self.tables[t] }),
                    ..self
                },
                d,
            ),
        }
    }
}

/// Idempotence of the schema cache: the first store records its text, and a
/// second store, whatever text the repeated fetch produced, returns the
/// identical first string and leaves the catalog unchanged — so after the
/// first retrieval no further fetch result is ever recorded.
pub proof fn lemma_schema_store_idempotent(m: CatalogModel, d1: Seq<char>, d2: Seq<char>)
    requires
        m.schema is None,
    ensures
        ({
            let (m1, v1) = m.schema_stored(d1);
            let (m2, v2) = m1.schema_stored(d2);
            &&& v1 == d1
            &&& m1.schema == Some(d1)
            &&& m2 == m1
            &&& v2 == v1
        }),
{
}

/// Idempotence of the CSV cache: the first store for a table records its
/// text, and a second store for the same table returns the identical first
/// string and leaves the catalog unchanged.
pub proof fn lemma_csv_store_idempotent(
    m: CatalogModel,
    t: Seq<char>,
    d1: Seq<char>,
    d2: Seq<char>,
)
    requires
        m.tables.contains_key(t),
        m.tables[t].csv is None,
    ensures
        ({
            let (m1, v1) = m.csv_stored(t, d1);
            let (m2, v2) = m1.csv_stored(t, d2);
            &&& v1 == d1
            &&& m1.tables[t].csv == Some(d1)
            &&& m2 == m1
            &&& v2 == v1
        }),
{
}

/// Idempotence of the SQL cache: the first store for a table records its
/// text, and a second store for the same table returns the identical first
/// string and leaves the catalog unchanged.
pub proof fn lemma_sql_store_idempotent(
    m: CatalogModel,
    t: Seq<char>,
    d1: Seq<char>,
    d2: Seq<char>,
)
    requires
        m.tables.contains_key(t),
        m.tables[t].sql is None,
    ensures
        ({
            let (m1, v1) = m.sql_stored(t, d1);
            let (m2, v2) = m1.sql_stored(t, d2);
            &&& v1 == d1
            &&& m1.tables[t].sql == Some(d1)
            &&& m2 == m1
            &&& v2 == v1
        }),
{
}

/// The representations are cached independently: storing a CSV dump for
/// table `t` keeps the table set, the schema, every table's SQL cache and
/// every other table's CSV cache exactly as they were.
pub proof fn lemma_csv_store_independent(m: CatalogModel, t: Seq<char>, d: Seq<char>)
    requires
        m.tables.contains_key(t),
    ensures
        ({
            let (m1, v) = m.csv_stored(t, d);
            &&& m1.file == m.file
            &&& m1.schema == m.schema
            &&& m1.tables.dom() == m.tables.dom()
            &&& forall|t2: Seq<char>|
                m.tables.contains_key(t2) ==> #[trigger] m1.tables[t2].sql == m.tables[t2].sql
            &&& forall|t2: Seq<char>|
                m.tables.contains_key(t2) && t2 != t ==> #[trigger] m1.tables[t2]
                    == m.tables[t2]
        }),
{
    let (m1, v) = m.csv_stored(t, d);
    assert(m1.tables.dom() =~= m.tables.dom());
}

/// The representations are cached independently: storing an SQL dump for
/// table `t` keeps the table set, the schema, every table's CSV cache and
/// every other table's SQL cache exactly as they were.
pub proof fn lemma_sql_store_independent(m: CatalogModel, t: Seq<char>, d: Seq<char>)
    requires
        m.tables.contains_key(t),
    ensures
        ({
            let (m1, v) = m.sql_stored(t, d);
            &&& m1.file == m.file
            &&& m1.schema == m.schema
            &&& m1.tables.dom() == m.tables.dom()
            &&& forall|t2: Seq<char>|
                m.tables.contains_key(t2) ==> #[trigger] m1.tables[t2].csv == m.tables[t2].csv
            &&& forall|t2: Seq<char>|
                m.tables.contains_key(t2) && t2 != t ==> #[trigger] m1.tables[t2]
                    == m.tables[t2]
        }),
{
    let (m1, v) = m.sql_stored(t, d);
    assert(m1.tables.dom() =~= m.tables.dom());
}

} // verus!
