//! The catalog: one opened database file, its fixed table set, and the lazy
//! caches of the schema and the per-table dumps.

use vstd::prelude::*;

use crate::model::{CatalogModel, TableModel};
use crate::tokens::{split_ws, ws_tokens};

verus! {

/// Why an operation failed.
#[derive(Clone, Copy, PartialEq, Eq, Debug)]
pub enum DbError {
    /// The table-discovery call could not be run or produced no usable text.
    DiscoveryError,
    /// A schema or dump call could not be run or produced no usable text.
    FetchError,
    /// The caller named a table that the discovery did not find.
    UnknownTableError,
}

/// Per-table holder of the two optional cached dumps.
#[derive(Debug)]
pub struct MTable {
    /// SQL dump of the table, once fetched.
    pub sql: Option<String>,
    /// CSV dump of the table, once fetched.
    pub csv: Option<String>,
}

/// An `Option<String>` as it appears in the model.
pub open spec fn view_opt(o: Option<String>) -> Option<Seq<char>> {
    match o {
        Some(s) => Some(s@),
        None => None,
    }
}

impl View for MTable {
    type V = TableModel;

    open spec fn view(&self) -> TableModel {
        TableModel { sql: view_opt(self.sql), csv: view_opt(self.csv) }
    }
}

impl MTable {
    /// Records a fetched SQL dump, replacing whatever was there.
    pub fn set_sql(&mut self, data: String)
        ensures
            final(self)@.sql == Some(data@),
            final(self)@.csv == old(self)@.csv,
    {
        self.sql = Some(data);
    }

    /// Records a fetched CSV dump, replacing whatever was there.
    pub fn set_csv(&mut self, data: String)
        ensures
            final(self)@.csv == Some(data@),
            final(self)@.sql == old(self)@.sql,
    {
        self.csv = Some(data);
    }
}

impl Default for MTable {
    /// A fresh entry with nothing fetched yet.
    fn default() -> (r: MTable)
        ensures
            r@ == TableModel::empty(),
    {
        MTable { sql: None, csv: None }
    }
}

/// No two entries carry the same table name.
pub open spec fn keys_unique(s: Seq<(String, MTable)>) -> bool {
    forall|k1: int, k2: int|
        0 <= k1 < k2 < s.len() ==> (#[trigger] s[k1].0)@ != (#[trigger] s[k2].0)@
}

/// The entry sequence as a mapping from table name to cached entry; a later
/// entry for a name shadows an earlier one, which `keys_unique` rules out.
pub open spec fn tables_map(s: Seq<(String, MTable)>) -> Map<Seq<char>, TableModel>
    decreases s.len(),
{
    if s.len() == 0 {
        Map::empty()
    } else {
        tables_map(s.drop_last()).insert(s.last().0@, s.last().1@)
    }
}

/// A name is a key of `tables_map(s)` exactly when some entry carries it.
pub proof fn lemma_tables_map_dom(s: Seq<(String, MTable)>)
    ensures
        forall|n: Seq<char>|
            #[trigger] tables_map(s).contains_key(n) <==> (exists|k: int|
                0 <= k < s.len() && (#[trigger] s[k].0)@ == n),
    decreases s.len(),
{
    if s.len() > 0 {
        let d = s.drop_last();
        lemma_tables_map_dom(d);
        assert forall|n: Seq<char>| #[trigger]
            tables_map(s).contains_key(n) <==> (exists|k: int|
                0 <= k < s.len() && (#[trigger] s[k].0)@ == n) by {
            if tables_map(s).contains_key(n) {
                if n == s.last().0@ {
                    assert((s[s.len() - 1].0)@ == n);
                } else {
                    assert(tables_map(d).contains_key(n));
                    let k = choose|k: int| 0 <= k < d.len() && (#[trigger] d[k].0)@ == n;
                    assert(d[k] == s[k]);
                    assert((s[k].0)@ == n);
                }
            }
            if exists|k: int| 0 <= k < s.len() && (#[trigger] s[k].0)@ == n {
                let k = choose|k: int| 0 <= k < s.len() && (#[trigger] s[k].0)@ == n;
                if k < s.len() - 1 {
                    assert((d[k].0)@ == n);
                    assert(tables_map(d).contains_key(n));
                    assert(tables_map(s).contains_key(n));
                }
            }
        }
    }
}

/// With no later entry of the same name, the mapping sends the name of the
/// entry at `k` to that entry's caches.
pub proof fn lemma_tables_map_at(s: Seq<(String, MTable)>, k: int)
    requires
        0 <= k < s.len(),
        forall|k2: int| k < k2 < s.len() ==> (#[trigger] s[k2].0)@ != (s[k].0)@,
    ensures
        tables_map(s).contains_key((s[k].0)@),
        tables_map(s)[(s[k].0)@] == s[k].1@,
    decreases s.len(),
{
    if k < s.len() - 1 {
        assert(forall|k2: int|
            k < k2 < s.drop_last().len() ==> (#[trigger] s.drop_last()[k2].0)@ != (s.drop_last()[
                k
            ].0)@);
        lemma_tables_map_at(s.drop_last(), k);
    }
}

/// Replacing the entry at `k` by one of the same name updates the mapping at
/// that name alone.
pub proof fn lemma_tables_map_update(s: Seq<(String, MTable)>, k: int, p: (String, MTable))
    requires
        0 <= k < s.len(),
        keys_unique(s),
        p.0@ == (s[k].0)@,
    ensures
        keys_unique(s.update(k, p)),
        tables_map(s.update(k, p)) == tables_map(s).insert(p.0@, p.1@),
    decreases s.len(),
{
    let su = s.update(k, p);
    if k == s.len() - 1 {
        assert(su.drop_last() =~= s.drop_last());
        assert(tables_map(su) == tables_map(s.drop_last()).insert(p.0@, p.1@));
        assert(tables_map(s.drop_last()).insert((s[k].0)@, s[k].1@).insert(p.0@, p.1@)
            =~= tables_map(s.drop_last()).insert(p.0@, p.1@));
    } else {
        assert(su.drop_last() =~= s.drop_last().update(k, p));
        lemma_tables_map_update(s.drop_last(), k, p);
        assert(s.last().0@ != p.0@);
        assert(tables_map(su) == tables_map(s.drop_last()).insert(p.0@, p.1@).insert(
            s.last().0@,
            s.last().1@,
        ));
        assert(tables_map(s.drop_last()).insert(p.0@, p.1@).insert(s.last().0@, s.last().1@)
            =~= tables_map(s.drop_last()).insert(s.last().0@, s.last().1@).insert(p.0@, p.1@));
    }
}

/// Some entry of `s` carries the name `n`.
pub open spec fn seq_has_name(s: Seq<(String, MTable)>, n: Seq<char>) -> bool {
    exists|i: int| 0 <= i < s.len() && (#[trigger] s[i].0)@ == n
}

/// Appending an entry keeps every name that was there and adds the new one.
proof fn lemma_has_name_push(s: Seq<(String, MTable)>, p: (String, MTable), n: Seq<char>)
    ensures
        seq_has_name(s, n) ==> seq_has_name(s.push(p), n),
        p.0@ == n ==> seq_has_name(s.push(p), n),
{
    if seq_has_name(s, n) {
        let i = choose|i: int| 0 <= i < s.len() && (#[trigger] s[i].0)@ == n;
        assert(s.push(p)[i] == s[i]);
    }
    if p.0@ == n {
        assert((s.push(p)[s.len() as int].0)@ == n);
    }
}

/// A copy of an optional cached text.
fn clone_opt_string(o: &Option<String>) -> (r: Option<String>)
    ensures
        r == *o,
{
    match o {
        Some(s) => Some(s.clone()),
        None => None,
    }
}

/// Index of the first entry carrying `name`, if any.
fn find_pair(tables: &Vec<(String, MTable)>, name: &str) -> (r: Option<usize>)
    ensures
        match r {
            Some(k) => k < tables@.len() && (tables@[k as int].0)@ == name@,
            None => forall|k: int| 0 <= k < tables@.len() ==> (#[trigger] tables@[k].0)@ != name@,
        },
{
    let key: String = name.to_owned();
    let n = tables.len();
    let mut k: usize = 0;
    while k < n
        invariant
            k <= n,
            n == tables@.len(),
            key@ == name@,
            forall|j: int| 0 <= j < k ==> (#[trigger] tables@[j].0)@ != name@,
        decreases n - k,
    {
        if tables[k].0 == key {
            return Some(k);
        }
        k = k + 1;
    }
    None
}

/// One opened database: the path it was opened from, its tables with their
/// cached dumps, and the optional cached schema.
#[derive(Debug)]
pub struct MDatabase {
    /// Path of the database file.
    pub file: String,
    /// The discovered tables, each with its cached dumps; names are unique.
    pub tables: Vec<(String, MTable)>,
    /// The cached schema of the whole database, once fetched.
    pub sql_schema: Option<String>,
}

impl View for MDatabase {
    type V = CatalogModel;

    open spec fn view(&self) -> CatalogModel {
        CatalogModel {
            file: self.file@,
            tables: tables_map(self.tables@),
            schema: view_opt(self.sql_schema),
        }
    }
}

impl MDatabase {
    /// Table names are unique, so the entry sequence really is a mapping.
    pub open spec fn wf(self) -> bool {
        keys_unique(self.tables@)
    }

    /// Whether the table names are unique, decided at run time; true of
    /// every catalog that `open_database` built.
    pub fn is_wf(&self) -> (r: bool)
        ensures
            r == self.wf(),
    {
        let n = self.tables.len();
        let mut k1: usize = 0;
        while k1 < n
            invariant
                k1 <= n,
                n == self.tables@.len(),
                forall|i: int, j: int|
                    0 <= i < j < n && i < k1 ==> (#[trigger] self.tables@[i].0)@ != (
                    #[trigger] self.tables@[j].0)@,
            decreases n - k1,
        {
            let mut k2: usize = k1 + 1;
            while k2 < n
                invariant
                    k1 < k2 <= n,
                    n == self.tables@.len(),
                    forall|j: int|
                        k1 < j < k2 ==> (self.tables@[k1 as int].0)@ != (#[trigger] self.tables@[
                            j
                        ].0)@,
                decreases n - k2,
            {
                if self.tables[k1].0 == self.tables[k2].0 {
                    return false;
                }
                k2 = k2 + 1;
            }
            k1 = k1 + 1;
        }
        true
    }

    /// Opens a catalog for the file at `path`, given the text that the
    /// table-discovery call printed for it: the table set is exactly the
    /// whitespace-delimited tokens of `listing`, every table starts with an
    /// empty cache entry, and no schema is cached.
    pub fn open_database(path: &str, listing: &str) -> (r: MDatabase)
        ensures
            r.wf(),
            r@.file == path@,
            r@.schema is None,
            forall|n: Seq<char>| #[trigger]
                r@.tables.contains_key(n) <==> ws_tokens(listing@).contains(n),
            forall|n: Seq<char>| #[trigger]
                r@.tables.contains_key(n) ==> r@.tables[n] == TableModel::empty(),
    {
        let ghost toks = ws_tokens(listing@);
        let names = split_ws(listing);
        let mut tables: Vec<(String, MTable)> = Vec::new();
        let mut j: usize = 0;
        while j < names.len()
            invariant
                j <= names@.len(),
                names@.map_values(|t: String| t@) == toks,
                keys_unique(tables@),
                forall|i: int|
                    0 <= i < tables@.len() ==> (#[trigger] tables@[i].1)@ == TableModel::empty(),
                forall|k: int| 0 <= k < j ==> seq_has_name(tables@, #[trigger] toks[k]),
                forall|i: int|
                    0 <= i < tables@.len() ==> exists|k: int|
                        0 <= k < j && toks[k] == (#[trigger] tables@[i].0)@,
            decreases names@.len() - j,
        {
            let ghost pre = tables@;
            proof {
                assert(toks[j as int] == names@[j as int]@);
            }
            match find_pair(&tables, names[j].as_str()) {
                Some(k) => {
                    proof {
                        assert((tables@[k as int].0)@ == toks[j as int]);
                    }
                },
                None => {
                    let name = names[j].clone();
                    let p = (name, MTable::default());
                    tables.push(p);
                    proof {
                        assert forall|k1: int, k2: int|
                            0 <= k1 < k2 < tables@.len() implies (#[trigger] tables@[k1].0)@ != (
                        #[trigger] tables@[k2].0)@ by {
                            if k2 < pre.len() {
                                assert(tables@[k1] == pre[k1] && tables@[k2] == pre[k2]);
                            } else {
                                assert(tables@[k1] == pre[k1]);
                                assert((pre[k1].0)@ != names@[j as int]@);
                            }
                        }
                        assert forall|k: int| 0 <= k < j + 1 implies seq_has_name(
                            tables@,
                            #[trigger] toks[k],
                        ) by {
                            lemma_has_name_push(pre, p, toks[k]);
                        }
                        assert forall|i: int| 0 <= i < tables@.len() implies exists|k: int|
                            0 <= k < j + 1 && toks[k] == (#[trigger] tables@[i].0)@ by {
                            if i < pre.len() {
                                assert(tables@[i] == pre[i]);
                            } else {
                                assert(toks[j as int] == (tables@[i].0)@);
                            }
                        }
                    }
                },
            }
            j = j + 1;
        }
        let r = MDatabase { file: path.to_owned(), tables, sql_schema: None };
        proof {
            lemma_tables_map_dom(r.tables@);
            assert forall|n: Seq<char>| #[trigger]
                r@.tables.contains_key(n) <==> toks.contains(n) by {
                if r@.tables.contains_key(n) {
                    let i = choose|i: int| 0 <= i < r.tables@.len() && (#[trigger] r.tables@[i].0)@ == n;
                    let k = choose|k: int| 0 <= k < j && toks[k] == (r.tables@[i].0)@;
                    assert(toks[k] == n);
                }
                if toks.contains(n) {
                    let k = choose|k: int| 0 <= k < toks.len() && toks[k] == n;
                    assert(seq_has_name(r.tables@, toks[k]));
                }
            }
            assert forall|n: Seq<char>| #[trigger]
                r@.tables.contains_key(n) implies r@.tables[n] == TableModel::empty() by {
                let i = choose|i: int| 0 <= i < r.tables@.len() && (#[trigger] r.tables@[i].0)@ == n;
                assert(forall|k2: int|
                    i < k2 < r.tables@.len() ==> (#[trigger] r.tables@[k2].0)@ != (r.tables@[
                        i
                    ].0)@);
                lemma_tables_map_at(r.tables@, i);
            }
        }
        r
    }

    /// The cached schema, if an earlier fetch stored one; `None` says the
    /// caller has to fetch the schema text and hand it to
    /// `store_sql_schema`.
    pub fn get_sql_schema(&self) -> (r: Option<String>)
        ensures
            match r {
                Some(v) => self@.schema == Some(v@),
                None => self@.schema is None,
            },
    {
        clone_opt_string(&self.sql_schema)
    }

    /// Records a fetched schema text if none is cached yet and returns the
    /// cached schema: the existing one on a cache hit, `text` otherwise.
    pub fn store_sql_schema(&mut self, text: String) -> (r: String)
        ensures
            final(self).tables == old(self).tables,
            ({
                let (m, v) = old(self)@.schema_stored(text@);
                final(self)@ == m && r@ == v
            }),
    {
        if let Some(v) = &self.sql_schema {
            return v.clone();
        }
        let r = text.clone();
        self.sql_schema = Some(text);
        r
    }

    /// The cached CSV dump of `table`: an error for a table the discovery
    /// did not find, the cached text on a hit, and `Ok(None)` when the
    /// caller has to fetch the dump and hand it to `store_csv`.
    pub fn get_csv(&self, table: &str) -> (r: Result<Option<String>, DbError>)
        requires
            self.wf(),
        ensures
            match r {
                Err(e) => e == DbError::UnknownTableError && !self@.tables.contains_key(table@),
                Ok(opt) => self@.tables.contains_key(table@) && match opt {
                    Some(v) => self@.tables[table@].csv == Some(v@),
                    None => self@.tables[table@].csv is None,
                },
            },
    {
        proof {
            lemma_tables_map_dom(self.tables@);
        }
        match find_pair(&self.tables, table) {
            None => Err(DbError::UnknownTableError),
            Some(k) => {
                proof {
                    lemma_tables_map_at(self.tables@, k as int);
                }
                Ok(clone_opt_string(&self.tables[k].1.csv))
            },
        }
    }

    /// The cached SQL dump of `table`, under the same contract as `get_csv`.
    pub fn get_sql(&self, table: &str) -> (r: Result<Option<String>, DbError>)
        requires
            self.wf(),
        ensures
            match r {
                Err(e) => e == DbError::UnknownTableError && !self@.tables.contains_key(table@),
                Ok(opt) => self@.tables.contains_key(table@) && match opt {
                    Some(v) => self@.tables[table@].sql == Some(v@),
                    None => self@.tables[table@].sql is None,
                },
            },
    {
        proof {
            lemma_tables_map_dom(self.tables@);
        }
        match find_pair(&self.tables, table) {
            None => Err(DbError::UnknownTableError),
            Some(k) => {
                proof {
                    lemma_tables_map_at(self.tables@, k as int);
                }
                Ok(clone_opt_string(&self.tables[k].1.sql))
            },
        }
    }

    /// Records a fetched CSV dump for `table` if none is cached yet and
    /// returns the cached dump: an error for an unknown table (the catalog
    /// unchanged), the existing text on a cache hit, `data` otherwise.
    pub fn store_csv(&mut self, table: &str, data: String) -> (r: Result<String, DbError>)
        requires
            old(self).wf(),
        ensures
            final(self).wf(),
            match r {
                Err(e) => e == DbError::UnknownTableError && !old(self)@.tables.contains_key(
                    table@,
                ) && *final(self) == *old(self),
                Ok(v) => old(self)@.tables.contains_key(table@) && ({
                    let (m, val) = old(self)@.csv_stored(table@, data@);
                    final(self)@ == m && v@ == val
                }),
            },
    {
        proof {
            lemma_tables_map_dom(self.tables@);
        }
        match find_pair(&self.tables, table) {
            None => Err(DbError::UnknownTableError),
            Some(k) => {
                proof {
                    lemma_tables_map_at(self.tables@, k as int);
                }
                let cached = clone_opt_string(&self.tables[k].1.csv);
                match cached {
                    Some(v) => Ok(v),
                    None => {
                        let r = data.clone();
                        self.tables[k].1.csv = Some(data);
                        proof {
                            let pre = old(self).tables@;
                            let p = self.tables@[k as int];
                            assert(self.tables@ == pre.update(k as int, p));
                            lemma_tables_map_update(pre, k as int, p);
                        }
                        Ok(r)
                    },
                }
            },
        }
    }

    /// Records a fetched SQL dump for `table` if none is cached yet, under
    /// the same contract as `store_csv`.
    pub fn store_sql(&mut self, table: &str, data: String) -> (r: Result<String, DbError>)
        requires
            old(self).wf(),
        ensures
            final(self).wf(),
            match r {
                Err(e) => e == DbError::UnknownTableError && !old(self)@.tables.contains_key(
                    table@,
                ) && *final(self) == *old(self),
                Ok(v) => old(self)@.tables.contains_key(table@) && ({
                    let (m, val) = old(self)@.sql_stored(table@, data@);
                    final(self)@ == m && v@ == val
                }),
            },
    {
        proof {
            lemma_tables_map_dom(self.tables@);
        }
        match find_pair(&self.tables, table) {
            None => Err(DbError::UnknownTableError),
            Some(k) => {
                proof {
                    lemma_tables_map_at(self.tables@, k as int);
                }
                let cached = clone_opt_string(&self.tables[k].1.sql);
                match cached {
                    Some(v) => Ok(v),
                    None => {
                        let r = data.clone();
                        self.tables[k].1.sql = Some(data);
                        proof {
                            let pre = old(self).tables@;
                            let p = self.tables@[k as int];
                            assert(self.tables@ == pre.update(k as int, p));
                            lemma_tables_map_update(pre, k as int, p);
                        }
                        Ok(r)
                    },
                }
            },
        }
    }

    /// A copy of the table entries with their cached dumps.
    pub fn get_tables(&self) -> (r: Vec<(String, MTable)>)
        ensures
            r@ == self.tables@,
    {
        let n = self.tables.len();
        let mut r: Vec<(String, MTable)> = Vec::new();
        let mut k: usize = 0;
        while k < n
            invariant
                k <= n,
                n == self.tables@.len(),
                r@ == self.tables@.subrange(0, k as int),
            decreases n - k,
        {
            let name = self.tables[k].0.clone();
            let t = MTable {
                sql: clone_opt_string(&self.tables[k].1.sql),
                csv: clone_opt_string(&self.tables[k].1.csv),
            };
            r.push((name, t));
            proof {
                assert(r@ =~= self.tables@.subrange(0, k as int + 1));
            }
            k = k + 1;
        }
        proof {
            assert(self.tables@.subrange(0, n as int) =~= self.tables@);
        }
        r
    }
}

} // verus!
