//! Read-only accessor for legacy database files whose parsing is delegated
//! to an external command-line toolset.  The library itself holds the pure
//! part: tokenizing the table-discovery output and a lazy, memoizing cache
//! of per-table SQL and CSV dumps keyed by (table, representation).  The
//! subprocess invocations live outside the library and hand their decoded
//! standard output in as plain strings.

pub mod catalog;
pub mod model;
pub mod tokens;
