//! Schema-history storage backed by SQLite.
use vstd::prelude::*;

verus! {

/// Handle on the SQLite schema-history table; it holds no state of its own.
#[derive(Debug)]
pub struct SqliteSchemaHistory {}

impl SqliteSchemaHistory {
    /// A handle on the schema-history table.
    pub fn new() -> (r: Self)
        ensures
            r == (SqliteSchemaHistory {}),
    {
        SqliteSchemaHistory {}
    }
}

impl Default for SqliteSchemaHistory {
    fn default() -> (r: Self)
        ensures
            r == (SqliteSchemaHistory {}),
    {
        Self::new()
    }
}

} // verus!
