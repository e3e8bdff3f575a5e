//! The durable store behind the folder registry and the known-file ledger:
//! an SQLite database reached through rusqlite. What comes back from the
//! store depends on what is on disk, so the trusted declarations here promise
//! nothing about it; every decision taken on the returned values stands in
//! verified code.

use vstd::prelude::*;

verus! {

/// The rusqlite connection type, declared so it can stand in signatures and
/// fields; Verus sees nothing inside a value of it.
#[verifier::external_type_specification]
#[verifier::external_body]
pub struct ExConnection(rusqlite::Connection);

/// Relies on rusqlite::Connection::open: opens the database file at the
/// given path, creating it when absent, or fails. Nothing can be promised of
/// the outcome, which depends on the disk.
#[verifier::external_body]
pub(crate) fn open_store(path: &Vec<u8>) -> (r: Option<rusqlite::Connection>)
{
    let text = String::from_utf8_lossy(path.as_slice()).into_owned();
    rusqlite::Connection::open(text).ok()
}

/// Relies on rusqlite::Connection::execute with no parameters: runs one SQL
/// statement and reports the changed row count, or `None` on failure. The
/// outcome depends on the database on disk.
#[verifier::external_body]
pub(crate) fn db_execute(conn: &rusqlite::Connection, sql: &str) -> (r: Option<u64>)
{
    conn.execute(sql, ()).ok().map(|n| n as u64)
}

} // verus!
