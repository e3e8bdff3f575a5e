//! The folder registry: resolves the watched folders from the persisted
//! store, falling back to an explicitly supplied list when the store cannot
//! be read or holds no rows. Rows in the store take precedence entirely;
//! a merely present but empty store never wins.

use vstd::prelude::*;

use crate::scanner::{views, WatchedFolder, WatchedFolderView};
use crate::store::{db_execute, open_store};

verus! {

/// The folder values a vector of folders stands for.
pub open spec fn folder_views(s: Seq<WatchedFolder>) -> Seq<WatchedFolderView> {
    s.map_values(|f: WatchedFolder| f@)
}

/// Explicit paths wrapped as folders with both skip flags off.
pub open spec fn wrap_defaults(paths: Seq<Seq<u8>>) -> Seq<WatchedFolderView> {
    paths.map_values(
        |p: Seq<u8>| WatchedFolderView { path: p, skip_transcription: false, skip_conversion: false },
    )
}

/// Relies on rusqlite::Connection::prepare and Statement::query_map: reads
/// every row of the folder table, or `None` on failure. The rows depend on
/// the database on disk, so nothing is promised of them.
#[verifier::external_body]
fn query_folder_rows(conn: &rusqlite::Connection) -> (r: Option<Vec<WatchedFolder>>)
{
    let mut stmt = conn
        .prepare(
            "SELECT folder_path, ignore_transcribing, ignore_converting FROM recordings_folders",
        )
        .ok()?;
    let rows = stmt
        .query_map((), |row| {
            Ok(WatchedFolder {
                path: row.get::<_, String>(0)?.into_bytes(),
                skip_transcription: row.get(1)?,
                skip_conversion: row.get(2)?,
            })
        })
        .ok()?;
    rows.collect::<Result<Vec<WatchedFolder>, rusqlite::Error>>().ok()
}

/// Makes sure the folder table exists; reports whether the store answered.
fn ensure_folders_table(conn: &rusqlite::Connection) -> (r: bool) {
    let outcome = db_execute(
        conn,
        "CREATE TABLE IF NOT EXISTS recordings_folders (
            id INTEGER PRIMARY KEY,
            folder_path TEXT UNIQUE,
            ignore_transcribing INTEGER DEFAULT 0,
            ignore_converting INTEGER DEFAULT 0
        )",
    );
    match outcome {
        Some(_) => true,
        None => false,
    }
}

/// Decides which folders to watch: rows read from the store, when there is
/// at least one, and otherwise the explicit paths with default flags.
/// The second result says whether the store's rows were used.
pub fn resolve_folders(rows: Option<Vec<WatchedFolder>>, explicit: Vec<Vec<u8>>) -> (r: (
    Vec<WatchedFolder>,
    bool,
))
    ensures
        (rows is Some && rows->Some_0@.len() > 0) ==> r.1 && r.0 == rows->Some_0,
        !(rows is Some && rows->Some_0@.len() > 0) ==> !r.1 && folder_views(r.0@) == wrap_defaults(
            views(explicit@),
        ),
{
    match rows {
        Some(rs) => {
            if rs.len() > 0 {
                return (rs, true);
            }
            (wrap_explicit(explicit), false)
        },
        None => (wrap_explicit(explicit), false),
    }
}

/// Wraps explicit paths as folders with both skip flags off.
fn wrap_explicit(explicit: Vec<Vec<u8>>) -> (r: Vec<WatchedFolder>)
    ensures
        folder_views(r@) == wrap_defaults(views(explicit@)),
{
    let mut r: Vec<WatchedFolder> = Vec::new();
    let mut i: usize = 0;
    proof {
        assert(folder_views(r@) =~= wrap_defaults(views(explicit@).take(0)));
    }
    while i < explicit.len()
        invariant
            0 <= i <= explicit.len(),
            folder_views(r@) == wrap_defaults(views(explicit@).take(i as int)),
        decreases explicit.len() - i,
    {
        let ghost pre = r@;
        let p = explicit[i].clone();
        assert(p@ == views(explicit@)[i as int]);
        r.push(WatchedFolder { path: p, skip_transcription: false, skip_conversion: false });
        proof {
            let lhs = folder_views(r@);
            let rhs = wrap_defaults(views(explicit@).take(i + 1));
            assert(folder_views(pre) == wrap_defaults(views(explicit@).take(i as int)));
            assert(folder_views(pre).len() == pre.len());
            assert(wrap_defaults(views(explicit@).take(i as int)).len() == i as int);
            assert(pre.len() == i as int);
            assert(r@.len() == i + 1);
            assert(views(explicit@).take(i + 1).len() == i + 1);
            assert(lhs.len() == rhs.len());
            assert forall|k: int| 0 <= k < lhs.len() implies lhs[k] == rhs[k] by {
                assert(lhs[k] == r@[k]@);
                assert(rhs[k].path == views(explicit@).take(i + 1)[k]);
                if k < i {
                    assert(r@[k] == pre[k]);
                    assert(folder_views(pre)[k] == pre[k]@);
                    assert(wrap_defaults(views(explicit@).take(i as int))[k].path == views(
                        explicit@,
                    ).take(i as int)[k]);
                } else {
                    assert(r@[k]@.path == p@);
                }
            }
            assert(lhs =~= rhs);
        }
        i += 1;
    }
    proof {
        assert(views(explicit@).take(explicit@.len() as int) =~= views(explicit@));
    }
    r
}

/// Resolves the watched folders from the database at `db_path`, falling back
/// to the given explicit paths, each with default flags, when the store
/// cannot be opened, the table cannot be ensured, the rows cannot be read,
/// or no row exists. The second result says whether the store was used; it
/// is only ever true with at least one folder returned.
pub fn load_recording_dirs(db_path: &Vec<u8>, cli_dirs: Vec<Vec<u8>>) -> (r: (
    Vec<WatchedFolder>,
    bool,
))
    ensures
        r.1 ==> r.0@.len() > 0,
        !r.1 ==> folder_views(r.0@) == wrap_defaults(views(cli_dirs@)),
{
    let rows = match open_store(db_path) {
        Some(conn) => {
            if ensure_folders_table(&conn) {
                query_folder_rows(&conn)
            } else {
                None
            }
        },
        None => None,
    };
    resolve_folders(rows, cli_dirs)
}

} // verus!
