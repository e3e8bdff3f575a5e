//! The known-file ledger: the durable, insert-only record of files already
//! observed, keyed per folder. It answers "have I seen this file before";
//! whether an action is still needed is always re-derived from the
//! filesystem at scan time, never cached here — conflating the two would
//! either skip work for good or re-dispatch it forever.
//!
//! The rows live in the same SQLite store as the folder registry. Every
//! insert is insert-if-absent, so re-observation is a no-op and concurrent
//! writers need no coordination beyond the store's own statement atomicity.

use vstd::prelude::*;

use crate::classify::{audio_name, is_audio_ext_exec, is_transcript_ext_exec, transcript_name};
use crate::names::split_name;
use crate::scanner::views;
use crate::store::{db_execute, open_store};

verus! {

/// Relies on rusqlite::Connection::execute: inserts a known-file row unless
/// one with the same folder and name exists, and reports whether the store
/// answered. The outcome depends on the database on disk.
#[verifier::external_body]
fn insert_known_file(
    conn: &rusqlite::Connection,
    folder_id: i64,
    name: &Vec<u8>,
    ext: &Vec<u8>,
) -> (r: bool) {
    conn.execute(
        "INSERT OR IGNORE INTO known_files (folder_id, file_name, extension) VALUES (?1, ?2, ?3)",
        (folder_id, name.as_slice(), ext.as_slice()),
    ).is_ok()
}

/// Relies on rusqlite::Connection::query_row: looks up the id of a known
/// file, `None` when the row is absent or the store fails. The outcome
/// depends on the database on disk.
#[verifier::external_body]
fn lookup_known_file_id(conn: &rusqlite::Connection, folder_id: i64, name: &Vec<u8>) -> (r: Option<
    i64,
>) {
    conn.query_row(
        "SELECT id FROM known_files WHERE folder_id = ?1 AND file_name = ?2",
        (folder_id, name.as_slice()),
        |row| row.get(0),
    ).ok()
}

/// Relies on rusqlite::Connection::execute: records the first audio
/// observation of a known file unless one exists. The outcome depends on
/// the database on disk.
#[verifier::external_body]
fn insert_audio_observation(conn: &rusqlite::Connection, known_file_id: i64, seen_at: i64) -> (r:
    bool) {
    conn.execute(
        "INSERT OR IGNORE INTO audio_files (known_file_id, seen_at_unix) VALUES (?1, ?2)",
        (known_file_id, seen_at),
    ).is_ok()
}

/// Relies on rusqlite::Connection::execute: records the first transcript
/// observation of a known file unless one exists. The outcome depends on
/// the database on disk.
#[verifier::external_body]
fn insert_transcript_observation(
    conn: &rusqlite::Connection,
    known_file_id: i64,
    seen_at: i64,
) -> (r: bool) {
    conn.execute(
        "INSERT OR IGNORE INTO transcript_files (known_file_id, seen_at_unix) VALUES (?1, ?2)",
        (known_file_id, seen_at),
    ).is_ok()
}

/// What observing one file came to.
pub enum Observation {
    /// The file is audio; it and its audio observation are recorded.
    Audio,
    /// The file is a transcript; it and its transcript observation are
    /// recorded.
    Transcript,
    /// The file is neither audio nor transcript: it never enters the ledger.
    Ignored,
    /// The store did not answer; the file will be observed again on a later
    /// pass.
    StoreError,
}

/// The ledger over its backing store.
pub struct Ledger {
    /// The open connection to the store.
    pub conn: rusqlite::Connection,
}

impl Ledger {
    /// Opens the ledger in the database at `db_path` and makes sure its
    /// tables exist; `None` when the store cannot be opened or prepared.
    pub fn open(db_path: &Vec<u8>) -> (r: Option<Ledger>) {
        let conn = match open_store(db_path) {
            Some(c) => c,
            None => {
                return None;
            },
        };
        let known = db_execute(
            &conn,
            "CREATE TABLE IF NOT EXISTS known_files (
                id INTEGER PRIMARY KEY,
                folder_id INTEGER,
                file_name BLOB,
                extension BLOB,
                UNIQUE(folder_id, file_name)
            )",
        );
        if known.is_none() {
            return None;
        }
        let audio = db_execute(
            &conn,
            "CREATE TABLE IF NOT EXISTS audio_files (
                known_file_id INTEGER UNIQUE,
                seen_at_unix INTEGER
            )",
        );
        if audio.is_none() {
            return None;
        }
        let transcript = db_execute(
            &conn,
            "CREATE TABLE IF NOT EXISTS transcript_files (
                known_file_id INTEGER UNIQUE,
                seen_at_unix INTEGER
            )",
        );
        if transcript.is_none() {
            return None;
        }
        Some(Ledger { conn })
    }

    /// Records a file as known, unless it already is, and returns its id
    /// either way; `None` when the store did not answer. Re-observation
    /// changes no row.
    pub fn register(&self, folder_id: i64, name: &Vec<u8>, ext: &Vec<u8>) -> (r: Option<i64>) {
        if !insert_known_file(&self.conn, folder_id, name, ext) {
            return None;
        }
        lookup_known_file_id(&self.conn, folder_id, name)
    }

    /// Observes one file name: classifies it, registers audio and transcript
    /// files with their observation record, and leaves every other file out
    /// of the ledger entirely.
    pub fn observe_file(&self, folder_id: i64, name: &Vec<u8>, seen_at: i64) -> (r: Observation)
        ensures
            r is Audio ==> audio_name(name@),
            r is Transcript ==> transcript_name(name@),
            r is StoreError ==> audio_name(name@) || transcript_name(name@),
            r is Ignored <==> !audio_name(name@) && !transcript_name(name@),
    {
        let (_, ext) = match split_name(name.as_slice()) {
            Some(pair) => pair,
            None => {
                return Observation::Ignored;
            },
        };
        if is_audio_ext_exec(&ext) {
            match self.register(folder_id, name, &ext) {
                Some(id) => {
                    if insert_audio_observation(&self.conn, id, seen_at) {
                        Observation::Audio
                    } else {
                        Observation::StoreError
                    }
                },
                None => Observation::StoreError,
            }
        } else if is_transcript_ext_exec(&ext) {
            match self.register(folder_id, name, &ext) {
                Some(id) => {
                    if insert_transcript_observation(&self.conn, id, seen_at) {
                        Observation::Transcript
                    } else {
                        Observation::StoreError
                    }
                },
                None => Observation::StoreError,
            }
        } else {
            Observation::Ignored
        }
    }

    /// Observes every file of one folder's listing and returns how many of
    /// them belong in the ledger: exactly the audio and transcript files,
    /// whatever the store answered about each.
    pub fn observe_listing(&self, folder_id: i64, files: &Vec<Vec<u8>>, seen_at: i64) -> (n: usize)
        ensures
            n == count_classifiable(views(files@)),
    {
        let mut n: usize = 0;
        let mut i: usize = 0;
        proof {
            assert(views(files@).take(0) =~= Seq::<Seq<u8>>::empty());
        }
        while i < files.len()
            invariant
                0 <= i <= files.len(),
                n == count_classifiable(views(files@).take(i as int)),
                n <= i,
            decreases files.len() - i,
        {
            let o = self.observe_file(folder_id, &files[i], seen_at);
            let counted = match o {
                Observation::Ignored => false,
                _ => true,
            };
            if counted {
                n += 1;
            }
            proof {
                let fv = views(files@);
                assert(fv.take(i + 1).drop_last() =~= fv.take(i as int));
                assert(fv.take(i + 1).last() == fv[i as int]);
            }
            i += 1;
        }
        proof {
            assert(views(files@).take(files@.len() as int) =~= views(files@));
        }
        n
    }
}

/// How many names of a listing are audio or transcript files — the names
/// the ledger records.
pub open spec fn count_classifiable(files: Seq<Seq<u8>>) -> nat
    decreases files.len(),
{
    if files.len() == 0 {
        0
    } else {
        count_classifiable(files.drop_last()) + if audio_name(files.last()) || transcript_name(
            files.last(),
        ) {
            1nat
        } else {
            0nat
        }
    }
}

} // verus!
