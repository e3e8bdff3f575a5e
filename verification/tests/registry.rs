use tircorder::registry::{load_recording_dirs, resolve_folders};
use tircorder::scanner::WatchedFolder;

fn bv(s: &str) -> Vec<u8> {
    s.as_bytes().to_vec()
}

fn fresh_store(path: &str) -> rusqlite::Connection {
    let conn = rusqlite::Connection::open(path).unwrap();
    conn.execute(
        "CREATE TABLE IF NOT EXISTS recordings_folders (
            id INTEGER PRIMARY KEY,
            folder_path TEXT UNIQUE,
            ignore_transcribing INTEGER DEFAULT 0,
            ignore_converting INTEGER DEFAULT 0
        )",
        (),
    )
    .unwrap();
    conn.execute("DELETE FROM recordings_folders", ()).unwrap();
    conn
}

#[test]
fn scan_uses_db_entries_without_cli_args() {
    let db = "/tmp/tircorder_registry_used.db";
    let conn = fresh_store(db);
    conn.execute(
        "INSERT OR IGNORE INTO recordings_folders (folder_path) VALUES (?1)",
        ("recordings",),
    )
    .unwrap();
    drop(conn);

    let (dirs, used_db) = load_recording_dirs(&bv(db), Vec::new());
    assert!(used_db, "Expected database entries to be used when present");
    assert_eq!(dirs.len(), 1);
    assert_eq!(dirs[0].path, bv("recordings"));
    assert!(!dirs[0].skip_transcription);
    assert!(!dirs[0].skip_conversion);
}

#[test]
fn cli_paths_used_when_database_empty() {
    let db = "/tmp/tircorder_registry_empty.db";
    let conn = fresh_store(db);
    drop(conn);

    let (dirs, used_db) = load_recording_dirs(&bv(db), vec![bv("recordings")]);
    assert!(!used_db, "Database should not be used when no rows exist");
    assert_eq!(dirs.len(), 1);
    assert_eq!(dirs[0].path, bv("recordings"));
    assert!(!dirs[0].skip_transcription);
    assert!(!dirs[0].skip_conversion);
}

#[test]
fn db_rows_take_precedence_over_explicit_paths() {
    let db = "/tmp/tircorder_registry_precedence.db";
    let conn = fresh_store(db);
    conn.execute(
        "INSERT OR IGNORE INTO recordings_folders (folder_path, ignore_transcribing) VALUES (?1, 1)",
        ("from_db",),
    )
    .unwrap();
    drop(conn);

    let (dirs, used_db) = load_recording_dirs(&bv(db), vec![bv("ignored_cli")]);
    assert!(used_db);
    assert_eq!(dirs.len(), 1);
    assert_eq!(dirs[0].path, bv("from_db"));
    assert!(dirs[0].skip_transcription);
    assert!(!dirs[0].skip_conversion);
}

#[test]
fn unopenable_store_degrades_to_explicit_paths() {
    let db = "/nonexistent_tircorder_dir/state.db";
    let (dirs, used_db) = load_recording_dirs(&bv(db), vec![bv("fallback")]);
    assert!(!used_db);
    assert_eq!(dirs.len(), 1);
    assert_eq!(dirs[0].path, bv("fallback"));
}

#[test]
fn resolve_prefers_rows_and_falls_back_on_empty() {
    // An empty persisted store never wins over the explicit list.
    let (dirs, used) = resolve_folders(Some(Vec::new()), vec![bv("x")]);
    assert!(!used);
    assert_eq!(dirs.len(), 1);
    assert_eq!(dirs[0].path, bv("x"));
    assert!(!dirs[0].skip_transcription && !dirs[0].skip_conversion);

    // One row suffices for the store to win entirely.
    let row = WatchedFolder {
        path: bv("y"),
        skip_transcription: false,
        skip_conversion: true,
    };
    let (dirs, used) = resolve_folders(Some(vec![row]), vec![bv("x")]);
    assert!(used);
    assert_eq!(dirs.len(), 1);
    assert_eq!(dirs[0].path, bv("y"));
    assert!(dirs[0].skip_conversion);

    // An unreadable store falls back too.
    let (dirs, used) = resolve_folders(None, vec![bv("x")]);
    assert!(!used);
    assert_eq!(dirs.len(), 1);
    assert_eq!(dirs[0].path, bv("x"));
}
