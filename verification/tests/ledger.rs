use tircorder::ledger::{Ledger, Observation};

fn bv(s: &str) -> Vec<u8> {
    s.as_bytes().to_vec()
}

fn fresh_ledger(path: &str) -> Ledger {
    let ledger = Ledger::open(&bv(path)).expect("the ledger store must open");
    ledger
        .conn
        .execute("DELETE FROM known_files", ())
        .unwrap();
    ledger.conn.execute("DELETE FROM audio_files", ()).unwrap();
    ledger
        .conn
        .execute("DELETE FROM transcript_files", ())
        .unwrap();
    ledger
}

#[test]
fn register_is_insert_if_absent() {
    let ledger = fresh_ledger("/tmp/tircorder_ledger_register.db");
    let first = ledger.register(1, &bv("a.wav"), &bv("wav")).unwrap();
    let again = ledger.register(1, &bv("a.wav"), &bv("wav")).unwrap();
    assert_eq!(first, again, "re-observation must return the existing id");
    let other = ledger.register(1, &bv("b.wav"), &bv("wav")).unwrap();
    assert_ne!(first, other);
    let other_folder = ledger.register(2, &bv("a.wav"), &bv("wav")).unwrap();
    assert_ne!(first, other_folder, "identity is per folder and name");
}

#[test]
fn observations_classify_and_are_idempotent() {
    let ledger = fresh_ledger("/tmp/tircorder_ledger_observe.db");
    assert!(matches!(ledger.observe_file(1, &bv("a.wav"), 100), Observation::Audio));
    assert!(matches!(ledger.observe_file(1, &bv("a.srt"), 100), Observation::Transcript));
    assert!(matches!(ledger.observe_file(1, &bv("notes.pdf"), 100), Observation::Ignored));
    assert!(matches!(ledger.observe_file(1, &bv("README"), 100), Observation::Ignored));

    // A second observation at a later time changes nothing: the first
    // timestamp stays.
    assert!(matches!(ledger.observe_file(1, &bv("a.wav"), 999), Observation::Audio));
    let seen: i64 = ledger
        .conn
        .query_row(
            "SELECT seen_at_unix FROM audio_files JOIN known_files
             ON audio_files.known_file_id = known_files.id
             WHERE known_files.file_name = ?1",
            (bv("a.wav"),),
            |row| row.get(0),
        )
        .unwrap();
    assert_eq!(seen, 100);
}

#[test]
fn an_unopenable_store_yields_no_ledger() {
    assert!(Ledger::open(&bv("/nonexistent_tircorder_dir/state.db")).is_none());
}

#[test]
fn a_broken_store_reports_an_error_for_classifiable_files_only() {
    let ledger = fresh_ledger("/tmp/tircorder_ledger_broken.db");
    ledger.conn.execute("DROP TABLE known_files", ()).unwrap();
    assert!(matches!(ledger.observe_file(1, &bv("a.wav"), 5), Observation::StoreError));
    // files outside both classes never touch the store
    assert!(matches!(ledger.observe_file(1, &bv("notes.pdf"), 5), Observation::Ignored));
}

#[test]
fn observe_listing_counts_the_classifiable_files() {
    let ledger = fresh_ledger("/tmp/tircorder_ledger_listing.db");
    let files = vec![bv("a.wav"), bv("a.srt"), bv("cover.png"), bv("b.OGG"), bv("README")];
    let n = ledger.observe_listing(7, &files, 42);
    assert_eq!(n, 3);
}
