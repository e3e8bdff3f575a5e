use tircorder::scanner::{scan_directories, FolderSnapshot, WatchedFolder};

fn bv(s: &str) -> Vec<u8> {
    s.as_bytes().to_vec()
}

fn folder(path: &str, skip_t: bool, skip_c: bool) -> WatchedFolder {
    WatchedFolder {
        path: bv(path),
        skip_transcription: skip_t,
        skip_conversion: skip_c,
    }
}

fn snapshot(path: &str, skip_t: bool, skip_c: bool, files: &[&str]) -> FolderSnapshot {
    FolderSnapshot {
        folder: folder(path, skip_t, skip_c),
        files: Some(files.iter().map(|f| bv(f)).collect()),
    }
}

#[test]
fn scan_directories_respects_ignore_flags() {
    let snaps = vec![
        snapshot("dir1", false, false, &["a.wav", "b.wav", "b.flac", "c.wav", "c.srt"]),
        snapshot("dir2", true, false, &["d.wav"]),
        snapshot("dir3", false, true, &["e.wav"]),
    ];
    let (transcribe, convert) = scan_directories(&snaps);
    let expected_transcribe = vec![
        bv("dir1/a.wav"),
        bv("dir1/b.flac"),
        bv("dir1/b.wav"),
        bv("dir3/e.wav"),
    ];
    assert_eq!(transcribe, expected_transcribe);
    let expected_convert = vec![bv("dir1/a.wav"), bv("dir1/c.wav"), bv("dir2/d.wav")];
    assert_eq!(convert, expected_convert);
}

#[test]
fn conversion_stops_once_flac_exists() {
    // One folder gains companions step by step: first the flac sibling ends
    // conversion, then the transcript ends transcription.
    let only_wav = vec![snapshot("rec", false, false, &["a.wav"])];
    let (t1, c1) = scan_directories(&only_wav);
    assert_eq!(t1, vec![bv("rec/a.wav")]);
    assert_eq!(c1, vec![bv("rec/a.wav")]);

    // The new flac file is itself audio without a transcript, so it joins
    // the transcription queue while the wav leaves the conversion queue.
    let with_flac = vec![snapshot("rec", false, false, &["a.wav", "a.flac"])];
    let (t2, c2) = scan_directories(&with_flac);
    assert_eq!(t2, vec![bv("rec/a.flac"), bv("rec/a.wav")]);
    assert_eq!(c2, Vec::<Vec<u8>>::new());

    let with_transcript = vec![snapshot("rec", false, false, &["a.wav", "a.flac", "a.srt"])];
    let (t3, c3) = scan_directories(&with_transcript);
    assert_eq!(t3, Vec::<Vec<u8>>::new());
    assert_eq!(c3, Vec::<Vec<u8>>::new());
}

#[test]
fn skipped_folder_feeds_conversion_only() {
    let snaps = vec![
        snapshot("keep", false, false, &[]),
        snapshot("quiet", true, false, &["b.wav"]),
    ];
    let (transcribe, convert) = scan_directories(&snaps);
    assert_eq!(transcribe, Vec::<Vec<u8>>::new());
    assert_eq!(convert, vec![bv("quiet/b.wav")]);
}

#[test]
fn repeated_scans_never_requeue_companioned_files() {
    let snaps = vec![snapshot("rec", false, false, &["a.wav", "a.srt", "b.wav", "b.flac"])];
    for _ in 0..3 {
        let (transcribe, convert) = scan_directories(&snaps);
        // a.wav has a transcript companion; b.wav has a flac sibling.
        assert!(!transcribe.contains(&bv("rec/a.wav")));
        assert!(!convert.contains(&bv("rec/b.wav")));
        assert_eq!(transcribe, vec![bv("rec/b.flac"), bv("rec/b.wav")]);
        assert_eq!(convert, vec![bv("rec/a.wav")]);
    }
}

#[test]
fn scan_is_deterministic() {
    let snaps = || {
        vec![
            snapshot("z", false, false, &["q.wav", "p.mp3", "p.txt"]),
            snapshot("a", false, false, &["x.wav", "y.ogg"]),
        ]
    };
    let first = scan_directories(&snaps());
    let second = scan_directories(&snaps());
    assert_eq!(first, second);
    // sorted lexicographically, across folders
    assert_eq!(
        first.0,
        vec![bv("a/x.wav"), bv("a/y.ogg"), bv("z/q.wav")]
    );
}

#[test]
fn extensions_match_case_insensitively() {
    // B.WAV is audio; its stem has a transcript companion b.SRT, and c.WAV
    // has a C-cased flac sibling. Stems stay case-sensitive: d.wav is not
    // covered by D.srt.
    let snaps = vec![snapshot(
        "m",
        false,
        false,
        &["b.WAV", "b.SRT", "c.wav", "c.FLAC", "d.wav", "D.srt"],
    )];
    let (transcribe, convert) = scan_directories(&snaps);
    assert_eq!(transcribe, vec![bv("m/c.FLAC"), bv("m/c.wav"), bv("m/d.wav")]);
    assert_eq!(convert, vec![bv("m/b.WAV"), bv("m/d.wav")]);
}

#[test]
fn unreadable_folder_contributes_nothing() {
    let snaps = vec![
        FolderSnapshot { folder: folder("gone", false, false), files: None },
        snapshot("here", false, false, &["a.wav"]),
    ];
    let (transcribe, convert) = scan_directories(&snaps);
    assert_eq!(transcribe, vec![bv("here/a.wav")]);
    assert_eq!(convert, vec![bv("here/a.wav")]);
}

#[test]
fn files_without_extension_are_ignored() {
    let snaps = vec![snapshot("n", false, false, &["README", ".srt", "tail.", "x.wav"])];
    let (transcribe, convert) = scan_directories(&snaps);
    // ".srt" is a hidden file, not a transcript of an empty stem; "tail."
    // has an empty extension; neither blocks nor joins anything.
    assert_eq!(transcribe, vec![bv("n/x.wav")]);
    assert_eq!(convert, vec![bv("n/x.wav")]);
}
