use tircorder::names::{
    eq_ignore_case_exec, join_path_exec, lex_leq_exec, split_name, with_extension_exec,
};

fn bv(s: &str) -> Vec<u8> {
    s.as_bytes().to_vec()
}

#[test]
fn split_takes_the_last_dot() {
    let (stem, ext) = split_name(b"archive.tar.gz").unwrap();
    assert_eq!(stem, bv("archive.tar"));
    assert_eq!(ext, bv("gz"));
    assert!(split_name(b"README").is_none());
    assert!(split_name(b".gitignore").is_none());
    let (stem, ext) = split_name(b"tail.").unwrap();
    assert_eq!(stem, bv("tail"));
    assert_eq!(ext, bv(""));
}

#[test]
fn case_folding_touches_ascii_letters_only() {
    assert!(eq_ignore_case_exec(b"WAV", b"wav"));
    assert!(eq_ignore_case_exec(b"FlAc", b"flac"));
    assert!(!eq_ignore_case_exec(b"wav", b"wa"));
    assert!(!eq_ignore_case_exec(b"mp3", b"mp4"));
}

#[test]
fn lexicographic_order_on_bytes() {
    assert!(lex_leq_exec(&bv("a"), &bv("b")));
    assert!(lex_leq_exec(&bv("a"), &bv("a")));
    assert!(lex_leq_exec(&bv("a"), &bv("ab")));
    assert!(!lex_leq_exec(&bv("ab"), &bv("a")));
    assert!(!lex_leq_exec(&bv("b"), &bv("ab")));
    // upper case sorts before lower case, as raw bytes do
    assert!(lex_leq_exec(&bv("B.wav"), &bv("a.wav")));
}

#[test]
fn paths_join_with_a_slash() {
    assert_eq!(join_path_exec(&bv("rec"), &bv("a.wav")), bv("rec/a.wav"));
}

#[test]
fn extension_replacement_keeps_the_stem() {
    assert_eq!(with_extension_exec(b"rec/a.wav", &bv("flac")), bv("rec/a.flac"));
    assert_eq!(with_extension_exec(b"x.tar.gz", &bv("zip")), bv("x.tar.zip"));
}
