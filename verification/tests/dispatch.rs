use tircorder::dispatch::Dispatcher;
use tircorder::scanner::{FolderSnapshot, WatchedFolder};

fn bv(s: &str) -> Vec<u8> {
    s.as_bytes().to_vec()
}

fn snapshot(path: &str, files: &[&str]) -> FolderSnapshot {
    FolderSnapshot {
        folder: WatchedFolder {
            path: bv(path),
            skip_transcription: false,
            skip_conversion: false,
        },
        files: Some(files.iter().map(|f| bv(f)).collect()),
    }
}

#[test]
fn a_pass_dispatches_each_path_once_per_process() {
    let mut d = Dispatcher::new(60);
    let snaps = vec![snapshot("rec", &["a.wav"])];

    let (t1, c1) = d.plan_pass(&snaps);
    assert_eq!(t1, vec![bv("rec/a.wav")]);
    assert_eq!(c1, vec![bv("rec/a.wav")]);

    // The same filesystem state again: nothing is re-queued in-process.
    let (t2, c2) = d.plan_pass(&snaps);
    assert_eq!(t2, Vec::<Vec<u8>>::new());
    assert_eq!(c2, Vec::<Vec<u8>>::new());
}

#[test]
fn a_new_file_is_dispatched_and_resets_the_backoff() {
    let mut d = Dispatcher::new(60);
    let first = vec![snapshot("rec", &[])];
    let (t, c) = d.plan_pass(&first);
    assert!(t.is_empty() && c.is_empty());
    let after_empty = d.next_delay_secs();
    assert_eq!(after_empty, 2);

    let second = vec![snapshot("rec", &["b.wav"])];
    let (t, c) = d.plan_pass(&second);
    assert_eq!(t, vec![bv("rec/b.wav")]);
    assert_eq!(c, vec![bv("rec/b.wav")]);
    assert_eq!(d.next_delay_secs(), 1);
}

#[test]
fn a_restart_does_not_redispatch_completed_work() {
    // First run converts a.wav and a transcript appears for b.
    let mut first_run = Dispatcher::new(60);
    let before = vec![snapshot("rec", &["a.wav", "b.mp3"])];
    let (t, c) = first_run.plan_pass(&before);
    assert_eq!(t, vec![bv("rec/a.wav"), bv("rec/b.mp3")]);
    assert_eq!(c, vec![bv("rec/a.wav")]);

    // A fresh process after a restart: the flac sibling and the transcript
    // now exist, so neither path comes back, with no memory of the first
    // run needed.
    let mut second_run = Dispatcher::new(60);
    let after = vec![snapshot("rec", &["a.wav", "a.flac", "a.srt", "b.mp3", "b.txt"])];
    let (t, c) = second_run.plan_pass(&after);
    assert_eq!(t, Vec::<Vec<u8>>::new());
    assert_eq!(c, Vec::<Vec<u8>>::new());
}

#[test]
fn closed_queues_stop_their_feed_alone() {
    let mut d = Dispatcher::new(60);
    d.transcribe_queue_closed();
    let snaps = vec![snapshot("rec", &["a.wav"])];
    let (t, c) = d.plan_pass(&snaps);
    assert_eq!(t, Vec::<Vec<u8>>::new());
    assert_eq!(c, vec![bv("rec/a.wav")]);
}

#[test]
fn shutdown_winds_the_loop_down() {
    let mut d = Dispatcher::new(60);
    assert!(d.is_running());
    d.observe_shutdown();
    assert!(!d.is_running());
    d.finish();
    assert!(!d.is_running());
}
