//! The coordinator of the continuous loop: each pass diffs a fresh scan
//! against what this process already handed out, queues only the new paths,
//! and paces the next pass; a shutdown signal and closed queues are honored
//! cooperatively.
//!
//! The in-memory dispatched sets guard against double-queuing within one
//! process run; across restarts the companion rules themselves keep completed
//! work out, because a pass re-derives eligibility from the filesystem.

use vstd::prelude::*;

use crate::limiter::RateLimiter;
use crate::names::join_path;
use crate::scanner::{
    bytes_eq, eligible_convert, eligible_transcribe, folder_convert, folder_convert_paths,
    folder_transcribe, folder_transcribe_paths, has_flac_sibling, has_transcript_companion,
    lemma_folder_convert_contains, lemma_folder_transcribe_contains, lemma_scan_convert_contains,
    lemma_scan_spec_contains, lemma_scan_transcribe_contains, listing, scan_convert_spec,
    scan_directories, scan_transcribe_spec, snap_views, views, FolderSnapshot, FolderSnapshotView,
};

verus! {

/// The entries of `s`, in order, that do not stand in `banned`.
pub open spec fn reject(s: Seq<Seq<u8>>, banned: Seq<Seq<u8>>) -> Seq<Seq<u8>>
    decreases s.len(),
{
    if s.len() == 0 {
        Seq::empty()
    } else {
        let rest = reject(s.drop_last(), banned);
        if banned.contains(s.last()) {
            rest
        } else {
            rest.push(s.last())
        }
    }
}

/// `reject` keeps exactly the entries that are not banned.
pub proof fn lemma_reject_contains(s: Seq<Seq<u8>>, banned: Seq<Seq<u8>>, x: Seq<u8>)
    ensures
        reject(s, banned).contains(x) <==> s.contains(x) && !banned.contains(x),
    decreases s.len(),
{
    if s.len() > 0 {
        lemma_reject_contains(s.drop_last(), banned, x);
        let rest = reject(s.drop_last(), banned);
        if !banned.contains(s.last()) {
            vstd::seq_lib::lemma_seq_contains_after_push(rest, s.last(), x);
        }
        if s.contains(x) && !banned.contains(x) {
            let k = choose|k: int| 0 <= k < s.len() && s[k] == x;
            if k < s.len() - 1 {
                assert(s.drop_last()[k] == x);
            }
        }
    }
}

/// Whether a path stands in a dispatched list.
pub fn contains_path(v: &Vec<Vec<u8>>, x: &Vec<u8>) -> (r: bool)
    ensures
        r == views(v@).contains(x@),
{
    let mut i: usize = 0;
    while i < v.len()
        invariant
            0 <= i <= v.len(),
            forall|k: int| 0 <= k < i ==> views(v@)[k] != x@,
        decreases v.len() - i,
    {
        if bytes_eq(&v[i], x) {
            assert(views(v@)[i as int] == x@);
            return true;
        }
        i += 1;
    }
    false
}

/// Where the dispatch loop stands: running passes, winding down after a
/// shutdown signal, or stopped for good.
pub enum Mode {
    /// Passes keep running.
    Running,
    /// A shutdown signal was observed; the in-flight pass finishes, then the
    /// loop stops.
    ShuttingDown,
    /// No further pass starts.
    Stopped,
}

/// The dispatch loop's state between passes.
pub struct Dispatcher {
    /// Paths already queued for transcription in this process run.
    pub dispatched_transcribe: Vec<Vec<u8>>,
    /// Paths already queued for conversion in this process run.
    pub dispatched_convert: Vec<Vec<u8>>,
    /// The poll cadence controller.
    pub limiter: RateLimiter,
    /// Whether the loop still runs.
    pub mode: Mode,
    /// Whether the transcription queue still has a receiver.
    pub transcribe_open: bool,
    /// Whether the conversion queue still has a receiver.
    pub convert_open: bool,
}

impl Dispatcher {
    /// A fresh dispatcher, as a newly started process has it: nothing handed
    /// out yet, both queues open, no empty pass counted.
    pub fn new(max_interval_secs: u64) -> (r: Self)
        ensures
            r.dispatched_transcribe@.len() == 0,
            r.dispatched_convert@.len() == 0,
            r.limiter.empty_passes == 0,
            r.limiter.max_interval_secs == max_interval_secs,
            r.mode is Running,
            r.transcribe_open,
            r.convert_open,
    {
        Dispatcher {
            dispatched_transcribe: Vec::new(),
            dispatched_convert: Vec::new(),
            limiter: RateLimiter::new(max_interval_secs),
            mode: Mode::Running,
            transcribe_open: true,
            convert_open: true,
        }
    }

    /// Whether a further pass may start.
    pub fn is_running(&self) -> (r: bool)
        ensures
            r == (self.mode is Running),
    {
        match self.mode {
            Mode::Running => true,
            _ => false,
        }
    }

    /// Records an observed shutdown signal: a running loop starts winding
    /// down; a loop already winding down or stopped is left as it is.
    pub fn observe_shutdown(&mut self)
        ensures
            final(self).mode == (match old(self).mode {
                Mode::Running => Mode::ShuttingDown,
                m => m,
            }),
            final(self).dispatched_transcribe == old(self).dispatched_transcribe,
            final(self).dispatched_convert == old(self).dispatched_convert,
            final(self).limiter == old(self).limiter,
            final(self).transcribe_open == old(self).transcribe_open,
            final(self).convert_open == old(self).convert_open,
    {
        match self.mode {
            Mode::Running => {
                self.mode = Mode::ShuttingDown;
            },
            _ => {},
        }
    }

    /// Ends the loop once the in-flight pass has completed while winding
    /// down: no further iteration starts.
    pub fn finish(&mut self)
        requires
            old(self).mode is ShuttingDown,
        ensures
            final(self).mode is Stopped,
            final(self).dispatched_transcribe == old(self).dispatched_transcribe,
            final(self).dispatched_convert == old(self).dispatched_convert,
            final(self).limiter == old(self).limiter,
            final(self).transcribe_open == old(self).transcribe_open,
            final(self).convert_open == old(self).convert_open,
    {
        self.mode = Mode::Stopped;
    }

    /// Records that the transcription queue's receiver is gone: this queue
    /// alone stops being fed; the other queue is untouched.
    pub fn transcribe_queue_closed(&mut self)
        ensures
            !final(self).transcribe_open,
            final(self).convert_open == old(self).convert_open,
            final(self).mode == old(self).mode,
            final(self).dispatched_transcribe == old(self).dispatched_transcribe,
            final(self).dispatched_convert == old(self).dispatched_convert,
            final(self).limiter == old(self).limiter,
    {
        self.transcribe_open = false;
    }

    /// Records that the conversion queue's receiver is gone.
    pub fn convert_queue_closed(&mut self)
        ensures
            !final(self).convert_open,
            final(self).transcribe_open == old(self).transcribe_open,
            final(self).mode == old(self).mode,
            final(self).dispatched_transcribe == old(self).dispatched_transcribe,
            final(self).dispatched_convert == old(self).dispatched_convert,
            final(self).limiter == old(self).limiter,
    {
        self.convert_open = false;
    }

    /// The delay before the next pass, per the backoff controller.
    pub fn next_delay_secs(&self) -> (d: u64)
        ensures
            d == crate::limiter::delay_secs_spec(
                self.limiter.empty_passes as nat,
                self.limiter.max_interval_secs as nat,
            ),
    {
        self.limiter.next_delay_secs()
    }

    /// One pass: scans the snapshots, drops every path this process already
    /// handed out or whose queue is closed, remembers the rest as handed
    /// out, and updates the backoff. Returns the transcription and the
    /// conversion paths to queue now, each list still sorted.
    pub fn plan_pass(&mut self, snaps: &Vec<FolderSnapshot>) -> (r: (Vec<Vec<u8>>, Vec<Vec<u8>>))
        requires
            old(self).mode is Running,
        ensures
            old(self).transcribe_open ==> views(r.0@) == reject(
                scan_transcribe_spec(snap_views(snaps@)),
                views(old(self).dispatched_transcribe@),
            ),
            !old(self).transcribe_open ==> views(r.0@) == Seq::<Seq<u8>>::empty(),
            old(self).convert_open ==> views(r.1@) == reject(
                scan_convert_spec(snap_views(snaps@)),
                views(old(self).dispatched_convert@),
            ),
            !old(self).convert_open ==> views(r.1@) == Seq::<Seq<u8>>::empty(),
            views(final(self).dispatched_transcribe@) == views(old(self).dispatched_transcribe@)
                + views(r.0@),
            views(final(self).dispatched_convert@) == views(old(self).dispatched_convert@)
                + views(r.1@),
            final(self).limiter.max_interval_secs == old(self).limiter.max_interval_secs,
            r.0@.len() == 0 && r.1@.len() == 0 ==> final(self).limiter.empty_passes == (
            if old(self).limiter.empty_passes < u32::MAX {
                old(self).limiter.empty_passes + 1
            } else {
                old(self).limiter.empty_passes as int
            }),
            r.0@.len() > 0 || r.1@.len() > 0 ==> final(self).limiter.empty_passes == 0,
            final(self).mode == old(self).mode,
            final(self).transcribe_open == old(self).transcribe_open,
            final(self).convert_open == old(self).convert_open,
    {
        let (scan_t, scan_c) = scan_directories(snaps);
        let new_t = if self.transcribe_open {
            filter_new(&scan_t, &self.dispatched_transcribe)
        } else {
            Vec::new()
        };
        let new_c = if self.convert_open {
            filter_new(&scan_c, &self.dispatched_convert)
        } else {
            Vec::new()
        };
        proof {
            if !self.transcribe_open {
                assert(views(new_t@) =~= Seq::<Seq<u8>>::empty());
            }
            if !self.convert_open {
                assert(views(new_c@) =~= Seq::<Seq<u8>>::empty());
            }
        }
        append_all(&mut self.dispatched_transcribe, &new_t);
        append_all(&mut self.dispatched_convert, &new_c);
        if new_t.len() == 0 && new_c.len() == 0 {
            self.limiter.increment();
        } else {
            self.limiter.reset();
        }
        (new_t, new_c)
    }
}

/// At-most-once delivery within a process run: a path that stands in the
/// dispatched set is never part of a later pass's output, whatever the
/// filesystem shows.
pub proof fn lemma_no_redelivery_in_process(s: Seq<Seq<u8>>, dispatched: Seq<Seq<u8>>, p: Seq<u8>)
    requires
        dispatched.contains(p),
    ensures
        !reject(s, dispatched).contains(p),
{
    lemma_reject_contains(s, dispatched, p);
}

/// Restart safety for transcription: a path is queued only while some
/// folder's listing still makes it eligible. Where every file that joins to
/// the path already has a same-stem transcript companion — its completion
/// condition is met — no pass queues it, whatever the dispatched set holds:
/// a fresh process after a restart included.
pub proof fn lemma_no_redispatch_transcribe(
    snaps: Seq<FolderSnapshotView>,
    banned: Seq<Seq<u8>>,
    p: Seq<u8>,
)
    requires
        forall|i: int, j: int|
            0 <= i < snaps.len() && 0 <= j < listing(snaps[i]).len() && join_path(
                snaps[i].folder.path,
                #[trigger] listing(snaps[i])[j],
            ) == p ==> has_transcript_companion(
                listing(snaps[i]),
                crate::names::stem_of(listing(snaps[i])[j]),
            ),
    ensures
        !reject(scan_transcribe_spec(snaps), banned).contains(p),
{
    lemma_reject_contains(scan_transcribe_spec(snaps), banned, p);
    lemma_scan_spec_contains(snaps, p);
    lemma_scan_transcribe_contains(snaps, p);
    if scan_transcribe_spec(snaps).contains(p) && !banned.contains(p) {
        let i = choose|i: int|
            0 <= i < snaps.len() && #[trigger] folder_transcribe_paths(snaps[i]).contains(p);
        let fp = folder_transcribe_paths(snaps[i]);
        let k = choose|k: int| 0 <= k < fp.len() && fp[k] == p;
        let name = folder_transcribe(snaps[i])[k];
        assert(join_path(snaps[i].folder.path, name) == p);
        assert(folder_transcribe(snaps[i]).contains(name));
        lemma_folder_transcribe_contains(snaps[i], name);
        let j = choose|j: int| 0 <= j < listing(snaps[i]).len() && listing(snaps[i])[j] == name;
        assert(has_transcript_companion(listing(snaps[i]), crate::names::stem_of(name)));
        assert(!eligible_transcribe(
            listing(snaps[i]),
            name,
            snaps[i].folder.skip_transcription,
        ));
    }
}

/// Restart safety for conversion: where every file that joins to the path
/// already has a same-stem `flac` sibling, no pass queues it, whatever the
/// dispatched set holds.
pub proof fn lemma_no_redispatch_convert(
    snaps: Seq<FolderSnapshotView>,
    banned: Seq<Seq<u8>>,
    p: Seq<u8>,
)
    requires
        forall|i: int, j: int|
            0 <= i < snaps.len() && 0 <= j < listing(snaps[i]).len() && join_path(
                snaps[i].folder.path,
                #[trigger] listing(snaps[i])[j],
            ) == p ==> has_flac_sibling(
                listing(snaps[i]),
                crate::names::stem_of(listing(snaps[i])[j]),
            ),
    ensures
        !reject(scan_convert_spec(snaps), banned).contains(p),
{
    lemma_reject_contains(scan_convert_spec(snaps), banned, p);
    lemma_scan_spec_contains(snaps, p);
    lemma_scan_convert_contains(snaps, p);
    if scan_convert_spec(snaps).contains(p) && !banned.contains(p) {
        let i = choose|i: int|
            0 <= i < snaps.len() && #[trigger] folder_convert_paths(snaps[i]).contains(p);
        let fp = folder_convert_paths(snaps[i]);
        let k = choose|k: int| 0 <= k < fp.len() && fp[k] == p;
        let name = folder_convert(snaps[i])[k];
        assert(join_path(snaps[i].folder.path, name) == p);
        assert(folder_convert(snaps[i]).contains(name));
        lemma_folder_convert_contains(snaps[i], name);
        let j = choose|j: int| 0 <= j < listing(snaps[i]).len() && listing(snaps[i])[j] == name;
        assert(has_flac_sibling(listing(snaps[i]), crate::names::stem_of(name)));
        assert(!eligible_convert(listing(snaps[i]), name, snaps[i].folder.skip_conversion));
    }
}

/// The entries of `src` that do not stand in `banned`, in order.
fn filter_new(src: &Vec<Vec<u8>>, banned: &Vec<Vec<u8>>) -> (r: Vec<Vec<u8>>)
    ensures
        views(r@) == reject(views(src@), views(banned@)),
{
    let mut r: Vec<Vec<u8>> = Vec::new();
    proof {
        assert(views(src@).take(0) =~= Seq::<Seq<u8>>::empty());
        assert(views(r@) =~= reject(views(src@).take(0), views(banned@)));
    }
    let mut i: usize = 0;
    while i < src.len()
        invariant
            0 <= i <= src.len(),
            views(r@) == reject(views(src@).take(i as int), views(banned@)),
        decreases src.len() - i,
    {
        let ghost pre = views(r@);
        let keep = !contains_path(banned, &src[i]);
        if keep {
            r.push(src[i].clone());
        }
        proof {
            let sv = views(src@);
            assert(sv.take(i + 1).drop_last() =~= sv.take(i as int));
            assert(sv.take(i + 1).last() == sv[i as int]);
            if keep {
                assert(views(r@) =~= pre.push(sv[i as int]));
            }
        }
        i += 1;
    }
    proof {
        assert(views(src@).take(src@.len() as int) =~= views(src@));
    }
    r
}

/// Appends a copy of every entry of `extra` to `dst`.
fn append_all(dst: &mut Vec<Vec<u8>>, extra: &Vec<Vec<u8>>)
    ensures
        views(final(dst)@) == views(old(dst)@) + views(extra@),
{
    let mut i: usize = 0;
    proof {
        assert(views(dst@) =~= views(dst@) + views(extra@).take(0));
    }
    while i < extra.len()
        invariant
            0 <= i <= extra.len(),
            views(dst@) == views(old(dst)@) + views(extra@).take(i as int),
        decreases extra.len() - i,
    {
        let ghost pre = views(dst@);
        dst.push(extra[i].clone());
        proof {
            assert(views(dst@) =~= pre.push(views(extra@)[i as int]));
            assert(views(extra@).take(i + 1) =~= views(extra@).take(i as int).push(
                views(extra@)[i as int],
            ));
            assert(views(old(dst)@) + views(extra@).take(i + 1) =~= pre.push(
                views(extra@)[i as int],
            ));
        }
        i += 1;
    }
    proof {
        assert(views(extra@).take(extra@.len() as int) =~= views(extra@));
    }
}

} // verus!
