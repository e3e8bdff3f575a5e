//! One listing pass over the watched folders: classifies every file by its
//! extension, applies the companion rules, and returns the paths that still
//! need transcription and conversion, sorted for reproducibility.
//!
//! The listing itself is the only input: a folder's snapshot carries the file
//! names the caller read from disk, or `None` for a folder that could not be
//! listed, which contributes nothing to the pass.

use vstd::prelude::*;

use crate::classify::{
    audio_name, is_audio_ext_exec, is_flac_ext, is_transcript_ext_exec, is_wav_ext_exec,
    transcript_name, wav_name,
};
use crate::names::{
    has_extension, join_path, join_path_exec, lex_leq_f, split_name, stem_of,
};

verus! {

/// The sequence of byte strings a vector of byte vectors stands for.
pub open spec fn views(s: Seq<Vec<u8>>) -> Seq<Seq<u8>> {
    s.map_values(|v: Vec<u8>| v@)
}

/// A folder under watch, with its per-action skip flags.
pub struct WatchedFolder {
    /// The folder's path.
    pub path: Vec<u8>,
    /// When set, no file of this folder is queued for transcription.
    pub skip_transcription: bool,
    /// When set, no file of this folder is queued for conversion.
    pub skip_conversion: bool,
}

/// The mathematical value of a `WatchedFolder`.
pub ghost struct WatchedFolderView {
    /// The folder's path.
    pub path: Seq<u8>,
    /// When set, no file of this folder is queued for transcription.
    pub skip_transcription: bool,
    /// When set, no file of this folder is queued for conversion.
    pub skip_conversion: bool,
}

impl View for WatchedFolder {
    type V = WatchedFolderView;

    open spec fn view(&self) -> WatchedFolderView {
        WatchedFolderView {
            path: self.path@,
            skip_transcription: self.skip_transcription,
            skip_conversion: self.skip_conversion,
        }
    }
}

impl Clone for WatchedFolder {
    fn clone(&self) -> (r: Self)
        ensures
            r@ == self@,
    {
        WatchedFolder {
            path: self.path.clone(),
            skip_transcription: self.skip_transcription,
            skip_conversion: self.skip_conversion,
        }
    }
}

/// One folder's part of a pass: its flags and the file names its listing
/// returned, or `None` when the folder could not be listed.
pub struct FolderSnapshot {
    /// The folder the listing was taken from.
    pub folder: WatchedFolder,
    /// The names of the folder's direct entries; `None` for a failed listing.
    pub files: Option<Vec<Vec<u8>>>,
}

/// The mathematical value of a `FolderSnapshot`.
pub ghost struct FolderSnapshotView {
    /// The folder the listing was taken from.
    pub folder: WatchedFolderView,
    /// The names of the folder's direct entries; `None` for a failed listing.
    pub files: Option<Seq<Seq<u8>>>,
}

impl View for FolderSnapshot {
    type V = FolderSnapshotView;

    open spec fn view(&self) -> FolderSnapshotView {
        FolderSnapshotView {
            folder: self.folder@,
            files: match self.files {
                Some(v) => Some(views(v@)),
                None => None,
            },
        }
    }
}

/// The sequence of snapshot values a vector of snapshots stands for.
pub open spec fn snap_views(s: Seq<FolderSnapshot>) -> Seq<FolderSnapshotView> {
    s.map_values(|x: FolderSnapshot| x@)
}

/// The file names a snapshot saw; an unreadable folder saw none.
pub open spec fn listing(s: FolderSnapshotView) -> Seq<Seq<u8>> {
    match s.files {
        Some(fs) => fs,
        None => Seq::empty(),
    }
}

/// A transcript with the given stem stands among the files.
pub open spec fn has_transcript_companion(files: Seq<Seq<u8>>, stem: Seq<u8>) -> bool {
    exists|i: int|
        0 <= i < files.len() && transcript_name(#[trigger] files[i]) && stem_of(files[i]) == stem
}

/// A `flac` file with the given stem stands among the files.
pub open spec fn has_flac_sibling(files: Seq<Seq<u8>>, stem: Seq<u8>) -> bool {
    exists|i: int|
        0 <= i < files.len() && has_extension(#[trigger] files[i]) && is_flac_ext(
            ext_of_name(files[i]),
        ) && stem_of(files[i]) == stem
}

/// The extension of a name; a synonym kept for readability at call sites.
pub open spec fn ext_of_name(name: Seq<u8>) -> Seq<u8> {
    crate::names::ext_of(name)
}

/// An audio file still needs transcription when no transcript companion with
/// its stem stands in the same folder and the folder does not skip
/// transcription.
pub open spec fn eligible_transcribe(files: Seq<Seq<u8>>, name: Seq<u8>, skip: bool) -> bool {
    audio_name(name) && !skip && !has_transcript_companion(files, stem_of(name))
}

/// A `wav` file still needs conversion when no `flac` sibling with its stem
/// stands in the same folder and the folder does not skip conversion.
pub open spec fn eligible_convert(files: Seq<Seq<u8>>, name: Seq<u8>, skip: bool) -> bool {
    wav_name(name) && !skip && !has_flac_sibling(files, stem_of(name))
}

/// The first `n` file names of a listing that still need transcription,
/// in listing order.
pub open spec fn transcribe_prefix(files: Seq<Seq<u8>>, n: int, skip: bool) -> Seq<Seq<u8>>
    decreases n,
{
    if n <= 0 {
        Seq::empty()
    } else {
        let rest = transcribe_prefix(files, n - 1, skip);
        if eligible_transcribe(files, files[n - 1], skip) {
            rest.push(files[n - 1])
        } else {
            rest
        }
    }
}

/// The first `n` file names of a listing that still need conversion,
/// in listing order.
pub open spec fn convert_prefix(files: Seq<Seq<u8>>, n: int, skip: bool) -> Seq<Seq<u8>>
    decreases n,
{
    if n <= 0 {
        Seq::empty()
    } else {
        let rest = convert_prefix(files, n - 1, skip);
        if eligible_convert(files, files[n - 1], skip) {
            rest.push(files[n - 1])
        } else {
            rest
        }
    }
}

/// The names of one folder's files that still need transcription.
pub open spec fn folder_transcribe(s: FolderSnapshotView) -> Seq<Seq<u8>> {
    transcribe_prefix(listing(s), listing(s).len() as int, s.folder.skip_transcription)
}

/// The names of one folder's files that still need conversion.
pub open spec fn folder_convert(s: FolderSnapshotView) -> Seq<Seq<u8>> {
    convert_prefix(listing(s), listing(s).len() as int, s.folder.skip_conversion)
}

/// One folder's transcription work, as full paths.
pub open spec fn folder_transcribe_paths(s: FolderSnapshotView) -> Seq<Seq<u8>> {
    folder_transcribe(s).map_values(|n: Seq<u8>| join_path(s.folder.path, n))
}

/// One folder's conversion work, as full paths.
pub open spec fn folder_convert_paths(s: FolderSnapshotView) -> Seq<Seq<u8>> {
    folder_convert(s).map_values(|n: Seq<u8>| join_path(s.folder.path, n))
}

/// All folders' transcription work of one pass, folder by folder, unsorted.
pub open spec fn scan_transcribe_all(snaps: Seq<FolderSnapshotView>) -> Seq<Seq<u8>>
    decreases snaps.len(),
{
    if snaps.len() == 0 {
        Seq::empty()
    } else {
        scan_transcribe_all(snaps.drop_last()) + folder_transcribe_paths(snaps.last())
    }
}

/// All folders' conversion work of one pass, folder by folder, unsorted.
pub open spec fn scan_convert_all(snaps: Seq<FolderSnapshotView>) -> Seq<Seq<u8>>
    decreases snaps.len(),
{
    if snaps.len() == 0 {
        Seq::empty()
    } else {
        scan_convert_all(snaps.drop_last()) + folder_convert_paths(snaps.last())
    }
}

/// What one pass returns for transcription: the eligible paths, sorted.
pub open spec fn scan_transcribe_spec(snaps: Seq<FolderSnapshotView>) -> Seq<Seq<u8>> {
    scan_transcribe_all(snaps).sort_by(lex_leq_f())
}

/// What one pass returns for conversion: the eligible paths, sorted.
pub open spec fn scan_convert_spec(snaps: Seq<FolderSnapshotView>) -> Seq<Seq<u8>> {
    scan_convert_all(snaps).sort_by(lex_leq_f())
}

/// Compares two byte vectors for equality.
pub fn bytes_eq(a: &Vec<u8>, b: &Vec<u8>) -> (r: bool)
    ensures
        r == (a@ == b@),
{
    if a.len() != b.len() {
        return false;
    }
    let mut i: usize = 0;
    while i < a.len()
        invariant
            0 <= i <= a.len(),
            a.len() == b.len(),
            forall|k: int| 0 <= k < i ==> a@[k] == b@[k],
        decreases a.len() - i,
    {
        if a[i] != b[i] {
            return false;
        }
        i += 1;
    }
    proof {
        assert(a@ =~= b@);
    }
    true
}

/// Searches a listing for a transcript companion with the given stem.
pub fn has_transcript_companion_exec(files: &Vec<Vec<u8>>, stem: &Vec<u8>) -> (r: bool)
    ensures
        r == has_transcript_companion(views(files@), stem@),
{
    let fs = Ghost(views(files@));
    let mut i: usize = 0;
    while i < files.len()
        invariant
            0 <= i <= files.len(),
            fs@ == views(files@),
            forall|k: int|
                0 <= k < i ==> !(transcript_name(#[trigger] fs@[k]) && stem_of(fs@[k]) == stem@),
        decreases files.len() - i,
    {
        match split_name(files[i].as_slice()) {
            Some((fstem, fext)) => {
                if is_transcript_ext_exec(&fext) && bytes_eq(&fstem, stem) {
                    assert(transcript_name(fs@[i as int]) && stem_of(fs@[i as int]) == stem@);
                    return true;
                }
            },
            None => {},
        }
        i += 1;
    }
    false
}

/// Searches a listing for a `flac` sibling with the given stem.
pub fn has_flac_sibling_exec(files: &Vec<Vec<u8>>, stem: &Vec<u8>) -> (r: bool)
    ensures
        r == has_flac_sibling(views(files@), stem@),
{
    let fs = Ghost(views(files@));
    let mut i: usize = 0;
    while i < files.len()
        invariant
            0 <= i <= files.len(),
            fs@ == views(files@),
            forall|k: int|
                0 <= k < i ==> !(has_extension(#[trigger] fs@[k]) && is_flac_ext(
                    ext_of_name(fs@[k]),
                ) && stem_of(fs@[k]) == stem@),
        decreases files.len() - i,
    {
        match split_name(files[i].as_slice()) {
            Some((fstem, fext)) => {
                if crate::classify::is_flac_ext_exec(&fext) && bytes_eq(&fstem, stem) {
                    assert(has_extension(fs@[i as int]) && is_flac_ext(ext_of_name(fs@[i as int]))
                        && stem_of(fs@[i as int]) == stem@);
                    return true;
                }
            },
            None => {},
        }
        i += 1;
    }
    false
}

proof fn lemma_transcribe_prefix_contains(files: Seq<Seq<u8>>, n: int, skip: bool, x: Seq<u8>)
    requires
        n <= files.len(),
    ensures
        transcribe_prefix(files, n, skip).contains(x) <==> exists|j: int|
            0 <= j < n && #[trigger] files[j] == x && eligible_transcribe(files, x, skip),
    decreases n,
{
    if n > 0 {
        lemma_transcribe_prefix_contains(files, n - 1, skip, x);
        let rest = transcribe_prefix(files, n - 1, skip);
        if eligible_transcribe(files, files[n - 1], skip) {
            vstd::seq_lib::lemma_seq_contains_after_push(rest, files[n - 1], x);
        }
    }
}

proof fn lemma_convert_prefix_contains(files: Seq<Seq<u8>>, n: int, skip: bool, x: Seq<u8>)
    requires
        n <= files.len(),
    ensures
        convert_prefix(files, n, skip).contains(x) <==> exists|j: int|
            0 <= j < n && #[trigger] files[j] == x && eligible_convert(files, x, skip),
    decreases n,
{
    if n > 0 {
        lemma_convert_prefix_contains(files, n - 1, skip, x);
        let rest = convert_prefix(files, n - 1, skip);
        if eligible_convert(files, files[n - 1], skip) {
            vstd::seq_lib::lemma_seq_contains_after_push(rest, files[n - 1], x);
        }
    }
}

/// A folder's transcription selection holds exactly its eligible files.
pub proof fn lemma_folder_transcribe_contains(s: FolderSnapshotView, x: Seq<u8>)
    ensures
        folder_transcribe(s).contains(x) <==> listing(s).contains(x) && eligible_transcribe(
            listing(s),
            x,
            s.folder.skip_transcription,
        ),
{
    lemma_transcribe_prefix_contains(
        listing(s),
        listing(s).len() as int,
        s.folder.skip_transcription,
        x,
    );
}

/// A folder's conversion selection holds exactly its eligible files.
pub proof fn lemma_folder_convert_contains(s: FolderSnapshotView, x: Seq<u8>)
    ensures
        folder_convert(s).contains(x) <==> listing(s).contains(x) && eligible_convert(
            listing(s),
            x,
            s.folder.skip_conversion,
        ),
{
    lemma_convert_prefix_contains(
        listing(s),
        listing(s).len() as int,
        s.folder.skip_conversion,
        x,
    );
}

/// An audio file with a same-stem transcript companion in its folder is
/// never selected for transcription, however many passes run.
pub proof fn lemma_companion_blocks_transcription(s: FolderSnapshotView, name: Seq<u8>)
    requires
        has_transcript_companion(listing(s), stem_of(name)),
    ensures
        !folder_transcribe(s).contains(name),
{
    lemma_folder_transcribe_contains(s, name);
}

/// Once a `flac` sibling of a `wav` file stands in its folder, the `wav`
/// file is never selected for conversion again.
pub proof fn lemma_flac_blocks_conversion(s: FolderSnapshotView, name: Seq<u8>)
    requires
        has_flac_sibling(listing(s), stem_of(name)),
    ensures
        !folder_convert(s).contains(name),
{
    lemma_folder_convert_contains(s, name);
}

/// A folder whose `skip_transcription` flag is set contributes nothing to
/// the transcription output, whatever it holds.
pub proof fn lemma_skip_transcription(s: FolderSnapshotView)
    requires
        s.folder.skip_transcription,
    ensures
        folder_transcribe_paths(s) == Seq::<Seq<u8>>::empty(),
{
    lemma_prefix_empty_when_skipped(listing(s), listing(s).len() as int);
    assert(folder_transcribe_paths(s) =~= Seq::<Seq<u8>>::empty());
}

proof fn lemma_prefix_empty_when_skipped(files: Seq<Seq<u8>>, n: int)
    ensures
        transcribe_prefix(files, n, true) == Seq::<Seq<u8>>::empty(),
        convert_prefix(files, n, true) == Seq::<Seq<u8>>::empty(),
    decreases n,
{
    if n > 0 {
        lemma_prefix_empty_when_skipped(files, n - 1);
    }
}

/// A folder whose `skip_conversion` flag is set contributes nothing to the
/// conversion output, whatever it holds.
pub proof fn lemma_skip_conversion(s: FolderSnapshotView)
    requires
        s.folder.skip_conversion,
    ensures
        folder_convert_paths(s) == Seq::<Seq<u8>>::empty(),
{
    lemma_prefix_empty_when_skipped(listing(s), listing(s).len() as int);
    assert(folder_convert_paths(s) =~= Seq::<Seq<u8>>::empty());
}

/// A path stands in a pass's raw transcription work exactly when some
/// folder selected it.
pub proof fn lemma_scan_transcribe_contains(snaps: Seq<FolderSnapshotView>, p: Seq<u8>)
    ensures
        scan_transcribe_all(snaps).contains(p) <==> exists|i: int|
            0 <= i < snaps.len() && #[trigger] folder_transcribe_paths(snaps[i]).contains(p),
    decreases snaps.len(),
{
    if snaps.len() > 0 {
        lemma_scan_transcribe_contains(snaps.drop_last(), p);
        let a = scan_transcribe_all(snaps.drop_last());
        let b = folder_transcribe_paths(snaps.last());
        vstd::seq_lib::lemma_seq_concat_contains_all_elements(a, b, p);
        if a.contains(p) || b.contains(p) {
            if a.contains(p) {
                let i = choose|i: int|
                    0 <= i < snaps.drop_last().len() && #[trigger] folder_transcribe_paths(
                        snaps.drop_last()[i],
                    ).contains(p);
                assert(snaps[i] == snaps.drop_last()[i]);
            } else {
                assert(snaps[snaps.len() - 1] == snaps.last());
            }
        }
        if exists|i: int|
            0 <= i < snaps.len() && #[trigger] folder_transcribe_paths(snaps[i]).contains(p) {
            let i = choose|i: int|
                0 <= i < snaps.len() && #[trigger] folder_transcribe_paths(snaps[i]).contains(p);
            if i < snaps.len() - 1 {
                assert(snaps.drop_last()[i] == snaps[i]);
            }
        }
    }
}

/// A path stands in a pass's raw conversion work exactly when some folder
/// selected it.
pub proof fn lemma_scan_convert_contains(snaps: Seq<FolderSnapshotView>, p: Seq<u8>)
    ensures
        scan_convert_all(snaps).contains(p) <==> exists|i: int|
            0 <= i < snaps.len() && #[trigger] folder_convert_paths(snaps[i]).contains(p),
    decreases snaps.len(),
{
    if snaps.len() > 0 {
        lemma_scan_convert_contains(snaps.drop_last(), p);
        let a = scan_convert_all(snaps.drop_last());
        let b = folder_convert_paths(snaps.last());
        vstd::seq_lib::lemma_seq_concat_contains_all_elements(a, b, p);
        if a.contains(p) || b.contains(p) {
            if a.contains(p) {
                let i = choose|i: int|
                    0 <= i < snaps.drop_last().len() && #[trigger] folder_convert_paths(
                        snaps.drop_last()[i],
                    ).contains(p);
                assert(snaps[i] == snaps.drop_last()[i]);
            } else {
                assert(snaps[snaps.len() - 1] == snaps.last());
            }
        }
        if exists|i: int|
            0 <= i < snaps.len() && #[trigger] folder_convert_paths(snaps[i]).contains(p) {
            let i = choose|i: int|
                0 <= i < snaps.len() && #[trigger] folder_convert_paths(snaps[i]).contains(p);
            if i < snaps.len() - 1 {
                assert(snaps.drop_last()[i] == snaps[i]);
            }
        }
    }
}

/// Every path of a pass's transcription output comes from a folder whose
/// `skip_transcription` flag is off: flagged folders contribute nothing,
/// even for otherwise eligible files.
pub proof fn lemma_transcribe_output_respects_skip(snaps: Seq<FolderSnapshotView>, p: Seq<u8>)
    requires
        scan_transcribe_spec(snaps).contains(p),
    ensures
        exists|i: int|
            0 <= i < snaps.len() && !snaps[i].folder.skip_transcription && #[trigger]
            folder_transcribe_paths(snaps[i]).contains(p),
{
    lemma_scan_spec_contains(snaps, p);
    lemma_scan_transcribe_contains(snaps, p);
    let i = choose|i: int|
        0 <= i < snaps.len() && #[trigger] folder_transcribe_paths(snaps[i]).contains(p);
    if snaps[i].folder.skip_transcription {
        lemma_skip_transcription(snaps[i]);
    }
}

/// Every path of a pass's conversion output comes from a folder whose
/// `skip_conversion` flag is off.
pub proof fn lemma_convert_output_respects_skip(snaps: Seq<FolderSnapshotView>, p: Seq<u8>)
    requires
        scan_convert_spec(snaps).contains(p),
    ensures
        exists|i: int|
            0 <= i < snaps.len() && !snaps[i].folder.skip_conversion && #[trigger]
            folder_convert_paths(snaps[i]).contains(p),
{
    lemma_scan_spec_contains(snaps, p);
    lemma_scan_convert_contains(snaps, p);
    let i = choose|i: int|
        0 <= i < snaps.len() && #[trigger] folder_convert_paths(snaps[i]).contains(p);
    if snaps[i].folder.skip_conversion {
        lemma_skip_conversion(snaps[i]);
    }
}

/// Sorting changes no membership: what a pass returns is what the folders
/// selected.
pub proof fn lemma_scan_spec_contains(snaps: Seq<FolderSnapshotView>, p: Seq<u8>)
    ensures
        scan_transcribe_spec(snaps).contains(p) == scan_transcribe_all(snaps).contains(p),
        scan_convert_spec(snaps).contains(p) == scan_convert_all(snaps).contains(p),
{
    crate::names::lemma_lex_total_ordering();
    let leq = crate::names::lex_leq_f();
    let t = scan_transcribe_all(snaps);
    let c = scan_convert_all(snaps);
    t.lemma_sort_by_ensures(leq);
    c.lemma_sort_by_ensures(leq);
    t.to_multiset_ensures();
    c.to_multiset_ensures();
    t.sort_by(leq).to_multiset_ensures();
    c.sort_by(leq).to_multiset_ensures();
    assert(t.to_multiset().count(p) == t.sort_by(leq).to_multiset().count(p));
    assert(c.to_multiset().count(p) == c.sort_by(leq).to_multiset().count(p));
}

/// Sorts paths lexicographically by insertion, keeping exactly the same
/// multiset of entries.
fn sort_paths(v: Vec<Vec<u8>>) -> (r: Vec<Vec<u8>>)
    ensures
        vstd::relations::sorted_by(views(r@), crate::names::lex_leq_f()),
        views(r@).to_multiset() == views(v@).to_multiset(),
{
    broadcast use vstd::seq_lib::group_to_multiset_ensures;

    let mut out: Vec<Vec<u8>> = Vec::new();
    proof {
        assert(views(out@) =~= Seq::<Seq<u8>>::empty());
        assert(views(v@).take(0) =~= Seq::<Seq<u8>>::empty());
        Seq::<Seq<u8>>::empty().to_multiset_ensures();
    }
    let mut i: usize = 0;
    while i < v.len()
        invariant
            0 <= i <= v.len(),
            vstd::relations::sorted_by(views(out@), crate::names::lex_leq_f()),
            views(out@).to_multiset() == views(v@).take(i as int).to_multiset(),
        decreases v.len() - i,
    {
        let x = v[i].clone();
        assert(x@ == views(v@)[i as int]);
        let ghost pre = views(out@);
        let mut j: usize = 0;
        while j < out.len()
            invariant
                0 <= j <= out.len(),
                pre == views(out@),
                forall|k: int| 0 <= k < j ==> crate::names::lex_leq(#[trigger] pre[k], x@),
            ensures
                0 <= j <= out.len(),
                pre == views(out@),
                forall|k: int| 0 <= k < j ==> crate::names::lex_leq(#[trigger] pre[k], x@),
                j < out.len() ==> !crate::names::lex_leq(pre[j as int], x@),
            decreases out.len() - j,
        {
            if !crate::names::lex_leq_exec(&out[j], &x) {
                break;
            }
            j += 1;
        }
        out.insert(j, x);
        proof {
            assert(views(out@) =~= pre.insert(j as int, x@));
            crate::names::lemma_lex_total_ordering();
            let leq = crate::names::lex_leq_f();
            let s = views(out@);
            assert forall|p: int, q: int| 0 <= p < q < s.len() implies #[trigger] leq(
                s[p],
                s[q],
            ) by {
                if q < j {
                    assert(s[p] == pre[p] && s[q] == pre[q]);
                } else if p > j {
                    assert(s[p] == pre[p - 1] && s[q] == pre[q - 1]);
                } else if p == j {
                    // q > j: what follows the insertion point is at least x
                    assert(s[q] == pre[q - 1]);
                    assert(j < pre.len());
                    crate::names::lemma_lex_connected(x@, pre[j as int]);
                    assert(leq(x@, pre[j as int]));
                    if q - 1 > j {
                        assert(leq(pre[j as int], pre[q - 1]));
                        crate::names::lemma_lex_trans(x@, pre[j as int], pre[q - 1]);
                    }
                } else if q == j {
                    assert(s[p] == pre[p]);
                } else {
                    assert(s[p] == pre[p] && s[q] == pre[q - 1]);
                }
            }
            vstd::seq_lib::to_multiset_insert(pre, j as int, x@);
            assert(views(v@).take(i + 1) =~= views(v@).take(i as int).push(x@));
            vstd::seq_lib::to_multiset_build(views(v@).take(i as int), x@);
        }
        i += 1;
    }
    proof {
        assert(views(v@).take(v@.len() as int) =~= views(v@));
    }
    out
}

/// Scans the given folder snapshots once and returns the paths still queued
/// for transcription and for conversion, each list sorted lexicographically.
///
/// The result is a function of the snapshots alone, so two passes over an
/// unchanged filesystem return identical, identically ordered lists.
pub fn scan_directories(snaps: &Vec<FolderSnapshot>) -> (r: (Vec<Vec<u8>>, Vec<Vec<u8>>))
    ensures
        views(r.0@) == scan_transcribe_spec(snap_views(snaps@)),
        views(r.1@) == scan_convert_spec(snap_views(snaps@)),
        vstd::relations::sorted_by(views(r.0@), crate::names::lex_leq_f()),
        vstd::relations::sorted_by(views(r.1@), crate::names::lex_leq_f()),
{
    let ghost sv = snap_views(snaps@);
    let mut transcribe: Vec<Vec<u8>> = Vec::new();
    let mut convert: Vec<Vec<u8>> = Vec::new();
    proof {
        assert(views(transcribe@) =~= scan_transcribe_all(sv.take(0)));
        assert(views(convert@) =~= scan_convert_all(sv.take(0)));
    }
    let mut i: usize = 0;
    while i < snaps.len()
        invariant
            0 <= i <= snaps.len(),
            sv == snap_views(snaps@),
            sv.len() == snaps@.len(),
            views(transcribe@) == scan_transcribe_all(sv.take(i as int)),
            views(convert@) == scan_convert_all(sv.take(i as int)),
        decreases snaps.len() - i,
    {
        let snap = &snaps[i];
        let ghost snv = sv[i as int];
        assert(snv == snap@);
        let ghost base_t = views(transcribe@);
        let ghost base_c = views(convert@);
        match &snap.files {
            Some(files) => {
                let ghost fl = views(files@);
                assert(listing(snv) == fl);
                let mut j: usize = 0;
                proof {
                    assert(transcribe_prefix(fl, 0, snv.folder.skip_transcription)
                        =~= Seq::<Seq<u8>>::empty());
                    assert(base_t + transcribe_prefix(fl, 0, snv.folder.skip_transcription)
                        .map_values(|n: Seq<u8>| join_path(snv.folder.path, n)) =~= base_t);
                    assert(base_c + convert_prefix(fl, 0, snv.folder.skip_conversion)
                        .map_values(|n: Seq<u8>| join_path(snv.folder.path, n)) =~= base_c);
                }
                while j < files.len()
                    invariant
                        0 <= j <= files.len(),
                        fl == views(files@),
                        snv == snap@,
                        listing(snv) == fl,
                        views(transcribe@) == base_t + transcribe_prefix(
                            fl,
                            j as int,
                            snv.folder.skip_transcription,
                        ).map_values(|n: Seq<u8>| join_path(snv.folder.path, n)),
                        views(convert@) == base_c + convert_prefix(
                            fl,
                            j as int,
                            snv.folder.skip_conversion,
                        ).map_values(|n: Seq<u8>| join_path(snv.folder.path, n)),
                    decreases files.len() - j,
                {
                    let name = &files[j];
                    let ghost nv = fl[j as int];
                    assert(nv == name@);
                    let ghost pre_t = views(transcribe@);
                    let ghost pre_c = views(convert@);
                    match split_name(name.as_slice()) {
                        Some((stem, ext)) => {
                            if is_audio_ext_exec(&ext) {
                                if !snap.folder.skip_transcription
                                    && !has_transcript_companion_exec(files, &stem) {
                                    let p = join_path_exec(&snap.folder.path, name);
                                    transcribe.push(p);
                                }
                                if is_wav_ext_exec(&ext) && !snap.folder.skip_conversion
                                    && !has_flac_sibling_exec(files, &stem) {
                                    let p = join_path_exec(&snap.folder.path, name);
                                    convert.push(p);
                                }
                            }
                        },
                        None => {},
                    }
                    proof {
                        let joiner = |n: Seq<u8>| join_path(snv.folder.path, n);
                        let st = snv.folder.skip_transcription;
                        let sc = snv.folder.skip_conversion;
                        if eligible_transcribe(fl, nv, st) {
                            assert(transcribe_prefix(fl, j + 1, st) == transcribe_prefix(
                                fl,
                                j as int,
                                st,
                            ).push(nv));
                            assert(views(transcribe@) =~= pre_t.push(joiner(nv)));
                            assert(base_t + transcribe_prefix(fl, j + 1, st).map_values(joiner)
                                =~= pre_t.push(joiner(nv)));
                        } else {
                            assert(transcribe_prefix(fl, j + 1, st) == transcribe_prefix(
                                fl,
                                j as int,
                                st,
                            ));
                            assert(views(transcribe@) == pre_t);
                        }
                        if eligible_convert(fl, nv, sc) {
                            assert(convert_prefix(fl, j + 1, sc) == convert_prefix(
                                fl,
                                j as int,
                                sc,
                            ).push(nv));
                            assert(views(convert@) =~= pre_c.push(joiner(nv)));
                            assert(base_c + convert_prefix(fl, j + 1, sc).map_values(joiner)
                                =~= pre_c.push(joiner(nv)));
                        } else {
                            assert(convert_prefix(fl, j + 1, sc) == convert_prefix(
                                fl,
                                j as int,
                                sc,
                            ));
                            assert(views(convert@) == pre_c);
                        }
                    }
                    j += 1;
                }
                proof {
                    assert(transcribe_prefix(fl, fl.len() as int, snv.folder.skip_transcription)
                        == folder_transcribe(snv));
                    assert(views(transcribe@) == base_t + folder_transcribe_paths(snv));
                    assert(views(convert@) == base_c + folder_convert_paths(snv));
                }
            },
            None => {
                proof {
                    assert(listing(snv) =~= Seq::<Seq<u8>>::empty());
                    assert(folder_transcribe_paths(snv) =~= Seq::<Seq<u8>>::empty());
                    assert(folder_convert_paths(snv) =~= Seq::<Seq<u8>>::empty());
                    assert(views(transcribe@) =~= base_t + folder_transcribe_paths(snv));
                    assert(views(convert@) =~= base_c + folder_convert_paths(snv));
                }
            },
        }
        proof {
            assert(sv.take(i + 1).drop_last() =~= sv.take(i as int));
            assert(sv.take(i + 1).last() == snv);
            assert(scan_transcribe_all(sv.take(i + 1)) == scan_transcribe_all(sv.take(i as int))
                + folder_transcribe_paths(snv));
            assert(scan_convert_all(sv.take(i + 1)) == scan_convert_all(sv.take(i as int))
                + folder_convert_paths(snv));
        }
        i += 1;
    }
    proof {
        assert(sv.take(sv.len() as int) =~= sv);
    }
    let sorted_t = sort_paths(transcribe);
    let sorted_c = sort_paths(convert);
    proof {
        crate::names::lemma_lex_total_ordering();
        scan_transcribe_all(sv).lemma_sort_by_ensures(crate::names::lex_leq_f());
        scan_convert_all(sv).lemma_sort_by_ensures(crate::names::lex_leq_f());
        vstd::seq_lib::lemma_sorted_unique(
            views(sorted_t@),
            scan_transcribe_spec(sv),
            crate::names::lex_leq_f(),
        );
        vstd::seq_lib::lemma_sorted_unique(
            views(sorted_c@),
            scan_convert_spec(sv),
            crate::names::lex_leq_f(),
        );
    }
    (sorted_t, sorted_c)
}

} // verus!
