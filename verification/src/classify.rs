//! Recognized file kinds. An extension, compared ASCII-case-insensitively,
//! makes a file an audio recording, a transcript, or neither; every other
//! file is ignored entirely.

use vstd::prelude::*;

use crate::names::{ext_of, has_extension, lower_byte_exec, lower_bytes};

verus! {

/// The extension `wav`, the conversion source format.
pub open spec fn is_wav_ext(e: Seq<u8>) -> bool {
    lower_bytes(e) == seq![119u8, 97u8, 118u8]
}

/// The extension `flac`, the conversion target format.
pub open spec fn is_flac_ext(e: Seq<u8>) -> bool {
    lower_bytes(e) == seq![102u8, 108u8, 97u8, 99u8]
}

/// The audio extensions: wav, flac, mp3, ogg, amr.
pub open spec fn is_audio_ext(e: Seq<u8>) -> bool {
    ||| is_wav_ext(e)
    ||| is_flac_ext(e)
    ||| lower_bytes(e) == seq![109u8, 112u8, 51u8]  // mp3
    ||| lower_bytes(e) == seq![111u8, 103u8, 103u8]  // ogg
    ||| lower_bytes(e) == seq![97u8, 109u8, 114u8]  // amr
}

/// The transcript extensions: srt, txt, vtt, json, tsv.
pub open spec fn is_transcript_ext(e: Seq<u8>) -> bool {
    ||| lower_bytes(e) == seq![115u8, 114u8, 116u8]  // srt
    ||| lower_bytes(e) == seq![116u8, 120u8, 116u8]  // txt
    ||| lower_bytes(e) == seq![118u8, 116u8, 116u8]  // vtt
    ||| lower_bytes(e) == seq![106u8, 115u8, 111u8, 110u8]  // json
    ||| lower_bytes(e) == seq![116u8, 115u8, 118u8]  // tsv
}

/// A name with an extension of the audio set.
pub open spec fn audio_name(name: Seq<u8>) -> bool {
    has_extension(name) && is_audio_ext(ext_of(name))
}

/// A name with an extension of the transcript set.
pub open spec fn transcript_name(name: Seq<u8>) -> bool {
    has_extension(name) && is_transcript_ext(ext_of(name))
}

/// A name with the extension `wav`.
pub open spec fn wav_name(name: Seq<u8>) -> bool {
    has_extension(name) && is_wav_ext(ext_of(name))
}

/// No extension is at once an audio and a transcript extension, so no file
/// is classified both ways.
pub proof fn lemma_classes_disjoint(e: Seq<u8>)
    ensures
        !(is_audio_ext(e) && is_transcript_ext(e)),
{
    if is_audio_ext(e) && is_transcript_ext(e) {
        assert(false);
    }
}

/// Decides whether a lower-cased extension equals the three given bytes.
fn ext_is3(ext: &Vec<u8>, x: u8, y: u8, z: u8) -> (r: bool)
    ensures
        r == (lower_bytes(ext@) == seq![x, y, z]),
{
    if ext.len() != 3 {
        assert(lower_bytes(ext@).len() == ext@.len());
        return false;
    }
    let r = lower_byte_exec(ext[0]) == x && lower_byte_exec(ext[1]) == y && lower_byte_exec(
        ext[2],
    ) == z;
    proof {
        let l = lower_bytes(ext@);
        assert(l[0] == crate::names::lower_byte(ext@[0]));
        assert(l[1] == crate::names::lower_byte(ext@[1]));
        assert(l[2] == crate::names::lower_byte(ext@[2]));
        if r {
            assert(l =~= seq![x, y, z]);
        }
    }
    r
}

/// Decides whether a lower-cased extension equals the four given bytes.
fn ext_is4(ext: &Vec<u8>, w: u8, x: u8, y: u8, z: u8) -> (r: bool)
    ensures
        r == (lower_bytes(ext@) == seq![w, x, y, z]),
{
    if ext.len() != 4 {
        assert(lower_bytes(ext@).len() == ext@.len());
        return false;
    }
    let r = lower_byte_exec(ext[0]) == w && lower_byte_exec(ext[1]) == x && lower_byte_exec(
        ext[2],
    ) == y && lower_byte_exec(ext[3]) == z;
    proof {
        let l = lower_bytes(ext@);
        assert(l[0] == crate::names::lower_byte(ext@[0]));
        assert(l[1] == crate::names::lower_byte(ext@[1]));
        assert(l[2] == crate::names::lower_byte(ext@[2]));
        assert(l[3] == crate::names::lower_byte(ext@[3]));
        if r {
            assert(l =~= seq![w, x, y, z]);
        }
    }
    r
}

/// Decides whether an extension is `wav`, case-insensitively.
pub fn is_wav_ext_exec(ext: &Vec<u8>) -> (r: bool)
    ensures
        r == is_wav_ext(ext@),
{
    ext_is3(ext, 119, 97, 118)
}

/// Decides whether an extension is `flac`, case-insensitively.
pub fn is_flac_ext_exec(ext: &Vec<u8>) -> (r: bool)
    ensures
        r == is_flac_ext(ext@),
{
    ext_is4(ext, 102, 108, 97, 99)
}

/// Decides whether an extension is of the audio set, case-insensitively.
pub fn is_audio_ext_exec(ext: &Vec<u8>) -> (r: bool)
    ensures
        r == is_audio_ext(ext@),
{
    is_wav_ext_exec(ext) || is_flac_ext_exec(ext) || ext_is3(ext, 109, 112, 51) || ext_is3(
        ext,
        111,
        103,
        103,
    ) || ext_is3(ext, 97, 109, 114)
}

/// Decides whether an extension is of the transcript set, case-insensitively.
pub fn is_transcript_ext_exec(ext: &Vec<u8>) -> (r: bool)
    ensures
        r == is_transcript_ext(ext@),
{
    ext_is3(ext, 115, 114, 116) || ext_is3(ext, 116, 120, 116) || ext_is3(ext, 118, 116, 116)
        || ext_is4(ext, 106, 115, 111, 110) || ext_is3(ext, 116, 115, 118)
}

} // verus!
