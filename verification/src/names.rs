//! Byte-string file names: case folding, stem/extension splitting,
//! lexicographic ordering, and path assembly.
//!
//! File names and paths are byte strings, as the operating system hands them
//! out; extensions are compared ASCII-case-insensitively, stems exactly.

use vstd::prelude::*;

verus! {

/// An ASCII upper-case letter mapped to lower case; any other byte unchanged.
/// 65 and 90 are the codes of `A` and `Z`.
pub open spec fn lower_byte(b: u8) -> u8 {
    if 65 <= b <= 90 {
        (b + 32) as u8
    } else {
        b
    }
}

/// Case-folds a byte string, ASCII letters only.
pub open spec fn lower_bytes(s: Seq<u8>) -> Seq<u8> {
    s.map_values(|b: u8| lower_byte(b))
}

pub fn lower_byte_exec(b: u8) -> (r: u8)
    ensures
        r == lower_byte(b),
{
    if 65 <= b && b <= 90 {
        b + 32
    } else {
        b
    }
}

/// True when the two byte strings are equal after ASCII case folding.
pub open spec fn eq_ignore_case(a: Seq<u8>, b: Seq<u8>) -> bool {
    lower_bytes(a) == lower_bytes(b)
}

/// Compares two byte strings ASCII-case-insensitively.
pub fn eq_ignore_case_exec(a: &[u8], b: &[u8]) -> (r: bool)
    ensures
        r == eq_ignore_case(a@, b@),
{
    if a.len() != b.len() {
        assert(lower_bytes(a@).len() != lower_bytes(b@).len());
        return false;
    }
    let mut i: usize = 0;
    while i < a.len()
        invariant
            0 <= i <= a.len(),
            a.len() == b.len(),
            forall|k: int| 0 <= k < i ==> lower_byte(a@[k]) == lower_byte(b@[k]),
        decreases a.len() - i,
    {
        if lower_byte_exec(a[i]) != lower_byte_exec(b[i]) {
            assert(lower_bytes(a@)[i as int] != lower_bytes(b@)[i as int]);
            return false;
        }
        i += 1;
    }
    assert(lower_bytes(a@) =~= lower_bytes(b@));
    true
}

/// The code of the dot that separates a stem from its extension.
pub const DOT: u8 = 46;

/// The code of the path separator.
pub const SLASH: u8 = 47;

/// Index of the last dot of `name`, or -1 when there is none.
pub open spec fn last_dot(name: Seq<u8>) -> int
    decreases name.len(),
{
    if name.len() == 0 {
        -1
    } else if name[name.len() - 1] == DOT {
        name.len() - 1
    } else {
        last_dot(name.drop_last())
    }
}

/// A name has an extension when a dot stands after its first byte; a name
/// that is nothing but a leading dot (a hidden file) has none.
pub open spec fn has_extension(name: Seq<u8>) -> bool {
    last_dot(name) > 0
}

/// The part before the last dot. Meaningful only when `has_extension` holds.
pub open spec fn stem_of(name: Seq<u8>) -> Seq<u8> {
    name.subrange(0, last_dot(name))
}

/// The part after the last dot. Meaningful only when `has_extension` holds.
pub open spec fn ext_of(name: Seq<u8>) -> Seq<u8> {
    name.subrange(last_dot(name) + 1, name.len() as int)
}

proof fn lemma_last_dot_range(name: Seq<u8>)
    ensures
        -1 <= last_dot(name) < name.len(),
        last_dot(name) >= 0 ==> name[last_dot(name)] == DOT,
        forall|k: int| last_dot(name) < k < name.len() ==> name[k] != DOT,
    decreases name.len(),
{
    if name.len() == 0 {
    } else if name[name.len() - 1] == DOT {
    } else {
        lemma_last_dot_range(name.drop_last());
        assert forall|k: int| last_dot(name) < k < name.len() implies name[k] != DOT by {
            if k < name.len() - 1 {
                assert(name.drop_last()[k] != DOT);
            }
        }
    }
}

/// A dot with nothing but non-dots after it is the last dot.
proof fn lemma_last_dot_at(name: Seq<u8>, i: int)
    requires
        0 <= i < name.len(),
        name[i] == DOT,
        forall|k: int| i < k < name.len() ==> name[k] != DOT,
    ensures
        last_dot(name) == i,
    decreases name.len(),
{
    if i == name.len() - 1 {
    } else {
        assert(name.drop_last() =~= name.subrange(0, name.len() - 1));
        lemma_last_dot_at(name.drop_last(), i);
    }
}

/// A name with no dot at all has `last_dot` -1.
proof fn lemma_no_dot(name: Seq<u8>)
    requires
        forall|k: int| 0 <= k < name.len() ==> name[k] != DOT,
    ensures
        last_dot(name) == -1,
    decreases name.len(),
{
    if name.len() > 0 {
        lemma_no_dot(name.drop_last());
    }
}

/// Splits a file name into stem and extension at its last dot.
/// Returns `None` for a name without an extension.
pub fn split_name(name: &[u8]) -> (r: Option<(Vec<u8>, Vec<u8>)>)
    ensures
        r is Some <==> has_extension(name@),
        r is Some ==> r->Some_0.0@ == stem_of(name@) && r->Some_0.1@ == ext_of(name@),
{
    proof {
        lemma_last_dot_range(name@);
    }
    let mut i: usize = name.len();
    while i > 0
        invariant
            0 <= i <= name.len(),
            forall|k: int| i <= k < name@.len() ==> name@[k] != DOT,
        decreases i,
    {
        if name[i - 1] == DOT {
            proof {
                lemma_last_dot_at(name@, i - 1);
            }
            if i - 1 == 0 {
                return None;
            }
            let stem = slice_to_vec_range(name, 0, i - 1);
            let ext = slice_to_vec_range(name, i, name.len());
            return Some((stem, ext));
        }
        i -= 1;
    }
    proof {
        lemma_no_dot(name@);
    }
    None
}

/// Lexicographic order on byte strings: a proper prefix comes first, and
/// otherwise the first differing byte decides.
pub open spec fn lex_leq(a: Seq<u8>, b: Seq<u8>) -> bool
    decreases a.len(),
{
    if a.len() == 0 {
        true
    } else if b.len() == 0 {
        false
    } else if a.first() < b.first() {
        true
    } else if a.first() > b.first() {
        false
    } else {
        lex_leq(a.drop_first(), b.drop_first())
    }
}

/// The lexicographic order as a first-class relation, for sorting.
pub open spec fn lex_leq_f() -> spec_fn(Seq<u8>, Seq<u8>) -> bool {
    |a: Seq<u8>, b: Seq<u8>| lex_leq(a, b)
}

pub proof fn lemma_lex_refl(a: Seq<u8>)
    ensures
        lex_leq(a, a),
    decreases a.len(),
{
    if a.len() > 0 {
        lemma_lex_refl(a.drop_first());
    }
}

pub proof fn lemma_lex_antisym(a: Seq<u8>, b: Seq<u8>)
    requires
        lex_leq(a, b),
        lex_leq(b, a),
    ensures
        a == b,
    decreases a.len(),
{
    if a.len() == 0 {
        assert(b.len() == 0);
        assert(a =~= b);
    } else {
        lemma_lex_antisym(a.drop_first(), b.drop_first());
        assert(a =~= seq![a.first()] + a.drop_first());
        assert(b =~= seq![b.first()] + b.drop_first());
        assert(a =~= b);
    }
}

pub proof fn lemma_lex_trans(a: Seq<u8>, b: Seq<u8>, c: Seq<u8>)
    requires
        lex_leq(a, b),
        lex_leq(b, c),
    ensures
        lex_leq(a, c),
    decreases a.len(),
{
    if a.len() > 0 && b.len() > 0 && c.len() > 0 {
        if a.first() == b.first() && b.first() == c.first() {
            lemma_lex_trans(a.drop_first(), b.drop_first(), c.drop_first());
        }
    }
}

pub proof fn lemma_lex_connected(a: Seq<u8>, b: Seq<u8>)
    ensures
        lex_leq(a, b) || lex_leq(b, a),
    decreases a.len(),
{
    if a.len() > 0 && b.len() > 0 && a.first() == b.first() {
        lemma_lex_connected(a.drop_first(), b.drop_first());
    }
}

/// The lexicographic order is a total order, as sorting requires.
pub proof fn lemma_lex_total_ordering()
    ensures
        vstd::relations::total_ordering(lex_leq_f()),
{
    let leq = lex_leq_f();
    assert forall|a: Seq<u8>| #[trigger] leq(a, a) by {
        lemma_lex_refl(a);
    }
    assert forall|a: Seq<u8>, b: Seq<u8>| #[trigger] leq(a, b) && #[trigger] leq(b, a)
        implies a == b by {
        lemma_lex_antisym(a, b);
    }
    assert forall|a: Seq<u8>, b: Seq<u8>, c: Seq<u8>|
        #[trigger] leq(a, b) && #[trigger] leq(b, c) implies leq(a, c) by {
        lemma_lex_trans(a, b, c);
    }
    assert forall|a: Seq<u8>, b: Seq<u8>| #[trigger] leq(a, b) || #[trigger] leq(b, a) by {
        lemma_lex_connected(a, b);
    }
}

/// Equal prefixes do not change the order of what follows them.
proof fn lemma_lex_skip(a: Seq<u8>, b: Seq<u8>, i: int)
    requires
        0 <= i <= a.len(),
        i <= b.len(),
        forall|k: int| 0 <= k < i ==> a[k] == b[k],
    ensures
        lex_leq(a, b) == lex_leq(a.skip(i), b.skip(i)),
    decreases i,
{
    if i == 0 {
        assert(a.skip(0) =~= a);
        assert(b.skip(0) =~= b);
    } else {
        assert(a.len() > 0 && b.len() > 0 && a.first() == b.first());
        assert(a.drop_first() =~= a.skip(1));
        assert(b.drop_first() =~= b.skip(1));
        lemma_lex_skip(a.drop_first(), b.drop_first(), i - 1);
        assert(a.drop_first().skip(i - 1) =~= a.skip(i));
        assert(b.drop_first().skip(i - 1) =~= b.skip(i));
    }
}

/// Decides the lexicographic order on two byte strings.
pub fn lex_leq_exec(a: &Vec<u8>, b: &Vec<u8>) -> (r: bool)
    ensures
        r == lex_leq(a@, b@),
{
    let mut i: usize = 0;
    while i < a.len() && i < b.len()
        invariant
            0 <= i <= a.len(),
            i <= b.len(),
            forall|k: int| 0 <= k < i ==> a@[k] == b@[k],
        decreases a.len() - i,
    {
        if a[i] < b[i] {
            proof {
                lemma_lex_skip(a@, b@, i as int);
            }
            return true;
        }
        if a[i] > b[i] {
            proof {
                lemma_lex_skip(a@, b@, i as int);
            }
            return false;
        }
        i += 1;
    }
    proof {
        lemma_lex_skip(a@, b@, i as int);
    }
    a.len() <= b.len()
}

/// A folder path and a file name joined with the path separator.
pub open spec fn join_path(dir: Seq<u8>, name: Seq<u8>) -> Seq<u8> {
    dir + seq![SLASH] + name
}

/// Joins a folder path and a file name with the path separator.
pub fn join_path_exec(dir: &Vec<u8>, name: &Vec<u8>) -> (r: Vec<u8>)
    ensures
        r@ == join_path(dir@, name@),
{
    let mut r: Vec<u8> = Vec::new();
    r.extend_from_slice(dir.as_slice());
    r.push(SLASH);
    r.extend_from_slice(name.as_slice());
    proof {
        assert(r@ =~= join_path(dir@, name@));
    }
    r
}

/// The name with its extension replaced.
pub open spec fn with_extension(name: Seq<u8>, new_ext: Seq<u8>) -> Seq<u8> {
    stem_of(name) + seq![DOT] + new_ext
}

/// Replaces the extension of a name that has one.
pub fn with_extension_exec(name: &[u8], new_ext: &Vec<u8>) -> (r: Vec<u8>)
    requires
        has_extension(name@),
    ensures
        r@ == with_extension(name@, new_ext@),
{
    proof {
        lemma_last_dot_range(name@);
    }
    let split = split_name(name);
    match split {
        Some((stem, _)) => {
            let mut r = stem;
            r.push(DOT);
            r.extend_from_slice(new_ext.as_slice());
            proof {
                assert(r@ =~= with_extension(name@, new_ext@));
            }
            r
        },
        None => {
            // unreachable: the caller guarantees an extension
            Vec::new()
        },
    }
}

/// Copies `s[from..to]` into a fresh vector.
pub fn slice_to_vec_range(s: &[u8], from: usize, to: usize) -> (r: Vec<u8>)
    requires
        0 <= from <= to <= s@.len(),
    ensures
        r@ == s@.subrange(from as int, to as int),
{
    let mut r: Vec<u8> = Vec::new();
    let mut i: usize = from;
    while i < to
        invariant
            from <= i <= to <= s@.len(),
            r@ == s@.subrange(from as int, i as int),
        decreases to - i,
    {
        r.push(s[i]);
        assert(r@ =~= s@.subrange(from as int, i + 1 as int));
        i += 1;
    }
    r
}

} // verus!
