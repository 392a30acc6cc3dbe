//! File-kind checks on path strings.
//!
//! A path is examined as its UTF-8 bytes: the file name follows the last
//! `/`, and the extension follows the last `.` of the file name, not
//! counting a leading dot.  Extensions compare case-insensitively over
//! ASCII letters.
use vstd::prelude::*;
use vstd::string::StringSliceAdditionalSpecFns;

verus! {

/// An ASCII byte lowered.
pub open spec fn lower(c: u8) -> u8 {
    if 65 <= c <= 90 {
        (c + 32) as u8
    } else {
        c
    }
}

/// Where the file name starts, scanning positions below `i` for the last
/// path separator.
pub open spec fn name_start_from(b: Seq<u8>, i: int) -> int
    decreases i,
{
    if i <= 0 {
        0
    } else if b[i - 1] == 47 {
        i
    } else {
        name_start_from(b, i - 1)
    }
}

/// The position of the last dot strictly after `lo`, scanning positions
/// below `i`.
pub open spec fn dot_from(b: Seq<u8>, lo: int, i: int) -> Option<int>
    decreases i,
{
    if i <= lo + 1 || i <= 0 {
        None
    } else if b[i - 1] == 46 {
        Some(i - 1)
    } else {
        dot_from(b, lo, i - 1)
    }
}

/// The extension of a path given as bytes, lowered, if there is one.
pub open spec fn ext_of(b: Seq<u8>) -> Option<Seq<u8>> {
    match dot_from(b, name_start_from(b, b.len() as int), b.len() as int) {
        None => None,
        Some(d) => Some(b.subrange(d + 1, b.len() as int).map_values(|c: u8| lower(c))),
    }
}

fn lower_byte(c: u8) -> (r: u8)
    ensures
        r == lower(c),
{
    if 65 <= c && c <= 90 {
        c + 32
    } else {
        c
    }
}

/// Where the file name starts: just after the last separator.
#[verifier::loop_isolation(false)]
fn find_name_start(b: &[u8]) -> (lo: usize)
    ensures
        lo as int == name_start_from(b@, b@.len() as int),
{
    let mut i: usize = b.len();
    while i > 0
        invariant
            i <= b@.len(),
            name_start_from(b@, b@.len() as int) == name_start_from(b@, i as int),
        decreases i,
    {
        if *vstd::slice::slice_index_get(b, i - 1) == 47 {
            return i;
        }
        i -= 1;
    }
    0
}

/// The extension's start, or none: the byte scan behind the checks below.
#[verifier::loop_isolation(false)]
fn find_ext_start(b: &[u8]) -> (r: Option<usize>)
    ensures
        match r {
            Some(d) => dot_from(b@, name_start_from(b@, b@.len() as int), b@.len() as int) == Some(
                d as int,
            ) && d < b@.len(),
            None => dot_from(
                b@,
                name_start_from(b@, b@.len() as int),
                b@.len() as int,
            ) is None,
        },
{
    let lo = find_name_start(b);
    let mut j: usize = b.len();
    while j > 0 && j - 1 > lo
        invariant
            j <= b@.len(),
            dot_from(b@, lo as int, b@.len() as int) == dot_from(b@, lo as int, j as int),
        decreases j,
    {
        if *vstd::slice::slice_index_get(b, j - 1) == 46 {
            return Some(j - 1);
        }
        j -= 1;
    }
    None
}

/// Whether the path's extension, lowered, equals `target`.
#[verifier::loop_isolation(false)]
fn ext_is(path: &str, target: &[u8]) -> (r: bool)
    ensures
        r == (ext_of(path.spec_bytes()) == Some(target@)),
{
    let b = path.as_bytes();
    match find_ext_start(b) {
        None => false,
        Some(d) => {
            let ghost ext = b@.subrange(d as int + 1, b@.len() as int).map_values(
                |c: u8| lower(c),
            );
            if b.len() - (d + 1) != target.len() {
                proof {
                    assert(ext.len() != target@.len());
                }
                return false;
            }
            let n = target.len();
            let mut k: usize = 0;
            while k < n
                invariant
                    k <= n,
                    forall|t: int| 0 <= t < k ==> ext[t] == target@[t],
                decreases n - k,
            {
                if lower_byte(*vstd::slice::slice_index_get(b, d + 1 + k)) != *
                vstd::slice::slice_index_get(target, k) {
                    proof {
                        assert(ext[k as int] != target@[k as int]);
                    }
                    return false;
                }
                k += 1;
            }
            proof {
                assert(ext =~= target@);
            }
            true
        },
    }
}

/// Whether the path names a lossless audio file the codec can read: a
/// `wav` or `flac` extension, case-insensitively.
pub fn is_lossless_audio_file(path: &str) -> (r: bool)
    ensures
        r == (ext_of(path.spec_bytes()) == Some(seq![119u8, 97u8, 118u8]) || ext_of(
            path.spec_bytes(),
        ) == Some(seq![102u8, 108u8, 97u8, 99u8])),
{
    let wav: [u8; 3] = [119, 97, 118];
    let flac: [u8; 4] = [102, 108, 97, 99];
    let r1 = ext_is(path, wav.as_slice());
    let r2 = ext_is(path, flac.as_slice());
    proof {
        assert(wav@ =~= seq![119u8, 97u8, 118u8]);
        assert(flac@ =~= seq![102u8, 108u8, 97u8, 99u8]);
    }
    r1 || r2
}

/// Whether the path names an encoded container: a `glc` extension,
/// case-insensitively.
pub fn is_glc_file(path: &str) -> (r: bool)
    ensures
        r == (ext_of(path.spec_bytes()) == Some(seq![103u8, 108u8, 99u8])),
{
    let glc: [u8; 3] = [103, 108, 99];
    let r = ext_is(path, glc.as_slice());
    proof {
        assert(glc@ =~= seq![103u8, 108u8, 99u8]);
    }
    r
}

} // verus!
