//! The external media tools the editor drives.
use vstd::prelude::*;
use std::path::PathBuf;
use vstd::string::*;
use crate::text::{decimal, push_char, push_decimal, str_equal};

verus! {

/// `std::path::PathBuf`, carried through as an opaque file path.
#[verifier::external_type_specification]
#[verifier::external_body]
pub struct ExPathBuf(PathBuf);

/// Where the FFmpeg and ffprobe executables were found.
#[derive(Debug)]
pub struct MediaTools {
    pub ffmpeg: PathBuf,
    pub ffprobe: PathBuf,
}


/// `n` printed with at least two digits (`{:02}`).
pub open spec fn two_digits(n: nat) -> Seq<char> {
    if n < 10 {
        seq!['0'] + decimal(n)
    } else {
        decimal(n)
    }
}

/// The thumbnail file of the candidate at position `index` (counted from zero):
/// `candidate-01.jpg`, `candidate-02.jpg`, ….
pub fn thumbnail_file_name(index: usize) -> (r: String)
    requires
        index < usize::MAX,
    ensures
        r@ == "candidate-"@ + two_digits((index + 1) as nat) + ".jpg"@,
{
    let n = index + 1;
    let mut r = "candidate-".to_owned();
    if n < 10 {
        push_char(&mut r, '0');
    }
    push_decimal(&mut r, n as u64);
    r.append(".jpg");
    r
}

/// How many peaks the local analysis considers before keeping the best `target`: twice the
/// target, at least 4 and at most 16.
pub fn selection_limit(target: usize) -> (r: usize)
    ensures
        r as int == if 2 * target < 4 {
            4
        } else if 2 * target > 16 {
            16
        } else {
            2 * target
        },
{
    if target < 2 {
        4
    } else if target > 8 {
        16
    } else {
        2 * target
    }
}

/// The position of the first stream whose codec type is `kind`, if any.
pub fn first_stream(codec_types: &Vec<String>, kind: &str) -> (r: Option<usize>)
    ensures
        match r {
            Some(i) => i < codec_types.len() && codec_types@[i as int]@ == kind@ && forall|j: int|
                0 <= j < i ==> (#[trigger] codec_types@[j])@ != kind@,
            None => forall|j: int| 0 <= j < codec_types.len() ==> (#[trigger] codec_types@[j])@ != kind@,
        },
{
    let mut i: usize = 0;
    while i < codec_types.len()
        invariant
            i <= codec_types.len(),
            forall|j: int| 0 <= j < i ==> (#[trigger] codec_types@[j])@ != kind@,
        decreases codec_types.len() - i,
    {
        if str_equal(codec_types[i].as_str(), kind) {
            return Some(i);
        }
        i = i + 1;
    }
    None
}

} // verus!
