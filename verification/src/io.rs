//! Naming and path derivation for output files.
//!
//! The functions here prepare what a written file carries: the container
//! metadata name and the trace name get the fragment's index appended, and
//! the output path gets `_<index>` spliced in before the file extension.
//! Reading and writing the files themselves is left to the caller.

use vstd::prelude::*;
use vstd::string::{StrSliceExecFns, StringExecFns};

use crate::types::{Gpx, Metadata};

verus! {

/// The decimal digit character for `d`, which must lie in `0 ..= 9`.
pub open spec fn dec_digit(d: int) -> char {
    if d == 0 {
        '0'
    } else if d == 1 {
        '1'
    } else if d == 2 {
        '2'
    } else if d == 3 {
        '3'
    } else if d == 4 {
        '4'
    } else if d == 5 {
        '5'
    } else if d == 6 {
        '6'
    } else if d == 7 {
        '7'
    } else if d == 8 {
        '8'
    } else {
        '9'
    }
}

/// The decimal digits of a non-negative number, most significant first.
pub open spec fn dec_str(n: int) -> Seq<char>
    decreases n,
{
    if n < 10 {
        seq![dec_digit(n)]
    } else {
        dec_str(n / 10).push(dec_digit(n % 10))
    }
}

/// Relies on std's `Display` implementation for `usize`: formatting a
/// number yields its decimal digits, most significant first.
#[verifier::external_body]
fn usize_to_string(n: usize) -> (r: String)
    ensures
        r@ == dec_str(n as int),
{
    format!("{}", n)
}

/// Appends ` #<index>` to the name, if there is one.
pub fn append_index(name: Option<String>, index: usize) -> (r: Option<String>)
    ensures
        match name {
            Some(n) => r is Some && r->0@ == n@ + " #"@ + dec_str(index as int),
            None => r is None,
        },
{
    match name {
        Some(n) => {
            let num = usize_to_string(index);
            Some(n.concat(" #").concat(num.as_str()))
        },
        None => None,
    }
}

/// The error of [`create_path`]: the path holds no `.` to splice an index
/// marker in front of.
#[derive(Clone, Copy, Debug, PartialEq, Eq, Structural)]
pub enum PathError {
    NoExtension,
}

/// The sequence holds a `.` somewhere.
pub open spec fn has_dot(s: Seq<char>) -> bool {
    exists|i: int| 0 <= i < s.len() && s[i] == '.'
}

/// The path with `_<counter>` spliced in before its extension, which
/// starts after the dot at position `ld`.
pub open spec fn spliced_path(s: Seq<char>, ld: int, counter: int) -> Seq<char> {
    s.subrange(0, ld) + "_"@ + dec_str(counter) + "."@ + s.subrange(ld + 1, s.len() as int)
}

/// Creates the path for an output file: `_<counter>` is inserted between
/// the stem and the extension, which is everything after the last dot.
/// A path without a dot is refused.
pub fn create_path(path: &str, counter: usize) -> (r: Result<String, PathError>)
    ensures
        r is Ok <==> has_dot(path@),
        match r {
            Ok(p) => exists|ld: int|
                {
                    &&& 0 <= ld < path@.len()
                    &&& path@[ld] == '.'
                    &&& (forall|j: int| ld < j < path@.len() ==> path@[j] != '.')
                    &&& p@ == spliced_path(path@, ld, counter as int)
                },
            Err(e) => e == PathError::NoExtension,
        },
{
    let ghost s = path@;
    let len = path.unicode_len();
    let mut dot: Option<usize> = None;
    let mut i: usize = 0;
    while i < len
        invariant
            0 <= i <= len,
            len == s.len(),
            s == path@,
            match dot {
                None => forall|j: int| 0 <= j < i ==> s[j] != '.',
                Some(d) => {
                    &&& 0 <= d < i
                    &&& s[d as int] == '.'
                    &&& forall|j: int| d < j < i ==> s[j] != '.'
                },
            },
        decreases len - i,
    {
        if path.get_char(i) == '.' {
            dot = Some(i);
        }
        i = i + 1;
    }
    match dot {
        None => Err(PathError::NoExtension),
        Some(d) => {
            let stem = path.substring_char(0, d);
            let ext = path.substring_char(d + 1, len);
            let num = usize_to_string(counter);
            let built = String::from_str(stem).concat("_").concat(num.as_str()).concat(
                ".",
            ).concat(ext);
            proof {
                assert(built@ == spliced_path(s, d as int, counter as int));
            }
            Ok(built)
        },
    }
}

/// Appends the counter to the metadata name of the container, if metadata
/// and name are present.  Everything else stays as it was.
pub fn update_metadata_name(gpx: Gpx, counter: usize) -> (r: Gpx)
    ensures
        r.waypoints == gpx.waypoints,
        r.routes == gpx.routes,
        r.tracks == gpx.tracks,
        match gpx.metadata {
            None => r.metadata is None,
            Some(m) => {
                &&& r.metadata is Some
                &&& r.metadata->0.bounds == m.bounds
                &&& match m.name {
                    Some(n) => r.metadata->0.name is Some && r.metadata->0.name->0@ == n@ + " #"@
                        + dec_str(counter as int),
                    None => r.metadata->0.name is None,
                }
            },
        },
{
    let Gpx { metadata, waypoints, routes, tracks } = gpx;
    let new_metadata = match metadata {
        Some(m) => Some(Metadata { name: append_index(m.name, counter), bounds: m.bounds }),
        None => None,
    };
    Gpx { metadata: new_metadata, waypoints, routes, tracks }
}

} // verus!
