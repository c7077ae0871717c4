//! The old crate name: read off the archive's file name, and held against
//! the name that the caller expects.

use crate::error::{Error, Failure};
use crate::text::{DASH, DOT, NINE, ZERO};
use crate::text::{find_byte, is_first_byte, is_last_byte, rfind_byte, same_bytes};
use vstd::prelude::*;
use vstd::slice::{slice_subrange, slice_to_vec};
use vstd::string::StringSliceAdditionalSpecFns;
use vstd::utf8::{
    encode_utf8_valid_utf8, is_char_boundary_iff_not_is_continuation_byte, valid_utf8,
    valid_utf8_split,
};

verus! {

/// True for the ASCII digits.
pub open spec fn is_digit(byte: u8) -> bool {
    ZERO <= byte <= NINE
}

/// True when `file` reads: a name without a dot, a dash at `dash`, one or
/// more digits, and the first dot of `file` at `dot`.
pub open spec fn is_name_split(file: Seq<u8>, dash: int, dot: int) -> bool {
    &&& 0 < dash
    &&& dash + 1 < dot < file.len()
    &&& file[dash] == DASH
    &&& file[dot] == DOT
    &&& forall|j: int| 0 <= j < dot ==> file[j] != DOT
    &&& forall|j: int| dash < j < dot ==> is_digit(#[trigger] file[j])
}

/// The crate name that a file name shows: what stands before the dash in
/// `<name>-<digits>.`, where the dot is the first of the file name.
pub open spec fn inferred_name(file: Seq<u8>) -> Option<Seq<u8>> {
    if exists|dash: int, dot: int| is_name_split(file, dash, dot) {
        let (dash, dot) = choose|dash: int, dot: int| is_name_split(file, dash, dot);
        Some(file.subrange(0, dash))
    } else {
        None
    }
}

/// The old name to work with: the inferred name, which a name given by the
/// caller has to equal.
pub open spec fn resolved_name(file: Seq<u8>, hint: Option<Seq<u8>>) -> Result<Seq<u8>, Failure> {
    match hint {
        Some(expected) => if inferred_name(file) == Some(expected) {
            Ok(expected)
        } else {
            Err(Failure::NameMismatch { found: inferred_name(file), expected })
        },
        None => match inferred_name(file) {
            Some(name) => Ok(name),
            None => Err(Failure::NameInferenceFailed),
        },
    }
}

/// The bytes of a string that may be absent.
pub open spec fn bytes_of(text: Option<&str>) -> Option<Seq<u8>> {
    match text {
        Some(t) => Some(t.spec_bytes()),
        None => None,
    }
}

/// A file name splits in one way at most.
pub proof fn lemma_name_split_unique(file: Seq<u8>, dash: int, dot: int, dash2: int, dot2: int)
    requires
        is_name_split(file, dash, dot),
        is_name_split(file, dash2, dot2),
    ensures
        dash == dash2,
        dot == dot2,
{
    if dot < dot2 {
        assert(file[dot] != DOT);
    }
    if dot2 < dot {
        assert(file[dot2] != DOT);
    }
    if dash < dash2 {
        assert(is_digit(file[dash2]));
    }
    if dash2 < dash {
        assert(is_digit(file[dash]));
    }
}

/// A name that a file name shows is not empty, holds no dot, and stands at
/// the front of the file name, before a dash.
pub proof fn lemma_inferred_name_is_prefix(file: Seq<u8>)
    requires
        inferred_name(file) is Some,
    ensures
        ({
            let name = inferred_name(file)->0;
            &&& 0 < name.len() < file.len()
            &&& file.subrange(0, name.len() as int) == name
            &&& file[name.len() as int] == DASH
            &&& forall|j: int| 0 <= j < name.len() ==> name[j] != DOT
        }),
{
    let (dash, dot) = choose|dash: int, dot: int| is_name_split(file, dash, dot);
    let name = file.subrange(0, dash);
    assert forall|j: int| 0 <= j < name.len() implies name[j] != DOT by {
        assert(name[j] == file[j]);
    }
}

/// A name that is resolved from a file name in UTF-8, with a hint in UTF-8,
/// is UTF-8.
pub proof fn lemma_resolved_name_is_utf8(file: Seq<u8>, hint: Option<Seq<u8>>)
    requires
        valid_utf8(file),
        resolved_name(file, hint) is Ok,
    ensures
        valid_utf8(resolved_name(file, hint)->Ok_0),
{
    lemma_inferred_name_is_prefix(file);
    let name = inferred_name(file)->0;
    is_char_boundary_iff_not_is_continuation_byte(file, name.len() as int);
    valid_utf8_split(file, name.len() as int);
}

/// The crate name that the file name shows, if it shows one.
pub fn infer_name(file_name: &str) -> (name: Option<&str>)
    ensures
        bytes_of(name) == inferred_name(file_name.spec_bytes()),
{
    let bytes = file_name.as_bytes();
    let ghost file = file_name.spec_bytes();
    let dot = match find_byte(bytes, DOT) {
        Some(dot) => dot,
        None => {
            assert forall|d: int, t: int| !is_name_split(file, d, t) by {}
            return None;
        },
    };
    let stem = slice_subrange(bytes, 0, dot);
    let dash = match rfind_byte(stem, DASH) {
        Some(dash) => dash,
        None => {
            assert forall|d: int, t: int| !is_name_split(file, d, t) by {
                if is_name_split(file, d, t) {
                    lemma_first_dot(file, dot as int, t);
                    assert(stem@[d] == file[d]);
                }
            }
            return None;
        },
    };
    assert(file[dash as int] == stem@[dash as int]);
    if dash == 0 || dash + 1 == dot {
        assert forall|d: int, t: int| !is_name_split(file, d, t) by {
            if is_name_split(file, d, t) {
                lemma_first_dot(file, dot as int, t);
                lemma_last_dash(file, dash as int, dot as int, d);
            }
        }
        return None;
    }
    let mut k: usize = dash + 1;
    while k < dot
        invariant
            dash < k <= dot,
            dot < bytes@.len(),
            bytes@ == file,
            file == file_name.spec_bytes(),
            forall|j: int| dash < j < k ==> is_digit(#[trigger] file[j]),
            is_first_byte(file, DOT, dot as int),
            is_last_byte(stem@, DASH, dash as int),
            stem@ == file.subrange(0, dot as int),
        decreases dot - k,
    {
        let byte = bytes[k];
        if byte < ZERO || byte > NINE {
            assert forall|d: int, t: int| !is_name_split(file, d, t) by {
                if is_name_split(file, d, t) {
                    lemma_first_dot(file, dot as int, t);
                    lemma_last_dash(file, dash as int, dot as int, d);
                    assert(is_digit(file[k as int]));
                }
            }
            return None;
        }
        k += 1;
    }
    proof {
        assert(is_name_split(file, dash as int, dot as int));
        let (d, t) = choose|d: int, t: int| is_name_split(file, d, t);
        lemma_name_split_unique(file, dash as int, dot as int, d, t);
        encode_utf8_valid_utf8(file_name@);
        is_char_boundary_iff_not_is_continuation_byte(file, dash as int);
    }
    let (name, _) = file_name.split_at(dash);
    Some(name)
}

/// The first dot of a file name is where every split has its dot.
proof fn lemma_first_dot(file: Seq<u8>, dot: int, t: int)
    requires
        is_first_byte(file, DOT, dot),
        0 <= t < file.len(),
        file[t] == DOT,
        forall|j: int| 0 <= j < t ==> file[j] != DOT,
    ensures
        t == dot,
{
}

/// The last dash before the first dot is where every split has its dash.
proof fn lemma_last_dash(file: Seq<u8>, dash: int, dot: int, d: int)
    requires
        0 <= dot <= file.len(),
        is_last_byte(file.subrange(0, dot), DASH, dash),
        is_name_split(file, d, dot),
    ensures
        d == dash,
{
    let stem = file.subrange(0, dot);
    assert(stem[dash] == file[dash]);
    assert(stem[d] == file[d]);
    if dash < d {
        assert(stem[d] != DASH);
    }
    if d < dash {
        assert(is_digit(file[dash]));
    }
}

/// The old name to work with. It is the name that the file name shows; a
/// name that the caller gives has to be that same name.
pub fn resolve_name<'a>(file_name: &'a str, hint: Option<&str>) -> (resolved: Result<&'a str, Error>)
    ensures
        match resolved_name(file_name.spec_bytes(), bytes_of(hint)) {
            Ok(name) => resolved matches Ok(n) && n.spec_bytes() == name && name.len() > 0,
            Err(failure) => resolved matches Err(e) && e@ == failure,
        },
{
    let inferred = infer_name(file_name);
    proof {
        if inferred_name(file_name.spec_bytes()) is Some {
            lemma_inferred_name_is_prefix(file_name.spec_bytes());
        }
    }
    match hint {
        Some(expected) => {
            let agrees = match inferred {
                Some(name) => same_bytes(name.as_bytes(), expected.as_bytes()),
                None => false,
            };
            if agrees {
                Ok(inferred.unwrap())
            } else {
                let found = match inferred {
                    Some(name) => Some(slice_to_vec(name.as_bytes())),
                    None => None,
                };
                Err(Error::NameMismatch { found, expected: slice_to_vec(expected.as_bytes()) })
            }
        },
        None => match inferred {
            Some(name) => Ok(name),
            None => Err(Error::NameInferenceFailed),
        },
    }
}

} // verus!
