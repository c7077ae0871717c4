//! What one repackaging works with: the two names, the two package
//! directories, the new archive's file name, and the text to look for in
//! source files with the text to put in its place.

use crate::error::{Error, Failure};
use crate::codec::text_of;
use crate::name::{bytes_of, lemma_resolved_name_is_utf8, resolve_name, resolved_name};
use crate::text::{
    find_byte, is_last_byte, lemma_replaced_is_utf8, replace_all, replaced, rfind_byte, COLON,
    DASH, DOT, SLASH, SPACE, UNDERSCORE,
};
use vstd::prelude::*;
use vstd::slice::{slice_subrange, slice_to_vec};
use vstd::string::StringSliceAdditionalSpecFns;
use vstd::utf8::{decode_utf8_encode_utf8, encode_utf8, encode_utf8_valid_utf8};

verus! {

/// True when `file` can name a file: it is not empty, holds no slash, and is
/// neither `.` nor `..`.
pub open spec fn is_file_name(file: Seq<u8>) -> bool {
    &&& file.len() > 0
    &&& forall|j: int| 0 <= j < file.len() ==> file[j] != SLASH
    &&& file != seq![DOT]
    &&& file != seq![DOT, DOT]
}

/// A byte of a crate name as source text writes it: with an underscore for
/// a dash.
pub open spec fn in_source(byte: u8) -> u8 {
    if byte == DASH {
        UNDERSCORE
    } else {
        byte
    }
}

/// How source text begins a path into the crate `name`: a space, the name
/// with underscores for its dashes, and two colons.
pub open spec fn pattern_of(name: Seq<u8>) -> Seq<u8> {
    seq![SPACE] + name.map_values(|byte: u8| in_source(byte)) + seq![COLON, COLON]
}

/// `file` without its extension: what stands before the last dot, unless
/// that dot is the first byte or there is no dot.
pub open spec fn stem(file: Seq<u8>) -> Seq<u8> {
    if exists|dot: int| 0 < dot && is_last_byte(file, DOT, dot) {
        file.subrange(0, choose|dot: int| 0 < dot && is_last_byte(file, DOT, dot))
    } else {
        file
    }
}

/// What one repackaging works with.
#[derive(Debug, PartialEq, Eq)]
pub struct Plan {
    /// The name that the crate has.
    pub old_name: Vec<u8>,
    /// The name that the crate gets.
    pub new_name: Vec<u8>,
    /// The file name of the new archive.
    pub file_name: String,
    /// The package directory in the archive that was given.
    pub base: Vec<u8>,
    /// The package directory in the new archive.
    pub new_base: Vec<u8>,
    /// How source text begins a path into the crate under its old name.
    pub from: Vec<u8>,
    /// How source text begins a path into the crate under its new name.
    pub to: Vec<u8>,
}

/// A [`Plan`] as contracts speak of it.
pub struct PlanView {
    pub old_name: Seq<u8>,
    pub new_name: Seq<u8>,
    pub file_name: Seq<u8>,
    pub base: Seq<u8>,
    pub new_base: Seq<u8>,
    pub from: Seq<u8>,
    pub to: Seq<u8>,
}

impl View for Plan {
    type V = PlanView;

    open spec fn view(&self) -> PlanView {
        PlanView {
            old_name: self.old_name@,
            new_name: self.new_name@,
            file_name: encode_utf8(self.file_name@),
            base: self.base@,
            new_base: self.new_base@,
            from: self.from@,
            to: self.to@,
        }
    }
}

/// The plan for the archive named `file`, to be renamed from `old_name` to
/// `new_name`. The new file name is the old one with the new name for every
/// occurrence of the old name; each package directory is its archive's file
/// name without the extension.
pub open spec fn plan_for(file: Seq<u8>, old_name: Seq<u8>, new_name: Seq<u8>) -> PlanView {
    PlanView {
        old_name,
        new_name,
        file_name: replaced(file, old_name, new_name),
        base: stem(file),
        new_base: stem(replaced(file, old_name, new_name)),
        from: pattern_of(old_name),
        to: pattern_of(new_name),
    }
}

/// The plan for the archive named `file`: none where `file` is no file name
/// or the old name cannot be resolved.
pub open spec fn planned(file: Seq<u8>, hint: Option<Seq<u8>>, new_name: Seq<u8>) -> Result<
    PlanView,
    Failure,
> {
    if !is_file_name(file) {
        Err(Failure::InvalidInputPath)
    } else {
        match resolved_name(file, hint) {
            Ok(old_name) => Ok(plan_for(file, old_name, new_name)),
            Err(failure) => Err(failure),
        }
    }
}

/// A file name has one last dot at most.
proof fn lemma_last_byte_unique(file: Seq<u8>, byte: u8, at: int, other: int)
    requires
        is_last_byte(file, byte, at),
        is_last_byte(file, byte, other),
    ensures
        at == other,
{
}

/// Whether `file` can name a file.
pub fn check_file_name(file: &[u8]) -> (valid: bool)
    ensures
        valid == is_file_name(file@),
{
    if file.len() == 0 {
        return false;
    }
    if find_byte(file, SLASH).is_some() {
        return false;
    }
    if file.len() == 1 && file[0] == DOT {
        assert(file@ =~= seq![DOT]);
        return false;
    }
    if file.len() == 2 && file[0] == DOT && file[1] == DOT {
        assert(file@ =~= seq![DOT, DOT]);
        return false;
    }
    proof {
        if file@ == seq![DOT] {
            assert(seq![DOT].len() == 1);
            assert(seq![DOT][0] == DOT);
        }
        if file@ == seq![DOT, DOT] {
            assert(seq![DOT, DOT].len() == 2);
            assert(seq![DOT, DOT][0] == DOT);
            assert(seq![DOT, DOT][1] == DOT);
        }
    }
    true
}

/// `file` without its extension.
pub fn file_stem(file: &[u8]) -> (out: Vec<u8>)
    ensures
        out@ == stem(file@),
{
    match rfind_byte(file, DOT) {
        Some(dot) => {
            proof {
                if exists|d: int| 0 < d && is_last_byte(file@, DOT, d) {
                    let d = choose|d: int| 0 < d && is_last_byte(file@, DOT, d);
                    lemma_last_byte_unique(file@, DOT, dot as int, d);
                }
            }
            if dot > 0 {
                slice_to_vec(slice_subrange(file, 0, dot))
            } else {
                slice_to_vec(file)
            }
        },
        None => slice_to_vec(file),
    }
}

/// How source text begins a path into the crate `name`.
pub fn substitution_pattern(name: &[u8]) -> (out: Vec<u8>)
    ensures
        out@ == pattern_of(name@),
{
    let mut out: Vec<u8> = Vec::new();
    out.push(SPACE);
    let mut k: usize = 0;
    while k < name.len()
        invariant
            k <= name@.len(),
            out@ == seq![SPACE] + name@.subrange(0, k as int).map_values(
                |byte: u8| in_source(byte),
            ),
        decreases name@.len() - k,
    {
        let byte = name[k];
        out.push(if byte == DASH { UNDERSCORE } else { byte });
        k += 1;
        assert(out@ =~= seq![SPACE] + name@.subrange(0, k as int).map_values(
            |byte: u8| in_source(byte),
        ));
    }
    assert(name@.subrange(0, name@.len() as int) =~= name@);
    out.push(COLON);
    out.push(COLON);
    assert(out@ =~= pattern_of(name@));
    out
}

/// Draws up the plan for the archive named `file_name`, whose crate is to be
/// renamed to `new_name`. The old name is read off the file name; where the
/// caller gives it, it has to be the name that the file name shows.
pub fn plan(file_name: &str, old_name: Option<&str>, new_name: &str) -> (drawn: Result<Plan, Error>)
    ensures
        match planned(file_name.spec_bytes(), bytes_of(old_name), new_name.spec_bytes()) {
            Ok(plan) => drawn matches Ok(p) && p@ == plan,
            Err(failure) => drawn matches Err(e) && e@ == failure,
        },
{
    let file = file_name.as_bytes();
    if !check_file_name(file) {
        return Err(Error::InvalidInputPath);
    }
    let old = match resolve_name(file_name, old_name) {
        Ok(name) => name.as_bytes(),
        Err(e) => {
            return Err(e);
        },
    };
    let new = new_name.as_bytes();
    let renamed = replace_all(file, old, new);
    let new_base = file_stem(renamed.as_slice());
    proof {
        encode_utf8_valid_utf8(file_name@);
        encode_utf8_valid_utf8(new_name@);
        lemma_resolved_name_is_utf8(file@, bytes_of(old_name));
        lemma_replaced_is_utf8(file@, old@, new@);
        decode_utf8_encode_utf8(renamed@);
    }
    Ok(
        Plan {
            old_name: slice_to_vec(old),
            new_name: slice_to_vec(new),
            file_name: text_of(renamed.as_slice()),
            base: file_stem(file),
            new_base,
            from: substitution_pattern(old),
            to: substitution_pattern(new),
        },
    )
}

} // verus!
