//! Source files outside the library: what they say of the crate under its
//! old name is said of it under the new name.

use crate::codec::is_utf8;
use crate::error::{Error, Failure, Stage};
use crate::text::{
    contains, lemma_replaced_absent, occurs_in, replace_all, replaced,
};
use vstd::prelude::*;
use vstd::slice::slice_to_vec;
use vstd::utf8::valid_utf8;

verus! {

/// The source file `text` with `to` for every `from`. A file that is not
/// UTF-8 is no text and cannot be read.
pub open spec fn rewritten_source(text: Seq<u8>, from: Seq<u8>, to: Seq<u8>) -> Result<
    Seq<u8>,
    Failure,
> {
    if valid_utf8(text) {
        Ok(replaced(text, from, to))
    } else {
        Err(Failure::Codec { stage: Stage::ReadSource })
    }
}

/// The text `text` with `to` for every `from`. Text that does not hold
/// `from` comes back as it is.
pub fn rewrite_references(text: &[u8], from: &[u8], to: &[u8]) -> (out: Vec<u8>)
    ensures
        out@ == replaced(text@, from@, to@),
        !occurs_in(text@, from@) ==> out@ == text@,
{
    if contains(text, from) {
        proof {
            if !occurs_in(text@, from@) {
                lemma_replaced_absent(text@, from@, to@);
            }
        }
        replace_all(text, from, to)
    } else {
        proof {
            lemma_replaced_absent(text@, from@, to@);
        }
        slice_to_vec(text)
    }
}

/// Rewrites the source file `text`.
pub fn rewrite_source(text: &[u8], from: &[u8], to: &[u8]) -> (rewritten: Result<Vec<u8>, Error>)
    ensures
        match rewritten_source(text@, from@, to@) {
            Ok(out) => rewritten matches Ok(bytes) && bytes@ == out,
            Err(failure) => rewritten matches Err(e) && e@ == failure,
        },
{
    if is_utf8(text) {
        Ok(rewrite_references(text, from, to))
    } else {
        Err(Error::Codec { stage: Stage::ReadSource })
    }
}

} // verus!
