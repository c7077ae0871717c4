//! Repackages a `.crate` archive so that it holds the same crate under
//! another name.
//!
//! The archive is a gzip stream of a tar archive whose entries lie under one
//! package directory, named like the archive's file without its extension.
//! Repackaging reads the old name off the file name, renames the package in
//! the manifest, moves every entry to the directory of the new name, and
//! rewrites paths into the crate in source files outside the library. The
//! library works on bytes: reading the old archive from a file and writing
//! the new one is left to the caller.

pub mod codec;
pub mod entry;
pub mod error;
pub mod laws;
pub mod manifest;
pub mod name;
pub mod path;
pub mod plan;
pub mod source;
pub mod text;
pub mod transcode;

use crate::codec::{archive_entries, read_archive};
use crate::entry::{EntryView, ReadEndView};
use crate::error::{Error, Failure};
use crate::name::bytes_of;
use crate::plan::{plan, planned};
use crate::transcode::{repackage, repackaged_archive};
use vstd::prelude::*;
use vstd::string::StringSliceAdditionalSpecFns;
use vstd::utf8::encode_utf8;

verus! {

/// A repackaged archive.
#[derive(Debug, PartialEq, Eq)]
pub struct Repackaged {
    /// The file name for the new archive: that of the old archive, with the
    /// new name for the old.
    pub file_name: String,
    /// The new archive.
    pub archive: Vec<u8>,
}

/// What repackaging the archive named `file` comes to: the new file name and
/// the new archive. `read` is what the tar reader finds in the old archive.
pub open spec fn repackaged(
    file: Seq<u8>,
    read: (Seq<EntryView>, ReadEndView),
    hint: Option<Seq<u8>>,
    new_name: Seq<u8>,
) -> Result<(Seq<u8>, Seq<u8>), Failure> {
    match planned(file, hint, new_name) {
        Err(failure) => Err(failure),
        Ok(plan) => match repackaged_archive(read.0, read.1, plan) {
            Err(failure) => Err(failure),
            Ok(image) => Ok((plan.file_name, image)),
        },
    }
}

/// Repackages the crate in `archive`, the content of the `.crate` file named
/// `file_name`, as `new_name`.
///
/// The old name is read off the file name. Pass it in as `old_name` to make
/// sure that the archive holds the crate that it is taken for.
pub fn dot_crate(file_name: &str, archive: &[u8], old_name: Option<&str>, new_name: &str) -> (out:
    Result<Repackaged, Error>)
    ensures
        match repackaged(
            file_name.spec_bytes(),
            archive_entries(archive@),
            bytes_of(old_name),
            new_name.spec_bytes(),
        ) {
            Ok((name, image)) => out matches Ok(done) && encode_utf8(done.file_name@) == name
                && done.archive@ == image,
            Err(failure) => out matches Err(e) && e@ == failure,
        },
{
    let plan = match plan(file_name, old_name, new_name) {
        Ok(plan) => plan,
        Err(e) => {
            return Err(e);
        },
    };
    let (entries, end) = read_archive(archive);
    let image = match repackage(entries, end, &plan) {
        Ok(image) => image,
        Err(e) => {
            return Err(e);
        },
    };
    Ok(Repackaged { file_name: plan.file_name, archive: image })
}

} // verus!
