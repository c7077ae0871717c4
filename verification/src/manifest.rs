//! The manifest: it has to describe the one package under its old name, and
//! is written out again under the new name.

use crate::codec::{
    parse_manifest, parsed_manifest, rename_manifest, renamed_manifest, ManifestSummary,
    ManifestSummaryView,
};
use crate::error::{Error, Failure, Stage};
use crate::text::same_bytes;
use vstd::prelude::*;
use vstd::slice::slice_to_vec;

verus! {

/// Whether a manifest that says `summary` of itself can be renamed from
/// `old_name`: a workspace is refused whatever else the manifest holds, then
/// a manifest without a package, then a package of another name.
pub open spec fn manifest_verdict(summary: ManifestSummaryView, old_name: Seq<u8>) -> Result<
    (),
    Failure,
> {
    if summary.is_workspace {
        Err(Failure::WorkspaceNotSupported)
    } else {
        match summary.package_name {
            None => Err(Failure::MissingPackageSection),
            Some(name) => if name == old_name {
                Ok(())
            } else {
                Err(Failure::NameMismatch { found: Some(name), expected: old_name })
            },
        }
    }
}

/// The manifest `manifest` renamed from `old_name` to `new_name`: it has to
/// be readable and to pass [`manifest_verdict`]; what comes out is what the
/// manifest writer makes of it under the new name.
pub open spec fn edited_manifest(manifest: Seq<u8>, old_name: Seq<u8>, new_name: Seq<u8>) -> Result<
    Seq<u8>,
    Failure,
> {
    match parsed_manifest(manifest) {
        None => Err(Failure::ManifestParseError),
        Some(summary) => match manifest_verdict(summary, old_name) {
            Err(failure) => Err(failure),
            Ok(()) => match renamed_manifest(manifest, new_name) {
                Some(out) => Ok(out),
                None => Err(Failure::Codec { stage: Stage::SerializeManifest }),
            },
        },
    }
}

/// Checks that a manifest that says `summary` of itself describes the one
/// package `old_name`.
pub fn check_manifest(summary: &ManifestSummary, old_name: &[u8]) -> (verdict: Result<(), Error>)
    ensures
        match manifest_verdict(summary@, old_name@) {
            Ok(()) => verdict is Ok,
            Err(failure) => verdict matches Err(e) && e@ == failure,
        },
        summary.is_workspace ==> verdict == Err::<(), Error>(Error::WorkspaceNotSupported),
{
    if summary.is_workspace {
        return Err(Error::WorkspaceNotSupported);
    }
    match &summary.package_name {
        None => Err(Error::MissingPackageSection),
        Some(name) => {
            if same_bytes(name.as_slice(), old_name) {
                Ok(())
            } else {
                Err(
                    Error::NameMismatch {
                        found: Some(slice_to_vec(name.as_slice())),
                        expected: slice_to_vec(old_name),
                    },
                )
            }
        },
    }
}

/// Renames the package in `manifest` from `old_name` to `new_name`.
pub fn edit_manifest(manifest: &[u8], old_name: &[u8], new_name: &[u8]) -> (edited: Result<
    Vec<u8>,
    Error,
>)
    ensures
        match edited_manifest(manifest@, old_name@, new_name@) {
            Ok(out) => edited matches Ok(bytes) && bytes@ == out,
            Err(failure) => edited matches Err(e) && e@ == failure,
        },
{
    let summary = match parse_manifest(manifest) {
        Some(summary) => summary,
        None => {
            return Err(Error::ManifestParseError);
        },
    };
    match check_manifest(&summary, old_name) {
        Ok(()) => {},
        Err(e) => {
            return Err(e);
        },
    }
    match rename_manifest(manifest, new_name) {
        Some(out) => Ok(out),
        None => Err(Error::Codec { stage: Stage::SerializeManifest }),
    }
}

} // verus!
