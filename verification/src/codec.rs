//! What the library has from outside: the gzip and tar codecs, the manifest
//! parser and writer, and the test for UTF-8. Verus believes the contracts
//! in this file; nothing here is proved. Each name below stands for what an
//! outside function computes from its arguments, as it is built for the
//! target at hand.

use crate::entry::{views, Entry, EntryView, ReadEnd, ReadEndView, HEADER_LEN};
use vstd::prelude::*;
use vstd::utf8::{decode_utf8, valid_utf8};

verus! {

/// What a manifest says of itself, as far as repackaging asks.
#[derive(Debug, PartialEq, Eq)]
pub struct ManifestSummary {
    /// Whether the manifest describes a workspace.
    pub is_workspace: bool,
    /// The name of the package that the manifest describes, if it describes
    /// one.
    pub package_name: Option<Vec<u8>>,
}

/// A [`ManifestSummary`] as contracts speak of it.
pub struct ManifestSummaryView {
    pub is_workspace: bool,
    pub package_name: Option<Seq<u8>>,
}

impl View for ManifestSummary {
    type V = ManifestSummaryView;

    open spec fn view(&self) -> ManifestSummaryView {
        ManifestSummaryView {
            is_workspace: self.is_workspace,
            package_name: match self.package_name {
                Some(name) => Some(name@),
                None => None,
            },
        }
    }
}

/// The entries that the tar reader walks in the gzip stream `archive`, up to
/// the end of the archive or to the first entry that cannot be read, and how
/// the walk ended.
pub uninterp spec fn archive_entries(archive: Seq<u8>) -> (Seq<EntryView>, ReadEndView);

/// `header` after `tar::Header::set_size`.
pub uninterp spec fn header_with_size(header: Seq<u8>, size: u64) -> Seq<u8>;

/// `header` after `tar::Header::set_cksum`.
pub uninterp spec fn header_with_checksum(header: Seq<u8>) -> Seq<u8>;

/// What `cargo_toml::Manifest::from_slice` reads in `manifest`: none where
/// it fails.
pub uninterp spec fn parsed_manifest(manifest: Seq<u8>) -> Option<ManifestSummaryView>;

/// The manifest that `toml` writes for `manifest` once the package in it is
/// called `name`: none where the manifest cannot be read, describes no
/// package, or cannot be written, or where `name` is not UTF-8.
pub uninterp spec fn renamed_manifest(manifest: Seq<u8>, name: Seq<u8>) -> Option<Seq<u8>>;

/// Whether `tar::Builder::append_data` takes an entry with this header
/// block at this path.
pub uninterp spec fn appendable(header: Seq<u8>, path: Seq<u8>) -> bool;

/// The entries that were appended to `writer`, in their order.
pub uninterp spec fn appended(writer: ArchiveWriter) -> Seq<EntryView>;

/// The gzip stream of the tar archive that holds `entries`: none where the
/// archive cannot be closed.
pub uninterp spec fn archive_image(entries: Seq<EntryView>) -> Option<Seq<u8>>;

/// A tar archive in the making, compressed as it is written.
#[verifier::external_body]
pub struct ArchiveWriter {
    inner: tar::Builder<flate2::write::GzEncoder<Vec<u8>>>,
}

/// Walks `tar::Archive::entries` over a `flate2::read::GzDecoder` on
/// `archive`, and hands out each entry's header block, path and content.
/// The walk stops at the first entry that cannot be read. Claimed: the
/// outcome depends on `archive` alone, and every header block is
/// [`HEADER_LEN`] bytes long.
#[verifier::external_body]
pub(crate) fn read_archive(archive: &[u8]) -> (read: (Vec<Entry>, ReadEnd))
    ensures
        (views(read.0@), read.1@) == archive_entries(archive@),
{
    let mut entries = Vec::new();
    let mut tar = tar::Archive::new(flate2::read::GzDecoder::new(archive));
    let Ok(walk) = tar.entries() else { return (entries, ReadEnd::BrokenWalk) };
    for entry in walk {
        let Ok(mut entry) = entry else { return (entries, ReadEnd::BrokenWalk) };
        let header = entry.header().as_bytes().to_vec();
        let path = entry.path_bytes().into_owned();
        let mut data = Vec::new();
        if std::io::Read::read_to_end(&mut entry, &mut data).is_err() {
            return (entries, ReadEnd::BrokenEntry { path });
        }
        entries.push(Entry { header, path, data });
    }
    (entries, ReadEnd::Complete)
}

/// Calls `tar::Header::set_size` on a copy of `header`. Claimed: the outcome
/// depends on `header` and `size` alone, and is a header block again.
#[verifier::external_body]
pub(crate) fn set_header_size(header: &[u8], size: u64) -> (out: Vec<u8>)
    requires
        header@.len() == HEADER_LEN,
    ensures
        out@ == header_with_size(header@, size),
        out@.len() == HEADER_LEN,
{
    let mut header = tar::Header::from_byte_slice(header).clone();
    header.set_size(size);
    header.as_bytes().to_vec()
}

/// Calls `tar::Header::set_cksum` on a copy of `header`. Claimed: the
/// outcome depends on `header` alone, and is a header block again.
#[verifier::external_body]
pub(crate) fn set_header_checksum(header: &[u8]) -> (out: Vec<u8>)
    requires
        header@.len() == HEADER_LEN,
    ensures
        out@ == header_with_checksum(header@),
        out@.len() == HEADER_LEN,
{
    let mut header = tar::Header::from_byte_slice(header).clone();
    header.set_cksum();
    header.as_bytes().to_vec()
}

/// Calls `cargo_toml::Manifest::from_slice` and hands out whether the
/// manifest has a workspace table and what its package is called. Claimed:
/// the outcome depends on `manifest` alone.
#[verifier::external_body]
pub(crate) fn parse_manifest(manifest: &[u8]) -> (parsed: Option<ManifestSummary>)
    ensures
        match parsed {
            Some(summary) => parsed_manifest(manifest@) == Some(summary@),
            None => parsed_manifest(manifest@) is None,
        },
{
    let manifest = cargo_toml::Manifest::from_slice(manifest).ok()?;
    let package_name = manifest.package.map(|package| package.name.into_bytes());
    Some(ManifestSummary { is_workspace: manifest.workspace.is_some(), package_name })
}

/// Reads `manifest` with `cargo_toml::Manifest::from_slice`, puts `name` in
/// as the package's name, and writes the manifest with
/// `toml::Value::try_from` and `toml::to_vec`. Claimed: the outcome depends
/// on `manifest` and `name` alone.
#[verifier::external_body]
pub(crate) fn rename_manifest(manifest: &[u8], name: &[u8]) -> (out: Option<Vec<u8>>)
    ensures
        match out {
            Some(bytes) => renamed_manifest(manifest@, name@) == Some(bytes@),
            None => renamed_manifest(manifest@, name@) is None,
        },
{
    let mut manifest = cargo_toml::Manifest::from_slice(manifest).ok()?;
    manifest.package.as_mut()?.name = String::from_utf8(name.to_vec()).ok()?;
    let value = toml::Value::try_from(&manifest).ok()?;
    toml::to_vec(&value).ok()
}

/// Calls `std::str::from_utf8`, which accepts the well-formed UTF-8
/// strings and no others.
#[verifier::external_body]
pub(crate) fn is_utf8(bytes: &[u8]) -> (valid: bool)
    ensures
        valid == valid_utf8(bytes@),
{
    std::str::from_utf8(bytes).is_ok()
}

/// Calls `String::from_utf8_lossy`, which hands back well-formed UTF-8 as
/// the text that it encodes.
#[verifier::external_body]
pub(crate) fn text_of(bytes: &[u8]) -> (text: String)
    ensures
        valid_utf8(bytes@) ==> text@ == decode_utf8(bytes@),
{
    String::from_utf8_lossy(bytes).into_owned()
}

/// Makes a `tar::Builder` over a gzip encoder at the best compression, with
/// nothing appended yet.
#[verifier::external_body]
pub(crate) fn writer_new() -> (writer: ArchiveWriter)
    ensures
        appended(writer) == Seq::<EntryView>::empty(),
{
    let gz = flate2::GzBuilder::new().write(Vec::new(), flate2::Compression::best());
    ArchiveWriter { inner: tar::Builder::new(gz) }
}

/// Calls `tar::Builder::append_data` with a copy of `header`. Claimed:
/// whether the entry is taken depends on `header` and `path` alone (a path
/// that is not UTF-8 is not taken), and an entry that is taken comes behind
/// those that were appended before.
#[verifier::external_body]
pub(crate) fn writer_append(
    writer: &mut ArchiveWriter,
    header: &[u8],
    path: &[u8],
    data: &[u8],
) -> (taken: bool)
    requires
        header@.len() == HEADER_LEN,
    ensures
        taken == appendable(header@, path@),
        taken ==> appended(*final(writer)) == appended(*old(writer)).push(
            EntryView { header: header@, path: path@, data: data@ },
        ),
{
    let Ok(path) = std::str::from_utf8(path) else { return false };
    let mut header = tar::Header::from_byte_slice(header).clone();
    writer.inner.append_data(&mut header, path, data).is_ok()
}

/// Closes the archive with `tar::Builder::into_inner` and the gzip stream
/// with `flate2::write::GzEncoder::finish`. Claimed: the bytes depend on the
/// entries that were appended alone.
#[verifier::external_body]
pub(crate) fn writer_finish(writer: ArchiveWriter) -> (image: Option<Vec<u8>>)
    ensures
        match image {
            Some(bytes) => archive_image(appended(writer)) == Some(bytes@),
            None => archive_image(appended(writer)) is None,
        },
{
    writer.inner.into_inner().ok()?.finish().ok()
}

} // verus!
