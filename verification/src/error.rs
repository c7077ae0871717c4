//! The ways in which repackaging fails. Names and paths are byte strings, as
//! they stand in file names and in the archive.

use vstd::prelude::*;

verus! {

/// The step at which the archive's codec gave up.
#[derive(Debug, Clone, Copy, PartialEq, Eq)]
pub enum Stage {
    /// Walking the entries of the archive that was given.
    WalkEntries,
    /// Reading the manifest.
    ReadManifest,
    /// Reading a source file as text.
    ReadSource,
    /// Writing the renamed manifest out again.
    SerializeManifest,
    /// Appending the renamed manifest to the new archive.
    AppendManifest,
    /// Appending a rewritten source file to the new archive.
    AppendSource,
    /// Appending an entry that was left as it is to the new archive.
    AppendUnmodified,
    /// Closing the new archive.
    Finish,
}

/// Why an archive could not be repackaged.
#[derive(Debug, PartialEq, Eq)]
pub enum Error {
    /// What was given as the archive's file name is not a file name.
    InvalidInputPath,
    /// No old name was given, and the file name does not show one.
    NameInferenceFailed,
    /// A name that was found is not the name that was expected. `found` is
    /// the name that the file name or the manifest shows, if it shows one.
    NameMismatch { found: Option<Vec<u8>>, expected: Vec<u8> },
    /// The manifest describes a workspace.
    WorkspaceNotSupported,
    /// The manifest describes no package.
    MissingPackageSection,
    /// The manifest could not be read.
    ManifestParseError,
    /// An entry of the archive does not lie under the package's directory.
    EntryOutsidePackageRoot { path: Vec<u8> },
    /// The archive holds no manifest.
    MissingManifest,
    /// The archive's codec failed at the given step.
    Codec { stage: Stage },
}

/// An [`Error`] as contracts speak of it.
pub enum Failure {
    InvalidInputPath,
    NameInferenceFailed,
    NameMismatch { found: Option<Seq<u8>>, expected: Seq<u8> },
    WorkspaceNotSupported,
    MissingPackageSection,
    ManifestParseError,
    EntryOutsidePackageRoot { path: Seq<u8> },
    MissingManifest,
    Codec { stage: Stage },
}

impl View for Error {
    type V = Failure;

    open spec fn view(&self) -> Failure {
        match *self {
            Error::InvalidInputPath => Failure::InvalidInputPath,
            Error::NameInferenceFailed => Failure::NameInferenceFailed,
            Error::NameMismatch { found, expected } => Failure::NameMismatch {
                found: match found {
                    Some(name) => Some(name@),
                    None => None,
                },
                expected: expected@,
            },
            Error::WorkspaceNotSupported => Failure::WorkspaceNotSupported,
            Error::MissingPackageSection => Failure::MissingPackageSection,
            Error::ManifestParseError => Failure::ManifestParseError,
            Error::EntryOutsidePackageRoot { path } => Failure::EntryOutsidePackageRoot {
                path: path@,
            },
            Error::MissingManifest => Failure::MissingManifest,
            Error::Codec { stage } => Failure::Codec { stage },
        }
    }
}

} // verus!
