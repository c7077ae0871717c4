//! The entries of an archive, held as plain bytes, and the way in which
//! reading them ended.

use vstd::prelude::*;

verus! {

/// The length of a tar header block.
pub const HEADER_LEN: usize = 512;

/// One entry of an archive: its header block, its path and its content.
#[derive(Debug, PartialEq, Eq)]
pub struct Entry {
    pub(crate) header: Vec<u8>,
    pub(crate) path: Vec<u8>,
    pub(crate) data: Vec<u8>,
}

/// An [`Entry`] as contracts speak of it.
pub struct EntryView {
    pub header: Seq<u8>,
    pub path: Seq<u8>,
    pub data: Seq<u8>,
}

impl View for Entry {
    type V = EntryView;

    closed spec fn view(&self) -> EntryView {
        EntryView { header: self.header@, path: self.path@, data: self.data@ }
    }
}

/// How the walk over an archive ended.
#[derive(Debug, PartialEq, Eq)]
pub enum ReadEnd {
    /// At the end of the archive.
    Complete,
    /// Before the end, where the next entry could not be found.
    BrokenWalk,
    /// Before the end, at an entry whose content could not be read. `path`
    /// is the path of that entry.
    BrokenEntry { path: Vec<u8> },
}

/// A [`ReadEnd`] as contracts speak of it.
pub enum ReadEndView {
    Complete,
    BrokenWalk,
    BrokenEntry { path: Seq<u8> },
}

impl View for ReadEnd {
    type V = ReadEndView;

    open spec fn view(&self) -> ReadEndView {
        match *self {
            ReadEnd::Complete => ReadEndView::Complete,
            ReadEnd::BrokenWalk => ReadEndView::BrokenWalk,
            ReadEnd::BrokenEntry { path } => ReadEndView::BrokenEntry { path: path@ },
        }
    }
}

/// The entries of a list as contracts speak of them.
pub open spec fn views(entries: Seq<Entry>) -> Seq<EntryView> {
    entries.map_values(|entry: Entry| entry@)
}

impl Entry {
    /// Every entry holds a whole header block.
    #[verifier::type_invariant]
    spec fn holds_header_block(self) -> bool {
        self.header@.len() == HEADER_LEN
    }

    /// An entry of the given parts; none where `header` is not a whole
    /// header block.
    pub fn new(header: Vec<u8>, path: Vec<u8>, data: Vec<u8>) -> (made: Option<Entry>)
        ensures
            match made {
                Some(entry) => header@.len() == HEADER_LEN && entry@ == (EntryView {
                    header: header@,
                    path: path@,
                    data: data@,
                }),
                None => header@.len() != HEADER_LEN,
            },
    {
        if header.len() == HEADER_LEN {
            Some(Entry::assemble(header, path, data))
        } else {
            None
        }
    }

    /// An entry of the given parts.
    pub(crate) fn assemble(header: Vec<u8>, path: Vec<u8>, data: Vec<u8>) -> (made: Entry)
        requires
            header@.len() == HEADER_LEN,
        ensures
            made@ == (EntryView { header: header@, path: path@, data: data@ }),
    {
        Entry { header, path, data }
    }

    /// The header block, which is [`HEADER_LEN`] bytes long.
    pub fn header(&self) -> (header: &[u8])
        ensures
            header@ == self@.header,
            header@.len() == HEADER_LEN,
    {
        proof {
            use_type_invariant(self);
        }
        self.header.as_slice()
    }

    /// The path.
    pub fn path(&self) -> (path: &[u8])
        ensures
            path@ == self@.path,
    {
        self.path.as_slice()
    }

    /// The content.
    pub fn data(&self) -> (data: &[u8])
        ensures
            data@ == self@.data,
    {
        self.data.as_slice()
    }

    /// The header block, the path and the content.
    pub fn into_parts(self) -> (parts: (Vec<u8>, Vec<u8>, Vec<u8>))
        ensures
            parts.0@ == self@.header,
            parts.1@ == self@.path,
            parts.2@ == self@.data,
            parts.0@.len() == HEADER_LEN,
    {
        proof {
            use_type_invariant(&self);
        }
        (self.header, self.path, self.data)
    }
}

} // verus!
