//! One entry of an archive listing.
use vstd::prelude::*;

verus! {

/// An entry of an archive as the archiver lists it.
#[derive(Debug, Clone, PartialEq, Eq)]
pub struct ArchiveEntry {
    pub path: String,
    pub size: u64,
    pub packed_size: u64,
    /// As the archiver prints it, e.g. "2026-07-01 10:00:00".
    pub modified: Option<String>,
    pub is_dir: bool,
    pub encrypted: bool,
}

/// The mathematical value of an [`ArchiveEntry`].
pub struct EntryView {
    pub path: Seq<char>,
    pub size: u64,
    pub packed_size: u64,
    pub modified: Option<Seq<char>>,
    pub is_dir: bool,
    pub encrypted: bool,
}

/// The view of an optional string.
pub open spec fn opt_view(o: Option<String>) -> Option<Seq<char>> {
    match o {
        Some(s) => Some(s@),
        None => None,
    }
}

impl View for ArchiveEntry {
    type V = EntryView;

    open spec fn view(&self) -> EntryView {
        EntryView {
            path: self.path@,
            size: self.size,
            packed_size: self.packed_size,
            modified: opt_view(self.modified),
            is_dir: self.is_dir,
            encrypted: self.encrypted,
        }
    }
}

/// The views of a sequence of entries.
pub open spec fn entries_view(v: Seq<ArchiveEntry>) -> Seq<EntryView> {
    v.map_values(|e: ArchiveEntry| e@)
}

} // verus!
