//! A tree and its entries, borrowed from the bytes they were decoded from.

use vstd::prelude::*;
use crate::tree::grammar::EntryView;
use crate::tree::mode::Mode;

verus! {

/// A directory: its entries in the order in which they were stored.
#[derive(PartialEq, Eq, Debug, Hash, Ord, PartialOrd, Clone)]
pub struct Tree<'a> {
    pub entries: Vec<Entry<'a>>,
}

/// One member of a directory.
#[derive(PartialEq, Eq, Debug, Hash, Ord, PartialOrd, Clone)]
pub struct Entry<'a> {
    /// What the entry stands for.
    pub mode: Mode,
    /// The name of the entry within its directory.
    pub filename: &'a [u8],
    /// The id of the object, a SHA1 of 20 bytes.
    pub oid: &'a [u8],
}

impl<'a> View for Entry<'a> {
    type V = EntryView;

    open spec fn view(&self) -> EntryView {
        EntryView { mode: self.mode, filename: self.filename@, oid: self.oid@ }
    }
}

impl<'a> View for Tree<'a> {
    type V = Seq<EntryView>;

    open spec fn view(&self) -> Seq<EntryView> {
        self.entries@.map_values(|entry: Entry<'a>| entry@)
    }
}

} // verus!
