//! Values read from the database file's header and pages.
use vstd::prelude::*;

verus! {

/// The database header, reduced to what the reader needs.
/// `page_size` is a power of two between 1 and 65536.
#[derive(Debug, Clone, Copy, PartialEq, Eq, Structural)]
pub struct DbHeader {
    pub page_size: u32,
}

/// A leaf page of a table B-tree.
pub struct TableLeafPage {
    pub header: PageHeader,
}

/// A page of the file, by kind.
pub enum Page {
    TableLeaf(TableLeafPage),
}

/// The header at the start of a B-tree page.
pub struct PageHeader {
    cell_count: u16,
}

impl PageHeader {
    /// A page header that announces `cell_count` cells.
    pub fn new(cell_count: u16) -> (r: PageHeader)
        ensures
            r.cell_count() == cell_count,
    {
        PageHeader { cell_count }
    }

    pub closed spec fn cell_count_spec(&self) -> u16 {
        self.cell_count
    }

    /// The number of cells on the page.
    #[verifier::when_used_as_spec(cell_count_spec)]
    pub fn cell_count(&self) -> (r: u16)
        ensures
            r == self.cell_count_spec(),
    {
        self.cell_count
    }
}

} // verus!
