use vstd::prelude::*;

verus! {

/// A virtual or physical address.
pub type Address = u64;

/// A length in bytes.
pub type Length = usize;

/// What a page of memory is used for.
#[derive(Clone, Copy, Debug, PartialEq, Eq, Structural)]
pub enum PageType {
    Unknown,
    PageTable,
    Writeable,
    ReadOnly,
}

/// A page of physical memory.
#[derive(Clone, Copy, Debug, PartialEq, Eq, Structural)]
pub struct Page {
    pub page_type: PageType,
    /// Address of the first byte of the page.
    pub page_base: Address,
    /// Size of the page in bytes.
    pub page_size: Length,
}

/// A physical address, with the page that holds it where the translation
/// that produced it knows that page.
#[derive(Clone, Copy, Debug, PartialEq, Eq, Structural)]
pub struct PhysicalAddress {
    pub address: Address,
    pub page: Option<Page>,
}

} // verus!
