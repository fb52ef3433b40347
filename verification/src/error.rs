use vstd::prelude::*;

verus! {

/// Errors reported by the memory introspection functions.
#[derive(Clone, Copy, Debug, PartialEq, Eq, Structural)]
pub enum Error {
    /// A virtual address could not be translated into a physical one.
    VirtualTranslate,
    /// The physical memory backend failed to read or write.
    PhysicalMemory,
    /// A translation succeeded but carried no information about its page.
    PageInfoNotFound,
    /// A `UNICODE_STRING` had a zero length or a null buffer pointer.
    UnicodeStringLength,
    /// A `UNICODE_STRING` length that is not a multiple of two.
    UnicodeStringAlignment,
    /// A `UNICODE_STRING` length too large to hold its terminator.
    UnicodeStringTooLong,
    /// The process architecture has no `UNICODE_STRING` layout.
    InvalidProcArch,
    /// A wide string without a nul terminator.
    Encoding,
    /// A signature pattern with a token that is neither a wildcard nor a hex byte.
    MalformedPattern,
    /// A signature pattern that occurs nowhere in the searched buffer.
    PatternNotFound,
    /// A module could not report its base, size or name.
    Module,
}

} // verus!
