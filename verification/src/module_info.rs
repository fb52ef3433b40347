//! Describes modules

use vstd::prelude::*;

use crate::types::Address;

verus! {

/// An unsigned integer as wide as a target address.
pub type Umem = u64;

/// Identifies the architecture of a process or a module.
#[derive(Clone, Copy, Debug, PartialEq, Eq, Structural)]
pub enum ArchitectureIdent {
    /// An architecture without a layout known here, with its page size.
    Unknown(usize),
    /// x86, with its word size in bits and whether addresses are extended
    /// (PAE).
    X86(u8, bool),
    /// AArch64, with its page size.
    AArch64(usize),
}

/// Module information structure
#[derive(Clone, Debug)]
pub struct ModuleInfo {
    /// Returns the address of the module header.
    ///
    /// # Remarks
    ///
    /// On Windows this will be the address where the `PEB` entry is stored.
    pub address: Address,
    /// The base address of the parent process.
    ///
    /// # Remarks
    ///
    /// This field is analog to the `ProcessInfo::address` field.
    pub parent_process: Address,
    /// The actual base address of this module.
    ///
    /// # Remarks
    ///
    /// The base address is contained in the virtual address range of the process
    /// this module belongs to.
    pub base: Address,
    /// Size of the module
    pub size: Umem,
    /// Name of the module
    pub name: String,
    /// Path of the module
    pub path: String,
    /// Architecture of the module
    ///
    /// # Remarks
    ///
    /// Emulated processes often have 2 separate lists of modules, one visible to the emulated
    /// context (e.g. all 32-bit modules in a WoW64 process), and the other for all native modules
    /// needed to support the process emulation. This should be equal to either
    /// `ProcessInfo::proc_arch`, or `ProcessInfo::sys_arch` of the parent process.
    pub arch: ArchitectureIdent,
}

/// Pair of address and architecture used for callbacks
#[derive(Clone, Copy, Debug)]
pub struct ModuleAddressInfo {
    pub address: Address,
    pub arch: ArchitectureIdent,
}

/// Import information structure
#[derive(Clone, Debug)]
pub struct ImportInfo {
    /// Name of the import
    pub name: String,
    /// Offset of this import from the containing modules base address
    pub offset: Umem,
}

/// Export information structure
#[derive(Clone, Debug)]
pub struct ExportInfo {
    /// Name of the export
    pub name: String,
    /// Offset of this export from the containing modules base address
    pub offset: Umem,
}

/// Section information structure
#[derive(Clone, Debug)]
pub struct SectionInfo {
    /// Name of the section
    pub name: String,
    /// Virtual address of this section (essentially module_info.base + virtual_address)
    pub base: Address,
    /// Size of this section
    pub size: Umem,
}

} // verus!
