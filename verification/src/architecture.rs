use vstd::prelude::*;

verus! {

/// Byte order of a target architecture.
#[derive(Clone, Copy, Debug, PartialEq, Eq, Structural)]
pub enum Endianess {
    LittleEndian,
    BigEndian,
}

/// The instruction sets a process or a system can run.
#[derive(Clone, Copy, Debug, PartialEq, Eq, Structural)]
pub enum InstructionSet {
    /// A placeholder architecture laid out like x86-64.
    Null,
    X64,
    X86Pae,
    X86,
}

/// A target architecture, identified by its instruction set.
#[derive(Clone, Copy, Debug, PartialEq, Eq, Structural)]
pub struct Architecture {
    pub instruction_set: InstructionSet,
}

/// Page size of every supported instruction set.
pub const PAGE_SIZE_4K: usize = 0x1000;

pub open spec fn spec_bits(is: InstructionSet) -> u8 {
    match is {
        InstructionSet::Null => 64,
        InstructionSet::X64 => 64,
        InstructionSet::X86Pae => 32,
        InstructionSet::X86 => 32,
    }
}

pub open spec fn spec_address_space_bits(is: InstructionSet) -> u8 {
    match is {
        InstructionSet::Null => 52,
        InstructionSet::X64 => 52,
        InstructionSet::X86Pae => 36,
        InstructionSet::X86 => 32,
    }
}

pub open spec fn spec_to_u8(is: InstructionSet) -> u8 {
    match is {
        InstructionSet::Null => 0,
        InstructionSet::X64 => 1,
        InstructionSet::X86Pae => 2,
        InstructionSet::X86 => 3,
    }
}

impl InstructionSet {
    /// Word size in bits.
    pub fn bits(&self) -> (r: u8)
        ensures
            r == spec_bits(*self),
    {
        match self {
            InstructionSet::Null => 64,
            InstructionSet::X64 => 64,
            InstructionSet::X86Pae => 32,
            InstructionSet::X86 => 32,
        }
    }

    /// Number of bits of a physical address.
    pub fn address_space_bits(&self) -> (r: u8)
        ensures
            r == spec_address_space_bits(*self),
    {
        match self {
            InstructionSet::Null => 52,
            InstructionSet::X64 => 52,
            InstructionSet::X86Pae => 36,
            InstructionSet::X86 => 32,
        }
    }

    /// Byte order; every supported instruction set is little endian.
    pub fn byte_order(&self) -> (r: Endianess)
        ensures
            r == Endianess::LittleEndian,
    {
        Endianess::LittleEndian
    }

    /// Size of a page in bytes.
    pub fn page_size(&self) -> (r: usize)
        ensures
            r == PAGE_SIZE_4K,
    {
        PAGE_SIZE_4K
    }

    /// Size of a pointer in bytes.
    pub fn len_addr(&self) -> (r: usize)
        ensures
            r * 8 == spec_bits(*self),
    {
        match self {
            InstructionSet::Null => 8,
            InstructionSet::X64 => 8,
            InstructionSet::X86Pae => 4,
            InstructionSet::X86 => 4,
        }
    }

    /// The byte by which the instruction set travels on the wire.
    pub fn to_u8(&self) -> (r: u8)
        ensures
            r == spec_to_u8(*self),
    {
        match self {
            InstructionSet::Null => 0,
            InstructionSet::X64 => 1,
            InstructionSet::X86Pae => 2,
            InstructionSet::X86 => 3,
        }
    }
}

/// Distinct instruction sets travel as distinct bytes.
pub proof fn lemma_to_u8_injective(a: InstructionSet, b: InstructionSet)
    requires
        spec_to_u8(a) == spec_to_u8(b),
    ensures
        a == b,
{
}

impl Architecture {
    pub fn new(instruction_set: InstructionSet) -> (r: Architecture)
        ensures
            r.instruction_set == instruction_set,
    {
        Architecture { instruction_set }
    }

    pub fn bits(&self) -> (r: u8)
        ensures
            r == spec_bits(self.instruction_set),
    {
        self.instruction_set.bits()
    }

    pub fn endianess(&self) -> (r: Endianess)
        ensures
            r == Endianess::LittleEndian,
    {
        self.instruction_set.byte_order()
    }

    pub fn page_size(&self) -> (r: usize)
        ensures
            r == PAGE_SIZE_4K,
    {
        self.instruction_set.page_size()
    }

    pub fn size_addr(&self) -> (r: usize)
        ensures
            r * 8 == spec_bits(self.instruction_set),
    {
        self.instruction_set.len_addr()
    }

    pub fn address_space_bits(&self) -> (r: u8)
        ensures
            r == spec_address_space_bits(self.instruction_set),
    {
        self.instruction_set.address_space_bits()
    }
}

/// Word size of `arch` in bits.
pub fn arch_bits(arch: &Architecture) -> (r: u8)
    ensures
        r == spec_bits(arch.instruction_set),
{
    arch.bits()
}

/// Byte order of `arch`.
pub fn arch_endianess(arch: &Architecture) -> (r: Endianess)
    ensures
        r == Endianess::LittleEndian,
{
    arch.endianess()
}

/// Page size of `arch` in bytes.
pub fn page_size(arch: &Architecture) -> (r: usize)
    ensures
        r == PAGE_SIZE_4K,
{
    arch.page_size()
}

/// Pointer size of `arch` in bytes.
pub fn arch_size_addr(arch: &Architecture) -> (r: usize)
    ensures
        r * 8 == spec_bits(arch.instruction_set),
{
    arch.size_addr()
}

/// Physical address width of `arch` in bits.
pub fn arch_address_space_bits(arch: &Architecture) -> (r: u8)
    ensures
        r == spec_address_space_bits(arch.instruction_set),
{
    arch.address_space_bits()
}

} // verus!
