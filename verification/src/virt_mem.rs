use vstd::prelude::*;

use crate::architecture::{Architecture, PAGE_SIZE_4K};
use crate::endian::{le_u16, le_u32, le_u64, read_u16_le, read_u32_le, read_u64_le};
use crate::error::Error;
use crate::types::Address;
use crate::vat::{
    AccessPhysicalMemory,
    VirtualAddressTranslator,
    VirtualReadData,
    lemma_fill_reads_independent,
    lemma_phys_contents_fit,
    lemma_read_ranges_same_translation,
    lemma_virtual_read_same_memory,
    read_bufs,
    read_requests,
    spec_phys_contents,
    spec_phys_reads,
    spec_request_chunks,
    spec_translations,
    spec_virtual_read,
    spec_virtual_read_failed,
    spec_virtual_read_ranges,
    virt_read_raw_iter,
};

verus! {

/// Reads virtual memory.
pub trait VirtualMemoryTrait {
    /// The bytes that a successful read of `len` bytes at `addr` gives, in
    /// the address space of architecture `arch` whose directory table base
    /// is `dtb`.
    open spec fn virt_bytes(&self, arch: Architecture, dtb: Address, addr: Address, len: nat) -> Seq<u8> {
        vstd::pervasive::arbitrary()
    }

    /// Whether a read of `len` bytes at `addr` succeeds, in the address
    /// space of architecture `arch` whose directory table base is `dtb`. An
    /// implementation that cannot tell keeps this default, under which no
    /// read is promised to succeed.
    open spec fn virt_read_succeeds(&self, arch: Architecture, dtb: Address, addr: Address, len: nat) -> bool {
        false
    }

    /// Fills `out` from virtual memory at `addr` in the address space whose
    /// directory table base is `dtb`; `out` keeps its length, and what
    /// memory holds stays as it was.
    fn virt_read_raw(&mut self, arch: Architecture, dtb: Address, addr: Address, out: &mut Vec<u8>) -> (r: Result<(), Error>)
        ensures
            final(out)@.len() == old(out)@.len(),
            r is Ok ==> final(out)@ == old(self).virt_bytes(arch, dtb, addr, old(out)@.len()),
            forall|a: Architecture, d: Address, v: Address, n: nat| #[trigger] final(self).virt_bytes(a, d, v, n)
                == old(self).virt_bytes(a, d, v, n),            old(self).virt_read_succeeds(arch, dtb, addr, old(out)@.len()) ==> r is Ok,
            forall|a: Architecture, d: Address, v: Address, n: nat| #[trigger] final(self).virt_read_succeeds(a, d, v, n)
                == old(self).virt_read_succeeds(a, d, v, n),
    ;
}

/// Every translator with physical memory reads virtual memory through
/// `virt_read_raw_iter`; a range that runs past the end of the address
/// space cannot be translated.
impl<T: AccessPhysicalMemory + VirtualAddressTranslator> VirtualMemoryTrait for T {
    open spec fn virt_bytes(&self, arch: Architecture, dtb: Address, addr: Address, len: nat) -> Seq<u8> {
        spec_virtual_read(*self, arch, dtb, seq![(addr, len as usize)], seq![Seq::new(len, |j: int| 0u8)])[0]
    }

    /// The range fits below the end of the address space, and physical
    /// memory reads each of its page chunks that translates.
    open spec fn virt_read_succeeds(&self, arch: Architecture, dtb: Address, addr: Address, len: nat) -> bool {
        &&& addr + len <= u64::MAX + 1
        &&& len <= usize::MAX
        &&& self.phys_reads_succeed(spec_virtual_read_ranges(*self, arch, dtb, seq![(addr, len as usize)]))
    }

    fn virt_read_raw(&mut self, arch: Architecture, dtb: Address, addr: Address, out: &mut Vec<u8>) -> (r: Result<(), Error>)
        ensures
            r is Err && addr + old(out)@.len() <= u64::MAX + 1 ==> final(out)@ == spec_virtual_read_failed(
                *old(self),
                arch,
                dtb,
                seq![(addr, old(out)@.len() as usize)],
                seq![old(out)@],
            )[0],
            addr + old(out)@.len() > u64::MAX + 1 ==> r == Err::<(), Error>(Error::VirtualTranslate) && final(out)@ == old(out)@,
    {
        let ghost m0 = *self;
        let len = out.len();
        if len > 0 && (len - 1) as u64 > u64::MAX - addr {
            return Err(Error::VirtualTranslate);
        }
        let mut buf: Vec<u8> = Vec::new();
        std::mem::swap(out, &mut buf);
        let ghost old_bytes = buf@;
        let mut data: Vec<VirtualReadData> = Vec::new();
        data.push(VirtualReadData { addr, buf });
        let ghost reqs = read_requests(data@);
        let ghost before = read_bufs(data@);
        assert(reqs =~= seq![(addr, len)]);
        assert(before =~= seq![old_bytes]);
        let r = virt_read_raw_iter(self, arch, dtb, &mut data);
        let ghost after = read_bufs(data@);
        let mut d = VirtualReadData { addr: 0, buf: Vec::new() };
        data.set_and_swap(0, &mut d);
        assert(after[0] == d.buf@);
        proof {
            let chunks = spec_request_chunks(reqs, PAGE_SIZE_4K as int);
            let tr = spec_translations(m0, arch, dtb, chunks);
            let ph = spec_phys_contents(m0, spec_phys_reads(chunks, tr));
            let zeros = Seq::new(len as nat, |j: int| 0u8);
            if r is Ok {
                lemma_phys_contents_fit(m0, chunks, tr);
                lemma_fill_reads_independent(reqs, PAGE_SIZE_4K, before, seq![zeros], tr, ph);
            }
            lemma_virtual_read_same_memory(*self, m0);
            lemma_read_ranges_same_translation(*self, m0);
        }
        *out = d.buf;
        r
    }
}

/// The virtual memory of one process: reads translate through the system
/// architecture, and pointers have the width of the process architecture.
pub struct VirtualMemory<'a, T: VirtualMemoryTrait> {
    mem: &'a mut T,
    sys_arch: Architecture,
    proc_arch: Architecture,
    dtb: Address,
}

impl<'a, T: VirtualMemoryTrait> VirtualMemory<'a, T> {
    pub fn new(mem: &'a mut T, sys_arch: Architecture, proc_arch: Architecture, dtb: Address) -> (r: Self)
        ensures
            r.spec_sys_arch() == sys_arch,
            r.spec_proc_arch() == proc_arch,
            r.spec_dtb() == dtb,
    {
        VirtualMemory { mem, sys_arch, proc_arch, dtb }
    }

    pub closed spec fn spec_sys_arch(&self) -> Architecture {
        self.sys_arch
    }

    pub closed spec fn spec_proc_arch(&self) -> Architecture {
        self.proc_arch
    }

    pub closed spec fn spec_dtb(&self) -> Address {
        self.dtb
    }

    /// The bytes that a successful read of `len` bytes at `addr` of the
    /// process's virtual memory gives.
    pub closed spec fn spec_bytes(&self, addr: Address, len: nat) -> Seq<u8> {
        (*self.mem).virt_bytes(self.sys_arch, self.dtb, addr, len)
    }

    /// Whether a read of `len` bytes at `addr` of the process's virtual
    /// memory succeeds.
    pub closed spec fn spec_read_succeeds(&self, addr: Address, len: nat) -> bool {
        (*self.mem).virt_read_succeeds(self.sys_arch, self.dtb, addr, len)
    }

    /// The architecture of the process.
    pub fn proc_arch(&self) -> (r: Architecture)
        ensures
            r == self.spec_proc_arch(),
    {
        self.proc_arch
    }

    /// Fills `out` from the process's virtual memory at `addr`.
    pub fn virt_read_raw(&mut self, addr: Address, out: &mut Vec<u8>) -> (r: Result<(), Error>)
        ensures
            final(out)@.len() == old(out)@.len(),
            r is Ok ==> final(out)@ == old(self).spec_bytes(addr, old(out)@.len()),
            final(self).spec_sys_arch() == old(self).spec_sys_arch(),
            final(self).spec_proc_arch() == old(self).spec_proc_arch(),
            final(self).spec_dtb() == old(self).spec_dtb(),
            forall|a: Address, n: nat| #[trigger] final(self).spec_bytes(a, n) == old(self).spec_bytes(a, n),
            old(self).spec_read_succeeds(addr, old(out)@.len()) ==> r is Ok,
            forall|a: Address, n: nat| #[trigger] final(self).spec_read_succeeds(a, n) == old(self).spec_read_succeeds(a, n),
    {
        self.mem.virt_read_raw(self.sys_arch, self.dtb, addr, out)
    }

    /// Reads the `u16` stored at `addr`, least significant byte first.
    pub fn virt_read_u16(&mut self, addr: Address) -> (r: Result<u16, Error>)
        ensures
            r matches Ok(v) ==> v == le_u16(old(self).spec_bytes(addr, 2)),
            final(self).spec_sys_arch() == old(self).spec_sys_arch(),
            final(self).spec_proc_arch() == old(self).spec_proc_arch(),
            final(self).spec_dtb() == old(self).spec_dtb(),
            forall|a: Address, n: nat| #[trigger] final(self).spec_bytes(a, n) == old(self).spec_bytes(a, n),
            old(self).spec_read_succeeds(addr, 2) ==> r is Ok,
            forall|a: Address, n: nat| #[trigger] final(self).spec_read_succeeds(a, n) == old(self).spec_read_succeeds(a, n),
    {
        let mut buf: Vec<u8> = vec![0u8; 2];
        self.virt_read_raw(addr, &mut buf)?;
        Ok(read_u16_le(buf.as_slice()))
    }

    /// Reads the 32-bit pointer stored at `addr`, least significant byte first.
    pub fn virt_read_addr32(&mut self, addr: Address) -> (r: Result<Address, Error>)
        ensures
            r matches Ok(v) ==> v == le_u32(old(self).spec_bytes(addr, 4)),
            final(self).spec_sys_arch() == old(self).spec_sys_arch(),
            final(self).spec_proc_arch() == old(self).spec_proc_arch(),
            final(self).spec_dtb() == old(self).spec_dtb(),
            forall|a: Address, n: nat| #[trigger] final(self).spec_bytes(a, n) == old(self).spec_bytes(a, n),
            old(self).spec_read_succeeds(addr, 4) ==> r is Ok,
            forall|a: Address, n: nat| #[trigger] final(self).spec_read_succeeds(a, n) == old(self).spec_read_succeeds(a, n),
    {
        let mut buf: Vec<u8> = vec![0u8; 4];
        self.virt_read_raw(addr, &mut buf)?;
        let v = read_u32_le(buf.as_slice());
        Ok(v as u64)
    }

    /// Reads the 64-bit pointer stored at `addr`, least significant byte first.
    pub fn virt_read_addr64(&mut self, addr: Address) -> (r: Result<Address, Error>)
        ensures
            r matches Ok(v) ==> v == le_u64(old(self).spec_bytes(addr, 8)),
            final(self).spec_sys_arch() == old(self).spec_sys_arch(),
            final(self).spec_proc_arch() == old(self).spec_proc_arch(),
            final(self).spec_dtb() == old(self).spec_dtb(),
            forall|a: Address, n: nat| #[trigger] final(self).spec_bytes(a, n) == old(self).spec_bytes(a, n),
            old(self).spec_read_succeeds(addr, 8) ==> r is Ok,
            forall|a: Address, n: nat| #[trigger] final(self).spec_read_succeeds(a, n) == old(self).spec_read_succeeds(a, n),
    {
        let mut buf: Vec<u8> = vec![0u8; 8];
        self.virt_read_raw(addr, &mut buf)?;
        Ok(read_u64_le(buf.as_slice()))
    }
}

} // verus!
