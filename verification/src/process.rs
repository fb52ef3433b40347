use vstd::prelude::*;
use vstd::string::StringSliceAdditionalSpecFns;

use crate::error::Error;
use crate::ida_pattern::{find_ida_pattern, first_match_at, matches_at, parse_pattern};
use crate::types::{Address, Length};

verus! {

/// A process of the introspected system.
pub trait ProcessTrait {
    fn pid(&self) -> i32;

    fn name(&self) -> String;

    /// The directory table base of the process's address space.
    fn dtb(&self) -> Address;
}

/// A module loaded into a process, whose memory it reads.
pub trait ModuleTrait: VirtualReadHelper {
    /// Address at which the module is loaded.
    open spec fn module_base(&self) -> Address {
        vstd::pervasive::arbitrary()
    }

    /// Size of the module in bytes.
    open spec fn module_size(&self) -> Length {
        vstd::pervasive::arbitrary()
    }

    /// Whether the module reports its base and its size. An implementation
    /// that cannot tell keeps this default, under which neither is promised.
    open spec fn reports_base_and_size(&self) -> bool {
        false
    }

    /// Address at which the module is loaded; memory and the module are
    /// left as they were.
    fn base(&mut self) -> (r: Result<Address, Error>)
        ensures
            r matches Ok(b) ==> b == old(self).module_base(),
            old(self).reports_base_and_size() ==> r is Ok,
            final(self).module_base() == old(self).module_base(),
            final(self).module_size() == old(self).module_size(),
            forall|a: Address, n: nat| #[trigger] final(self).memory(a, n) == old(self).memory(a, n),
            final(self).reports_base_and_size() == old(self).reports_base_and_size(),
            forall|a: Address, n: nat| #[trigger] final(self).read_succeeds(a, n) == old(self).read_succeeds(a, n),
    ;

    /// Size of the module in bytes; memory and the module are left as they
    /// were.
    fn size(&mut self) -> (r: Result<Length, Error>)
        ensures
            r matches Ok(s) ==> s == old(self).module_size(),
            old(self).reports_base_and_size() ==> r is Ok,
            final(self).module_base() == old(self).module_base(),
            final(self).module_size() == old(self).module_size(),
            forall|a: Address, n: nat| #[trigger] final(self).memory(a, n) == old(self).memory(a, n),
            final(self).reports_base_and_size() == old(self).reports_base_and_size(),
            forall|a: Address, n: nat| #[trigger] final(self).read_succeeds(a, n) == old(self).read_succeeds(a, n),
    ;

    fn name(&mut self) -> Result<String, Error>;
}

/// A symbol that a module exports.
pub trait ExportTrait {
    fn name(&self) -> &str;

    /// Offset of the symbol from the module's base.
    fn offset(&self) -> Length;
}

/// A section of a module.
pub trait SectionTrait {
    fn name(&self) -> &str;

    fn virt_addr(&self) -> Address;

    fn virt_size(&self) -> Length;
}

/// Reads virtual memory into freshly allocated buffers.
pub trait VirtualReadHelper {
    /// The `len` bytes that a successful read at `addr` gives.
    open spec fn memory(&self, addr: Address, len: nat) -> Seq<u8> {
        vstd::pervasive::arbitrary()
    }

    /// Whether a read of `len` bytes at `addr` succeeds. An implementation
    /// that cannot tell keeps this default, under which no read is promised
    /// to succeed.
    open spec fn read_succeeds(&self, addr: Address, len: nat) -> bool {
        false
    }

    /// Reads the `len` bytes at `addr`; memory is left as it was.
    fn virt_read(&mut self, addr: Address, len: Length) -> (r: Result<Vec<u8>, Error>)
        ensures
            r matches Ok(v) ==> v@ == old(self).memory(addr, len as nat) && v@.len() == len,
            old(self).read_succeeds(addr, len as nat) ==> r is Ok,
            forall|a: Address, n: nat| #[trigger] final(self).memory(a, n) == old(self).memory(a, n),
    ;
}

/// Searches a module for a byte signature.
pub trait FindSignatureTrait {
    /// The offset from the module's base of the first match of the
    /// IDA-style `pattern`.
    fn signature(&mut self, pattern: &str) -> Result<Length, Error>;
}

/// Every module that can read virtual memory searches itself: it reads its
/// whole image and looks for the first match of the pattern there.
impl<T: ModuleTrait + VirtualReadHelper> FindSignatureTrait for T {
    fn signature(&mut self, pattern: &str) -> (r: Result<Length, Error>)
        ensures
            parse_pattern(pattern.spec_bytes()) is None ==> r is Err,
            r matches Ok(off) ==> (parse_pattern(pattern.spec_bytes()) matches Some(pat) && first_match_at(
                pat,
                old(self).memory(old(self).module_base(), old(self).module_size() as nat),
                off as int,
            )),
            forall|a: Address, n: nat| #[trigger] final(self).memory(a, n) == old(self).memory(a, n),
            old(self).reports_base_and_size() && old(self).read_succeeds(old(self).module_base(), old(self).module_size() as nat)
                ==> ({
                let image = old(self).memory(old(self).module_base(), old(self).module_size() as nat);
                match parse_pattern(pattern.spec_bytes()) {
                    None => r == Err::<Length, Error>(Error::MalformedPattern),
                    Some(pat) => if exists|p: int| #[trigger] matches_at(pat, image, p) {
                        r is Ok
                    } else {
                        r == Err::<Length, Error>(Error::PatternNotFound)
                    },
                }
            }),
    {
        let base = self.base()?;
        let size = self.size()?;
        let buf = self.virt_read(base, size)?;
        let bytes = buf.as_slice();
        let m = find_ida_pattern(pattern, bytes)?;
        let r: Result<Length, Error> = Ok(m.0);
        assert(first_match_at(parse_pattern(pattern.spec_bytes())->Some_0, bytes@, r->Ok_0 as int));
        r
    }
}

} // verus!
