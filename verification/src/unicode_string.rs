use vstd::prelude::*;
use widestring::{MissingNulError, U16CString};

use crate::architecture::{Endianess, InstructionSet};
use crate::endian::{be_u16, le_u16, le_u32, le_u64, read_u16_be, read_u16_le};
use crate::error::Error;
use crate::types::Address;
use crate::virt_mem::{VirtualMemory, VirtualMemoryTrait};

verus! {

/// A nul-terminated wide string of UTF-16 units.
#[verifier::external_body]
pub struct WideCString {
    inner: U16CString,
}

#[verifier::external_type_specification]
#[verifier::external_body]
#[verifier::reject_recursive_types(C)]
pub struct ExMissingNulError<C>(MissingNulError<C>);

/// The UTF-16 units that a nul-terminated wide string holds, without its
/// terminator.
pub uninterp spec fn wide_units(s: WideCString) -> Seq<u16>;

/// The units of `u` before its first nul; all of them where it has none.
pub open spec fn until_nul(u: Seq<u16>) -> Seq<u16>
    decreases u.len(),
{
    if u.len() == 0 {
        u
    } else if u[0] == 0 {
        Seq::empty()
    } else {
        seq![u[0]] + until_nul(u.drop_first())
    }
}

/// UTF-16 decoding in which every unit that is not part of a well-formed
/// code point becomes U+FFFD.
pub open spec fn utf16_decode_lossy(u: Seq<u16>) -> Seq<char>
    decreases u.len(),
{
    if u.len() == 0 {
        Seq::empty()
    } else if u[0] < 0xD800 || u[0] > 0xDFFF {
        seq![u[0] as char] + utf16_decode_lossy(u.drop_first())
    } else if u[0] <= 0xDBFF && u.len() >= 2 && 0xDC00 <= u[1] <= 0xDFFF {
        seq![(0x10000 + (u[0] - 0xD800) * 0x400 + (u[1] - 0xDC00)) as char]
            + utf16_decode_lossy(u.subrange(2, u.len() as int))
    } else {
        seq!['\u{FFFD}'] + utf16_decode_lossy(u.drop_first())
    }
}

/// `U16CString::from_vec_with_nul` of widestring: succeeds exactly where
/// `v` holds a nul, and then keeps the units before the first nul.
#[verifier::external_body]
fn wide_from_vec_with_nul(v: Vec<u16>) -> (r: Result<WideCString, MissingNulError<u16>>)
    ensures
        r is Ok <==> v@.contains(0u16),
        r matches Ok(s) ==> wide_units(s) == until_nul(v@),
{
    match U16CString::from_vec_with_nul(v) {
        Ok(inner) => Ok(WideCString { inner }),
        Err(e) => Err(e),
    }
}

/// `to_string_lossy` of widestring, which is `String::from_utf16_lossy` of
/// the units: UTF-16 decoding with U+FFFD for every ill-formed unit.
#[verifier::external_body]
fn wide_to_string_lossy(s: &WideCString) -> (r: String)
    ensures
        r@ == utf16_decode_lossy(wide_units(*s)),
{
    s.inner.to_string_lossy()
}

/// The UTF-16 unit at position `i` of `b`, two bytes in the byte order `order`.
pub open spec fn unit_at(b: Seq<u8>, i: int, order: Endianess) -> u16 {
    let pair = b.subrange(2 * i, 2 * i + 2);
    match order {
        Endianess::LittleEndian => le_u16(pair) as u16,
        Endianess::BigEndian => be_u16(pair) as u16,
    }
}

/// The UTF-16 units of `b`, two bytes each.
pub open spec fn utf16_units(b: Seq<u8>, order: Endianess) -> Seq<u16> {
    Seq::new(b.len() / 2, |i: int| unit_at(b, i, order))
}

/// The string that a `UNICODE_STRING` of `length` bytes holds, where
/// `content` are the `length + 2` bytes read at its buffer: the two bytes
/// after the string are taken as a terminator, and the string ends at the
/// first nul unit.
pub open spec fn spec_unicode_string(length: int, content: Seq<u8>, order: Endianess) -> Seq<char> {
    let terminated = content.update(length, 0u8).update(length + 1, 0u8);
    utf16_decode_lossy(until_nul(utf16_units(terminated, order)))
}

/// Decodes the string of a `UNICODE_STRING` of `length` bytes from the
/// `length + 2` bytes read at its buffer.
pub fn decode_unicode_string(length: u16, content: Vec<u8>, order: Endianess) -> (r: Result<String, Error>)
    requires
        length % 2 == 0,
        content@.len() == length + 2,
    ensures
        r matches Ok(s) && s@ == spec_unicode_string(length as int, content@, order),
{
    let ghost orig = content@;
    let mut content = content;
    content.set(length as usize, 0);
    content.set(length as usize + 1, 0);
    let ghost terminated = content@;
    assert(terminated == orig.update(length as int, 0u8).update(length + 1, 0u8));
    let clen = content.len();
    let n = clen / 2;
    let mut units: Vec<u16> = Vec::new();
    let mut i: usize = 0;
    while i < n
        invariant
            clen == content@.len(),
            n == content@.len() / 2,
            content@ == terminated,
            i <= n,
            units@.len() == i,
            forall|k: int| #![trigger units@[k]] 0 <= k < i ==> units@[k] == unit_at(terminated, k, order),
        decreases n - i,
    {
        assert(2 * i + 2 <= clen) by (nonlinear_arith)
            requires
                i < n,
                n == clen / 2,
        ;
        let pair = vstd::slice::slice_subrange(content.as_slice(), 2 * i, 2 * i + 2);
        let u = match order {
            Endianess::LittleEndian => read_u16_le(pair),
            Endianess::BigEndian => read_u16_be(pair),
        };
        units.push(u);
        i = i + 1;
    }
    assert(units@ =~= utf16_units(terminated, order));
    let ghost last = (length / 2) as int;
    assert(terminated.subrange(2 * last, 2 * last + 2) =~= seq![0u8, 0u8]);
    assert(units@[last] == 0u16);
    match wide_from_vec_with_nul(units) {
        Ok(s) => Ok(wide_to_string_lossy(&s)),
        Err(_) => Err(Error::Encoding),
    }
}

proof fn lemma_until_nul(u: Seq<u16>, p: int)
    requires
        0 <= p < u.len(),
        u[p] == 0,
    ensures
        until_nul(u).len() <= p,
        forall|i: int| 0 <= i < until_nul(u).len() ==> #[trigger] until_nul(u)[i] != 0,
    decreases u.len(),
{
    if u[0] != 0 {
        lemma_until_nul(u.drop_first(), p - 1);
        let t = until_nul(u.drop_first());
        assert(until_nul(u) == seq![u[0]] + t);
        assert forall|i: int| 0 <= i < until_nul(u).len() implies #[trigger] until_nul(u)[i] != 0 by {
            if i > 0 {
                assert(until_nul(u)[i] == t[i - 1]);
            }
        }
    }
}

proof fn lemma_decode_lossy(u: Seq<u16>)
    requires
        forall|i: int| 0 <= i < u.len() ==> #[trigger] u[i] != 0,
    ensures
        utf16_decode_lossy(u).len() <= u.len(),
        forall|i: int| 0 <= i < utf16_decode_lossy(u).len() ==> #[trigger] utf16_decode_lossy(u)[i] != '\0',
    decreases u.len(),
{
    if u.len() > 0 {
        let d = utf16_decode_lossy(u);
        if u[0] < 0xD800 || u[0] > 0xDFFF {
            let rest = u.drop_first();
            assert forall|i: int| 0 <= i < rest.len() implies #[trigger] rest[i] != 0 by {
                assert(rest[i] == u[i + 1]);
            }
            lemma_decode_lossy(rest);
            let c = u[0] as char;
            assert(c != '\0') by {
                assert(u[0] != 0);
            }
            assert forall|i: int| 0 <= i < d.len() implies #[trigger] d[i] != '\0' by {
                if i > 0 {
                    assert(d[i] == utf16_decode_lossy(rest)[i - 1]);
                }
            }
        } else if u[0] <= 0xDBFF && u.len() >= 2 && 0xDC00 <= u[1] <= 0xDFFF {
            let rest = u.subrange(2, u.len() as int);
            assert forall|i: int| 0 <= i < rest.len() implies #[trigger] rest[i] != 0 by {
                assert(rest[i] == u[i + 2]);
            }
            lemma_decode_lossy(rest);
            assert forall|i: int| 0 <= i < d.len() implies #[trigger] d[i] != '\0' by {
                if i > 0 {
                    assert(d[i] == utf16_decode_lossy(rest)[i - 1]);
                }
            }
        } else {
            let rest = u.drop_first();
            assert forall|i: int| 0 <= i < rest.len() implies #[trigger] rest[i] != 0 by {
                assert(rest[i] == u[i + 1]);
            }
            lemma_decode_lossy(rest);
            assert forall|i: int| 0 <= i < d.len() implies #[trigger] d[i] != '\0' by {
                if i > 0 {
                    assert(d[i] == utf16_decode_lossy(rest)[i - 1]);
                }
            }
        }
    }
}

/// The string of a `UNICODE_STRING` of `length` bytes holds no nul
/// character and at most `length / 2` characters.
pub proof fn lemma_unicode_string_fits(length: int, content: Seq<u8>, order: Endianess)
    requires
        length >= 0,
        length % 2 == 0,
        content.len() == length + 2,
    ensures
        spec_unicode_string(length, content, order).len() <= length / 2,
        forall|i: int| 0 <= i < spec_unicode_string(length, content, order).len()
            ==> #[trigger] spec_unicode_string(length, content, order)[i] != '\0',
{
    let terminated = content.update(length, 0u8).update(length + 1, 0u8);
    let units = utf16_units(terminated, order);
    let p = length / 2;
    assert(terminated.subrange(2 * p, 2 * p + 2) =~= seq![0u8, 0u8]);
    assert(units[p] == 0);
    lemma_until_nul(units, p);
    lemma_decode_lossy(until_nul(units));
}

/// Where the pointer to the characters of a `UNICODE_STRING` lies, and how
/// wide it is, for each instruction set: after the two lengths, padded to
/// the pointer's alignment.
pub open spec fn spec_buffer_pointer(instruction_set: InstructionSet) -> Option<(u64, nat)> {
    match instruction_set {
        InstructionSet::X64 => Some((8u64, 8nat)),
        InstructionSet::X86 => Some((4u64, 4nat)),
        _ => None,
    }
}

/// Where the buffer pointer of the `UNICODE_STRING` at `addr` lies, and its
/// width in bytes, once its `length` has been read: a zero length and an
/// instruction set without this layout are errors, and so is a pointer that
/// would lie past the end of the address space.
pub fn unicode_string_pointer_location(length: u16, instruction_set: InstructionSet, addr: Address) -> (r: Result<(Address, usize), Error>)
    ensures
        r == if length == 0 {
            Err(Error::UnicodeStringLength)
        } else {
            match spec_buffer_pointer(instruction_set) {
                None => Err(Error::InvalidProcArch),
                Some((off, width)) => if addr + off > u64::MAX {
                    Err(Error::VirtualTranslate)
                } else {
                    Ok(((addr + off) as u64, width as usize))
                },
            }
        },
{
    if length == 0 {
        return Err(Error::UnicodeStringLength);
    }
    match instruction_set {
        InstructionSet::X64 => {
            if addr > u64::MAX - 8 {
                Err(Error::VirtualTranslate)
            } else {
                Ok((addr + 8, 8))
            }
        },
        InstructionSet::X86 => {
            if addr > u64::MAX - 4 {
                Err(Error::VirtualTranslate)
            } else {
                Ok((addr + 4, 4))
            }
        },
        _ => Err(Error::InvalidProcArch),
    }
}

/// Checks the length and buffer pointer of a `UNICODE_STRING` with a
/// nonzero length, and gives the number of bytes to read at the buffer: the
/// string and a two-byte terminator.
pub fn unicode_string_content_len(length: u16, buffer: Address) -> (r: Result<usize, Error>)
    ensures
        r == if buffer == 0 {
            Err(Error::UnicodeStringLength)
        } else if length % 2 != 0 {
            Err(Error::UnicodeStringAlignment)
        } else if length >= 0xFFFE {
            Err(Error::UnicodeStringTooLong)
        } else {
            Ok((length + 2) as usize)
        },
{
    if buffer == 0 {
        Err(Error::UnicodeStringLength)
    } else if length % 2 != 0 {
        Err(Error::UnicodeStringAlignment)
    } else if length >= 0xFFFE {
        Err(Error::UnicodeStringTooLong)
    } else {
        Ok((length + 2) as usize)
    }
}

/// What reading the `UNICODE_STRING` at `addr` of `vm` gives where the reads
/// succeed: its length is the `u16` at `addr`, its buffer pointer lies at the
/// offset and width of the process architecture, and its characters are the
/// `length + 2` bytes at the buffer. The checks come in this order: a zero
/// length, an architecture without this layout, a structure that runs past
/// the end of the address space, a null buffer, an odd length, and a length
/// that leaves no room for the terminator.
pub open spec fn spec_unicode_string_outcome<'a, T: VirtualMemoryTrait>(vm: VirtualMemory<'a, T>, addr: Address) -> Result<Seq<char>, Error> {
    let length = le_u16(vm.spec_bytes(addr, 2));
    if length == 0 {
        Err(Error::UnicodeStringLength)
    } else {
        match spec_buffer_pointer(vm.spec_proc_arch().instruction_set) {
            None => Err(Error::InvalidProcArch),
            Some((off, width)) => if addr + off > u64::MAX {
                Err(Error::VirtualTranslate)
            } else {
                let bytes = vm.spec_bytes((addr + off) as u64, width);
                let buffer = if width == 8 { le_u64(bytes) } else { le_u32(bytes) };
                if buffer == 0 {
                    Err(Error::UnicodeStringLength)
                } else if length % 2 != 0 {
                    Err(Error::UnicodeStringAlignment)
                } else if length >= 0xFFFE {
                    Err(Error::UnicodeStringTooLong)
                } else {
                    Ok(spec_unicode_string(length, vm.spec_bytes(buffer as u64, (length + 2) as nat), Endianess::LittleEndian))
                }
            },
        }
    }
}

/// The string of the `UNICODE_STRING` at `addr` of `vm`, where the reads
/// succeed; nothing where the structure is not well formed.
pub open spec fn spec_read_unicode_string<'a, T: VirtualMemoryTrait>(vm: VirtualMemory<'a, T>, addr: Address) -> Option<Seq<char>> {
    match spec_unicode_string_outcome(vm, addr) {
        Ok(s) => Some(s),
        Err(_) => None,
    }
}

/// The reads that reading the `UNICODE_STRING` at `addr` of `vm` makes all
/// succeed: that of its length, and, as far as the structure is well formed,
/// that of its buffer pointer and that of its characters and terminator.
pub open spec fn spec_unicode_string_reads_succeed<'a, T: VirtualMemoryTrait>(vm: VirtualMemory<'a, T>, addr: Address) -> bool {
    let length = le_u16(vm.spec_bytes(addr, 2));
    &&& vm.spec_read_succeeds(addr, 2)
    &&& match spec_buffer_pointer(vm.spec_proc_arch().instruction_set) {
        None => true,
        Some((off, width)) => length == 0 || addr + off > u64::MAX || {
            let bytes = vm.spec_bytes((addr + off) as u64, width);
            let buffer = if width == 8 { le_u64(bytes) } else { le_u32(bytes) };
            &&& vm.spec_read_succeeds((addr + off) as u64, width)
            &&& (buffer == 0 || length % 2 != 0 || length >= 0xFFFE
                || vm.spec_read_succeeds(buffer as u64, (length + 2) as nat))
        },
    }
}

/// Reads a Windows `UNICODE_STRING` from virtual memory.
pub trait VirtualReadUnicodeString {
    /// Reads the `UNICODE_STRING` structure at `addr` and the characters it
    /// points to.
    fn virt_read_unicode_string(&mut self, addr: Address) -> Result<String, Error>;
}

impl<'a, T: VirtualMemoryTrait> VirtualReadUnicodeString for VirtualMemory<'a, T> {
    /// The length is the `u16` at `addr`; the buffer pointer follows at the
    /// offset and width of the process architecture. A zero length, a null
    /// buffer, an odd length, a length that leaves no room for the
    /// terminator, and an architecture without this layout are errors; so is
    /// a structure that runs past the end of the address space.
    fn virt_read_unicode_string(&mut self, addr: Address) -> (r: Result<String, Error>)
        ensures
            spec_read_unicode_string(*old(self), addr) is None ==> r is Err,
            r matches Ok(s) ==> spec_read_unicode_string(*old(self), addr) == Some(s@),
            r matches Ok(s) ==> s@.len() <= le_u16(old(self).spec_bytes(addr, 2)) / 2,
            r matches Ok(s) ==> forall|i: int| 0 <= i < s@.len() ==> #[trigger] s@[i] != '\0',
            spec_read_unicode_string(*old(self), addr) is Some && spec_unicode_string_reads_succeed(*old(self), addr)
                ==> r is Ok,
            spec_unicode_string_reads_succeed(*old(self), addr) ==> match spec_unicode_string_outcome(*old(self), addr) {
                Ok(c) => r matches Ok(s) && s@ == c,
                Err(e) => r == Err::<String, Error>(e),
            },
            forall|a: Address, n: nat| #[trigger] final(self).spec_bytes(a, n) == old(self).spec_bytes(a, n),
    {
        let length = self.virt_read_u16(addr)?;
        let instruction_set = self.proc_arch().instruction_set;
        let (pointer_addr, width) = unicode_string_pointer_location(length, instruction_set, addr)?;
        let buffer = if width == 8 {
            self.virt_read_addr64(pointer_addr)?
        } else {
            self.virt_read_addr32(pointer_addr)?
        };
        let size = unicode_string_content_len(length, buffer)?;
        let mut content: Vec<u8> = vec![0u8; size];
        self.virt_read_raw(buffer, &mut content)?;
        let order = instruction_set.byte_order();
        proof {
            lemma_unicode_string_fits(length as int, content@, order);
        }
        decode_unicode_string(length, content, order)
    }
}

} // verus!
