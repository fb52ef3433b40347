use memflow::architecture::{Architecture, Endianess, InstructionSet};
use memflow::error::Error;
use memflow::types::{Address, PhysicalAddress};
use memflow::unicode_string::{
    decode_unicode_string, unicode_string_content_len, unicode_string_pointer_location, VirtualReadUnicodeString,
};
use memflow::vat::{AccessPhysicalMemory, PhysicalReadData, PhysicalWriteData, VirtualAddressTranslator};
use memflow::virt_mem::VirtualMemory;

/// Flat memory in which virtual and physical addresses coincide.
struct FlatMemory {
    mem: Vec<u8>,
}

impl VirtualAddressTranslator for FlatMemory {
    fn virt_to_phys_iter(
        &mut self,
        _arch: Architecture,
        _dtb: Address,
        addrs: &Vec<Address>,
    ) -> Vec<Result<PhysicalAddress, Error>> {
        addrs.iter().map(|&a| Ok(PhysicalAddress { address: a, page: None })).collect()
    }
}

impl AccessPhysicalMemory for FlatMemory {
    fn phys_read_raw_iter(&mut self, data: &mut Vec<PhysicalReadData>) -> Result<(), Error> {
        for d in data.iter_mut() {
            let start = d.addr.address as usize;
            let end = start + d.buf.len();
            if end > self.mem.len() {
                return Err(Error::PhysicalMemory);
            }
            d.buf.copy_from_slice(&self.mem[start..end]);
        }
        Ok(())
    }

    fn phys_write_raw_iter(&mut self, _data: &Vec<PhysicalWriteData>) -> Result<(), Error> {
        Ok(())
    }
}

fn utf16_bytes(s: &str) -> Vec<u8> {
    s.encode_utf16().flat_map(|u| u.to_le_bytes()).collect()
}

/// Memory with a 64-bit `UNICODE_STRING` at 0x100 whose buffer is at 0x1ff0.
fn x64_string_memory(length: u16, buffer: u64, content: &[u8]) -> FlatMemory {
    let mut mem = vec![0x55u8; 0x3000];
    mem[0x100..0x102].copy_from_slice(&length.to_le_bytes());
    mem[0x102..0x104].copy_from_slice(&length.to_le_bytes());
    mem[0x108..0x110].copy_from_slice(&buffer.to_le_bytes());
    mem[0x1ff0..0x1ff0 + content.len()].copy_from_slice(content);
    FlatMemory { mem }
}

fn read_string(mem: &mut FlatMemory, proc_arch: InstructionSet) -> Result<String, Error> {
    let mut vm = VirtualMemory::new(mem, Architecture::new(InstructionSet::X64), Architecture::new(proc_arch), 0);
    vm.virt_read_unicode_string(0x100)
}

#[test]
fn unicode_string_x64() {
    let content = utf16_bytes("ntdll.dll");
    let mut mem = x64_string_memory(content.len() as u16, 0x1ff0, &content);
    assert_eq!(read_string(&mut mem, InstructionSet::X64), Ok("ntdll.dll".to_string()));
}

#[test]
fn unicode_string_x86() {
    let content = utf16_bytes("kernel32");
    let mut mem = vec![0u8; 0x3000];
    mem[0x100..0x102].copy_from_slice(&(content.len() as u16).to_le_bytes());
    mem[0x104..0x108].copy_from_slice(&0x2000u32.to_le_bytes());
    mem[0x2000..0x2000 + content.len()].copy_from_slice(&content);
    mem[0x2000 + content.len()] = 0x41;
    let mut mem = FlatMemory { mem };
    assert_eq!(read_string(&mut mem, InstructionSet::X86), Ok("kernel32".to_string()));
}

#[test]
fn unicode_string_ignores_bytes_after_length() {
    let mut content = utf16_bytes("abc");
    content.extend_from_slice(&[0x41, 0x00, 0x42, 0x00]);
    let mut mem = x64_string_memory(6, 0x1ff0, &content);
    assert_eq!(read_string(&mut mem, InstructionSet::X64), Ok("abc".to_string()));
}

#[test]
fn unicode_string_stops_at_nul() {
    let content = utf16_bytes("ab\0cd");
    let mut mem = x64_string_memory(content.len() as u16, 0x1ff0, &content);
    assert_eq!(read_string(&mut mem, InstructionSet::X64), Ok("ab".to_string()));
}

#[test]
fn unicode_string_replaces_lone_surrogate() {
    let content = vec![0x41, 0x00, 0x00, 0xd8, 0x42, 0x00];
    let mut mem = x64_string_memory(6, 0x1ff0, &content);
    assert_eq!(read_string(&mut mem, InstructionSet::X64), Ok("A\u{FFFD}B".to_string()));
}

#[test]
fn unicode_string_surrogate_pair() {
    let content = utf16_bytes("x\u{1F600}");
    let mut mem = x64_string_memory(content.len() as u16, 0x1ff0, &content);
    assert_eq!(read_string(&mut mem, InstructionSet::X64), Ok("x\u{1F600}".to_string()));
}

#[test]
fn unicode_string_zero_length() {
    let mut mem = x64_string_memory(0, 0x1ff0, &[]);
    assert_eq!(read_string(&mut mem, InstructionSet::X64), Err(Error::UnicodeStringLength));
}

#[test]
fn unicode_string_null_buffer() {
    let mut mem = x64_string_memory(4, 0, &[]);
    assert_eq!(read_string(&mut mem, InstructionSet::X64), Err(Error::UnicodeStringLength));
}

#[test]
fn unicode_string_odd_length() {
    let mut mem = x64_string_memory(5, 0x1ff0, &[0x41, 0, 0x42, 0, 0x43, 0]);
    assert_eq!(read_string(&mut mem, InstructionSet::X64), Err(Error::UnicodeStringAlignment));
}

#[test]
fn unicode_string_too_long() {
    let mut mem = x64_string_memory(0xfffe, 0x1ff0, &[]);
    assert_eq!(read_string(&mut mem, InstructionSet::X64), Err(Error::UnicodeStringTooLong));
}

#[test]
fn unicode_string_unsupported_arch() {
    let content = utf16_bytes("abc");
    let mut mem = x64_string_memory(6, 0x1ff0, &content);
    assert_eq!(read_string(&mut mem, InstructionSet::X86Pae), Err(Error::InvalidProcArch));
    assert_eq!(read_string(&mut mem, InstructionSet::Null), Err(Error::InvalidProcArch));
}

#[test]
fn unicode_string_unreadable_buffer() {
    let mut mem = x64_string_memory(4, 0x10_0000, &[]);
    assert_eq!(read_string(&mut mem, InstructionSet::X64), Err(Error::PhysicalMemory));
}

#[test]
fn unicode_string_past_end_of_address_space() {
    let mut mem = FlatMemory { mem: vec![0u8; 0x100] };
    let mut vm = VirtualMemory::new(&mut mem, Architecture::new(InstructionSet::X64), Architecture::new(InstructionSet::X64), 0);
    assert_eq!(vm.virt_read_raw(u64::MAX, &mut vec![0u8; 2]), Err(Error::VirtualTranslate));
}

#[test]
fn virtual_memory_reads_pointers() {
    let mut mem = FlatMemory { mem: (0..0x100u32).map(|i| i as u8).collect() };
    let mut vm = VirtualMemory::new(&mut mem, Architecture::new(InstructionSet::X64), Architecture::new(InstructionSet::X86), 0);
    assert_eq!(vm.virt_read_u16(0x10), Ok(0x1110));
    assert_eq!(vm.virt_read_addr32(0x10), Ok(0x1312_1110));
    assert_eq!(vm.virt_read_addr64(0x10), Ok(0x1716_1514_1312_1110));
    assert_eq!(vm.proc_arch(), Architecture::new(InstructionSet::X86));
}

#[test]
fn decode_little_endian() {
    let mut content = utf16_bytes("hi");
    content.extend_from_slice(&[0x7a, 0x7a]);
    assert_eq!(decode_unicode_string(4, content, Endianess::LittleEndian), Ok("hi".to_string()));
}

#[test]
fn decode_big_endian() {
    let content = vec![0x00, 0x68, 0x00, 0x69, 0x12, 0x34];
    assert_eq!(decode_unicode_string(4, content, Endianess::BigEndian), Ok("hi".to_string()));
}

#[test]
fn content_len_checks() {
    assert_eq!(unicode_string_content_len(8, 0x1000), Ok(10));
    assert_eq!(unicode_string_content_len(8, 0), Err(Error::UnicodeStringLength));
    assert_eq!(unicode_string_content_len(7, 0x1000), Err(Error::UnicodeStringAlignment));
    assert_eq!(unicode_string_content_len(0xfffe, 0x1000), Err(Error::UnicodeStringTooLong));
    assert_eq!(unicode_string_content_len(0xfffc, 0x1000), Ok(0xfffe));
}

#[test]
fn pointer_location_checks() {
    assert_eq!(unicode_string_pointer_location(6, InstructionSet::X64, 0x100), Ok((0x108, 8)));
    assert_eq!(unicode_string_pointer_location(6, InstructionSet::X86, 0x100), Ok((0x104, 4)));
    assert_eq!(unicode_string_pointer_location(0, InstructionSet::X64, 0x100), Err(Error::UnicodeStringLength));
    assert_eq!(unicode_string_pointer_location(0, InstructionSet::X86Pae, 0x100), Err(Error::UnicodeStringLength));
    assert_eq!(unicode_string_pointer_location(6, InstructionSet::X86Pae, 0x100), Err(Error::InvalidProcArch));
    assert_eq!(unicode_string_pointer_location(6, InstructionSet::Null, 0x100), Err(Error::InvalidProcArch));
    assert_eq!(unicode_string_pointer_location(6, InstructionSet::X64, u64::MAX - 8), Ok((u64::MAX, 8)));
    assert_eq!(unicode_string_pointer_location(6, InstructionSet::X64, u64::MAX - 7), Err(Error::VirtualTranslate));
    assert_eq!(unicode_string_pointer_location(6, InstructionSet::X86, u64::MAX - 3), Err(Error::VirtualTranslate));
}

#[test]
fn unicode_string_fits_its_length() {
    let cases: Vec<Vec<u8>> = vec![
        utf16_bytes("abcdef"),
        utf16_bytes("a\0b"),
        vec![0x00, 0xdc, 0x00, 0xd8, 0x41, 0x00],
        utf16_bytes("\u{1F600}\u{1F601}"),
    ];
    for content in cases {
        for length in (2..=content.len() as u16).step_by(2) {
            let mut mem = x64_string_memory(length, 0x1ff0, &content);
            let s = read_string(&mut mem, InstructionSet::X64).unwrap();
            assert!(s.chars().count() <= length as usize / 2);
            assert!(!s.contains('\0'));
        }
    }
}
