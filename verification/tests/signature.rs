use memflow::architecture::{
    arch_address_space_bits, arch_bits, arch_endianess, arch_size_addr, page_size, Architecture, Endianess,
    InstructionSet,
};
use memflow::error::Error;
use memflow::ida_pattern::{find_ida_pattern, parse_ida_pattern};
use memflow::module_info::{ArchitectureIdent, ExportInfo, ImportInfo, ModuleAddressInfo, ModuleInfo, SectionInfo};
use memflow::process::{FindSignatureTrait, ModuleTrait, VirtualReadHelper};
use memflow::types::{Address, Length};

/// A module whose image lies at `base` in a flat memory.
struct TestModule {
    base: Address,
    image: Vec<u8>,
    broken: bool,
}

impl ModuleTrait for TestModule {
    fn base(&mut self) -> Result<Address, Error> {
        if self.broken {
            Err(Error::Module)
        } else {
            Ok(self.base)
        }
    }

    fn size(&mut self) -> Result<Length, Error> {
        Ok(self.image.len())
    }

    fn name(&mut self) -> Result<String, Error> {
        Ok("test.dll".to_string())
    }
}

impl VirtualReadHelper for TestModule {
    fn virt_read(&mut self, addr: Address, len: Length) -> Result<Vec<u8>, Error> {
        let start = (addr - self.base) as usize;
        Ok(self.image[start..start + len].to_vec())
    }
}

#[test]
fn parse_pattern_tokens() {
    assert_eq!(
        parse_ida_pattern("48 8b ?? 05 ? Ff"),
        Some(vec![Some(0x48), Some(0x8b), None, Some(0x05), None, Some(0xff)])
    );
    assert_eq!(parse_ida_pattern("  \t48\n"), Some(vec![Some(0x48)]));
    assert_eq!(parse_ida_pattern(""), Some(vec![]));
}

#[test]
fn parse_pattern_rejects_bad_tokens() {
    assert_eq!(parse_ida_pattern("48 8"), None);
    assert_eq!(parse_ida_pattern("488B"), None);
    assert_eq!(parse_ida_pattern("4G"), None);
    assert_eq!(parse_ida_pattern("???"), None);
}

#[test]
fn find_pattern_first_match() {
    let buf = [0x00, 0x48, 0x8b, 0x48, 0x8b, 0x01, 0x05, 0x48, 0x8b, 0x05];
    assert_eq!(find_ida_pattern("48 8B ?? 05", &buf), Ok((3, 7)));
    assert_eq!(find_ida_pattern("48 8b", &buf), Ok((1, 3)));
}

#[test]
fn find_pattern_wildcards_match_any_byte() {
    let buf = [0x0a, 0x0a, 0x0a];
    assert_eq!(find_ida_pattern("? ?? 0a", &buf), Ok((0, 3)));
}

#[test]
fn find_pattern_errors() {
    let buf = [1, 2, 3];
    assert_eq!(find_ida_pattern("01 02 03 04", &buf), Err(Error::PatternNotFound));
    assert_eq!(find_ida_pattern("02 01", &buf), Err(Error::PatternNotFound));
    assert_eq!(find_ida_pattern("zz", &buf), Err(Error::MalformedPattern));
    assert_eq!(find_ida_pattern("", &buf), Ok((0, 0)));
}

#[test]
fn signature_gives_offset_from_base() {
    let mut module = TestModule { base: 0x7ff0_0000, image: vec![0xcc, 0xcc, 0xe8, 0x12, 0x34, 0xc3], broken: false };
    assert_eq!(module.signature("E8 ?? ?? C3"), Ok(2));
    assert_eq!(module.signature("90 90"), Err(Error::PatternNotFound));
    assert_eq!(module.signature("E8 x"), Err(Error::MalformedPattern));
    assert_eq!(module.name(), Ok("test.dll".to_string()));
}

#[test]
fn signature_reports_module_failure() {
    let mut module = TestModule { base: 0, image: vec![0xe8], broken: true };
    assert_eq!(module.signature("E8"), Err(Error::Module));
}

#[test]
fn architecture_properties() {
    let x64 = Architecture::new(InstructionSet::X64);
    let x86 = Architecture::new(InstructionSet::X86);
    let pae = Architecture::new(InstructionSet::X86Pae);
    assert_eq!(arch_bits(&x64), 64);
    assert_eq!(arch_bits(&x86), 32);
    assert_eq!(arch_size_addr(&x64), 8);
    assert_eq!(arch_size_addr(&pae), 4);
    assert_eq!(arch_address_space_bits(&x64), 52);
    assert_eq!(arch_address_space_bits(&pae), 36);
    assert_eq!(arch_address_space_bits(&x86), 32);
    assert_eq!(page_size(&x86), 0x1000);
    assert_eq!(arch_endianess(&x64), Endianess::LittleEndian);
}

#[test]
fn instruction_set_bytes_are_distinct() {
    let all = [InstructionSet::Null, InstructionSet::X64, InstructionSet::X86Pae, InstructionSet::X86];
    let bytes: Vec<u8> = all.iter().map(|i| i.to_u8()).collect();
    assert_eq!(bytes, vec![0, 1, 2, 3]);
}

#[test]
fn module_descriptions() {
    let info = ModuleInfo {
        address: 0x1000,
        parent_process: 0x2000,
        base: 0x7ff0_0000,
        size: 0x5000,
        name: "ntdll.dll".to_string(),
        path: "C:\\Windows\\System32\\ntdll.dll".to_string(),
        arch: ArchitectureIdent::X86(64, false),
    };
    let copy = info.clone();
    assert_eq!(copy.name, "ntdll.dll");
    assert_eq!(copy.arch, ArchitectureIdent::X86(64, false));
    let addr = ModuleAddressInfo { address: info.address, arch: info.arch };
    assert_eq!(addr.address, 0x1000);
    let import = ImportInfo { name: "LoadLibraryA".to_string(), offset: 0x10 };
    let export = ExportInfo { name: "NtClose".to_string(), offset: 0x20 };
    let section = SectionInfo { name: ".text".to_string(), base: 0x7ff0_1000, size: 0x100 };
    assert_eq!(import.clone().offset + export.clone().offset + section.clone().size, 0x130);
}
