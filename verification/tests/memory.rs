use memflow::architecture::{Architecture, InstructionSet};
use memflow::error::Error;
use memflow::page_chunks::{page_chunks, PageChunk};
use memflow::types::{Address, Page, PageType, PhysicalAddress};
use memflow::vat::{
    page_from_translation, split_requests, virt_page_info, virt_read_raw_iter, virt_write_raw_iter,
    AccessPhysicalMemory, PhysicalReadData, PhysicalWriteData, RequestChunk, VirtualAddressTranslator,
    VirtualReadData, VirtualWriteData,
};

/// Physical memory that maps every virtual address to the same physical
/// one, except for the pages listed as unmapped.
struct TestMemory {
    mem: Vec<u8>,
    unmapped_pages: Vec<u64>,
    pages_without_info: Vec<u64>,
    fail_reads: bool,
    phys_offset: u64,
    translations: Vec<Address>,
    phys_writes: Vec<(Address, Vec<u8>)>,
}

impl TestMemory {
    fn new(size: usize) -> TestMemory {
        let mem = (0..size).map(|i| (i % 251) as u8).collect();
        TestMemory {
            mem,
            unmapped_pages: Vec::new(),
            pages_without_info: Vec::new(),
            fail_reads: false,
            phys_offset: 0,
            translations: Vec::new(),
            phys_writes: Vec::new(),
        }
    }
}

impl VirtualAddressTranslator for TestMemory {
    fn virt_to_phys_iter(
        &mut self,
        _arch: Architecture,
        _dtb: Address,
        addrs: &Vec<Address>,
    ) -> Vec<Result<PhysicalAddress, Error>> {
        let mut out = Vec::new();
        for &a in addrs.iter() {
            self.translations.push(a);
            let page = a / 0x1000;
            if self.unmapped_pages.contains(&page) {
                out.push(Err(Error::VirtualTranslate));
            } else if self.pages_without_info.contains(&page) {
                out.push(Ok(PhysicalAddress { address: a + self.phys_offset, page: None }));
            } else {
                out.push(Ok(PhysicalAddress {
                    address: a + self.phys_offset,
                    page: Some(Page { page_type: PageType::Writeable, page_base: page * 0x1000, page_size: 0x1000 }),
                }));
            }
        }
        out
    }
}

impl AccessPhysicalMemory for TestMemory {
    fn phys_read_raw_iter(&mut self, data: &mut Vec<PhysicalReadData>) -> Result<(), Error> {
        if self.fail_reads {
            return Err(Error::PhysicalMemory);
        }
        for d in data.iter_mut() {
            let start = d.addr.address as usize;
            let end = start + d.buf.len();
            if end > self.mem.len() {
                return Err(Error::PhysicalMemory);
            }
            d.buf.copy_from_slice(&self.mem[start..end]);
        }
        Ok(())
    }

    fn phys_write_raw_iter(&mut self, data: &Vec<PhysicalWriteData>) -> Result<(), Error> {
        for d in data.iter() {
            let start = d.addr.address as usize;
            let end = start + d.buf.len();
            if end > self.mem.len() {
                return Err(Error::PhysicalMemory);
            }
            self.mem[start..end].copy_from_slice(&d.buf);
            self.phys_writes.push((d.addr.address, d.buf.clone()));
        }
        Ok(())
    }
}

fn x64() -> Architecture {
    Architecture::new(InstructionSet::X64)
}

#[test]
fn page_chunks_cut_at_page_boundaries() {
    let chunks = page_chunks(0xff0, 0x30, 0x1000);
    assert_eq!(
        chunks,
        vec![
            PageChunk { addr: 0xff0, offset: 0, len: 0x10 },
            PageChunk { addr: 0x1000, offset: 0x10, len: 0x20 },
        ]
    );
}

#[test]
fn page_chunks_span_whole_pages() {
    let chunks = page_chunks(0x1800, 0x2000, 0x1000);
    assert_eq!(
        chunks,
        vec![
            PageChunk { addr: 0x1800, offset: 0, len: 0x800 },
            PageChunk { addr: 0x2000, offset: 0x800, len: 0x1000 },
            PageChunk { addr: 0x3000, offset: 0x1800, len: 0x800 },
        ]
    );
}

#[test]
fn page_chunks_of_empty_buffer() {
    assert!(page_chunks(0x1234, 0, 0x1000).is_empty());
}

#[test]
fn page_chunks_inside_one_page() {
    assert_eq!(page_chunks(0x2000, 0x1000, 0x1000), vec![PageChunk { addr: 0x2000, offset: 0, len: 0x1000 }]);
}

#[test]
fn page_chunks_at_end_of_address_space() {
    let chunks = page_chunks(u64::MAX - 0xf, 0x10, 0x1000);
    assert_eq!(chunks, vec![PageChunk { addr: u64::MAX - 0xf, offset: 0, len: 0x10 }]);
}

#[test]
fn split_requests_tags_each_request() {
    let chunks = split_requests(&vec![(0xff8, 0x10), (0x5000, 4)], 0x1000);
    assert_eq!(
        chunks,
        vec![
            RequestChunk { index: 0, chunk: PageChunk { addr: 0xff8, offset: 0, len: 8 } },
            RequestChunk { index: 0, chunk: PageChunk { addr: 0x1000, offset: 8, len: 8 } },
            RequestChunk { index: 1, chunk: PageChunk { addr: 0x5000, offset: 0, len: 4 } },
        ]
    );
}

#[test]
fn virt_read_reads_across_pages() {
    let mut mem = TestMemory::new(0x4000);
    let mut data = vec![
        VirtualReadData { addr: 0xffc, buf: vec![0xaa; 8] },
        VirtualReadData { addr: 0x2000, buf: vec![0xaa; 3] },
    ];
    assert_eq!(virt_read_raw_iter(&mut mem, x64(), 0, &mut data), Ok(()));
    let expect0: Vec<u8> = (0xffc..0x1004).map(|i: usize| (i % 251) as u8).collect();
    let expect1: Vec<u8> = (0x2000..0x2003).map(|i: usize| (i % 251) as u8).collect();
    assert_eq!(data[0].buf, expect0);
    assert_eq!(data[1].buf, expect1);
    assert_eq!(data[0].addr, 0xffc);
    assert_eq!(mem.translations, vec![0xffc, 0x1000, 0x2000]);
}

#[test]
fn virt_read_zeroes_untranslated_pages() {
    let mut mem = TestMemory::new(0x4000);
    mem.unmapped_pages.push(1);
    let mut data = vec![VirtualReadData { addr: 0xffc, buf: vec![0xaa; 8] }];
    assert_eq!(virt_read_raw_iter(&mut mem, x64(), 0, &mut data), Ok(()));
    let mut expect: Vec<u8> = (0xffc..0x1000).map(|i: usize| (i % 251) as u8).collect();
    expect.extend_from_slice(&[0, 0, 0, 0]);
    assert_eq!(data[0].buf, expect);
}

#[test]
fn virt_read_failure_zeroes_untranslated() {
    let mut mem = TestMemory::new(0x4000);
    mem.fail_reads = true;
    mem.unmapped_pages.push(0);
    let mut data = vec![VirtualReadData { addr: 0x10, buf: vec![0xaa; 4] }];
    assert_eq!(virt_read_raw_iter(&mut mem, x64(), 0, &mut data), Err(Error::PhysicalMemory));
    assert_eq!(data[0].buf, vec![0; 4]);
}

#[test]
fn virt_read_failure_keeps_translated_chunks() {
    let mut mem = TestMemory::new(0x4000);
    mem.fail_reads = true;
    mem.unmapped_pages.push(1);
    let mut data = vec![VirtualReadData { addr: 0xffe, buf: vec![0xaa; 4] }];
    assert_eq!(virt_read_raw_iter(&mut mem, x64(), 0, &mut data), Err(Error::PhysicalMemory));
    assert_eq!(data[0].buf, vec![0xaa, 0xaa, 0, 0]);
}

#[test]
fn virt_read_after_write() {
    let mut mem = TestMemory::new(0x4000);
    mem.unmapped_pages.push(2);
    let written = vec![9u8, 8, 7, 6, 5, 4];
    let data = vec![VirtualWriteData { addr: 0x1ffd, buf: written.clone() }];
    assert_eq!(virt_write_raw_iter(&mut mem, x64(), 0, &data), Ok(()));
    let mut read = vec![VirtualReadData { addr: 0x1ffd, buf: vec![0xaa; 6] }];
    assert_eq!(virt_read_raw_iter(&mut mem, x64(), 0, &mut read), Ok(()));
    assert_eq!(read[0].buf, vec![9, 8, 7, 0, 0, 0]);
}

#[test]
fn virt_write_skips_untranslated_pages() {
    let mut mem = TestMemory::new(0x4000);
    mem.unmapped_pages.push(2);
    let data = vec![VirtualWriteData { addr: 0x1ffe, buf: vec![1, 2, 3, 4] }];
    assert_eq!(virt_write_raw_iter(&mut mem, x64(), 0, &data), Ok(()));
    assert_eq!(mem.phys_writes, vec![(0x1ffe, vec![1, 2])]);
    assert_eq!(&mem.mem[0x1ffe..0x2000], &[1, 2]);
    assert_eq!(mem.mem[0x2000], (0x2000 % 251) as u8);
}

#[test]
fn virt_write_reports_physical_failure() {
    let mut mem = TestMemory::new(0x100);
    let data = vec![VirtualWriteData { addr: 0xfe, buf: vec![1, 2, 3, 4] }];
    assert_eq!(virt_write_raw_iter(&mut mem, x64(), 0, &data), Err(Error::PhysicalMemory));
}

#[test]
fn virt_to_phys_translates_one_address() {
    let mut mem = TestMemory::new(0x100);
    let pa = mem.virt_to_phys(x64(), 0, 0x1234).unwrap();
    assert_eq!(pa.address, 0x1234);
    assert_eq!(mem.translations, vec![0x1234]);
}

#[test]
fn virt_page_info_finds_page() {
    let mut mem = TestMemory::new(0x100);
    let page = virt_page_info(&mut mem, x64(), 0, 0x3456).unwrap();
    assert_eq!(page, Page { page_type: PageType::Writeable, page_base: 0x3000, page_size: 0x1000 });
}

#[test]
fn virt_page_info_without_page() {
    let mut mem = TestMemory::new(0x100);
    mem.pages_without_info.push(3);
    assert_eq!(virt_page_info(&mut mem, x64(), 0, 0x3456), Err(Error::PageInfoNotFound));
}

#[test]
fn virt_page_info_untranslated() {
    let mut mem = TestMemory::new(0x100);
    mem.unmapped_pages.push(3);
    assert_eq!(virt_page_info(&mut mem, x64(), 0, 0x3456), Err(Error::VirtualTranslate));
}

#[test]
fn page_from_translation_cases() {
    let page = Page { page_type: PageType::ReadOnly, page_base: 0x1000, page_size: 0x1000 };
    assert_eq!(page_from_translation(Ok(PhysicalAddress { address: 0x1001, page: Some(page) })), Ok(page));
    assert_eq!(
        page_from_translation(Ok(PhysicalAddress { address: 0x1001, page: None })),
        Err(Error::PageInfoNotFound)
    );
    assert_eq!(page_from_translation(Err(Error::VirtualTranslate)), Err(Error::VirtualTranslate));
}

#[test]
fn virt_read_page_crossing_example() {
    let mut mem = TestMemory::new(0x8000);
    mem.phys_offset = 0x5000;
    mem.unmapped_pages.push(1);
    mem.mem[0x5ffc..0x6000].copy_from_slice(&[1, 2, 3, 4]);
    let mut data = vec![VirtualReadData { addr: 0xffc, buf: vec![0u8; 8] }];
    assert_eq!(virt_read_raw_iter(&mut mem, x64(), 0, &mut data), Ok(()));
    assert_eq!(data[0].buf, vec![1, 2, 3, 4, 0, 0, 0, 0]);
    assert_eq!(mem.translations, vec![0xffc, 0x1000]);
}
