//! Memory introspection primitives: address translation over page-sized
//! chunks, reads and writes of virtual memory through a translator and a
//! physical memory backend, process and module descriptions, IDA-style
//! signature search and decoding of Windows `UNICODE_STRING` structures.

pub mod architecture;
pub mod error;
pub mod page_chunks;
pub mod types;
pub mod vat;
pub mod endian;
pub mod virt_mem;
pub mod unicode_string;
pub mod ida_pattern;
pub mod process;
pub mod module_info;
