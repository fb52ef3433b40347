# memflow

Memory introspection primitives, verified with Verus.

- `src/page_chunks.rs`: cutting a buffer at page boundaries, with the laws
  that the pieces cover it in order, each lies in one page, and there are as
  many as pages touched.
- `src/vat.rs`: reading and writing virtual memory through an address
  translator and a physical memory backend, specified over two views of the
  backend (the bytes of physical memory and the translation of each virtual
  address), with the laws that a read gives back what a write wrote and that
  a read may be split.
- `src/virt_mem.rs`, `src/endian.rs`: the virtual memory of a process and
  the decoding of the integers read from it.
- `src/unicode_string.rs`: reading Windows `UNICODE_STRING` structures.
- `src/ida_pattern.rs`, `src/process.rs`: IDA-style signatures and the
  process, module, export and section interfaces.
- `src/architecture.rs`, `src/types.rs`, `src/module_info.rs`, `src/error.rs`:
  architectures, addresses and pages, module descriptions, errors.

`app/` holds the C interface to architectures, serde copies of the module
descriptions and the QEMU bridge connector.
