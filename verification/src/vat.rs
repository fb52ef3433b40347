use vstd::prelude::*;

use crate::architecture::{Architecture, PAGE_SIZE_4K};
use crate::error::Error;
use crate::page_chunks::{
    PageChunk,
    chunks_cut_at_pages,
    lemma_page_chunks_cover,
    page_chunks,
    some_chunk_holds,
    spec_page_chunks,
};
use crate::types::{Address, Page, PhysicalAddress};

verus! {

/// A buffer to be filled from virtual memory at `addr`.
pub struct VirtualReadData {
    pub addr: Address,
    pub buf: Vec<u8>,
}

/// Bytes to be written to virtual memory at `addr`.
pub struct VirtualWriteData {
    pub addr: Address,
    pub buf: Vec<u8>,
}

/// A buffer to be filled from physical memory at `addr`.
pub struct PhysicalReadData {
    pub addr: PhysicalAddress,
    pub buf: Vec<u8>,
}

/// Bytes to be written to physical memory at `addr`.
pub struct PhysicalWriteData {
    pub addr: PhysicalAddress,
    pub buf: Vec<u8>,
}

/// The bytes of memory at `a` after the writes `ws` were made in order to a
/// memory that held `mem`: the last write that covers `a` decides.
pub open spec fn after_writes(mem: spec_fn(int) -> u8, ws: Seq<(int, Seq<u8>)>, a: int) -> u8
    decreases ws.len(),
{
    if ws.len() == 0 {
        mem(a)
    } else if ws.last().0 <= a < ws.last().0 + ws.last().1.len() {
        ws.last().1[a - ws.last().0]
    } else {
        after_writes(mem, ws.drop_last(), a)
    }
}

/// The address and length of each physical read.
pub open spec fn phys_read_ranges(data: Seq<PhysicalReadData>) -> Seq<(PhysicalAddress, nat)> {
    data.map_values(|d: PhysicalReadData| (d.addr, d.buf@.len()))
}

/// The address and bytes of each physical write.
pub open spec fn phys_write_targets(data: Seq<PhysicalWriteData>) -> Seq<(int, Seq<u8>)> {
    data.map_values(|d: PhysicalWriteData| (d.addr.address as int, d.buf@))
}

/// Reads and writes physical memory.
///
/// Its specification sees the memory through two views, which each
/// implementation that is verified gives: the byte held at each physical
/// address, and where each virtual address lies by the page tables that the
/// memory holds.
pub trait AccessPhysicalMemory {
    /// The byte that physical memory holds at `addr`.
    open spec fn phys_byte(&self, addr: int) -> u8 {
        vstd::pervasive::arbitrary()
    }

    /// Where `vaddr` lies in physical memory, in the address space of
    /// architecture `arch` whose directory table base is `dtb`.
    open spec fn translation(&self, arch: Architecture, dtb: Address, vaddr: Address) -> Result<PhysicalAddress, Error> {
        vstd::pervasive::arbitrary()
    }

    /// Whether reading each `(address, length)` range of `reads` from
    /// physical memory succeeds. An implementation that cannot tell keeps
    /// this default, under which no read is promised to succeed.
    open spec fn phys_reads_succeed(&self, reads: Seq<(PhysicalAddress, nat)>) -> bool {
        false
    }

    /// Whether writing each `(address, bytes)` of `writes` to physical
    /// memory succeeds. An implementation that cannot tell keeps this
    /// default, under which no write is promised to succeed.
    open spec fn phys_writes_succeed(&self, writes: Seq<(int, Seq<u8>)>) -> bool {
        false
    }

    /// Fills each buffer from physical memory at its address; addresses and
    /// buffer lengths stay as they are, and memory is left as it was. Where
    /// it succeeds, each buffer holds the bytes from its address on.
    fn phys_read_raw_iter(&mut self, data: &mut Vec<PhysicalReadData>) -> (r: Result<(), Error>)
        ensures
            final(data)@.len() == old(data)@.len(),
            forall|i: int| #![trigger final(data)@[i]] 0 <= i < old(data)@.len() ==> {
                &&& final(data)@[i].addr == old(data)@[i].addr
                &&& final(data)@[i].buf@.len() == old(data)@[i].buf@.len()
            },
            forall|a: int| #[trigger] final(self).phys_byte(a) == old(self).phys_byte(a),
            forall|arch: Architecture, dtb: Address, v: Address| #[trigger] final(self).translation(arch, dtb, v)
                == old(self).translation(arch, dtb, v),
            r is Ok ==> forall|i: int| #![trigger final(data)@[i]] 0 <= i < old(data)@.len() ==>
                final(data)@[i].buf@ == Seq::new(
                    old(data)@[i].buf@.len(),
                    |j: int| old(self).phys_byte(old(data)@[i].addr.address + j),
                ),            old(self).phys_reads_succeed(phys_read_ranges(old(data)@)) ==> r is Ok,
            forall|rs: Seq<(PhysicalAddress, nat)>| #[trigger] final(self).phys_reads_succeed(rs)
                == old(self).phys_reads_succeed(rs),
    ;

    /// Writes each buffer to physical memory at its address, in order.
    fn phys_write_raw_iter(&mut self, data: &Vec<PhysicalWriteData>) -> (r: Result<(), Error>)
        ensures
            r is Ok ==> forall|a: int| #[trigger] final(self).phys_byte(a)
                == after_writes(|x: int| old(self).phys_byte(x), phys_write_targets(data@), a),            old(self).phys_writes_succeed(phys_write_targets(data@)) ==> r is Ok,
    ;
}

/// Translates virtual addresses of an address space into physical ones, by
/// the page tables that its physical memory holds.
pub trait VirtualAddressTranslator: AccessPhysicalMemory {
    /// Translates each of `addrs` in the address space whose directory table
    /// base is `dtb`; the result holds one entry per address, in order, and
    /// memory is left as it was.
    fn virt_to_phys_iter(&mut self, arch: Architecture, dtb: Address, addrs: &Vec<Address>) -> (out: Vec<Result<PhysicalAddress, Error>>)
        ensures
            out@.len() == addrs@.len(),
            forall|i: int| #![trigger out@[i]] 0 <= i < addrs@.len() ==> out@[i] == old(self).translation(arch, dtb, addrs@[i]),
            forall|a: int| #[trigger] final(self).phys_byte(a) == old(self).phys_byte(a),
            forall|arch2: Architecture, dtb2: Address, v: Address| #[trigger] final(self).translation(arch2, dtb2, v)
                == old(self).translation(arch2, dtb2, v),
            forall|rs: Seq<(PhysicalAddress, nat)>| #[trigger] final(self).phys_reads_succeed(rs)
                == old(self).phys_reads_succeed(rs),
            forall|ws: Seq<(int, Seq<u8>)>| #[trigger] final(self).phys_writes_succeed(ws)
                == old(self).phys_writes_succeed(ws),
    ;

    /// Translates the single address `vaddr`.
    fn virt_to_phys(&mut self, arch: Architecture, dtb: Address, vaddr: Address) -> (r: Result<PhysicalAddress, Error>)
        ensures
            r == old(self).translation(arch, dtb, vaddr),
            forall|a: int| #[trigger] final(self).phys_byte(a) == old(self).phys_byte(a),
            forall|arch2: Architecture, dtb2: Address, v: Address| #[trigger] final(self).translation(arch2, dtb2, v)
                == old(self).translation(arch2, dtb2, v),
            forall|rs: Seq<(PhysicalAddress, nat)>| #[trigger] final(self).phys_reads_succeed(rs)
                == old(self).phys_reads_succeed(rs),
            forall|ws: Seq<(int, Seq<u8>)>| #[trigger] final(self).phys_writes_succeed(ws)
                == old(self).phys_writes_succeed(ws),
    {
        let addrs: Vec<Address> = vec![vaddr];
        let mut out = self.virt_to_phys_iter(arch, dtb, &addrs);
        out.pop().unwrap()
    }
}

/// A page chunk of the request at position `index` of a list of requests.
#[derive(Clone, Copy, Debug, PartialEq, Eq, Structural)]
pub struct RequestChunk {
    pub index: usize,
    pub chunk: PageChunk,
}

/// The page chunks of one request, tagged with the request's position.
pub open spec fn tag_chunks(index: int, s: Seq<PageChunk>) -> Seq<RequestChunk> {
    s.map_values(|c: PageChunk| RequestChunk { index: index as usize, chunk: c })
}

/// Each request, an address and a length, ends inside the address space.
pub open spec fn requests_fit(reqs: Seq<(Address, usize)>) -> bool {
    forall|i: int| #![trigger reqs[i]] 0 <= i < reqs.len() ==> reqs[i].0 + reqs[i].1 <= u64::MAX + 1
}

/// The page chunks of all requests, request after request.
pub open spec fn spec_request_chunks(reqs: Seq<(Address, usize)>, page_size: int) -> Seq<RequestChunk>
    decreases reqs.len(),
{
    if reqs.len() == 0 {
        Seq::empty()
    } else {
        spec_request_chunks(reqs.drop_last(), page_size) + tag_chunks(
            reqs.len() - 1,
            spec_page_chunks(reqs.last().0 as int, 0, reqs.last().1 as int, page_size),
        )
    }
}

/// The pieces of a list of requests lie inside their requests, pieces of one
/// request come in order without overlap, and together they hold every byte
/// of every request.
pub open spec fn request_chunks_well_formed(s: Seq<RequestChunk>, reqs: Seq<(Address, usize)>) -> bool {
    &&& forall|k: int| #![trigger s[k]] 0 <= k < s.len() ==> {
        &&& s[k].index < reqs.len()
        &&& s[k].chunk.len > 0
        &&& s[k].chunk.offset + s[k].chunk.len <= reqs[s[k].index as int].1
        &&& s[k].chunk.addr == reqs[s[k].index as int].0 + s[k].chunk.offset
    }
    &&& forall|k1: int, k2: int| #![trigger s[k1], s[k2]]
        0 <= k1 < k2 < s.len() && s[k1].index == s[k2].index
        ==> s[k1].chunk.offset + s[k1].chunk.len <= s[k2].chunk.offset
    &&& forall|i: int, j: int| 0 <= i < reqs.len() && 0 <= j < reqs[i].1
        ==> #[trigger] some_request_chunk_holds(s, i, j)
}

/// Some piece of `s` holds byte `j` of request `i`.
pub open spec fn some_request_chunk_holds(s: Seq<RequestChunk>, i: int, j: int) -> bool {
    exists|k: int| #![trigger s[k]]
        0 <= k < s.len() && s[k].index == i && s[k].chunk.offset <= j < s[k].chunk.offset + s[k].chunk.len
}

/// The page chunks of a list of requests are well formed.
pub proof fn lemma_request_chunks(reqs: Seq<(Address, usize)>, page_size: usize)
    requires
        page_size > 0,
        requests_fit(reqs),
        reqs.len() <= usize::MAX,
    ensures
        request_chunks_well_formed(spec_request_chunks(reqs, page_size as int), reqs),
    decreases reqs.len(),
{
    if reqs.len() > 0 {
        let n = reqs.len() - 1;
        let prev = reqs.drop_last();
        assert forall|i: int| #![trigger prev[i]] 0 <= i < prev.len() implies prev[i].0 + prev[i].1 <= u64::MAX + 1 by {
            assert(prev[i] == reqs[i]);
        }
        lemma_request_chunks(prev, page_size);
        let sp = spec_request_chunks(prev, page_size as int);
        let pc = spec_page_chunks(reqs[n].0 as int, 0, reqs[n].1 as int, page_size as int);
        assert(reqs[n].0 + reqs[n].1 <= u64::MAX + 1);
        lemma_page_chunks_cover(reqs[n].0, reqs[n].1, page_size);
        assert(chunks_cut_at_pages(pc, reqs[n].0 as int, 0, reqs[n].1 as int, page_size as int));
        let t = tag_chunks(n, pc);
        let s = spec_request_chunks(reqs, page_size as int);
        assert(s == sp + t);
        assert forall|k: int| #![trigger s[k]] 0 <= k < s.len() implies {
            &&& s[k].index < reqs.len()
            &&& s[k].chunk.len > 0
            &&& s[k].chunk.offset + s[k].chunk.len <= reqs[s[k].index as int].1
            &&& s[k].chunk.addr == reqs[s[k].index as int].0 + s[k].chunk.offset
        } by {
            if k < sp.len() {
                assert(s[k] == sp[k]);
                assert(prev[sp[k].index as int] == reqs[sp[k].index as int]);
            } else {
                assert(s[k] == t[k - sp.len()]);
                assert(pc[k - sp.len()].addr - reqs[n].0 == pc[k - sp.len()].offset - 0);
            }
        }
        assert forall|k1: int, k2: int| #![trigger s[k1], s[k2]]
            0 <= k1 < k2 < s.len() && s[k1].index == s[k2].index
            implies s[k1].chunk.offset + s[k1].chunk.len <= s[k2].chunk.offset by {
            if k2 < sp.len() {
                assert(s[k1] == sp[k1] && s[k2] == sp[k2]);
            } else if k1 < sp.len() {
                assert(s[k1] == sp[k1]);
                assert(s[k2] == t[k2 - sp.len()]);
            } else {
                assert(s[k1] == t[k1 - sp.len()] && s[k2] == t[k2 - sp.len()]);
                assert(pc[k1 - sp.len()] == s[k1].chunk && pc[k2 - sp.len()] == s[k2].chunk);
            }
        }
        assert forall|i: int, j: int| 0 <= i < reqs.len() && 0 <= j < reqs[i].1
            implies #[trigger] some_request_chunk_holds(s, i, j) by {
            if i < n {
                assert(prev[i] == reqs[i]);
                assert(some_request_chunk_holds(sp, i, j));
                let k = choose|k: int| #![trigger sp[k]]
                    0 <= k < sp.len() && sp[k].index == i && sp[k].chunk.offset <= j < sp[k].chunk.offset + sp[k].chunk.len;
                assert(s[k] == sp[k]);
            } else {
                assert(some_chunk_holds(pc, j));
                let k = choose|k: int| #![trigger pc[k]]
                    0 <= k < pc.len() && pc[k].offset <= j < pc[k].offset + pc[k].len;
                assert(s[sp.len() + k] == t[k]);
            }
        }
    }
}

/// Every chunk of a list of requests lies inside one page.
pub proof fn lemma_request_chunks_in_pages(reqs: Seq<(Address, usize)>, page_size: usize)
    requires
        page_size > 0,
        requests_fit(reqs),
    ensures
        forall|k: int| #![trigger spec_request_chunks(reqs, page_size as int)[k]]
            0 <= k < spec_request_chunks(reqs, page_size as int).len() ==> {
                let c = spec_request_chunks(reqs, page_size as int)[k].chunk;
                (c.addr as int) / (page_size as int) == (c.addr + c.len - 1) / (page_size as int)
            },
    decreases reqs.len(),
{
    if reqs.len() > 0 {
        let n = reqs.len() - 1;
        let prev = reqs.drop_last();
        assert forall|i: int| #![trigger prev[i]] 0 <= i < prev.len() implies prev[i].0 + prev[i].1 <= u64::MAX + 1 by {
            assert(prev[i] == reqs[i]);
        }
        lemma_request_chunks_in_pages(prev, page_size);
        let sp = spec_request_chunks(prev, page_size as int);
        let pc = spec_page_chunks(reqs[n].0 as int, 0, reqs[n].1 as int, page_size as int);
        assert(reqs[n].0 + reqs[n].1 <= u64::MAX + 1);
        lemma_page_chunks_cover(reqs[n].0, reqs[n].1, page_size);
        let t = tag_chunks(n, pc);
        let s = spec_request_chunks(reqs, page_size as int);
        assert(s == sp + t);
        assert forall|k: int| #![trigger s[k]] 0 <= k < s.len() implies
            (s[k].chunk.addr as int) / (page_size as int) == (s[k].chunk.addr + s[k].chunk.len - 1) / (page_size as int) by {
            if k < sp.len() {
                assert(s[k] == sp[k]);
            } else {
                assert(s[k] == t[k - sp.len()]);
                assert(s[k].chunk == pc[k - sp.len()]);
            }
        }
    }
}

/// Cuts every request at page boundaries, request after request.
pub fn split_requests(reqs: &Vec<(Address, usize)>, page_size: usize) -> (chunks: Vec<RequestChunk>)
    requires
        page_size > 0,
        requests_fit(reqs@),
    ensures
        chunks@ == spec_request_chunks(reqs@, page_size as int),
{
    let mut chunks: Vec<RequestChunk> = Vec::new();
    let mut i: usize = 0;
    while i < reqs.len()
        invariant
            page_size > 0,
            requests_fit(reqs@),
            i <= reqs.len(),
            chunks@ == spec_request_chunks(reqs@.take(i as int), page_size as int),
        decreases reqs.len() - i,
    {
        let (addr, len) = reqs[i];
        assert(reqs@[i as int].0 + reqs@[i as int].1 <= u64::MAX + 1);
        let pc = page_chunks(addr, len, page_size);
        let ghost base = chunks@;
        let mut j: usize = 0;
        while j < pc.len()
            invariant
                i < reqs.len(),
                j <= pc.len(),
                chunks@ == base + tag_chunks(i as int, pc@.take(j as int)),
            decreases pc.len() - j,
        {
            chunks.push(RequestChunk { index: i, chunk: pc[j] });
            assert(tag_chunks(i as int, pc@.take(j + 1)) =~= tag_chunks(i as int, pc@.take(j as int)).push(
                RequestChunk { index: i, chunk: pc@[j as int] },
            ));
            j = j + 1;
        }
        assert(pc@.take(pc.len() as int) =~= pc@);
        assert(reqs@.take(i + 1).drop_last() =~= reqs@.take(i as int));
        assert(reqs@.take(i + 1).last() == reqs@[i as int]);
        i = i + 1;
    }
    assert(reqs@.take(reqs.len() as int) =~= reqs@);
    chunks
}


/// Number of successful translations in `tr`.
pub open spec fn ok_count(tr: Seq<Result<PhysicalAddress, Error>>) -> nat
    decreases tr.len(),
{
    if tr.len() == 0 {
        0
    } else {
        ok_count(tr.drop_last()) + if tr.last() is Ok { 1nat } else { 0nat }
    }
}

/// The physical reads that a translation of the chunks calls for: one per
/// translated chunk, in order, at its physical address and of its length.
pub open spec fn spec_phys_reads(chunks: Seq<RequestChunk>, tr: Seq<Result<PhysicalAddress, Error>>) -> Seq<(PhysicalAddress, nat)>
    decreases chunks.len(),
{
    if chunks.len() == 0 {
        Seq::empty()
    } else {
        let k = chunks.len() - 1;
        let prev = spec_phys_reads(chunks.drop_last(), tr);
        match tr[k] {
            Ok(pa) => prev.push((pa, chunks[k].chunk.len as nat)),
            Err(_) => prev,
        }
    }
}

/// The physical writes that a translation of the chunks calls for: one per
/// translated chunk, in order, at its physical address, with its bytes.
pub open spec fn spec_phys_writes(
    chunks: Seq<RequestChunk>,
    tr: Seq<Result<PhysicalAddress, Error>>,
    bufs: Seq<Seq<u8>>,
) -> Seq<(PhysicalAddress, Seq<u8>)>
    decreases chunks.len(),
{
    if chunks.len() == 0 {
        Seq::empty()
    } else {
        let k = chunks.len() - 1;
        let c = chunks[k];
        let prev = spec_phys_writes(chunks.drop_last(), tr, bufs);
        match tr[k] {
            Ok(pa) => prev.push((pa, bufs[c.index as int].subrange(c.chunk.offset as int, c.chunk.offset + c.chunk.len))),
            Err(_) => prev,
        }
    }
}

/// The physical read for chunk `k`, a translated one, is at position
/// `ok_count(tr.take(k))` of the physical reads.
pub proof fn lemma_phys_reads_position(chunks: Seq<RequestChunk>, tr: Seq<Result<PhysicalAddress, Error>>)
    requires
        tr.len() == chunks.len(),
    ensures
        spec_phys_reads(chunks, tr).len() == ok_count(tr),
        forall|k: int| #![trigger tr[k]] 0 <= k < chunks.len() && tr[k] is Ok ==> {
            &&& ok_count(tr.take(k)) < ok_count(tr)
            &&& spec_phys_reads(chunks, tr)[ok_count(tr.take(k)) as int] == (tr[k]->Ok_0, chunks[k].chunk.len as nat)
        },
{
    lemma_phys_reads_prefix(chunks, tr, chunks.len() as int);
    assert(tr.take(chunks.len() as int) =~= tr);
    assert(chunks.take(chunks.len() as int) =~= chunks);
}

proof fn lemma_phys_reads_prefix(chunks: Seq<RequestChunk>, tr: Seq<Result<PhysicalAddress, Error>>, m: int)
    requires
        tr.len() == chunks.len(),
        0 <= m <= chunks.len(),
    ensures
        spec_phys_reads(chunks.take(m), tr).len() == ok_count(tr.take(m)),
        forall|k: int| #![trigger tr[k]] 0 <= k < m && tr[k] is Ok ==> {
            &&& ok_count(tr.take(k)) < ok_count(tr.take(m))
            &&& spec_phys_reads(chunks.take(m), tr)[ok_count(tr.take(k)) as int] == (tr[k]->Ok_0, chunks[k].chunk.len as nat)
        },
    decreases m,
{
    if m > 0 {
        lemma_phys_reads_prefix(chunks, tr, m - 1);
        assert(chunks.take(m).drop_last() =~= chunks.take(m - 1));
        assert(tr.take(m).drop_last() =~= tr.take(m - 1));
        assert(chunks.take(m)[m - 1] == chunks[m - 1]);
        assert(tr.take(m).last() == tr[m - 1]);
        lemma_ok_count_monotone(tr, m);
    }
}

proof fn lemma_ok_count_monotone(tr: Seq<Result<PhysicalAddress, Error>>, m: int)
    requires
        0 <= m <= tr.len(),
    ensures
        forall|k: int| 0 <= k <= m ==> #[trigger] ok_count(tr.take(k)) <= ok_count(tr.take(m)),
    decreases m,
{
    if m > 0 {
        lemma_ok_count_monotone(tr, m - 1);
        assert(tr.take(m).drop_last() =~= tr.take(m - 1));
    }
}

/// `buf` with the bytes of `src` in place from position `off` on.
pub open spec fn overwrite(buf: Seq<u8>, off: int, src: Seq<u8>) -> Seq<u8> {
    Seq::new(buf.len(), |j: int| if off <= j < off + src.len() { src[j - off] } else { buf[j] })
}

/// What a virtual read puts into chunk `k`: the bytes read from its physical
/// address where it was translated, zeros where it was not.
pub open spec fn chunk_source(
    chunks: Seq<RequestChunk>,
    k: int,
    tr: Seq<Result<PhysicalAddress, Error>>,
    ph: Seq<Seq<u8>>,
) -> Seq<u8> {
    if tr[k] is Ok {
        ph[ok_count(tr.take(k)) as int]
    } else {
        Seq::new(chunks[k].chunk.len as nat, |j: int| 0u8)
    }
}

/// The buffers after each chunk, in order, whose translation succeeded
/// (where `translated`) or failed (where not) received its bytes.
pub open spec fn spec_fill_selected(
    bufs: Seq<Seq<u8>>,
    chunks: Seq<RequestChunk>,
    tr: Seq<Result<PhysicalAddress, Error>>,
    ph: Seq<Seq<u8>>,
    translated: bool,
) -> Seq<Seq<u8>>
    decreases chunks.len(),
{
    if chunks.len() == 0 {
        bufs
    } else {
        let k = chunks.len() - 1;
        let c = chunks[k];
        let prev = spec_fill_selected(bufs, chunks.drop_last(), tr, ph, translated);
        if (tr[k] is Ok) == translated {
            prev.update(c.index as int, overwrite(prev[c.index as int], c.chunk.offset as int, chunk_source(chunks, k, tr, ph)))
        } else {
            prev
        }
    }
}

/// The buffers after the untranslated chunks were zeroed and then the
/// translated chunks received the bytes read for them.
pub open spec fn spec_fill_reads(
    bufs: Seq<Seq<u8>>,
    chunks: Seq<RequestChunk>,
    tr: Seq<Result<PhysicalAddress, Error>>,
    ph: Seq<Seq<u8>>,
) -> Seq<Seq<u8>> {
    spec_fill_selected(spec_fill_selected(bufs, chunks, tr, ph, false), chunks, tr, ph, true)
}

/// Zeroing the untranslated chunks does not look at the bytes read.
pub proof fn lemma_zero_fill_ignores_reads(
    bufs: Seq<Seq<u8>>,
    chunks: Seq<RequestChunk>,
    tr: Seq<Result<PhysicalAddress, Error>>,
    ph1: Seq<Seq<u8>>,
    ph2: Seq<Seq<u8>>,
)
    ensures
        spec_fill_selected(bufs, chunks, tr, ph1, false) == spec_fill_selected(bufs, chunks, tr, ph2, false),
    decreases chunks.len(),
{
    if chunks.len() > 0 {
        lemma_zero_fill_ignores_reads(bufs, chunks.drop_last(), tr, ph1, ph2);
    }
}

/// The translation of each chunk's address by `m`.
pub open spec fn spec_translations<T: VirtualAddressTranslator>(
    m: T,
    arch: Architecture,
    dtb: Address,
    chunks: Seq<RequestChunk>,
) -> Seq<Result<PhysicalAddress, Error>> {
    chunks.map_values(|c: RequestChunk| m.translation(arch, dtb, c.chunk.addr))
}

/// The `len` bytes of the physical memory of `m` from `addr` on.
pub open spec fn phys_range<T: AccessPhysicalMemory>(m: T, addr: int, len: nat) -> Seq<u8> {
    Seq::new(len, |j: int| m.phys_byte(addr + j))
}

/// What the physical memory of `m` holds for each read.
pub open spec fn spec_phys_contents<T: AccessPhysicalMemory>(m: T, reads: Seq<(PhysicalAddress, nat)>) -> Seq<Seq<u8>> {
    reads.map_values(|r: (PhysicalAddress, nat)| phys_range(m, r.0.address as int, r.1))
}

/// The buffers after a successful virtual read of `reqs` from `m`: every
/// chunk translated by `m` holds what the physical memory of `m` holds at
/// its translation, every other chunk holds zeros.
pub open spec fn spec_virtual_read<T: VirtualAddressTranslator>(
    m: T,
    arch: Architecture,
    dtb: Address,
    reqs: Seq<(Address, usize)>,
    bufs: Seq<Seq<u8>>,
) -> Seq<Seq<u8>> {
    let chunks = spec_request_chunks(reqs, PAGE_SIZE_4K as int);
    let tr = spec_translations(m, arch, dtb, chunks);
    spec_fill_reads(bufs, chunks, tr, spec_phys_contents(m, spec_phys_reads(chunks, tr)))
}

/// The physical reads that a virtual read of `reqs` from `m` makes: one for
/// each page chunk that translates, in order, at the chunk's physical
/// address and of the chunk's length.
pub open spec fn spec_virtual_read_ranges<T: VirtualAddressTranslator>(
    m: T,
    arch: Architecture,
    dtb: Address,
    reqs: Seq<(Address, usize)>,
) -> Seq<(PhysicalAddress, nat)> {
    let chunks = spec_request_chunks(reqs, PAGE_SIZE_4K as int);
    spec_phys_reads(chunks, spec_translations(m, arch, dtb, chunks))
}

/// The buffers after a virtual read of `reqs` from `m` whose physical read
/// failed: the chunks that `m` could not translate hold zeros, the others
/// are as they were.
pub open spec fn spec_virtual_read_failed<T: VirtualAddressTranslator>(
    m: T,
    arch: Architecture,
    dtb: Address,
    reqs: Seq<(Address, usize)>,
    bufs: Seq<Seq<u8>>,
) -> Seq<Seq<u8>> {
    let chunks = spec_request_chunks(reqs, PAGE_SIZE_4K as int);
    spec_fill_selected(bufs, chunks, spec_translations(m, arch, dtb, chunks), Seq::empty(), false)
}

/// The physical memory of `m` fits the reads that a translation calls for.
pub proof fn lemma_phys_contents_fit<T: AccessPhysicalMemory>(
    m: T,
    chunks: Seq<RequestChunk>,
    tr: Seq<Result<PhysicalAddress, Error>>,
)
    requires
        tr.len() == chunks.len(),
    ensures
        phys_bytes_fit(chunks, tr, spec_phys_contents(m, spec_phys_reads(chunks, tr))),
{
    lemma_phys_reads_position(chunks, tr);
}

/// The bytes read from physical memory fit the translated chunks: one
/// buffer per translated chunk, in order, of the chunk's length.
pub open spec fn phys_bytes_fit(
    chunks: Seq<RequestChunk>,
    tr: Seq<Result<PhysicalAddress, Error>>,
    ph: Seq<Seq<u8>>,
) -> bool {
    &&& ph.len() == ok_count(tr)
    &&& forall|k: int| #![trigger tr[k]] 0 <= k < chunks.len() && tr[k] is Ok ==> {
        &&& ok_count(tr.take(k)) < ph.len()
        &&& ph[ok_count(tr.take(k)) as int].len() == chunks[k].chunk.len
    }
}

/// The chunks lie inside the buffers.
pub open spec fn chunks_inside(chunks: Seq<RequestChunk>, bufs: Seq<Seq<u8>>) -> bool {
    forall|k: int| #![trigger chunks[k]] 0 <= k < chunks.len() ==> {
        &&& chunks[k].index < bufs.len()
        &&& chunks[k].chunk.offset + chunks[k].chunk.len <= bufs[chunks[k].index as int].len()
    }
}

/// The contents of the read buffers.
pub open spec fn read_bufs(data: Seq<VirtualReadData>) -> Seq<Seq<u8>> {
    data.map_values(|d: VirtualReadData| d.buf@)
}

/// The address and length of each read request.
pub open spec fn read_requests(data: Seq<VirtualReadData>) -> Seq<(Address, usize)> {
    data.map_values(|d: VirtualReadData| (d.addr, d.buf@.len() as usize))
}

/// The contents of the write buffers.
pub open spec fn write_bufs(data: Seq<VirtualWriteData>) -> Seq<Seq<u8>> {
    data.map_values(|d: VirtualWriteData| d.buf@)
}

/// The address and length of each write request.
pub open spec fn write_requests(data: Seq<VirtualWriteData>) -> Seq<(Address, usize)> {
    data.map_values(|d: VirtualWriteData| (d.addr, d.buf@.len() as usize))
}

/// A successful virtual read of `reqs` turned `old_bufs` into `new_bufs`:
/// the chunks were translated as `tr`, the translated ones read as `ph`, and
/// every chunk received its bytes.
pub open spec fn read_outcome(
    reqs: Seq<(Address, usize)>,
    page_size: int,
    old_bufs: Seq<Seq<u8>>,
    tr: Seq<Result<PhysicalAddress, Error>>,
    ph: Seq<Seq<u8>>,
    new_bufs: Seq<Seq<u8>>,
) -> bool {
    let chunks = spec_request_chunks(reqs, page_size);
    &&& tr.len() == chunks.len()
    &&& phys_bytes_fit(chunks, tr, ph)
    &&& new_bufs == spec_fill_reads(old_bufs, chunks, tr, ph)
}

/// Lists the physical reads that the translation `tr` of `chunks` calls for,
/// each with a zeroed buffer of its chunk's length.
pub fn plan_phys_reads(chunks: &Vec<RequestChunk>, tr: &Vec<Result<PhysicalAddress, Error>>) -> (reads: Vec<PhysicalReadData>)
    requires
        tr@.len() == chunks@.len(),
    ensures
        reads@.len() == spec_phys_reads(chunks@, tr@).len(),
        forall|i: int| #![trigger reads@[i]] 0 <= i < reads@.len() ==> {
            &&& reads@[i].addr == spec_phys_reads(chunks@, tr@)[i].0
            &&& reads@[i].buf@ == Seq::new(spec_phys_reads(chunks@, tr@)[i].1, |j: int| 0u8)
        },
{
    let mut reads: Vec<PhysicalReadData> = Vec::new();
    let mut k: usize = 0;
    while k < chunks.len()
        invariant
            tr@.len() == chunks@.len(),
            k <= chunks.len(),
            reads@.len() == spec_phys_reads(chunks@.take(k as int), tr@).len(),
            forall|i: int| #![trigger reads@[i]] 0 <= i < reads@.len() ==> {
                &&& reads@[i].addr == spec_phys_reads(chunks@.take(k as int), tr@)[i].0
                &&& reads@[i].buf@ == Seq::new(spec_phys_reads(chunks@.take(k as int), tr@)[i].1, |j: int| 0u8)
            },
        decreases chunks.len() - k,
    {
        let ghost prev = spec_phys_reads(chunks@.take(k as int), tr@);
        assert(chunks@.take(k + 1).drop_last() =~= chunks@.take(k as int));
        assert(chunks@.take(k + 1)[k as int] == chunks@[k as int]);
        match &tr[k] {
            Ok(pa) => {
                let len = chunks[k].chunk.len;
                reads.push(PhysicalReadData { addr: *pa, buf: vec![0u8; len] });
                assert(spec_phys_reads(chunks@.take(k + 1), tr@) == prev.push((*pa, len as nat)));
            },
            Err(_) => {
                assert(spec_phys_reads(chunks@.take(k + 1), tr@) == prev);
            },
        }
        k = k + 1;
    }
    assert(chunks@.take(chunks.len() as int) =~= chunks@);
    reads
}

/// Puts the bytes of `src` into `buf` from position `off` on.
fn overwrite_range(buf: &mut Vec<u8>, off: usize, src: &Vec<u8>)
    requires
        off + src@.len() <= old(buf)@.len(),
    ensures
        final(buf)@ == overwrite(old(buf)@, off as int, src@),
{
    let ghost orig = buf@;
    let blen = buf.len();
    let mut j: usize = 0;
    while j < src.len()
        invariant
            blen == orig.len(),
            off + src@.len() <= orig.len(),
            j <= src@.len(),
            buf@.len() == orig.len(),
            buf@ == overwrite(orig, off as int, src@.take(j as int)),
        decreases src.len() - j,
    {
        buf.set(off + j, src[j]);
        j = j + 1;
        assert(buf@ =~= overwrite(orig, off as int, src@.take(j as int)));
    }
    assert(src@.take(src@.len() as int) =~= src@);
}

/// Gives the chunks whose translation succeeded (where `translated`) or
/// failed (where not) their bytes: those that the physical read returned
/// for a translated chunk, zeros for an untranslated one.
pub fn fill_virtual_reads(
    data: &mut Vec<VirtualReadData>,
    chunks: &Vec<RequestChunk>,
    tr: &Vec<Result<PhysicalAddress, Error>>,
    phys: &Vec<PhysicalReadData>,
    translated: bool,
)
    requires
        tr@.len() == chunks@.len(),
        chunks_inside(chunks@, read_bufs(old(data)@)),
        translated ==> phys_bytes_fit(chunks@, tr@, phys@.map_values(|d: PhysicalReadData| d.buf@)),
    ensures
        final(data)@.len() == old(data)@.len(),
        forall|i: int| #![trigger final(data)@[i]] 0 <= i < old(data)@.len() ==> {
            &&& final(data)@[i].addr == old(data)@[i].addr
            &&& final(data)@[i].buf@.len() == old(data)@[i].buf@.len()
        },
        read_bufs(final(data)@) == spec_fill_selected(
            read_bufs(old(data)@),
            chunks@,
            tr@,
            phys@.map_values(|d: PhysicalReadData| d.buf@),
            translated,
        ),
{
    let ghost ph = phys@.map_values(|d: PhysicalReadData| d.buf@);
    let ghost orig = old(data)@;
    let nphys = phys.len();
    let mut k: usize = 0;
    let mut p: usize = 0;
    while k < chunks.len()
        invariant
            nphys == phys@.len(),
            tr@.len() == chunks@.len(),
            chunks_inside(chunks@, read_bufs(orig)),
            translated ==> phys_bytes_fit(chunks@, tr@, ph),
            ph == phys@.map_values(|d: PhysicalReadData| d.buf@),
            k <= chunks.len(),
            translated ==> p == ok_count(tr@.take(k as int)),
            data@.len() == orig.len(),
            forall|i: int| #![trigger data@[i]] 0 <= i < orig.len() ==> data@[i].addr == orig[i].addr && data@[i].buf@.len() == orig[i].buf@.len(),
            read_bufs(data@) == spec_fill_selected(read_bufs(orig), chunks@.take(k as int), tr@, ph, translated),
        decreases chunks.len() - k,
    {
        let c = chunks[k];
        let ghost prev = read_bufs(data@);
        assert(chunks@.take(k + 1).drop_last() =~= chunks@.take(k as int));
        assert(chunks@.take(k + 1)[k as int] == chunks@[k as int]);
        assert(tr@.take(k + 1).drop_last() =~= tr@.take(k as int));
        assert(tr@.take(k + 1).last() == tr@[k as int]);
        assert(c.index < orig.len());
        let is_ok = match &tr[k] {
            Ok(_) => true,
            Err(_) => false,
        };
        let ghost src = chunk_source(chunks@.take(k + 1), k as int, tr@, ph);
        assert(src == chunk_source(chunks@, k as int, tr@, ph));
        if is_ok == translated {
            let mut d = VirtualReadData { addr: 0, buf: Vec::new() };
            data.set_and_swap(c.index, &mut d);
            assert(d.buf@ == prev[c.index as int]);
            if is_ok {
                assert(p < ph.len());
                assert(ph[p as int] == phys@[p as int].buf@);
                overwrite_range(&mut d.buf, c.chunk.offset, &phys[p].buf);
            } else {
                let zeros: Vec<u8> = vec![0u8; c.chunk.len];
                assert(zeros@ =~= src);
                overwrite_range(&mut d.buf, c.chunk.offset, &zeros);
            }
            data.set(c.index, d);
            assert(read_bufs(data@) =~= prev.update(c.index as int, overwrite(prev[c.index as int], c.chunk.offset as int, src)));
        }
        if translated && is_ok {
            p = p + 1;
        }
        k = k + 1;
    }
    assert(chunks@.take(chunks.len() as int) =~= chunks@);
}

/// Chunks of one buffer that come in order do not overlap.
pub open spec fn same_buffer_chunks_ordered(chunks: Seq<RequestChunk>) -> bool {
    forall|k1: int, k2: int| #![trigger chunks[k1], chunks[k2]]
        0 <= k1 < k2 < chunks.len() && chunks[k1].index == chunks[k2].index
        ==> chunks[k1].chunk.offset + chunks[k1].chunk.len <= chunks[k2].chunk.offset
}

/// Bytes `off .. off + len` of buffer `i` of `bufs`.
pub open spec fn chunk_range(bufs: Seq<Seq<u8>>, c: RequestChunk) -> Seq<u8> {
    bufs[c.index as int].subrange(c.chunk.offset as int, c.chunk.offset + c.chunk.len)
}

proof fn lemma_fill_prefix(
    bufs: Seq<Seq<u8>>,
    chunks: Seq<RequestChunk>,
    tr: Seq<Result<PhysicalAddress, Error>>,
    ph: Seq<Seq<u8>>,
    translated: bool,
    m: int,
)
    requires
        tr.len() == chunks.len(),
        chunks_inside(chunks, bufs),
        same_buffer_chunks_ordered(chunks),
        phys_bytes_fit(chunks, tr, ph),
        0 <= m <= chunks.len(),
    ensures
        ({
            let f = spec_fill_selected(bufs, chunks.take(m), tr, ph, translated);
            &&& f.len() == bufs.len()
            &&& forall|i: int| #![trigger f[i]] 0 <= i < bufs.len() ==> f[i].len() == bufs[i].len()
            &&& forall|k: int| #![trigger chunks[k]] 0 <= k < m ==>
                chunk_range(f, chunks[k]) == if (tr[k] is Ok) == translated {
                    chunk_source(chunks, k, tr, ph)
                } else {
                    chunk_range(bufs, chunks[k])
                }
            &&& forall|k: int| #![trigger chunks[k]] m <= k < chunks.len() ==> chunk_range(f, chunks[k]) == chunk_range(bufs, chunks[k])
        }),
    decreases m,
{
    if m > 0 {
        lemma_fill_prefix(bufs, chunks, tr, ph, translated, m - 1);
        let prev = spec_fill_selected(bufs, chunks.take(m - 1), tr, ph, translated);
        let f = spec_fill_selected(bufs, chunks.take(m), tr, ph, translated);
        let c = chunks[m - 1];
        assert(chunks.take(m).drop_last() =~= chunks.take(m - 1));
        assert(chunks.take(m)[m - 1] == c);
        let src = chunk_source(chunks, m - 1, tr, ph);
        assert(chunk_source(chunks.take(m), m - 1, tr, ph) == src);
        assert(src.len() == c.chunk.len);
        if (tr[m - 1] is Ok) == translated {
            assert(f == prev.update(c.index as int, overwrite(prev[c.index as int], c.chunk.offset as int, src)));
            assert(chunk_range(f, c) =~= src);
            assert forall|k: int| #![trigger chunks[k]] 0 <= k < chunks.len() && k != m - 1 implies
                chunk_range(f, chunks[k]) == chunk_range(prev, chunks[k]) by {
                let ck = chunks[k];
                if ck.index == c.index {
                    if k < m - 1 {
                        assert(ck.chunk.offset + ck.chunk.len <= c.chunk.offset);
                    } else {
                        assert(c.chunk.offset + c.chunk.len <= ck.chunk.offset);
                    }
                    assert(chunk_range(f, ck) =~= chunk_range(prev, ck));
                }
            }
        } else {
            assert(f == prev);
        }
    }
}

/// After a virtual read, each page chunk of each buffer holds the bytes that
/// the physical read returned for it where its page was translated, and
/// zeros where it was not. The buffers keep their lengths, and every byte of
/// every buffer lies in one of these chunks.
pub proof fn lemma_virtual_read_outcome(
    reqs: Seq<(Address, usize)>,
    page_size: usize,
    old_bufs: Seq<Seq<u8>>,
    tr: Seq<Result<PhysicalAddress, Error>>,
    ph: Seq<Seq<u8>>,
    new_bufs: Seq<Seq<u8>>,
)
    requires
        page_size > 0,
        requests_fit(reqs),
        reqs.len() <= usize::MAX,
        old_bufs.len() == reqs.len(),
        forall|i: int| #![trigger old_bufs[i]] 0 <= i < reqs.len() ==> old_bufs[i].len() == reqs[i].1,
        read_outcome(reqs, page_size as int, old_bufs, tr, ph, new_bufs),
    ensures
        ({
            let chunks = spec_request_chunks(reqs, page_size as int);
            &&& request_chunks_well_formed(chunks, reqs)
            &&& new_bufs.len() == old_bufs.len()
            &&& forall|i: int| #![trigger new_bufs[i]] 0 <= i < old_bufs.len() ==> new_bufs[i].len() == old_bufs[i].len()
            &&& forall|k: int| #![trigger chunks[k]] 0 <= k < chunks.len() ==>
                new_bufs[chunks[k].index as int].subrange(chunks[k].chunk.offset as int, chunks[k].chunk.offset + chunks[k].chunk.len)
                    == chunk_source(chunks, k, tr, ph)
        }),
{
    let chunks = spec_request_chunks(reqs, page_size as int);
    lemma_request_chunks(reqs, page_size);
    assert forall|k: int| #![trigger chunks[k]] 0 <= k < chunks.len() implies {
        &&& chunks[k].index < old_bufs.len()
        &&& chunks[k].chunk.offset + chunks[k].chunk.len <= old_bufs[chunks[k].index as int].len()
    } by {
        assert(old_bufs[chunks[k].index as int].len() == reqs[chunks[k].index as int].1);
    }
    assert(chunks.take(chunks.len() as int) =~= chunks);
    lemma_fill_prefix(old_bufs, chunks, tr, ph, false, chunks.len() as int);
    let zeroed = spec_fill_selected(old_bufs, chunks, tr, ph, false);
    lemma_fill_prefix(zeroed, chunks, tr, ph, true, chunks.len() as int);
    assert forall|k: int| #![trigger chunks[k]] 0 <= k < chunks.len() implies
        new_bufs[chunks[k].index as int].subrange(chunks[k].chunk.offset as int, chunks[k].chunk.offset + chunks[k].chunk.len)
            == chunk_source(chunks, k, tr, ph) by {
        assert(chunk_range(new_bufs, chunks[k]) == chunk_source(chunks, k, tr, ph));
    }
}

/// What a virtual read puts into the buffers does not depend on what they
/// held before: every byte lies in some chunk, and every chunk is filled.
pub proof fn lemma_fill_reads_independent(
    reqs: Seq<(Address, usize)>,
    page_size: usize,
    b1: Seq<Seq<u8>>,
    b2: Seq<Seq<u8>>,
    tr: Seq<Result<PhysicalAddress, Error>>,
    ph: Seq<Seq<u8>>,
)
    requires
        page_size > 0,
        requests_fit(reqs),
        reqs.len() <= usize::MAX,
        b1.len() == reqs.len(),
        b2.len() == reqs.len(),
        forall|i: int| #![trigger b1[i]] 0 <= i < reqs.len() ==> b1[i].len() == reqs[i].1,
        forall|i: int| #![trigger b2[i]] 0 <= i < reqs.len() ==> b2[i].len() == reqs[i].1,
        tr.len() == spec_request_chunks(reqs, page_size as int).len(),
        phys_bytes_fit(spec_request_chunks(reqs, page_size as int), tr, ph),
    ensures
        spec_fill_reads(b1, spec_request_chunks(reqs, page_size as int), tr, ph)
            == spec_fill_reads(b2, spec_request_chunks(reqs, page_size as int), tr, ph),
{
    let chunks = spec_request_chunks(reqs, page_size as int);
    let f1 = spec_fill_reads(b1, chunks, tr, ph);
    let f2 = spec_fill_reads(b2, chunks, tr, ph);
    lemma_virtual_read_outcome(reqs, page_size, b1, tr, ph, f1);
    lemma_virtual_read_outcome(reqs, page_size, b2, tr, ph, f2);
    assert forall|i: int| 0 <= i < f1.len() implies #[trigger] f1[i] =~= f2[i] by {
        assert forall|j: int| 0 <= j < f1[i].len() implies f1[i][j] == f2[i][j] by {
            assert(f1[i].len() == b1[i].len());
            assert(some_request_chunk_holds(chunks, i, j));
            let k = choose|k: int| #![trigger chunks[k]]
                0 <= k < chunks.len() && chunks[k].index == i && chunks[k].chunk.offset <= j < chunks[k].chunk.offset + chunks[k].chunk.len;
            let c = chunks[k];
            let src = chunk_source(chunks, k, tr, ph);
            assert(f1[i].subrange(c.chunk.offset as int, c.chunk.offset + c.chunk.len) == src);
            assert(f2[i].subrange(c.chunk.offset as int, c.chunk.offset + c.chunk.len) == src);
            assert(f1[i][j] == f1[i].subrange(c.chunk.offset as int, c.chunk.offset + c.chunk.len)[j - c.chunk.offset]);
            assert(f2[i][j] == f2[i].subrange(c.chunk.offset as int, c.chunk.offset + c.chunk.len)[j - c.chunk.offset]);
        }
    }
    assert(f1 =~= f2);
}

/// Two memories that hold the same bytes and translate alike give the same
/// virtual reads.
pub proof fn lemma_virtual_read_same_memory<T: VirtualAddressTranslator>(m1: T, m2: T)
    requires
        forall|x: int| #[trigger] m1.phys_byte(x) == m2.phys_byte(x),
        forall|arch: Architecture, dtb: Address, v: Address| #[trigger] m1.translation(arch, dtb, v)
            == m2.translation(arch, dtb, v),
    ensures
        forall|arch: Architecture, dtb: Address, reqs: Seq<(Address, usize)>, bufs: Seq<Seq<u8>>|
            #[trigger] spec_virtual_read(m1, arch, dtb, reqs, bufs) == spec_virtual_read(m2, arch, dtb, reqs, bufs),
{
    assert forall|arch: Architecture, dtb: Address, reqs: Seq<(Address, usize)>, bufs: Seq<Seq<u8>>|
        #[trigger] spec_virtual_read(m1, arch, dtb, reqs, bufs) == spec_virtual_read(m2, arch, dtb, reqs, bufs) by {
        let chunks = spec_request_chunks(reqs, PAGE_SIZE_4K as int);
        let tr = spec_translations(m1, arch, dtb, chunks);
        assert(tr =~= spec_translations(m2, arch, dtb, chunks));
        let reads = spec_phys_reads(chunks, tr);
        let p1 = spec_phys_contents(m1, reads);
        let p2 = spec_phys_contents(m2, reads);
        assert forall|q: int| 0 <= q < p1.len() implies #[trigger] p1[q] =~= p2[q] by {}
        assert(p1 =~= p2);
    }
}

/// Two memories that translate alike make the same physical reads for every
/// virtual read.
pub proof fn lemma_read_ranges_same_translation<T: VirtualAddressTranslator>(m1: T, m2: T)
    requires
        forall|arch: Architecture, dtb: Address, v: Address| #[trigger] m1.translation(arch, dtb, v)
            == m2.translation(arch, dtb, v),
    ensures
        forall|arch: Architecture, dtb: Address, reqs: Seq<(Address, usize)>|
            #[trigger] spec_virtual_read_ranges(m1, arch, dtb, reqs) == spec_virtual_read_ranges(m2, arch, dtb, reqs),
{
    assert forall|arch: Architecture, dtb: Address, reqs: Seq<(Address, usize)>|
        #[trigger] spec_virtual_read_ranges(m1, arch, dtb, reqs) == spec_virtual_read_ranges(m2, arch, dtb, reqs) by {
        let chunks = spec_request_chunks(reqs, PAGE_SIZE_4K as int);
        assert(spec_translations(m1, arch, dtb, chunks) =~= spec_translations(m2, arch, dtb, chunks));
    }
}

/// The page of a translation: the page of the physical address where the
/// translation succeeded and knows it, an error otherwise.
pub open spec fn spec_page_of(t: Result<PhysicalAddress, Error>) -> Result<Page, Error> {
    match t {
        Ok(pa) => match pa.page {
            Some(p) => Ok(p),
            None => Err(Error::PageInfoNotFound),
        },
        Err(e) => Err(e),
    }
}

/// The page of a translation is the page that the translator reported,
/// unchanged; a translation without page information has none, and a failed
/// translation keeps its error.
pub proof fn lemma_page_of_translation(t: Result<PhysicalAddress, Error>)
    ensures
        t matches Ok(pa) ==> (pa.page matches Some(p) ==> spec_page_of(t) == Ok::<Page, Error>(p)),
        t matches Ok(pa) ==> (pa.page is None ==> spec_page_of(t) == Err::<Page, Error>(Error::PageInfoNotFound)),
        t matches Err(e) ==> spec_page_of(t) == Err::<Page, Error>(e),
{
}

/// Takes the page out of the result of a translation.
pub fn page_from_translation(t: Result<PhysicalAddress, Error>) -> (r: Result<Page, Error>)
    ensures
        r == spec_page_of(t),
        t matches Ok(pa) ==> (pa.page matches Some(p) ==> r == Ok::<Page, Error>(p)),
        t matches Ok(pa) ==> (pa.page is None ==> r == Err::<Page, Error>(Error::PageInfoNotFound)),
        t matches Err(e) ==> r == Err::<Page, Error>(e),
{
    match t {
        Ok(pa) => match pa.page {
            Some(p) => Ok(p),
            None => Err(Error::PageInfoNotFound),
        },
        Err(e) => Err(e),
    }
}

/// The address of each chunk, in order.
fn chunk_addresses(chunks: &Vec<RequestChunk>) -> (addrs: Vec<Address>)
    ensures
        addrs@.len() == chunks@.len(),
        forall|k: int| #![trigger addrs@[k]] 0 <= k < chunks@.len() ==> addrs@[k] == chunks@[k].chunk.addr,
{
    let mut addrs: Vec<Address> = Vec::new();
    let mut k: usize = 0;
    while k < chunks.len()
        invariant
            k <= chunks.len(),
            addrs@.len() == k,
            forall|i: int| #![trigger addrs@[i]] 0 <= i < k ==> addrs@[i] == chunks@[i].chunk.addr,
        decreases chunks.len() - k,
    {
        addrs.push(chunks[k].chunk.addr);
        k = k + 1;
    }
    addrs
}

/// Lists the address and length of each read request.
fn read_request_list(data: &Vec<VirtualReadData>) -> (reqs: Vec<(Address, usize)>)
    ensures
        reqs@ == read_requests(data@),
        reqs@.len() <= usize::MAX,
        forall|j: int| #![trigger reqs@[j]] 0 <= j < reqs@.len() ==> reqs@[j].1 as int == data@[j].buf@.len(),
{
    let mut reqs: Vec<(Address, usize)> = Vec::new();
    let mut i: usize = 0;
    while i < data.len()
        invariant
            i <= data@.len(),
            reqs@.len() == i,
            forall|j: int| #![trigger reqs@[j]] 0 <= j < i ==> reqs@[j].0 == data@[j].addr && reqs@[j].1 as int == data@[j].buf@.len(),
        decreases data.len() - i,
    {
        reqs.push((data[i].addr, data[i].buf.len()));
        i = i + 1;
    }
    assert(reqs@ =~= read_requests(data@));
    reqs
}

/// Lists the address and length of each write request.
fn write_request_list(data: &Vec<VirtualWriteData>) -> (reqs: Vec<(Address, usize)>)
    ensures
        reqs@ == write_requests(data@),
        reqs@.len() <= usize::MAX,
        forall|j: int| #![trigger reqs@[j]] 0 <= j < reqs@.len() ==> reqs@[j].1 as int == data@[j].buf@.len(),
{
    let mut reqs: Vec<(Address, usize)> = Vec::new();
    let mut i: usize = 0;
    while i < data.len()
        invariant
            i <= data@.len(),
            reqs@.len() == i,
            forall|j: int| #![trigger reqs@[j]] 0 <= j < i ==> reqs@[j].0 == data@[j].addr && reqs@[j].1 as int == data@[j].buf@.len(),
        decreases data.len() - i,
    {
        reqs.push((data[i].addr, data[i].buf.len()));
        i = i + 1;
    }
    assert(reqs@ =~= write_requests(data@));
    reqs
}

/// Reads virtual memory into each buffer of `data`, from the buffer's
/// address in the address space whose directory table base is `dtb`.
///
/// Each buffer is cut at page boundaries and the pieces are translated; the
/// untranslated pieces are zeroed, and the translated pieces are read from
/// physical memory. Where the physical read fails, its error is returned and
/// the translated pieces are left as they were. Memory is left as it was.
pub fn virt_read_raw_iter<T: AccessPhysicalMemory + VirtualAddressTranslator>(
    mem: &mut T,
    arch: Architecture,
    dtb: Address,
    data: &mut Vec<VirtualReadData>,
) -> (r: Result<(), Error>)
    requires
        requests_fit(read_requests(old(data)@)),
    ensures
        final(data)@.len() == old(data)@.len(),
        forall|i: int| #![trigger final(data)@[i]] 0 <= i < old(data)@.len() ==> {
            &&& final(data)@[i].addr == old(data)@[i].addr
            &&& final(data)@[i].buf@.len() == old(data)@[i].buf@.len()
        },
        forall|a: int| #[trigger] final(mem).phys_byte(a) == old(mem).phys_byte(a),
        forall|arch2: Architecture, dtb2: Address, v: Address| #[trigger] final(mem).translation(arch2, dtb2, v)
            == old(mem).translation(arch2, dtb2, v),
        r is Err ==> read_bufs(final(data)@)
            == spec_virtual_read_failed(*old(mem), arch, dtb, read_requests(old(data)@), read_bufs(old(data)@)),
        r is Ok ==> read_bufs(final(data)@)
            == spec_virtual_read(*old(mem), arch, dtb, read_requests(old(data)@), read_bufs(old(data)@)),
        old(mem).phys_reads_succeed(spec_virtual_read_ranges(*old(mem), arch, dtb, read_requests(old(data)@))) ==> r is Ok,
        forall|rs: Seq<(PhysicalAddress, nat)>| #[trigger] final(mem).phys_reads_succeed(rs)
            == old(mem).phys_reads_succeed(rs),
{
    let ghost m0 = *mem;
    let ghost old_bufs = read_bufs(data@);
    let page_size = arch.page_size();
    let reqs = read_request_list(data);
    let chunks = split_requests(&reqs, page_size);
    let addrs = chunk_addresses(&chunks);
    let tr = mem.virt_to_phys_iter(arch, dtb, &addrs);
    let ghost sp_tr = spec_translations(m0, arch, dtb, chunks@);
    let ghost sp_ph = spec_phys_contents(m0, spec_phys_reads(chunks@, tr@));
    assert(tr@ =~= sp_tr);
    proof {
        lemma_request_chunks(reqs@, page_size);
        assert forall|k: int| #![trigger chunks@[k]] 0 <= k < chunks@.len() implies {
            &&& chunks@[k].index < old_bufs.len()
            &&& chunks@[k].chunk.offset + chunks@[k].chunk.len <= old_bufs[chunks@[k].index as int].len()
        } by {
            assert(reqs@[chunks@[k].index as int].1 == data@[chunks@[k].index as int].buf@.len());
        }
    }
    let mut phys = plan_phys_reads(&chunks, &tr);
    let ghost planned = phys@;
    assert(phys_read_ranges(planned) =~= spec_phys_reads(chunks@, tr@));
    fill_virtual_reads(data, &chunks, &tr, &phys, false);
    proof {
        lemma_zero_fill_ignores_reads(old_bufs, chunks@, tr@, planned.map_values(|d: PhysicalReadData| d.buf@), Seq::empty());
        lemma_zero_fill_ignores_reads(old_bufs, chunks@, tr@, planned.map_values(|d: PhysicalReadData| d.buf@), sp_ph);
    }
    match mem.phys_read_raw_iter(&mut phys) {
        Ok(()) => {},
        Err(e) => {
            return Err(e);
        },
    }
    let ghost ph = phys@.map_values(|d: PhysicalReadData| d.buf@);
    proof {
        lemma_phys_reads_position(chunks@, tr@);
        assert forall|q: int| 0 <= q < ph.len() implies #[trigger] ph[q] =~= sp_ph[q] by {
            assert(planned[q].addr == spec_phys_reads(chunks@, tr@)[q].0);
            assert(planned[q].buf@.len() == spec_phys_reads(chunks@, tr@)[q].1);
            assert(phys@[q].addr == planned[q].addr);
        }
        assert(ph =~= sp_ph);
        lemma_phys_contents_fit(m0, chunks@, tr@);
    }
    fill_virtual_reads(data, &chunks, &tr, &phys, true);
    Ok(())
}

/// Copies `len` bytes of `buf` from position `off` on.
fn copy_range(buf: &Vec<u8>, off: usize, len: usize) -> (r: Vec<u8>)
    requires
        off + len <= buf@.len(),
    ensures
        r@ == buf@.subrange(off as int, off + len),
{
    let mut r: Vec<u8> = Vec::new();
    let blen = buf.len();
    let mut j: usize = 0;
    while j < len
        invariant
            blen == buf@.len(),
            off + len <= buf@.len(),
            j <= len,
            r@ == buf@.subrange(off as int, off + j),
        decreases len - j,
    {
        r.push(buf[off + j]);
        j = j + 1;
        assert(r@ =~= buf@.subrange(off as int, off + j));
    }
    r
}

/// Lists the physical writes that the translation `tr` of the chunks of
/// `data` calls for, each with the bytes of its chunk.
pub fn plan_phys_writes(
    data: &Vec<VirtualWriteData>,
    chunks: &Vec<RequestChunk>,
    tr: &Vec<Result<PhysicalAddress, Error>>,
) -> (writes: Vec<PhysicalWriteData>)
    requires
        tr@.len() == chunks@.len(),
        chunks_inside(chunks@, write_bufs(data@)),
    ensures
        writes@.len() == spec_phys_writes(chunks@, tr@, write_bufs(data@)).len(),
        forall|i: int| #![trigger writes@[i]] 0 <= i < writes@.len() ==> {
            &&& writes@[i].addr == spec_phys_writes(chunks@, tr@, write_bufs(data@))[i].0
            &&& writes@[i].buf@ == spec_phys_writes(chunks@, tr@, write_bufs(data@))[i].1
        },
{
    let ghost bufs = write_bufs(data@);
    let mut writes: Vec<PhysicalWriteData> = Vec::new();
    let mut k: usize = 0;
    while k < chunks.len()
        invariant
            tr@.len() == chunks@.len(),
            chunks_inside(chunks@, bufs),
            bufs == write_bufs(data@),
            k <= chunks.len(),
            writes@.len() == spec_phys_writes(chunks@.take(k as int), tr@, bufs).len(),
            forall|i: int| #![trigger writes@[i]] 0 <= i < writes@.len() ==> {
                &&& writes@[i].addr == spec_phys_writes(chunks@.take(k as int), tr@, bufs)[i].0
                &&& writes@[i].buf@ == spec_phys_writes(chunks@.take(k as int), tr@, bufs)[i].1
            },
        decreases chunks.len() - k,
    {
        let ghost prev = spec_phys_writes(chunks@.take(k as int), tr@, bufs);
        assert(chunks@.take(k + 1).drop_last() =~= chunks@.take(k as int));
        assert(chunks@.take(k + 1)[k as int] == chunks@[k as int]);
        let c = chunks[k];
        match &tr[k] {
            Ok(pa) => {
                assert(bufs[c.index as int] == data@[c.index as int].buf@);
                let bytes = copy_range(&data[c.index].buf, c.chunk.offset, c.chunk.len);
                writes.push(PhysicalWriteData { addr: *pa, buf: bytes });
            },
            Err(_) => {},
        }
        k = k + 1;
    }
    assert(chunks@.take(chunks.len() as int) =~= chunks@);
    writes
}

/// Where in physical memory, and with which bytes, a virtual write of
/// `reqs` with the contents `bufs` writes through the translations of `m`:
/// each translated chunk at its physical address, in order.
pub open spec fn spec_virtual_writes<T: VirtualAddressTranslator>(
    m: T,
    arch: Architecture,
    dtb: Address,
    reqs: Seq<(Address, usize)>,
    bufs: Seq<Seq<u8>>,
) -> Seq<(int, Seq<u8>)> {
    let chunks = spec_request_chunks(reqs, PAGE_SIZE_4K as int);
    spec_phys_writes(chunks, spec_translations(m, arch, dtb, chunks), bufs).map_values(
        |w: (PhysicalAddress, Seq<u8>)| (w.0.address as int, w.1),
    )
}

/// `m` translates the addresses of one page alike: two addresses of a page
/// both translate or both do not, and their translations lie as far apart
/// as they do.
pub open spec fn translates_by_pages<T: AccessPhysicalMemory>(m: T, arch: Architecture, dtb: Address) -> bool {
    forall|v: Address, w: Address| #![trigger m.translation(arch, dtb, v), m.translation(arch, dtb, w)]
        (v as int) / (PAGE_SIZE_4K as int) == (w as int) / (PAGE_SIZE_4K as int) ==> {
            &&& (m.translation(arch, dtb, v) is Ok) == (m.translation(arch, dtb, w) is Ok)
            &&& m.translation(arch, dtb, v) is Ok ==> m.translation(arch, dtb, v)->Ok_0.address - v
                == m.translation(arch, dtb, w)->Ok_0.address - w
        }
}

/// The byte of virtual memory at `v`: what physical memory holds at its
/// translation, or zero where it does not translate.
pub open spec fn virt_byte<T: AccessPhysicalMemory>(m: T, arch: Architecture, dtb: Address, v: Address) -> u8 {
    match m.translation(arch, dtb, v) {
        Ok(pa) => m.phys_byte(pa.address as int),
        Err(_) => 0u8,
    }
}

/// Where `m` translates each page alike, a successful virtual read gives,
/// byte by byte, what each virtual address translates to, and zero for an
/// address that does not translate.
pub proof fn lemma_virtual_read_bytes<T: VirtualAddressTranslator>(
    m: T,
    arch: Architecture,
    dtb: Address,
    reqs: Seq<(Address, usize)>,
    bufs: Seq<Seq<u8>>,
)
    requires
        requests_fit(reqs),
        reqs.len() <= usize::MAX,
        bufs.len() == reqs.len(),
        forall|i: int| #![trigger bufs[i]] 0 <= i < reqs.len() ==> bufs[i].len() == reqs[i].1,
        translates_by_pages(m, arch, dtb),
    ensures
        ({
            let read = spec_virtual_read(m, arch, dtb, reqs, bufs);
            &&& read.len() == reqs.len()
            &&& forall|i: int| #![trigger read[i]] 0 <= i < reqs.len() ==> read[i].len() == reqs[i].1
            &&& forall|i: int, t: int| #![trigger read[i][t]] 0 <= i < reqs.len() && 0 <= t < reqs[i].1
                ==> read[i][t] == virt_byte(m, arch, dtb, (reqs[i].0 + t) as u64)
        }),
{
    let ps = PAGE_SIZE_4K as int;
    let chunks = spec_request_chunks(reqs, ps);
    let tr = spec_translations(m, arch, dtb, chunks);
    let ph = spec_phys_contents(m, spec_phys_reads(chunks, tr));
    let read = spec_virtual_read(m, arch, dtb, reqs, bufs);
    lemma_phys_contents_fit(m, chunks, tr);
    lemma_phys_reads_position(chunks, tr);
    lemma_request_chunks_in_pages(reqs, PAGE_SIZE_4K);
    lemma_virtual_read_outcome(reqs, PAGE_SIZE_4K, bufs, tr, ph, read);
    assert forall|i: int, t: int| #![trigger read[i][t]] 0 <= i < reqs.len() && 0 <= t < reqs[i].1
        implies read[i][t] == virt_byte(m, arch, dtb, (reqs[i].0 + t) as u64) by {
        assert(some_request_chunk_holds(chunks, i, t));
        let k = choose|k: int| #![trigger chunks[k]]
            0 <= k < chunks.len() && chunks[k].index == i && chunks[k].chunk.offset <= t < chunks[k].chunk.offset + chunks[k].chunk.len;
        let c = chunks[k].chunk;
        let v = (reqs[i].0 + t) as u64;
        assert(c.addr == reqs[i].0 + c.offset);
        assert(v == c.addr + (t - c.offset));
        assert((c.addr as int) / ps == (c.addr + c.len - 1) / ps);
        assert((v as int) / ps == (c.addr as int) / ps) by {
            vstd::arithmetic::div_mod::lemma_div_is_ordered(c.addr as int, v as int, ps);
            vstd::arithmetic::div_mod::lemma_div_is_ordered(v as int, c.addr + c.len - 1, ps);
        }
        assert(tr[k] == m.translation(arch, dtb, c.addr));
        let tv = m.translation(arch, dtb, v);
        assert((tv is Ok) == (tr[k] is Ok));
        assert(chunk_range(read, chunks[k]) == chunk_source(chunks, k, tr, ph));
        assert(read[i][t] == chunk_range(read, chunks[k])[t - c.offset]);
        if tr[k] is Ok {
            let q = ok_count(tr.take(k)) as int;
            assert(spec_phys_reads(chunks, tr)[q] == (tr[k]->Ok_0, c.len as nat));
            assert(tv->Ok_0.address == tr[k]->Ok_0.address + (t - c.offset));
        }
    }
}

/// Where `m` translates each page alike, reading `n` bytes at `a` gives the
/// same bytes as reading the first `j` of them and then the rest.
pub proof fn lemma_split_read<T: VirtualAddressTranslator>(
    m: T,
    arch: Architecture,
    dtb: Address,
    a: Address,
    n: usize,
    j: usize,
    whole: Seq<u8>,
    front: Seq<u8>,
    back: Seq<u8>,
)
    requires
        a + n <= u64::MAX + 1,
        j <= n,
        whole.len() == n,
        front.len() == j,
        back.len() == n - j,
        translates_by_pages(m, arch, dtb),
    ensures
        spec_virtual_read(m, arch, dtb, seq![(a, n)], seq![whole])[0]
            == spec_virtual_read(m, arch, dtb, seq![(a, j), ((a + j) as u64, (n - j) as usize)], seq![front, back])[0]
                + spec_virtual_read(m, arch, dtb, seq![(a, j), ((a + j) as u64, (n - j) as usize)], seq![front, back])[1],
{
    let r1 = seq![(a, n)];
    let r2 = seq![(a, j), ((a + j) as u64, (n - j) as usize)];
    let b1 = seq![whole];
    let b2 = seq![front, back];
    assert forall|i: int| #![trigger r1[i]] 0 <= i < r1.len() implies r1[i].0 + r1[i].1 <= u64::MAX + 1 by {}
    assert forall|i: int| #![trigger r2[i]] 0 <= i < r2.len() implies r2[i].0 + r2[i].1 <= u64::MAX + 1 by {}
    assert forall|i: int| #![trigger b1[i]] 0 <= i < r1.len() implies b1[i].len() == r1[i].1 by {}
    assert forall|i: int| #![trigger b2[i]] 0 <= i < r2.len() implies b2[i].len() == r2[i].1 by {}
    lemma_virtual_read_bytes(m, arch, dtb, r1, b1);
    lemma_virtual_read_bytes(m, arch, dtb, r2, b2);
    let x = spec_virtual_read(m, arch, dtb, r1, b1);
    let y = spec_virtual_read(m, arch, dtb, r2, b2);
    assert forall|t: int| 0 <= t < n implies #[trigger] x[0][t] == (y[0] + y[1])[t] by {
        assert(x[0][t] == virt_byte(m, arch, dtb, (a + t) as u64));
        if t < j {
            assert(y[0][t] == virt_byte(m, arch, dtb, (a + t) as u64));
        } else {
            assert(y[1][t - j] == virt_byte(m, arch, dtb, (r2[1].0 + (t - j)) as u64));
        }
    }
    assert(x[0] =~= y[0] + y[1]);
}

/// Where in physical memory, and with which bytes, the translated chunks
/// are written: each at its physical address, in order.
pub open spec fn write_targets(
    chunks: Seq<RequestChunk>,
    tr: Seq<Result<PhysicalAddress, Error>>,
    bufs: Seq<Seq<u8>>,
) -> Seq<(int, Seq<u8>)> {
    spec_phys_writes(chunks, tr, bufs).map_values(|w: (PhysicalAddress, Seq<u8>)| (w.0.address as int, w.1))
}

/// No two translated chunks lie at overlapping physical addresses.
pub open spec fn translated_chunks_disjoint(chunks: Seq<RequestChunk>, tr: Seq<Result<PhysicalAddress, Error>>) -> bool {
    forall|k1: int, k2: int| #![trigger tr[k1], tr[k2]]
        0 <= k1 < chunks.len() && 0 <= k2 < chunks.len() && k1 != k2 && tr[k1] is Ok && tr[k2] is Ok ==> {
            ||| tr[k1]->Ok_0.address + chunks[k1].chunk.len <= tr[k2]->Ok_0.address
            ||| tr[k2]->Ok_0.address + chunks[k2].chunk.len <= tr[k1]->Ok_0.address
        }
}

proof fn lemma_writes_prefix(
    mem: spec_fn(int) -> u8,
    chunks: Seq<RequestChunk>,
    tr: Seq<Result<PhysicalAddress, Error>>,
    bufs: Seq<Seq<u8>>,
    m: int,
)
    requires
        tr.len() == chunks.len(),
        0 <= m <= chunks.len(),
        translated_chunks_disjoint(chunks, tr),
        chunks_inside(chunks, bufs),
    ensures
        forall|k: int, x: int| #![trigger tr[k], after_writes(mem, write_targets(chunks.take(m), tr, bufs), x)]
            0 <= k < m && tr[k] is Ok && tr[k]->Ok_0.address <= x < tr[k]->Ok_0.address + chunks[k].chunk.len
            ==> after_writes(mem, write_targets(chunks.take(m), tr, bufs), x)
                == bufs[chunks[k].index as int][chunks[k].chunk.offset + x - tr[k]->Ok_0.address],
    decreases m,
{
    if m > 0 {
        lemma_writes_prefix(mem, chunks, tr, bufs, m - 1);
        let prev = write_targets(chunks.take(m - 1), tr, bufs);
        let w = write_targets(chunks.take(m), tr, bufs);
        let c = chunks[m - 1];
        assert(chunks.take(m).drop_last() =~= chunks.take(m - 1));
        assert(chunks.take(m)[m - 1] == c);
        if tr[m - 1] is Ok {
            let pa = tr[m - 1]->Ok_0;
            let bytes = bufs[c.index as int].subrange(c.chunk.offset as int, c.chunk.offset + c.chunk.len);
            assert(w =~= prev.push((pa.address as int, bytes)));
            assert(w.drop_last() =~= prev);
            assert forall|k: int, x: int| #![trigger tr[k], after_writes(mem, w, x)]
                0 <= k < m && tr[k] is Ok && tr[k]->Ok_0.address <= x < tr[k]->Ok_0.address + chunks[k].chunk.len
                implies after_writes(mem, w, x) == bufs[chunks[k].index as int][chunks[k].chunk.offset + x - tr[k]->Ok_0.address] by {
                if k < m - 1 {
                    assert(after_writes(mem, w, x) == after_writes(mem, prev, x));
                }
            }
        } else {
            assert(w =~= prev);
        }
    }
}

proof fn lemma_read_back_chunk<T: VirtualAddressTranslator>(
    m: T,
    m2: T,
    chunks: Seq<RequestChunk>,
    tr: Seq<Result<PhysicalAddress, Error>>,
    data: Seq<u8>,
    k: int,
)
    requires
        tr.len() == chunks.len(),
        0 <= k < chunks.len(),
        tr[k] is Ok,
        chunks_inside(chunks, seq![data]),
        translated_chunks_disjoint(chunks, tr),
        forall|x: int| #[trigger] m2.phys_byte(x) == after_writes(|y: int| m.phys_byte(y), write_targets(chunks, tr, seq![data]), x),
    ensures
        chunk_source(chunks, k, tr, spec_phys_contents(m2, spec_phys_reads(chunks, tr)))
            == data.subrange(chunks[k].chunk.offset as int, chunks[k].chunk.offset + chunks[k].chunk.len),
{
    let bufs = seq![data];
    let mem = |y: int| m.phys_byte(y);
    let ph = spec_phys_contents(m2, spec_phys_reads(chunks, tr));
    let c = chunks[k];
    let pa = tr[k]->Ok_0;
    let q = ok_count(tr.take(k)) as int;
    lemma_writes_prefix(mem, chunks, tr, bufs, chunks.len() as int);
    assert(chunks.take(chunks.len() as int) =~= chunks);
    lemma_phys_reads_position(chunks, tr);
    assert(spec_phys_reads(chunks, tr)[q] == (pa, c.chunk.len as nat));
    assert forall|t: int| 0 <= t < c.chunk.len implies #[trigger] ph[q][t]
        == data.subrange(c.chunk.offset as int, c.chunk.offset + c.chunk.len)[t] by {
        let x = pa.address + t;
        assert(ph[q][t] == m2.phys_byte(x));
        assert(after_writes(mem, write_targets(chunks.take(chunks.len() as int), tr, bufs), x)
            == bufs[c.index as int][c.chunk.offset + x - pa.address]);
    }
    assert(ph[q] =~= data.subrange(c.chunk.offset as int, c.chunk.offset + c.chunk.len));
}

/// Reading back what a virtual write wrote gives the written bytes on the
/// pages that translate, and zeros on the others: where the translated
/// chunks lie at distinct physical addresses and the memory translates as
/// before, every chunk of the read holds the bytes that the write put there,
/// or zeros where its page does not translate.
pub proof fn lemma_read_after_write<T: VirtualAddressTranslator>(
    m: T,
    m2: T,
    arch: Architecture,
    dtb: Address,
    addr: Address,
    data: Seq<u8>,
    old_buf: Seq<u8>,
)
    requires
        addr + data.len() <= u64::MAX + 1,
        data.len() <= usize::MAX,
        old_buf.len() == data.len(),
        forall|a: Architecture, d: Address, v: Address| #[trigger] m2.translation(a, d, v) == m.translation(a, d, v),
        translated_chunks_disjoint(
            spec_request_chunks(seq![(addr, data.len() as usize)], PAGE_SIZE_4K as int),
            spec_translations(m, arch, dtb, spec_request_chunks(seq![(addr, data.len() as usize)], PAGE_SIZE_4K as int)),
        ),
        forall|x: int| #[trigger] m2.phys_byte(x) == after_writes(
            |y: int| m.phys_byte(y),
            spec_virtual_writes(m, arch, dtb, seq![(addr, data.len() as usize)], seq![data]),
            x,
        ),
    ensures
        ({
            let reqs = seq![(addr, data.len() as usize)];
            let chunks = spec_request_chunks(reqs, PAGE_SIZE_4K as int);
            let tr = spec_translations(m, arch, dtb, chunks);
            let read = spec_virtual_read(m2, arch, dtb, reqs, seq![old_buf]);
            &&& request_chunks_well_formed(chunks, reqs)
            &&& read.len() == 1
            &&& read[0].len() == data.len()
            &&& forall|k: int| #![trigger chunks[k]] 0 <= k < chunks.len() ==>
                chunk_range(read, chunks[k]) == if tr[k] is Ok {
                    data.subrange(chunks[k].chunk.offset as int, chunks[k].chunk.offset + chunks[k].chunk.len)
                } else {
                    Seq::new(chunks[k].chunk.len as nat, |j: int| 0u8)
                }
        }),
{
    let reqs = seq![(addr, data.len() as usize)];
    let chunks = spec_request_chunks(reqs, PAGE_SIZE_4K as int);
    let tr = spec_translations(m, arch, dtb, chunks);
    let ph = spec_phys_contents(m2, spec_phys_reads(chunks, tr));
    let read = spec_virtual_read(m2, arch, dtb, reqs, seq![old_buf]);
    let bufs = seq![data];
    assert(spec_translations(m2, arch, dtb, chunks) =~= tr);
    assert(read == spec_fill_reads(seq![old_buf], chunks, tr, ph));
    assert forall|i: int| #![trigger reqs[i]] 0 <= i < reqs.len() implies reqs[i].0 + reqs[i].1 <= u64::MAX + 1 by {}
    lemma_request_chunks(reqs, PAGE_SIZE_4K);
    assert(chunks_inside(chunks, bufs)) by {
        assert forall|k: int| #![trigger chunks[k]] 0 <= k < chunks.len() implies {
            &&& chunks[k].index < bufs.len()
            &&& chunks[k].chunk.offset + chunks[k].chunk.len <= bufs[chunks[k].index as int].len()
        } by {}
    }
    assert(write_targets(chunks, tr, bufs) == spec_virtual_writes(m, arch, dtb, reqs, bufs));
    lemma_phys_contents_fit(m2, chunks, tr);
    assert forall|i: int| #![trigger seq![old_buf][i]] 0 <= i < reqs.len() implies seq![old_buf][i].len() == reqs[i].1 by {}
    lemma_virtual_read_outcome(reqs, PAGE_SIZE_4K, seq![old_buf], tr, ph, read);
    assert forall|k: int| #![trigger chunks[k]] 0 <= k < chunks.len() implies
        chunk_range(read, chunks[k]) == if tr[k] is Ok {
            data.subrange(chunks[k].chunk.offset as int, chunks[k].chunk.offset + chunks[k].chunk.len)
        } else {
            Seq::new(chunks[k].chunk.len as nat, |j: int| 0u8)
        } by {
        assert(chunk_range(read, chunks[k]) == chunk_source(chunks, k, tr, ph));
        if tr[k] is Ok {
            lemma_read_back_chunk(m, m2, chunks, tr, data, k);
        }
    }
}

/// Writes each buffer of `data` to virtual memory at the buffer's address in
/// the address space whose directory table base is `dtb`.
///
/// Each buffer is cut at page boundaries and the pieces are translated; the
/// translated pieces are written to physical memory and the others are
/// skipped. The result is that of the physical write.
pub fn virt_write_raw_iter<T: AccessPhysicalMemory + VirtualAddressTranslator>(
    mem: &mut T,
    arch: Architecture,
    dtb: Address,
    data: &Vec<VirtualWriteData>,
) -> (r: Result<(), Error>)
    requires
        requests_fit(write_requests(data@)),
    ensures
        r is Ok ==> forall|a: int| #[trigger] final(mem).phys_byte(a) == after_writes(
            |x: int| old(mem).phys_byte(x),
            spec_virtual_writes(*old(mem), arch, dtb, write_requests(data@), write_bufs(data@)),
            a,
        ),
        old(mem).phys_writes_succeed(spec_virtual_writes(*old(mem), arch, dtb, write_requests(data@), write_bufs(data@)))
            ==> r is Ok,
{
    let ghost m0 = *mem;
    let page_size = arch.page_size();
    let reqs = write_request_list(data);
    let chunks = split_requests(&reqs, page_size);
    let addrs = chunk_addresses(&chunks);
    let tr = mem.virt_to_phys_iter(arch, dtb, &addrs);
    assert(tr@ =~= spec_translations(m0, arch, dtb, chunks@));
    proof {
        lemma_request_chunks(reqs@, page_size);
        assert forall|k: int| #![trigger chunks@[k]] 0 <= k < chunks@.len() implies {
            &&& chunks@[k].index < write_bufs(data@).len()
            &&& chunks@[k].chunk.offset + chunks@[k].chunk.len <= write_bufs(data@)[chunks@[k].index as int].len()
        } by {
            assert(reqs@[chunks@[k].index as int].1 == data@[chunks@[k].index as int].buf@.len());
        }
    }
    let writes = plan_phys_writes(data, &chunks, &tr);
    assert(phys_write_targets(writes@) =~= spec_virtual_writes(m0, arch, dtb, write_requests(data@), write_bufs(data@)));
    assert((|x: int| mem.phys_byte(x)) =~= (|x: int| m0.phys_byte(x)));
    mem.phys_write_raw_iter(&writes)
}

/// Looks up the page that holds `addr` in the address space whose directory
/// table base is `dtb`.
pub fn virt_page_info<T: AccessPhysicalMemory + VirtualAddressTranslator>(
    mem: &mut T,
    arch: Architecture,
    dtb: Address,
    addr: Address,
) -> (r: Result<Page, Error>)
    ensures
        r == spec_page_of(old(mem).translation(arch, dtb, addr)),
        old(mem).translation(arch, dtb, addr) matches Ok(pa) ==> (pa.page matches Some(p) ==> r == Ok::<Page, Error>(p)),
        old(mem).translation(arch, dtb, addr) matches Ok(pa) ==> (pa.page is None ==> r == Err::<Page, Error>(Error::PageInfoNotFound)),
        old(mem).translation(arch, dtb, addr) matches Err(e) ==> r == Err::<Page, Error>(e),
        forall|a: int| #[trigger] final(mem).phys_byte(a) == old(mem).phys_byte(a),
        forall|arch2: Architecture, dtb2: Address, v: Address| #[trigger] final(mem).translation(arch2, dtb2, v)
            == old(mem).translation(arch2, dtb2, v),
{
    let t = mem.virt_to_phys(arch, dtb, addr);
    page_from_translation(t)
}

} // verus!
