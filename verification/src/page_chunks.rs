use vstd::prelude::*;
use vstd::arithmetic::div_mod::{
    lemma_fundamental_div_mod,
    lemma_fundamental_div_mod_converse,
};

verus! {

/// A piece of a buffer that lies inside one page.
#[derive(Clone, Copy, Debug, PartialEq, Eq, Structural)]
pub struct PageChunk {
    /// Address of the first byte of the piece.
    pub addr: u64,
    /// Position of the first byte of the piece in the whole buffer.
    pub offset: usize,
    /// Number of bytes in the piece.
    pub len: usize,
}

/// Bytes from `addr` up to the end of its page.
pub open spec fn bytes_left_in_page(addr: int, page_size: int) -> int {
    page_size - addr % page_size
}

/// Length of the first piece of `len` bytes at `addr`: up to the end of the
/// page, or the whole rest if that ends first.
pub open spec fn first_chunk_len(addr: int, len: int, page_size: int) -> int {
    if bytes_left_in_page(addr, page_size) < len {
        bytes_left_in_page(addr, page_size)
    } else {
        len
    }
}

/// The pieces of the `len` bytes at `addr`, cut at every page boundary, whose
/// positions in the buffer count from `offset`.
pub open spec fn spec_page_chunks(addr: int, offset: int, len: int, page_size: int) -> Seq<PageChunk>
    decreases len,
{
    if len <= 0 || page_size <= 0 {
        Seq::empty()
    } else {
        let n = first_chunk_len(addr, len, page_size);
        proof {
            lemma_fundamental_div_mod(addr, page_size);
        }
        seq![PageChunk { addr: addr as u64, offset: offset as usize, len: n as usize }]
            + spec_page_chunks(addr + n, offset + n, len - n, page_size)
    }
}

/// Stepping to the end of a page lands on a page boundary, and every byte
/// before that end lies in the page of `addr`.
proof fn lemma_page_step(addr: int, n: int, page_size: int)
    requires
        addr >= 0,
        page_size > 0,
        1 <= n <= bytes_left_in_page(addr, page_size),
    ensures
        addr / page_size == (addr + n - 1) / page_size,
        n == bytes_left_in_page(addr, page_size) ==> (addr + n) % page_size == 0,
        0 <= addr % page_size < page_size,
{
    lemma_fundamental_div_mod(addr, page_size);
    let q = addr / page_size;
    let r = addr % page_size;
    assert(0 <= r < page_size) by {
        vstd::arithmetic::div_mod::lemma_mod_bound(addr, page_size);
    }
    assert(addr + n - 1 == q * page_size + (r + n - 1)) by (nonlinear_arith)
        requires addr == page_size * q + r;
    lemma_fundamental_div_mod_converse(addr + n - 1, page_size, q, r + n - 1);
    if n == bytes_left_in_page(addr, page_size) {
        assert(addr + n == (q + 1) * page_size + 0) by (nonlinear_arith)
            requires addr == page_size * q + r, n == page_size - r;
        lemma_fundamental_div_mod_converse(addr + n, page_size, q + 1, 0);
    }
}

/// The properties of a cut into page chunks, for pieces numbered from `offset`.
pub open spec fn chunks_cut_at_pages(s: Seq<PageChunk>, addr: int, offset: int, len: int, page_size: int) -> bool {
    &&& (s.len() == 0 <==> len == 0)
    &&& len > 0 ==> s[0].offset == offset && s.last().offset + s.last().len == offset + len
    &&& forall|k: int| #![trigger s[k]] 0 <= k < s.len() ==> {
        &&& s[k].len > 0
        &&& offset <= s[k].offset
        &&& s[k].offset + s[k].len <= offset + len
        &&& s[k].addr - addr == s[k].offset - offset
        &&& (s[k].addr as int) / page_size == (s[k].addr + s[k].len - 1) / page_size
    }
    &&& forall|k: int| #![trigger s[k]] 0 < k < s.len() ==> {
        &&& s[k].offset == s[k - 1].offset + s[k - 1].len
        &&& (s[k].addr as int) % page_size == 0
    }
    &&& forall|k1: int, k2: int| #![trigger s[k1], s[k2]] 0 <= k1 < k2 < s.len()
        ==> s[k1].offset + s[k1].len <= s[k2].offset
    &&& forall|j: int| offset <= j < offset + len ==> #[trigger] some_chunk_holds(s, j)
}

/// Some piece of `s` holds position `j` of the buffer.
pub open spec fn some_chunk_holds(s: Seq<PageChunk>, j: int) -> bool {
    exists|k: int| #![trigger s[k]] 0 <= k < s.len() && s[k].offset <= j < s[k].offset + s[k].len
}

proof fn lemma_spec_page_chunks(addr: int, offset: int, len: int, page_size: int)
    requires
        page_size > 0,
        addr >= 0,
        offset >= 0,
        len >= 0,
        addr + len <= u64::MAX + 1,
        offset + len <= usize::MAX,
    ensures
        chunks_cut_at_pages(spec_page_chunks(addr, offset, len, page_size), addr, offset, len, page_size),
    decreases len,
{
    let s = spec_page_chunks(addr, offset, len, page_size);
    if len > 0 {
        let n = first_chunk_len(addr, len, page_size);
        lemma_page_step(addr, n, page_size);
        let t = spec_page_chunks(addr + n, offset + n, len - n, page_size);
        lemma_spec_page_chunks(addr + n, offset + n, len - n, page_size);
        let c = PageChunk { addr: addr as u64, offset: offset as usize, len: n as usize };
        assert(s == seq![c] + t);
        assert(s[0] == c);
        assert forall|k: int| 0 < k < s.len() implies #[trigger] s[k] == t[k - 1] by {}
        if len - n > 0 {
            assert((t[0].addr as int) % page_size == 0);
            assert(s.last() == t.last());
        }
        assert forall|k1: int, k2: int| 0 <= k1 < k2 < s.len()
            implies #[trigger] s[k1].offset + s[k1].len <= #[trigger] s[k2].offset by {
            if k1 > 0 {
                assert(t[k1 - 1] == s[k1] && t[k2 - 1] == s[k2]);
            } else {
                assert(t[k2 - 1] == s[k2]);
            }
        }
        assert forall|j: int| offset <= j < offset + len implies #[trigger] some_chunk_holds(s, j) by {
            if j < offset + n {
                assert(s[0].offset <= j < s[0].offset + s[0].len);
            } else {
                assert(some_chunk_holds(t, j));
                let k = choose|k: int| #![trigger t[k]] 0 <= k < t.len() && t[k].offset <= j < t[k].offset + t[k].len;
                assert(s[k + 1] == t[k]);
            }
        }
    }
}

/// Cutting `len` bytes at `addr` at page boundaries gives pieces that cover
/// the buffer in order without gaps or overlaps, that each lie inside one
/// page, and of which every one but the first starts a page.
pub proof fn lemma_page_chunks_cover(addr: u64, len: usize, page_size: usize)
    requires
        page_size > 0,
        addr + len <= u64::MAX + 1,
    ensures
        chunks_cut_at_pages(spec_page_chunks(addr as int, 0, len as int, page_size as int),
            addr as int, 0, len as int, page_size as int),
{
    lemma_spec_page_chunks(addr as int, 0, len as int, page_size as int);
}

proof fn lemma_spec_page_chunks_count(addr: int, offset: int, len: int, page_size: int)
    requires
        page_size > 0,
        addr >= 0,
        len > 0,
    ensures
        spec_page_chunks(addr, offset, len, page_size).len() == (addr + len - 1) / page_size - addr / page_size + 1,
    decreases len,
{
    let n = first_chunk_len(addr, len, page_size);
    lemma_page_step(addr, n, page_size);
    let rest = spec_page_chunks(addr + n, offset + n, len - n, page_size);
    assert(spec_page_chunks(addr, offset, len, page_size).len() == 1 + rest.len());
    if n < len {
        lemma_spec_page_chunks_count(addr + n, offset + n, len - n, page_size);
        let q = addr / page_size;
        lemma_fundamental_div_mod(addr, page_size);
        assert(addr + n == (q + 1) * page_size + 0) by (nonlinear_arith)
            requires
                addr == page_size * q + addr % page_size,
                n == page_size - addr % page_size;
        lemma_fundamental_div_mod_converse(addr + n, page_size, q + 1, 0);
    }
}

/// A buffer is cut into as many pieces as the pages it touches.
pub proof fn lemma_page_chunks_count(addr: u64, len: usize, page_size: usize)
    requires
        page_size > 0,
        len > 0,
    ensures
        spec_page_chunks(addr as int, 0, len as int, page_size as int).len()
            == (addr + len - 1) / (page_size as int) - (addr as int) / (page_size as int) + 1,
{
    lemma_spec_page_chunks_count(addr as int, 0, len as int, page_size as int);
}

/// Cuts the `len` bytes at `addr` into pieces at every multiple of
/// `page_size`.
pub fn page_chunks(addr: u64, len: usize, page_size: usize) -> (chunks: Vec<PageChunk>)
    requires
        page_size > 0,
        addr + len <= u64::MAX + 1,
    ensures
        chunks@ == spec_page_chunks(addr as int, 0, len as int, page_size as int),
{
    let mut chunks: Vec<PageChunk> = Vec::new();
    let mut cur: u64 = addr;
    let mut off: usize = 0;
    let mut rem: usize = len;
    let ps: u64 = page_size as u64;
    while rem > 0
        invariant
            page_size > 0,
            ps == page_size,
            off + rem == len,
            rem > 0 ==> cur == addr + off,
            addr + len <= u64::MAX + 1,
            chunks@ + spec_page_chunks(cur as int, off as int, rem as int, page_size as int)
                == spec_page_chunks(addr as int, 0, len as int, page_size as int),
        decreases rem,
    {
        proof {
            lemma_fundamental_div_mod(cur as int, page_size as int);
            vstd::arithmetic::div_mod::lemma_mod_bound(cur as int, page_size as int);
        }
        let left: u64 = ps - cur % ps;
        let n: usize = if left < rem as u64 { left as usize } else { rem };
        assert(n == first_chunk_len(cur as int, rem as int, page_size as int));
        let c = PageChunk { addr: cur, offset: off, len: n };
        let ghost old_chunks = chunks@;
        let ghost rest = spec_page_chunks(cur as int + n, off as int + n, rem as int - n, page_size as int);
        assert(spec_page_chunks(cur as int, off as int, rem as int, page_size as int) == seq![c] + rest);
        chunks.push(c);
        assert(chunks@ + rest =~= old_chunks + (seq![c] + rest));
        off = off + n;
        rem = rem - n;
        if rem > 0 {
            cur = cur + n as u64;
        }
    }
    assert(chunks@ + spec_page_chunks(cur as int, off as int, 0, page_size as int) =~= chunks@);
    chunks
}

} // verus!
