//! Segmented multi-heap allocator.
//!
//! RAM is split into four fixed windows, each managed by one `Heap`: a
//! first-fit free list with coalescing over one contiguous address
//! range. `HeapRoot` owns the four heaps, each behind its own spin
//! mutex, picks a heap round-robin on allocation, and recovers the
//! owning heap purely from an address on deallocation.

use vstd::prelude::*;

use crate::atomic::Atomic;
use crate::sync::RP2040Mutex;

verus! {

/// One heap could not satisfy an allocation request; the caller may
/// retry against another heap.
#[derive(Clone, Copy, Debug, PartialEq, Eq, Structural)]
pub struct AllocError;

/// One contiguous run of free addresses: `[addr, addr + size)`.
#[derive(Clone, Copy, Debug, PartialEq, Eq, Structural)]
pub struct Block {
    pub addr: usize,
    pub size: usize,
}

/// A well-formed free list over `[lo, hi)`: every block is non-empty
/// and inside the range, and blocks are sorted with at least one
/// non-free address between neighbours (fully coalesced).
#[verifier::opaque]
pub open spec fn blocks_wf(s: Seq<Block>, lo: int, hi: int) -> bool {
    &&& (forall|i: int| 0 <= i < s.len() ==> (#[trigger] s[i]).size > 0)
    &&& (forall|i: int| 0 <= i < s.len() ==> lo <= (#[trigger] s[i]).addr)
    &&& (forall|i: int| 0 <= i < s.len() ==> (#[trigger] s[i]).addr + s[i].size <= hi)
    &&& (forall|i: int| 0 <= i < s.len() - 1 ==> (#[trigger] s[i]).addr + s[i].size < s[i + 1].addr)
}

/// Whether address `a` lies in one of the blocks of `s`.
#[verifier::opaque]
pub open spec fn in_blocks(s: Seq<Block>, a: int) -> bool {
    exists|i: int| 0 <= i < s.len() && (#[trigger] s[i]).addr <= a < s[i].addr + s[i].size
}

/// In a sorted free list, every block ends strictly before any later
/// block begins.
pub proof fn lemma_blocks_order(s: Seq<Block>, lo: int, hi: int, i: int, j: int)
    requires
        blocks_wf(s, lo, hi),
        0 <= i < j < s.len(),
    ensures
        s[i].addr + s[i].size < s[j].addr,
    decreases j - i,
{
    reveal(blocks_wf);
    if j > i + 1 {
        lemma_blocks_order(s, lo, hi, i, j - 1);
    }
}

/// Membership in a concatenation of two block lists.
pub proof fn lemma_in_blocks_concat(s1: Seq<Block>, s2: Seq<Block>, a: int)
    ensures
        in_blocks(s1 + s2, a) <==> (in_blocks(s1, a) || in_blocks(s2, a)),
{
    reveal(in_blocks);
    let s = s1 + s2;
    if in_blocks(s, a) {
        let k = choose|k: int| 0 <= k < s.len() && (#[trigger] s[k]).addr <= a < s[k].addr
            + s[k].size;
        if k < s1.len() {
            assert(s1[k] == s[k]);
        } else {
            assert(s2[k - s1.len()] == s[k]);
        }
    }
    if in_blocks(s1, a) {
        let k = choose|k: int| 0 <= k < s1.len() && (#[trigger] s1[k]).addr <= a < s1[k].addr
            + s1[k].size;
        assert(s[k] == s1[k]);
    }
    if in_blocks(s2, a) {
        let k = choose|k: int| 0 <= k < s2.len() && (#[trigger] s2[k]).addr <= a < s2[k].addr
            + s2[k].size;
        assert(s[k + s1.len()] == s2[k]);
    }
}

/// The padding that brings `addr` up to the next multiple of `align`.
pub open spec fn spec_pad(addr: int, align: int) -> int
    recommends
        align >= 1,
{
    if addr % align == 0 {
        0
    } else {
        align - addr % align
    }
}

/// Whether `b` can serve a request of `size` bytes at alignment
/// `align`: the block is long enough even after aligning its start.
pub open spec fn block_fits(b: Block, size: int, align: int) -> bool {
    spec_pad(b.addr as int, align) + size <= b.size
}

/// A single free-list allocator over one fixed, contiguous address
/// range `[start, start + capacity)`.
#[derive(Debug)]
pub struct Heap {
    start_addr: usize,
    size: usize,
    free: Vec<Block>,
}

/// What a successful allocation did: the returned address is aligned,
/// the returned span was free before and is exactly what stopped being
/// free, and nothing else changed.
pub open spec fn alloc_ok(pre: Heap, post: Heap, addr: int, size: int, align: int) -> bool {
    &&& addr % align == 0
    &&& pre.start() <= addr
    &&& addr + size <= pre.start() + pre.capacity()
    &&& (forall|a: int| addr <= a < addr + size ==> pre.is_free(a))
    &&& (forall|a: int|
        #[trigger] post.is_free(a) <==> (pre.is_free(a) && !(addr <= a < addr + size)))
}

/// What a deallocation did: exactly the released span became free
/// again.
pub open spec fn dealloc_post(pre: Heap, post: Heap, addr: int, size: int) -> bool {
    forall|a: int| #[trigger] post.is_free(a) <==> (pre.is_free(a) || (addr <= a < addr + size))
}

impl Heap {
    /// Base of the managed range.
    pub closed spec fn start(self) -> int {
        self.start_addr as int
    }

    /// Length of the managed range in bytes.
    pub closed spec fn capacity(self) -> int {
        self.size as int
    }

    /// The free list, in address order.
    pub closed spec fn blocks(self) -> Seq<Block> {
        self.free@
    }

    pub open spec fn wf(self) -> bool {
        &&& self.start() + self.capacity() <= usize::MAX
        &&& blocks_wf(self.blocks(), self.start(), self.start() + self.capacity())
    }

    /// Whether address `a` is currently free in this heap.
    pub open spec fn is_free(self, a: int) -> bool {
        in_blocks(self.blocks(), a)
    }

    /// Whether some free block can serve a request of `size` bytes at
    /// alignment `align`.
    pub open spec fn has_fit(self, size: int, align: int) -> bool {
        exists|i: int|
            0 <= i < self.blocks().len() && block_fits(#[trigger] self.blocks()[i], size, align)
    }

    /// A fresh heap over `[start_addr, start_addr + size)` with the
    /// whole range free.
    pub fn new(start_addr: usize, size: usize) -> (r: Self)
        requires
            start_addr + size <= usize::MAX,
        ensures
            r.wf(),
            r.start() == start_addr,
            r.capacity() == size,
            forall|a: int| #[trigger] r.is_free(a) <==> (start_addr <= a < start_addr + size),
    {
        let mut free: Vec<Block> = Vec::new();
        if size > 0 {
            free.push(Block { addr: start_addr, size });
        }
        let r = Heap { start_addr, size, free };
        proof {
            reveal(blocks_wf);
            reveal(in_blocks);
            assert forall|a: int| #[trigger] r.is_free(a) implies (start_addr <= a < start_addr
                + size) by {}
            assert forall|a: int| start_addr <= a < start_addr + size implies #[trigger] r.is_free(
                a,
            ) by {
                assert(r.blocks()[0].addr <= a < r.blocks()[0].addr + r.blocks()[0].size);
            }
        }
        r
    }

    /// First-fit allocation: scans the free list in address order and
    /// carves the request out of the first block that can serve it,
    /// returning any leading or trailing remainder to the list.
    /// Fails exactly when no block fits; failure is local to this heap.
    pub fn allocate(&mut self, size: usize, align: usize) -> (r: Result<usize, AllocError>)
        requires
            old(self).wf(),
            0 < size,
            0 < align,
        ensures
            final(self).wf(),
            final(self).start() == old(self).start(),
            final(self).capacity() == old(self).capacity(),
            r is Ok <==> old(self).has_fit(size as int, align as int),
            r matches Ok(addr) ==> alloc_ok(
                *old(self),
                *final(self),
                addr as int,
                size as int,
                align as int,
            ),
            r is Err ==> *final(self) == *old(self),
    {
        proof {
            reveal(blocks_wf);
        }
        let ghost pre = *self;
        let mut i: usize = 0;
        while i < self.free.len()
            invariant
                *self == pre,
                pre == *old(self),
                pre.wf(),
                0 < size,
                0 < align,
                i <= pre.blocks().len(),
                forall|k: int|
                    0 <= k < i ==> !block_fits(
                        #[trigger] pre.blocks()[k],
                        size as int,
                        align as int,
                    ),
            decreases pre.blocks().len() - i,
        {
            proof {
                reveal(blocks_wf);
            }
            let b = self.free[i];
            let rem = b.addr % align;
            let pad: usize = if rem == 0 {
                0
            } else {
                align - rem
            };
            if pad <= b.size && size <= b.size - pad {
                let alloc_addr = b.addr + pad;
                let tail_size = b.size - pad - size;
                self.free.remove(i);
                let mut at = i;
                if pad > 0 {
                    self.free.insert(at, Block { addr: b.addr, size: pad });
                    at = at + 1;
                }
                if tail_size > 0 {
                    self.free.insert(at, Block { addr: alloc_addr + size, size: tail_size });
                }
                proof {
                    assert(pad as int == spec_pad(b.addr as int, align as int));
                    assert(self.free@ =~= pre.blocks().subrange(0, i as int) + split_mid(
                        pre.blocks()[i as int],
                        pad as int,
                        size as int,
                    ) + pre.blocks().subrange(i as int + 1, pre.blocks().len() as int));
                    lemma_allocate_splice(
                        pre,
                        *self,
                        i as int,
                        size as int,
                        align as int,
                        pad as int,
                    );
                    assert(block_fits(pre.blocks()[i as int], size as int, align as int));
                }
                return Ok(alloc_addr);
            }
            proof {
                assert(pad as int == spec_pad(b.addr as int, align as int));
                assert(!block_fits(pre.blocks()[i as int], size as int, align as int));
            }
            i = i + 1;
        }
        proof {
            if pre.has_fit(size as int, align as int) {
                let k = choose|k: int|
                    0 <= k < pre.blocks().len() && block_fits(
                        #[trigger] pre.blocks()[k],
                        size as int,
                        align as int,
                    );
                assert(!block_fits(pre.blocks()[k], size as int, align as int));
            }
        }
        Err(AllocError)
    }

    /// Returns the span `[addr, addr + size)` to the free list and
    /// coalesces it with an adjacent free predecessor and/or successor,
    /// so the list never holds two touching blocks. The span and
    /// alignment must match a prior allocation: the span lies inside
    /// the managed range and no byte of it is free.
    #[verifier::rlimit(100)]
    pub fn deallocate(&mut self, addr: usize, size: usize, align: usize)
        requires
            old(self).wf(),
            0 < size,
            0 < align,
            addr % align == 0,
            old(self).start() <= addr,
            addr + size <= old(self).start() + old(self).capacity(),
            forall|a: int| addr <= a < addr + size ==> !old(self).is_free(a),
        ensures
            final(self).wf(),
            final(self).start() == old(self).start(),
            final(self).capacity() == old(self).capacity(),
            dealloc_post(*old(self), *final(self), addr as int, size as int),
    {
        proof {
            reveal(blocks_wf);
        }
        let ghost pre = *self;
        let mut idx: usize = 0;
        while idx < self.free.len() && self.free[idx].addr < addr
            invariant
                *self == pre,
                pre.wf(),
                idx <= pre.blocks().len(),
                forall|k: int| 0 <= k < idx ==> (#[trigger] pre.blocks()[k]).addr < addr,
            decreases pre.blocks().len() - idx,
        {
            proof {
                reveal(blocks_wf);
            }
            idx = idx + 1;
        }
        proof {
            lemma_dealloc_position(pre, idx as int, addr as int, size as int);
        }
        self.splice_free(idx, addr, size);
    }

    /// Inserts the span `[addr, addr + size)` at position `idx` of the
    /// free list, merging with a touching predecessor or successor.
    #[verifier::rlimit(100)]
    fn splice_free(&mut self, idx: usize, addr: usize, size: usize)
        requires
            old(self).wf(),
            0 < size,
            old(self).start() <= addr,
            addr + size <= old(self).start() + old(self).capacity(),
            idx <= old(self).blocks().len(),
            forall|k: int| 0 <= k < idx ==> (#[trigger] old(self).blocks()[k]).addr + old(
                self,
            ).blocks()[k].size <= addr,
            forall|k: int| idx <= k < old(self).blocks().len() ==> (#[trigger] old(
                self,
            ).blocks()[k]).addr >= addr + size,
        ensures
            final(self).wf(),
            final(self).start() == old(self).start(),
            final(self).capacity() == old(self).capacity(),
            dealloc_post(*old(self), *final(self), addr as int, size as int),
    {
        proof {
            reveal(blocks_wf);
        }
        let ghost pre = *self;
        let merge_prev = idx > 0 && self.free[idx - 1].addr + self.free[idx - 1].size == addr;
        let merge_next = idx < self.free.len() && addr + size == self.free[idx].addr;
        let new_addr = if merge_prev {
            self.free[idx - 1].addr
        } else {
            addr
        };
        let new_end = if merge_next {
            self.free[idx].addr + self.free[idx].size
        } else {
            addr + size
        };
        let merged = Block { addr: new_addr, size: new_end - new_addr };
        if merge_next {
            self.free.remove(idx);
        }
        let mut lo_idx = idx;
        if merge_prev {
            self.free.remove(idx - 1);
            lo_idx = idx - 1;
        }
        self.free.insert(lo_idx, merged);
        proof {
            let li = merged_lo_index(idx as int, merge_prev);
            let ri = merged_hi_index(idx as int, merge_next);
            assert(merged == merged_block(
                pre.blocks(),
                idx as int,
                addr as int,
                size as int,
                merge_prev,
                merge_next,
            ));
            assert(self.free@ =~= pre.blocks().subrange(0, li) + seq![merged]
                + pre.blocks().subrange(ri, pre.blocks().len() as int));
            lemma_deallocate_splice(
                pre,
                *self,
                idx as int,
                addr as int,
                size as int,
                merge_prev,
                merge_next,
            );
        }
    }
}

/// Facts the deallocation scan establishes about the insertion point:
/// every earlier block ends at or before the span, every later block
/// begins at or after its end.
proof fn lemma_dealloc_position(pre: Heap, idx: int, addr: int, size: int)
    requires
        pre.wf(),
        0 < size,
        addr + size <= pre.start() + pre.capacity(),
        forall|a: int| addr <= a < addr + size ==> !pre.is_free(a),
        0 <= idx <= pre.blocks().len(),
        forall|k: int| 0 <= k < idx ==> (#[trigger] pre.blocks()[k]).addr < addr,
        idx < pre.blocks().len() ==> pre.blocks()[idx].addr >= addr,
    ensures
        forall|k: int| 0 <= k < idx ==> (#[trigger] pre.blocks()[k]).addr + pre.blocks()[k].size
            <= addr,
        forall|k: int| idx <= k < pre.blocks().len() ==> (#[trigger] pre.blocks()[k]).addr >= addr
            + size,
{
    reveal(blocks_wf);
    reveal(in_blocks);
    let s = pre.blocks();
    assert forall|k: int| 0 <= k < idx implies (#[trigger] s[k]).addr + s[k].size <= addr by {
        if s[k].addr + s[k].size > addr {
            assert(s[k].addr <= addr < s[k].addr + s[k].size);
            assert(pre.is_free(addr));
        }
    }
    assert forall|k: int| idx <= k < s.len() implies (#[trigger] s[k]).addr >= addr + size by {
        if k > idx {
            lemma_blocks_order(s, pre.start(), pre.start() + pre.capacity(), idx, k);
        }
        if s[k].addr < addr + size {
            assert(s[k].addr <= s[k].addr < s[k].addr + s[k].size);
            assert(pre.is_free(s[k].addr as int));
            assert(addr <= s[k].addr < addr + size);
        }
    }
}

/// The padding reaches the next multiple of the alignment.
proof fn lemma_pad_aligns(addr: int, align: int)
    requires
        align >= 1,
        0 <= addr,
    ensures
        0 <= spec_pad(addr, align) < align,
        (addr + spec_pad(addr, align)) % align == 0,
{
    let m = addr % align;
    vstd::arithmetic::div_mod::lemma_mod_bound(addr, align);
    if m != 0 {
        vstd::arithmetic::div_mod::lemma_add_mod_noop(addr, align - m, align);
        vstd::arithmetic::div_mod::lemma_small_mod((align - m) as nat, align as nat);
        vstd::arithmetic::div_mod::lemma_mod_self_0(align);
    }
}

/// What replaces the block an allocation was carved from: the leading
/// remainder below the aligned address, if any, and the trailing
/// remainder above the allocated span, if any.
pub open spec fn split_mid(b: Block, pad: int, size: int) -> Seq<Block> {
    let lead: Seq<Block> = if pad > 0 {
        seq![Block { addr: b.addr, size: pad as usize }]
    } else {
        Seq::empty()
    };
    let tail: Seq<Block> = if b.size - pad - size > 0 {
        seq![
            Block {
                addr: (b.addr + pad + size) as usize,
                size: (b.size - pad - size) as usize,
            },
        ]
    } else {
        Seq::empty()
    };
    lead + tail
}

/// Membership in `split_mid`: exactly the old block minus the
/// allocated span.
proof fn lemma_split_mid_membership(b: Block, pad: int, size: int, a: int)
    requires
        0 < size,
        0 <= pad,
        pad + size <= b.size,
        b.addr + b.size <= usize::MAX,
    ensures
        in_blocks(split_mid(b, pad, size), a) <==> (b.addr <= a < b.addr + b.size && !(b.addr + pad
            <= a < b.addr + pad + size)),
{
    reveal(in_blocks);
    let mid = split_mid(b, pad, size);
    let lead: Seq<Block> = if pad > 0 {
        seq![Block { addr: b.addr, size: pad as usize }]
    } else {
        Seq::empty()
    };
    let tail: Seq<Block> = if b.size - pad - size > 0 {
        seq![
            Block {
                addr: (b.addr + pad + size) as usize,
                size: (b.size - pad - size) as usize,
            },
        ]
    } else {
        Seq::empty()
    };
    lemma_in_blocks_concat(lead, tail, a);
    if pad > 0 {
        assert(in_blocks(lead, a) <==> (b.addr <= a < b.addr + pad)) by {
            if b.addr <= a < b.addr + pad {
                assert(lead[0].addr <= a < lead[0].addr + lead[0].size);
            }
        }
    } else {
        assert(!in_blocks(lead, a));
    }
    if b.size - pad - size > 0 {
        assert(in_blocks(tail, a) <==> (b.addr + pad + size <= a < b.addr + b.size)) by {
            if b.addr + pad + size <= a < b.addr + b.size {
                assert(tail[0].addr <= a < tail[0].addr + tail[0].size);
            }
        }
    } else {
        assert(!in_blocks(tail, a));
    }
}

/// Correctness of the free-list surgery a successful allocation does:
/// replacing the fitting block with its remainders preserves
/// well-formedness and removes exactly the allocated span from the set
/// of free addresses.
#[verifier::rlimit(100)]
proof fn lemma_allocate_splice(pre: Heap, post: Heap, i: int, size: int, align: int, pad: int)
    requires
        pre.wf(),
        0 <= i < pre.blocks().len(),
        0 < size,
        0 < align,
        pad == spec_pad(pre.blocks()[i].addr as int, align),
        pad + size <= pre.blocks()[i].size,
        post.start() == pre.start(),
        post.capacity() == pre.capacity(),
        post.blocks() == pre.blocks().subrange(0, i) + split_mid(pre.blocks()[i], pad, size)
            + pre.blocks().subrange(i + 1, pre.blocks().len() as int),
    ensures
        post.wf(),
        alloc_ok(pre, post, pre.blocks()[i].addr + pad, size, align),
{
    reveal(blocks_wf);
    reveal(in_blocks);
    let s = pre.blocks();
    let b = s[i];
    let lo = pre.start();
    let hi = pre.start() + pre.capacity();
    let alloc_addr = b.addr + pad;
    let prefix = s.subrange(0, i);
    let suffix = s.subrange(i + 1, s.len() as int);
    let mid = split_mid(b, pad, size);
    let post_s = post.blocks();

    lemma_pad_aligns(b.addr as int, align);
    assert(s =~= (prefix + seq![b]) + suffix);

    // Every element of the new list is an old block or a remainder.
    assert(mid.len() <= 2);
    assert forall|k: int| 0 <= k < mid.len() implies (#[trigger] mid[k]).size > 0 && b.addr
        <= mid[k].addr && mid[k].addr + mid[k].size <= b.addr + b.size by {}
    assert forall|k: int| 0 <= k < post_s.len() implies (#[trigger] post_s[k]).size > 0 && lo
        <= post_s[k].addr && post_s[k].addr + post_s[k].size <= hi by {
        if k < i {
            assert(post_s[k] == s[k]);
        } else if k < i + mid.len() {
            assert(post_s[k] == mid[k - i]);
        } else {
            assert(post_s[k] == s[k - mid.len() + 1]);
        }
    }
    // Sortedness with gaps survives the splice.
    assert forall|k: int| 0 <= k < post_s.len() - 1 implies (#[trigger] post_s[k]).addr
        + post_s[k].size < post_s[k + 1].addr by {
        let m = mid.len() as int;
        if k + 1 < i {
            assert(post_s[k] == s[k]);
            assert(post_s[k + 1] == s[k + 1]);
        } else if k + 1 == i {
            assert(post_s[k] == s[k]);
            if m > 0 {
                assert(post_s[k + 1] == mid[0]);
                assert(s[k].addr + s[k].size < s[i].addr);
            } else {
                assert(post_s[k + 1] == s[i + 1]);
                lemma_blocks_order(s, lo, hi, k, i + 1);
            }
        } else if k < i + m {
            // post_s[k] is a remainder
            assert(post_s[k] == mid[k - i]);
            if k + 1 < i + m {
                assert(post_s[k + 1] == mid[k - i + 1]);
            } else {
                assert(post_s[k + 1] == s[i + 1]);
                assert(mid[k - i].addr + mid[k - i].size <= b.addr + b.size);
                assert(s[i].addr + s[i].size < s[i + 1].addr);
            }
        } else {
            assert(post_s[k] == s[k - m + 1]);
            assert(post_s[k + 1] == s[k - m + 2]);
        }
    }
    assert(post.wf());

    // The allocated span was free before.
    assert forall|a: int| alloc_addr <= a < alloc_addr + size implies pre.is_free(a) by {
        assert(s[i].addr <= a < s[i].addr + s[i].size);
    }
    // Exactly that span stopped being free.
    assert forall|a: int| #[trigger] post.is_free(a) <==> (pre.is_free(a) && !(alloc_addr <= a
        < alloc_addr + size)) by {
        lemma_in_blocks_concat(prefix + mid, suffix, a);
        lemma_in_blocks_concat(prefix, mid, a);
        lemma_in_blocks_concat(prefix + seq![b], suffix, a);
        lemma_in_blocks_concat(prefix, seq![b], a);
        assert(post_s =~= (prefix + mid) + suffix);
        assert(in_blocks(seq![b], a) <==> (b.addr <= a < b.addr + b.size)) by {
            if b.addr <= a < b.addr + b.size {
                assert(seq![b][0] == b);
            }
        }
        lemma_split_mid_membership(b, pad, size, a);
        if in_blocks(prefix, a) {
            let k = choose|k: int|
                0 <= k < prefix.len() && (#[trigger] prefix[k]).addr <= a < prefix[k].addr
                    + prefix[k].size;
            assert(prefix[k] == s[k]);
            lemma_blocks_order(s, lo, hi, k, i);
            assert(a < b.addr);
        }
        if in_blocks(suffix, a) {
            let k = choose|k: int|
                0 <= k < suffix.len() && (#[trigger] suffix[k]).addr <= a < suffix[k].addr
                    + suffix[k].size;
            assert(suffix[k] == s[i + 1 + k]);
            lemma_blocks_order(s, lo, hi, i, i + 1 + k);
            assert(a >= b.addr + b.size);
        }
    }
}

/// Correctness of the free-list surgery a deallocation does: replacing
/// the released span and any touching neighbours with one merged block
/// preserves well-formedness and adds exactly the released span to the
/// set of free addresses.
#[verifier::rlimit(100)]
proof fn lemma_deallocate_splice(
    pre: Heap,
    post: Heap,
    idx: int,
    addr: int,
    size: int,
    merge_prev: bool,
    merge_next: bool,
)
    requires
        pre.wf(),
        0 < size,
        pre.start() <= addr,
        addr + size <= pre.start() + pre.capacity(),
        0 <= idx <= pre.blocks().len(),
        forall|k: int| 0 <= k < idx ==> (#[trigger] pre.blocks()[k]).addr + pre.blocks()[k].size
            <= addr,
        forall|k: int| idx <= k < pre.blocks().len() ==> (#[trigger] pre.blocks()[k]).addr >= addr
            + size,
        merge_prev == (idx > 0 && pre.blocks()[idx - 1].addr + pre.blocks()[idx - 1].size == addr),
        merge_next == (idx < pre.blocks().len() && addr + size == pre.blocks()[idx].addr),
        post.start() == pre.start(),
        post.capacity() == pre.capacity(),
        post.blocks() == pre.blocks().subrange(0, merged_lo_index(idx, merge_prev)) + seq![
            merged_block(pre.blocks(), idx, addr, size, merge_prev, merge_next),
        ] + pre.blocks().subrange(merged_hi_index(idx, merge_next), pre.blocks().len() as int),
    ensures
        post.wf(),
        dealloc_post(pre, post, addr, size),
{
    lemma_deallocate_wf(pre, post, idx, addr, size, merge_prev, merge_next);
    // Exactly the released span became free.
    assert forall|a: int| #[trigger] post.is_free(a) <==> (pre.is_free(a) || (addr <= a < addr
        + size)) by {
        lemma_deallocate_pointwise(pre, post, idx, addr, size, merge_prev, merge_next, a);
    }
}

/// The deallocation splice keeps the free list well-formed.
#[verifier::rlimit(100)]
proof fn lemma_deallocate_wf(
    pre: Heap,
    post: Heap,
    idx: int,
    addr: int,
    size: int,
    merge_prev: bool,
    merge_next: bool,
)
    requires
        pre.wf(),
        0 < size,
        pre.start() <= addr,
        addr + size <= pre.start() + pre.capacity(),
        0 <= idx <= pre.blocks().len(),
        forall|k: int| 0 <= k < idx ==> (#[trigger] pre.blocks()[k]).addr + pre.blocks()[k].size
            <= addr,
        forall|k: int| idx <= k < pre.blocks().len() ==> (#[trigger] pre.blocks()[k]).addr >= addr
            + size,
        merge_prev == (idx > 0 && pre.blocks()[idx - 1].addr + pre.blocks()[idx - 1].size == addr),
        merge_next == (idx < pre.blocks().len() && addr + size == pre.blocks()[idx].addr),
        post.start() == pre.start(),
        post.capacity() == pre.capacity(),
        post.blocks() == pre.blocks().subrange(0, merged_lo_index(idx, merge_prev)) + seq![
            merged_block(pre.blocks(), idx, addr, size, merge_prev, merge_next),
        ] + pre.blocks().subrange(merged_hi_index(idx, merge_next), pre.blocks().len() as int),
    ensures
        post.wf(),
{
    reveal(blocks_wf);
    let s = pre.blocks();
    let lo = pre.start();
    let hi = pre.start() + pre.capacity();
    let li = merged_lo_index(idx, merge_prev);
    let ri = merged_hi_index(idx, merge_next);
    let merged = merged_block(s, idx, addr, size, merge_prev, merge_next);
    let post_s = post.blocks();

    // The merged block covers the released span plus merged neighbours.
    assert(merged.addr <= addr);
    assert(addr + size <= merged.addr + merged.size);
    assert(lo <= merged.addr);
    assert(merged.addr + merged.size <= hi);

    // Well-formedness of the new list.
    assert forall|k: int| 0 <= k < post_s.len() implies (#[trigger] post_s[k]).size > 0 && lo
        <= post_s[k].addr && post_s[k].addr + post_s[k].size <= hi by {
        if k < li {
            assert(post_s[k] == s[k]);
        } else if k == li {
            assert(post_s[k] == merged);
        } else {
            assert(post_s[k] == s[k - li - 1 + ri]);
        }
    }
    assert forall|k: int| 0 <= k < post_s.len() - 1 implies (#[trigger] post_s[k]).addr
        + post_s[k].size < post_s[k + 1].addr by {
        if k + 1 < li {
            assert(post_s[k] == s[k]);
            assert(post_s[k + 1] == s[k + 1]);
        } else if k + 1 == li {
            assert(post_s[k] == s[k]);
            assert(post_s[k + 1] == merged);
            if merge_prev {
                assert(merged.addr == s[idx - 1].addr);
                assert(s[k].addr + s[k].size < s[idx - 1].addr);
            } else {
                assert(s[k].addr + s[k].size <= addr);
                assert(s[k].addr + s[k].size != addr);
            }
        } else if k == li {
            assert(post_s[k] == merged);
            assert(post_s[k + 1] == s[ri + (k + 1 - li - 1)]);
            assert(post_s[k + 1] == s[ri]);
            if merge_next {
                assert(merged.addr + merged.size == s[idx].addr + s[idx].size);
                assert(s[idx].addr + s[idx].size < s[idx + 1].addr);
            } else {
                assert(merged.addr + merged.size == addr + size);
                assert(s[ri].addr >= addr + size);
                assert(s[ri].addr != addr + size);
            }
        } else {
            assert(post_s[k] == s[k - li - 1 + ri]);
            assert(post_s[k + 1] == s[k - li + ri]);
        }
    }
    assert(post.wf());
}

/// One address of the deallocation splice: `a` is free afterwards
/// exactly when it was free before or lies in the released span.
#[verifier::rlimit(100)]
proof fn lemma_deallocate_pointwise(
    pre: Heap,
    post: Heap,
    idx: int,
    addr: int,
    size: int,
    merge_prev: bool,
    merge_next: bool,
    a: int,
)
    requires
        pre.wf(),
        0 < size,
        pre.start() <= addr,
        addr + size <= pre.start() + pre.capacity(),
        0 <= idx <= pre.blocks().len(),
        forall|k: int| 0 <= k < idx ==> (#[trigger] pre.blocks()[k]).addr + pre.blocks()[k].size
            <= addr,
        forall|k: int| idx <= k < pre.blocks().len() ==> (#[trigger] pre.blocks()[k]).addr >= addr
            + size,
        merge_prev == (idx > 0 && pre.blocks()[idx - 1].addr + pre.blocks()[idx - 1].size == addr),
        merge_next == (idx < pre.blocks().len() && addr + size == pre.blocks()[idx].addr),
        post.blocks() == pre.blocks().subrange(0, merged_lo_index(idx, merge_prev)) + seq![
            merged_block(pre.blocks(), idx, addr, size, merge_prev, merge_next),
        ] + pre.blocks().subrange(merged_hi_index(idx, merge_next), pre.blocks().len() as int),
    ensures
        post.is_free(a) <==> (pre.is_free(a) || (addr <= a < addr + size)),
{
    reveal(blocks_wf);
    reveal(in_blocks);
    let s = pre.blocks();
    let li = merged_lo_index(idx, merge_prev);
    let ri = merged_hi_index(idx, merge_next);
    let merged = merged_block(s, idx, addr, size, merge_prev, merge_next);
    let prefix = s.subrange(0, li);
    let suffix = s.subrange(ri, s.len() as int);
    let post_s = post.blocks();

    lemma_in_blocks_concat(prefix + seq![merged], suffix, a);
    lemma_in_blocks_concat(prefix, seq![merged], a);
    assert(post_s =~= (prefix + seq![merged]) + suffix);
    assert(in_blocks(seq![merged], a) <==> (merged.addr <= a < merged.addr + merged.size)) by {
        if merged.addr <= a < merged.addr + merged.size {
            assert(seq![merged][0] == merged);
        }
    }
    // The old list decomposes around the merged region.
    let dropped = s.subrange(li, ri);
    lemma_in_blocks_concat(prefix + dropped, suffix, a);
    lemma_in_blocks_concat(prefix, dropped, a);
    assert(s =~= (prefix + dropped) + suffix);
    // Membership in the dropped blocks is membership in the merged
    // block outside the released span.
    assert(in_blocks(dropped, a) <==> ((merged.addr <= a < merged.addr + merged.size) && !(addr <= a
        < addr + size))) by {
        if merge_prev {
            assert(dropped[0] == s[idx - 1]);
        }
        if merge_next {
            assert(dropped[ri - li - 1] == s[idx]);
        }
        if in_blocks(dropped, a) {
            let k = choose|k: int|
                0 <= k < dropped.len() && (#[trigger] dropped[k]).addr <= a < dropped[k].addr
                    + dropped[k].size;
            assert(dropped[k] == s[li + k]);
        }
        if (merged.addr <= a < merged.addr + merged.size) && !(addr <= a < addr + size) {
            if a < addr {
                assert(merge_prev);
                assert(s[idx - 1].addr <= a < s[idx - 1].addr + s[idx - 1].size);
                assert(dropped[0].addr <= a < dropped[0].addr + dropped[0].size);
            } else {
                assert(merge_next);
                assert(s[idx].addr <= a < s[idx].addr + s[idx].size);
                assert(dropped[ri - li - 1].addr <= a < dropped[ri - li - 1].addr + dropped[ri - li
                    - 1].size);
            }
        }
    }
}

/// A contiguous run of free addresses in a well-formed (coalesced)
/// heap always lies inside one single free block.
pub proof fn lemma_free_run_single_block(h: Heap, lo: int, hi: int)
    requires
        h.wf(),
        lo < hi,
        forall|a: int| lo <= a < hi ==> h.is_free(a),
    ensures
        exists|i: int|
            0 <= i < h.blocks().len() && (#[trigger] h.blocks()[i]).addr <= lo && hi
                <= h.blocks()[i].addr + h.blocks()[i].size,
{
    reveal(blocks_wf);
    reveal(in_blocks);
    let s = h.blocks();
    assert(h.is_free(lo));
    let i = choose|i: int| 0 <= i < s.len() && (#[trigger] s[i]).addr <= lo < s[i].addr + s[i].size;
    let end_i = s[i].addr + s[i].size;
    if end_i < hi {
        assert(h.is_free(end_i));
        let j = choose|j: int|
            0 <= j < s.len() && (#[trigger] s[j]).addr <= end_i < s[j].addr + s[j].size;
        if j < i {
            lemma_blocks_order(s, h.start(), h.start() + h.capacity(), j, i);
        } else if j > i {
            lemma_blocks_order(s, h.start(), h.start() + h.capacity(), i, j);
        }
        assert(false);
    }
    assert(s[i].addr <= lo && hi <= s[i].addr + s[i].size);
}

/// An aligned address at or above a block's base needs no more padding
/// than its distance from the base.
proof fn lemma_pad_le_aligned(base: int, addr: int, align: int)
    requires
        align >= 1,
        0 <= base <= addr,
        addr % align == 0,
    ensures
        spec_pad(base, align) <= addr - base,
{
    let m = base % align;
    vstd::arithmetic::div_mod::lemma_mod_bound(base, align);
    if m != 0 {
        let d = addr - base;
        vstd::arithmetic::div_mod::lemma_sub_mod_noop(addr, base, align);
        vstd::arithmetic::div_mod::lemma_mod_add_multiples_vanish(-m, align);
        vstd::arithmetic::div_mod::lemma_small_mod((align - m) as nat, align as nat);
        assert(d % align == align - m);
        if d < align {
            vstd::arithmetic::div_mod::lemma_small_mod(d as nat, align as nat);
        }
    }
}

/// Round trip: allocating a span and then freeing it restores the free
/// set exactly, and every request no larger than the span (at the same
/// alignment) fits again afterwards.
pub proof fn lemma_alloc_free_roundtrip(
    h0: Heap,
    h1: Heap,
    h2: Heap,
    addr: int,
    size: int,
    align: int,
)
    requires
        h2.wf(),
        0 < size,
        0 < align,
        0 <= addr,
        alloc_ok(h0, h1, addr, size, align),
        dealloc_post(h1, h2, addr, size),
    ensures
        forall|a: int| #[trigger] h2.is_free(a) <==> h0.is_free(a),
        forall|m: int| 0 < m <= size ==> h2.has_fit(m, align),
{
    assert forall|a: int| #[trigger] h2.is_free(a) <==> h0.is_free(a) by {
        assert(h1.is_free(a) <==> (h0.is_free(a) && !(addr <= a < addr + size)));
    }
    assert forall|a: int| addr <= a < addr + size implies h2.is_free(a) by {}
    lemma_free_run_single_block(h2, addr, addr + size);
    let i = choose|i: int|
        0 <= i < h2.blocks().len() && (#[trigger] h2.blocks()[i]).addr <= addr && addr + size
            <= h2.blocks()[i].addr + h2.blocks()[i].size;
    let b = h2.blocks()[i];
    lemma_pad_le_aligned(b.addr as int, addr, align);
    assert forall|m: int| 0 < m <= size implies h2.has_fit(m, align) by {
        assert(spec_pad(b.addr as int, align) + m <= (addr - b.addr) + size <= b.size);
        assert(block_fits(h2.blocks()[i], m, align));
    }
}

/// Coalescing: freeing two adjacent spans, in either order, leaves one
/// single free block spanning both, so a request as large as their sum
/// fits.
pub proof fn lemma_coalescing(
    h0: Heap,
    h1: Heap,
    h2: Heap,
    addr: int,
    s1: int,
    s2: int,
    lower_first: bool,
)
    requires
        h2.wf(),
        0 < s1,
        0 < s2,
        0 <= addr,
        lower_first ==> dealloc_post(h0, h1, addr, s1) && dealloc_post(h1, h2, addr + s1, s2),
        !lower_first ==> dealloc_post(h0, h1, addr + s1, s2) && dealloc_post(h1, h2, addr, s1),
    ensures
        exists|i: int|
            0 <= i < h2.blocks().len() && (#[trigger] h2.blocks()[i]).addr <= addr && addr + s1 + s2
                <= h2.blocks()[i].addr + h2.blocks()[i].size,
        h2.has_fit(s1 + s2, 1),
{
    assert forall|a: int| addr <= a < addr + s1 + s2 implies h2.is_free(a) by {
        if lower_first {
            assert(h1.is_free(a) <==> (h0.is_free(a) || (addr <= a < addr + s1)));
        } else {
            assert(h1.is_free(a) <==> (h0.is_free(a) || (addr + s1 <= a < addr + s1 + s2)));
        }
    }
    lemma_free_run_single_block(h2, addr, addr + s1 + s2);
    let i = choose|i: int|
        0 <= i < h2.blocks().len() && (#[trigger] h2.blocks()[i]).addr <= addr && addr + s1 + s2
            <= h2.blocks()[i].addr + h2.blocks()[i].size;
    let b = h2.blocks()[i];
    assert(spec_pad(b.addr as int, 1) == 0);
    assert(block_fits(h2.blocks()[i], s1 + s2, 1));
}

/// Index of the first block replaced by a deallocation's merged block.
pub open spec fn merged_lo_index(idx: int, merge_prev: bool) -> int {
    if merge_prev {
        idx - 1
    } else {
        idx
    }
}

/// Index of the first block kept above a deallocation's merged block.
pub open spec fn merged_hi_index(idx: int, merge_next: bool) -> int {
    if merge_next {
        idx + 1
    } else {
        idx
    }
}

/// The block a deallocation inserts: the released span, extended over
/// a touching predecessor and/or successor.
pub open spec fn merged_block(
    s: Seq<Block>,
    idx: int,
    addr: int,
    size: int,
    merge_prev: bool,
    merge_next: bool,
) -> Block {
    let lo = if merge_prev {
        s[idx - 1].addr as int
    } else {
        addr
    };
    let hi = if merge_next {
        s[idx].addr + s[idx].size
    } else {
        addr + size
    };
    Block { addr: lo as usize, size: (hi - lo) as usize }
}

/// Base of the four fixed RAM windows.
pub const RAM_WINDOWS_BASE: usize = 0x2000_0000;

/// Length of each window in bytes.
pub const HEAP_WINDOW_SIZE: usize = 0x1_0000;

/// End of the last window.
pub const RAM_WINDOWS_END: usize = 0x2004_0000;

/// Which fixed window an address belongs to, for addresses below the
/// window region's end. Purely a function of the address.
pub open spec fn window_index_of(a: int) -> int {
    if a < RAM_WINDOWS_BASE + HEAP_WINDOW_SIZE {
        0
    } else if a < RAM_WINDOWS_BASE + 2 * HEAP_WINDOW_SIZE {
        1
    } else if a < RAM_WINDOWS_BASE + 3 * HEAP_WINDOW_SIZE {
        2
    } else {
        3
    }
}

/// The managed span of window `i` when the first window begins at
/// `heap_start` (the first window ends at the first fixed boundary;
/// the other three are full fixed windows).
pub open spec fn in_window(i: int, heap_start: int, a: int) -> bool {
    if i == 0 {
        heap_start <= a < RAM_WINDOWS_BASE + HEAP_WINDOW_SIZE
    } else {
        RAM_WINDOWS_BASE + i * HEAP_WINDOW_SIZE <= a < RAM_WINDOWS_BASE + (i + 1)
            * HEAP_WINDOW_SIZE
    }
}

/// Address-to-window inverse: an address inside window `i` is mapped
/// back to exactly `i`.
pub proof fn lemma_window_index_inverse(heap_start: int, a: int, i: int)
    requires
        RAM_WINDOWS_BASE <= heap_start < RAM_WINDOWS_BASE + HEAP_WINDOW_SIZE,
        0 <= i < 4,
        in_window(i, heap_start, a),
    ensures
        window_index_of(a) == i,
{
}

/// The round-robin successor of a heap counter value.
pub open spec fn next_counter(c: u8) -> u8 {
    if c >= 3 {
        0
    } else {
        (c + 1) as u8
    }
}

/// The update step of the round-robin counter.
fn counter_bump(v: u8) -> (o: Option<u8>)
    ensures
        o is Some,
        o->0 == next_counter(v),
{
    if v >= 3 {
        Some(0)
    } else {
        Some(v + 1)
    }
}

/// The once-flag guarding construction of the process-wide `HeapRoot`.
/// On the target it is a static atomic boolean; here it is explicit
/// state handed to the constructor.
pub struct InitOnce {
    taken: bool,
}

impl InitOnce {
    /// Whether a `HeapRoot` was already constructed under this flag.
    pub closed spec fn taken(self) -> bool {
        self.taken
    }

    pub fn new() -> (r: Self)
        ensures
            !r.taken(),
    {
        InitOnce { taken: false }
    }

    /// Atomically claims the flag; reports whether it was already set.
    pub fn test_and_set(&mut self) -> (r: bool)
        ensures
            r == old(self).taken(),
            final(self).taken(),
    {
        let was = self.taken;
        self.taken = true;
        was
    }
}

/// The process-wide allocator: four heaps over four fixed RAM windows,
/// each behind its own spin mutex, and a round-robin counter choosing
/// which heap an allocation tries first. The owning heap of a pointer
/// is recovered purely from its address.
#[derive(Debug)]
pub struct HeapRoot {
    heap0: Heap,
    heap1: Heap,
    heap2: Heap,
    heap3: Heap,
    lock0: RP2040Mutex,
    lock1: RP2040Mutex,
    lock2: RP2040Mutex,
    lock3: RP2040Mutex,
    cur_heap: Atomic<u8>,
}

/// What construction hands back: a well-formed root, all locks free,
/// the counter at zero, and every byte of every window free.
pub open spec fn fresh_root(root: HeapRoot, heap_start: int) -> bool {
    &&& root.wf()
    &&& root.unlocked()
    &&& root.counter() == 0
    &&& root.heap_start() == heap_start
    &&& (forall|i: int, a: int|
        0 <= i < 4 ==> (#[trigger] root.heap_at(i).is_free(a) <==> in_window(i, heap_start, a)))
}

impl HeapRoot {
    /// Heap `i`, for the four fixed windows in address order.
    pub closed spec fn heap_at(self, i: int) -> Heap {
        if i == 0 {
            self.heap0
        } else if i == 1 {
            self.heap1
        } else if i == 2 {
            self.heap2
        } else {
            self.heap3
        }
    }

    /// The spin mutex guarding heap `i`.
    pub closed spec fn lock_at(self, i: int) -> RP2040Mutex {
        if i == 0 {
            self.lock0
        } else if i == 1 {
            self.lock1
        } else if i == 2 {
            self.lock2
        } else {
            self.lock3
        }
    }

    /// The round-robin counter.
    pub closed spec fn counter(self) -> u8 {
        self.cur_heap.value()
    }

    /// Base of the first window (the linker-provided heap start).
    pub open spec fn heap_start(self) -> int {
        self.heap_at(0).start()
    }

    /// The fixed window layout: the first heap runs from the heap
    /// start to the first window boundary, the other three fill their
    /// windows exactly; all four are well-formed and the counter is a
    /// valid heap index.
    pub open spec fn wf(self) -> bool {
        &&& RAM_WINDOWS_BASE <= self.heap_at(0).start() < RAM_WINDOWS_BASE + HEAP_WINDOW_SIZE
        &&& self.heap_at(0).start() + self.heap_at(0).capacity() == RAM_WINDOWS_BASE
            + HEAP_WINDOW_SIZE
        &&& self.heap_at(1).start() == RAM_WINDOWS_BASE + HEAP_WINDOW_SIZE
        &&& self.heap_at(1).capacity() == HEAP_WINDOW_SIZE
        &&& self.heap_at(2).start() == RAM_WINDOWS_BASE + 2 * HEAP_WINDOW_SIZE
        &&& self.heap_at(2).capacity() == HEAP_WINDOW_SIZE
        &&& self.heap_at(3).start() == RAM_WINDOWS_BASE + 3 * HEAP_WINDOW_SIZE
        &&& self.heap_at(3).capacity() == HEAP_WINDOW_SIZE
        &&& self.heap_at(0).wf()
        &&& self.heap_at(1).wf()
        &&& self.heap_at(2).wf()
        &&& self.heap_at(3).wf()
        &&& self.counter() < 4
    }

    /// Whether no heap lock is currently held.
    pub open spec fn unlocked(self) -> bool {
        &&& !self.lock_at(0).held()
        &&& !self.lock_at(1).held()
        &&& !self.lock_at(2).held()
        &&& !self.lock_at(3).held()
    }

    /// Everything but lock `i` is as it was, and the heaps and counter
    /// are untouched.
    pub open spec fn only_lock_changed(pre: HeapRoot, post: HeapRoot, i: int) -> bool {
        &&& (forall|j: int| 0 <= j < 4 ==> post.heap_at(j) == pre.heap_at(j))
        &&& (forall|j: int|
            0 <= j < 4 && j != i ==> post.lock_at(j).held() == pre.lock_at(j).held())
        &&& post.counter() == pre.counter()
    }

    /// Builds the root without the once-guard. On the target a second
    /// root would hand out the same RAM twice, so this must be called
    /// at most once per process; `new` enforces that with a flag.
    pub fn new_unsafe(heap_start: usize) -> (r: Self)
        requires
            RAM_WINDOWS_BASE <= heap_start < RAM_WINDOWS_BASE + HEAP_WINDOW_SIZE,
        ensures
            fresh_root(r, heap_start as int),
    {
        let r = HeapRoot {
            heap0: Heap::new(heap_start, RAM_WINDOWS_BASE + HEAP_WINDOW_SIZE - heap_start),
            heap1: Heap::new(RAM_WINDOWS_BASE + HEAP_WINDOW_SIZE, HEAP_WINDOW_SIZE),
            heap2: Heap::new(RAM_WINDOWS_BASE + 2 * HEAP_WINDOW_SIZE, HEAP_WINDOW_SIZE),
            heap3: Heap::new(RAM_WINDOWS_BASE + 3 * HEAP_WINDOW_SIZE, HEAP_WINDOW_SIZE),
            lock0: RP2040Mutex::new(),
            lock1: RP2040Mutex::new(),
            lock2: RP2040Mutex::new(),
            lock3: RP2040Mutex::new(),
            cur_heap: Atomic::new(0),
        };
        proof {
            assert forall|i: int, a: int| 0 <= i < 4 implies (#[trigger] r.heap_at(i).is_free(a)
                <==> in_window(i, heap_start as int, a)) by {
                if i == 0 {
                    assert(r.heap_at(i) == r.heap0);
                } else if i == 1 {
                    assert(r.heap_at(i) == r.heap1);
                } else if i == 2 {
                    assert(r.heap_at(i) == r.heap2);
                } else {
                    assert(r.heap_at(i) == r.heap3);
                }
            }
        }
        r
    }

    /// Builds the process-wide root, at most once per flag: a second
    /// attempt under the same flag gets nothing back (the firmware
    /// shell turns that into a fatal error).
    pub fn new(once: &mut InitOnce, heap_start: usize) -> (r: Option<Self>)
        requires
            RAM_WINDOWS_BASE <= heap_start < RAM_WINDOWS_BASE + HEAP_WINDOW_SIZE,
        ensures
            final(once).taken(),
            old(once).taken() ==> r is None,
            !old(once).taken() ==> r is Some && fresh_root(r->0, heap_start as int),
    {
        if once.test_and_set() {
            None
        } else {
            Some(Self::new_unsafe(heap_start))
        }
    }

    /// Tries to take lock `i`.
    fn try_lock_at(&mut self, i: usize) -> (r: bool)
        requires
            i < 4,
        ensures
            r == !old(self).lock_at(i as int).held(),
            final(self).lock_at(i as int).held(),
            Self::only_lock_changed(*old(self), *final(self), i as int),
    {
        match i {
            0 => self.lock0.try_lock(),
            1 => self.lock1.try_lock(),
            2 => self.lock2.try_lock(),
            _ => self.lock3.try_lock(),
        }
    }

    /// Releases lock `i`, taken earlier through one of the `get_heap`
    /// forms.
    pub fn unlock_heap(&mut self, i: usize)
        requires
            i < 4,
            old(self).lock_at(i as int).held(),
        ensures
            !final(self).lock_at(i as int).held(),
            Self::only_lock_changed(*old(self), *final(self), i as int),
    {
        match i {
            0 => self.lock0.unlock(),
            1 => self.lock1.unlock(),
            2 => self.lock2.unlock(),
            _ => self.lock3.unlock(),
        }
    }

    /// One allocation attempt against heap `i` (whose lock the caller
    /// holds).
    fn heap_allocate_at(&mut self, i: usize, size: usize, align: usize) -> (r: Result<
        usize,
        AllocError,
    >)
        requires
            i < 4,
            old(self).heap_at(i as int).wf(),
            0 < size,
            0 < align,
        ensures
            r is Ok <==> old(self).heap_at(i as int).has_fit(size as int, align as int),
            r matches Ok(addr) ==> alloc_ok(
                old(self).heap_at(i as int),
                final(self).heap_at(i as int),
                addr as int,
                size as int,
                align as int,
            ),
            r is Err ==> final(self).heap_at(i as int) == old(self).heap_at(i as int),
            final(self).heap_at(i as int).wf(),
            final(self).heap_at(i as int).start() == old(self).heap_at(i as int).start(),
            final(self).heap_at(i as int).capacity() == old(self).heap_at(i as int).capacity(),
            forall|j: int| 0 <= j < 4 && j != i ==> final(self).heap_at(j) == old(self).heap_at(j),
            forall|j: int| 0 <= j < 4 ==> final(self).lock_at(j).held() == old(self).lock_at(j).held(),
            final(self).counter() == old(self).counter(),
    {
        match i {
            0 => self.heap0.allocate(size, align),
            1 => self.heap1.allocate(size, align),
            2 => self.heap2.allocate(size, align),
            _ => self.heap3.allocate(size, align),
        }
    }

    /// Releases a span back to heap `i` (whose lock the caller holds).
    fn heap_deallocate_at(&mut self, i: usize, addr: usize, size: usize, align: usize)
        requires
            i < 4,
            old(self).heap_at(i as int).wf(),
            0 < size,
            0 < align,
            addr % align == 0,
            old(self).heap_at(i as int).start() <= addr,
            addr + size <= old(self).heap_at(i as int).start() + old(self).heap_at(
                i as int,
            ).capacity(),
            forall|a: int| addr <= a < addr + size ==> !old(self).heap_at(i as int).is_free(a),
        ensures
            dealloc_post(
                old(self).heap_at(i as int),
                final(self).heap_at(i as int),
                addr as int,
                size as int,
            ),
            final(self).heap_at(i as int).wf(),
            final(self).heap_at(i as int).start() == old(self).heap_at(i as int).start(),
            final(self).heap_at(i as int).capacity() == old(self).heap_at(i as int).capacity(),
            forall|j: int| 0 <= j < 4 && j != i ==> final(self).heap_at(j) == old(self).heap_at(j),
            forall|j: int| 0 <= j < 4 ==> final(self).lock_at(j).held() == old(self).lock_at(j).held(),
            final(self).counter() == old(self).counter(),
    {
        match i {
            0 => self.heap0.deallocate(addr, size, align),
            1 => self.heap1.deallocate(addr, size, align),
            2 => self.heap2.deallocate(addr, size, align),
            _ => self.heap3.deallocate(addr, size, align),
        }
    }

    /// Advances the round-robin counter and tries to lock the chosen
    /// heap; on success the caller holds that heap's lock.
    pub fn try_get_heap(&mut self) -> (r: Option<usize>)
        requires
            old(self).wf(),
        ensures
            final(self).wf(),
            final(self).counter() == next_counter(old(self).counter()),
            forall|j: int| 0 <= j < 4 ==> final(self).heap_at(j) == old(self).heap_at(j),
            r matches Some(i) ==> i == old(self).counter() && !old(self).lock_at(
                i as int,
            ).held() && final(self).lock_at(i as int).held() && (forall|j: int|
                0 <= j < 4 && j != i ==> final(self).lock_at(j).held() == old(self).lock_at(j).held()),
            r is None ==> old(self).lock_at(old(self).counter() as int).held() && (forall|j: int|
                0 <= j < 4 ==> final(self).lock_at(j).held() == old(self).lock_at(j).held()),
    {
        let upd = self.cur_heap.fetch_update(counter_bump);
        let prev = match upd {
            Ok(v) => v,
            Err(v) => v,
        };
        proof {
            assert(upd is Ok);
        }
        let heap_id = (prev & 3) as usize;
        proof {
            assert(prev < 4 ==> (prev & 3) == prev) by (bit_vector);
        }
        if self.try_lock_at(heap_id) {
            Some(heap_id)
        } else {
            None
        }
    }

    /// Takes the next heap in round-robin order, blocking on the
    /// target until its lock is free; the verified form requires the
    /// chosen lock to be free so the first attempt succeeds.
    pub fn get_heap(&mut self) -> (r: usize)
        requires
            old(self).wf(),
            !old(self).lock_at(old(self).counter() as int).held(),
        ensures
            final(self).wf(),
            final(self).counter() == next_counter(old(self).counter()),
            forall|j: int| 0 <= j < 4 ==> final(self).heap_at(j) == old(self).heap_at(j),
            r == old(self).counter(),
            final(self).lock_at(r as int).held(),
            forall|j: int| 0 <= j < 4 && j != r ==> final(self).lock_at(j).held() == old(self).lock_at(j).held(),
    {
        let got = self.try_get_heap();
        proof {
            assert(got is Some);
        }
        got.unwrap()
    }

    /// The bounds-checked address-to-window map: `Some(i)` exactly for
    /// addresses inside the managed region, `None` for any foreign
    /// address.
    pub fn heap_index_for_address(&self, address: usize) -> (r: Option<usize>)
        requires
            self.wf(),
        ensures
            r is Some <==> (self.heap_start() <= address < RAM_WINDOWS_END),
            r matches Some(i) ==> i == window_index_of(address as int) && i < 4,
    {
        if address < self.heap0.start_addr || address >= RAM_WINDOWS_END {
            None
        } else if address < RAM_WINDOWS_BASE + HEAP_WINDOW_SIZE {
            Some(0)
        } else if address < RAM_WINDOWS_BASE + 2 * HEAP_WINDOW_SIZE {
            Some(1)
        } else if address < RAM_WINDOWS_BASE + 3 * HEAP_WINDOW_SIZE {
            Some(2)
        } else {
            Some(3)
        }
    }

    /// Locks the heap owning `address`, if its lock is free. Addresses
    /// outside the managed region are a fatal programming error on the
    /// target and are excluded here.
    pub fn try_get_heap_for_pointer(&mut self, address: usize) -> (r: Option<usize>)
        requires
            old(self).wf(),
            old(self).heap_start() <= address < RAM_WINDOWS_END,
        ensures
            final(self).wf(),
            final(self).counter() == old(self).counter(),
            forall|j: int| 0 <= j < 4 ==> final(self).heap_at(j) == old(self).heap_at(j),
            r matches Some(i) ==> i == window_index_of(address as int) && !old(self).lock_at(
                i as int,
            ).held() && final(self).lock_at(i as int).held() && (forall|j: int|
                0 <= j < 4 && j != i ==> final(self).lock_at(j).held() == old(self).lock_at(j).held()),
            r is None ==> old(self).lock_at(window_index_of(address as int)).held() && (forall|
                j: int,
            |
                0 <= j < 4 ==> final(self).lock_at(j).held() == old(self).lock_at(j).held()),
    {
        let idx = self.heap_index_for_address(address);
        let i = idx.unwrap();
        if self.try_lock_at(i) {
            Some(i)
        } else {
            None
        }
    }

    /// Locks the heap owning `address`, blocking on the target; the
    /// verified form requires that heap's lock to be free.
    pub fn get_heap_for_pointer(&mut self, address: usize) -> (r: usize)
        requires
            old(self).wf(),
            old(self).heap_start() <= address < RAM_WINDOWS_END,
            !old(self).lock_at(window_index_of(address as int)).held(),
        ensures
            final(self).wf(),
            final(self).counter() == old(self).counter(),
            forall|j: int| 0 <= j < 4 ==> final(self).heap_at(j) == old(self).heap_at(j),
            r == window_index_of(address as int),
            final(self).lock_at(r as int).held(),
            forall|j: int| 0 <= j < 4 && j != r ==> final(self).lock_at(j).held() == old(self).lock_at(j).held(),
    {
        let got = self.try_get_heap_for_pointer(address);
        proof {
            assert(got is Some);
        }
        got.unwrap()
    }

    /// Allocates `size` bytes at alignment `align`: tries the four
    /// heaps in round-robin order, locking each candidate in turn, and
    /// fails only after all four heaps have refused — so failure means
    /// no heap had a fitting block, and the counter has gone full
    /// circle.
    #[verifier::rlimit(100)]
    pub fn allocate(&mut self, size: usize, align: usize) -> (r: Result<usize, AllocError>)
        requires
            old(self).wf(),
            old(self).unlocked(),
            0 < size,
            0 < align,
        ensures
            final(self).wf(),
            final(self).unlocked(),
            final(self).heap_start() == old(self).heap_start(),
            r is Ok <==> (exists|i: int|
                0 <= i < 4 && (#[trigger] old(self).heap_at(i)).has_fit(
                    size as int,
                    align as int,
                )),
            r matches Ok(addr) ==> (exists|i: int|
                0 <= i < 4 && #[trigger] alloc_ok(
                    old(self).heap_at(i),
                    final(self).heap_at(i),
                    addr as int,
                    size as int,
                    align as int,
                ) && (forall|j: int|
                    0 <= j < 4 && j != i ==> final(self).heap_at(j) == old(self).heap_at(j))),
            r is Err ==> (forall|j: int|
                0 <= j < 4 ==> final(self).heap_at(j) == old(self).heap_at(j)) && final(self).counter() == old(self).counter(),
    {
        let ghost c0 = self.counter() as int;
        let r0 = self.alloc_round(size, align);
        if let Ok(addr) = r0 {
            return Ok(addr);
        }
        let ghost c1 = self.counter() as int;
        let r1 = self.alloc_round(size, align);
        if let Ok(addr) = r1 {
            return Ok(addr);
        }
        let ghost c2 = self.counter() as int;
        let r2 = self.alloc_round(size, align);
        if let Ok(addr) = r2 {
            return Ok(addr);
        }
        let ghost c3 = self.counter() as int;
        let r3 = self.alloc_round(size, align);
        if let Ok(addr) = r3 {
            return Ok(addr);
        }
        proof {
            assert(c0 != c1 && c0 != c2 && c0 != c3 && c1 != c2 && c1 != c3 && c2 != c3);
        }
        Err(AllocError)
    }

    /// One round of the allocation search: locks the next heap in
    /// round-robin order, tries it once, and unlocks it.
    fn alloc_round(&mut self, size: usize, align: usize) -> (r: Result<usize, AllocError>)
        requires
            old(self).wf(),
            old(self).unlocked(),
            0 < size,
            0 < align,
        ensures
            final(self).wf(),
            final(self).unlocked(),
            final(self).counter() == next_counter(old(self).counter()),
            r is Ok <==> old(self).heap_at(old(self).counter() as int).has_fit(
                size as int,
                align as int,
            ),
            r matches Ok(addr) ==> alloc_ok(
                old(self).heap_at(old(self).counter() as int),
                final(self).heap_at(old(self).counter() as int),
                addr as int,
                size as int,
                align as int,
            ),
            forall|j: int|
                0 <= j < 4 && j != old(self).counter() as int ==> final(self).heap_at(j) == old(
                    self,
                ).heap_at(j),
            r is Err ==> final(self).heap_at(old(self).counter() as int) == old(self).heap_at(
                old(self).counter() as int,
            ),
            final(self).heap_at(old(self).counter() as int).start() == old(self).heap_at(
                old(self).counter() as int,
            ).start(),
            final(self).heap_at(old(self).counter() as int).capacity() == old(self).heap_at(
                old(self).counter() as int,
            ).capacity(),
    {
        let i = self.get_heap();
        let r = self.heap_allocate_at(i, size, align);
        self.unlock_heap(i);
        r
    }

    /// Releases a span allocated earlier: recovers the owning heap
    /// from the address alone, locks it and returns the span to its
    /// free list. The span must match a live allocation and stay
    /// inside its window.
    pub fn deallocate(&mut self, address: usize, size: usize, align: usize)
        requires
            old(self).wf(),
            old(self).unlocked(),
            0 < size,
            0 < align,
            address % align == 0,
            old(self).heap_start() <= address,
            address + size <= RAM_WINDOWS_BASE + (window_index_of(address as int) + 1)
                * HEAP_WINDOW_SIZE,
            forall|a: int|
                address <= a < address + size ==> !old(self).heap_at(
                    window_index_of(address as int),
                ).is_free(a),
        ensures
            final(self).wf(),
            final(self).unlocked(),
            final(self).heap_start() == old(self).heap_start(),
            final(self).counter() == old(self).counter(),
            dealloc_post(
                old(self).heap_at(window_index_of(address as int)),
                final(self).heap_at(window_index_of(address as int)),
                address as int,
                size as int,
            ),
            forall|j: int|
                0 <= j < 4 && j != window_index_of(address as int) ==> final(self).heap_at(j)
                    == old(self).heap_at(j),
    {
        let i = self.get_heap_for_pointer(address);
        self.heap_deallocate_at(i, address, size, align);
        self.unlock_heap(i);
    }
}

} // verus!
