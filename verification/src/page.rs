//! Pages and blocks: the memory fabric of the allocator.
//!
//! A page is a fixed-capacity array of blocks plus one machine-word bitfield.
//! Bits 0..=62 describe the blocks (1 = free, 0 = in use); bit 63 is the
//! arena-retention bit, inverted (1 = the arena still references the page,
//! 0 = the arena has released it).  The inversion lets a trailing-zeros scan
//! find a free block without masking the top bit.  A page is deallocated by
//! whichever release observes the bitfield reach the state where every block
//! bit is one and the retention bit is zero.

use vstd::prelude::*;
use vstd::pervasive::unreached;
use vstd::std_specs::bits::u64_trailing_zeros;
use vstd::std_specs::bits::axiom_u64_trailing_zeros;

use crate::heap::Heap;
use crate::heap::MAX_PAGES;
use crate::heap::lemma_wf_push_pending;
use crate::tagged_ptr::PageKind;
use crate::tagged_ptr::decode_index;
use crate::tagged_ptr::decode_kind;
use crate::tagged_ptr::decode_page_ptr;
use crate::tagged_ptr::PageTaggedPtr;
use crate::tagged_ptr::tag_encode;

verus! {

broadcast use vstd::std_specs::vec::group_vec_axioms;

/// Width of the bitfield in bits: one machine word.
pub const BITFIELD_WIDTH: u64 = 64;

/// Blocks in a page: every bitfield bit but the arena-retention bit.
pub const BLOCK_PER_PAGE: usize = 63;

/// The arena-retention bit: the top bit of the bitfield.
pub const MASK_ARENA_BIT: u64 = 0x8000_0000_0000_0000;

/// Bitfield value meaning: every block free and the arena bit cleared.
/// Observing this value after a release is the order to deallocate.
pub const MASK_ALL_FREE_RELEASED: u64 = 0x7fff_ffff_ffff_ffff;

/// Position of a block within its page.
#[derive(Clone, Copy, Debug, PartialEq, Eq, Structural)]
pub struct IndexInPage(pub usize);

/// Bit `i` of `bf` is set.  For `i` below [`BLOCK_PER_PAGE`] this means
/// block `i` is free; for `i == 63` it means the arena retains the page.
pub open spec fn nth_bit(bf: u64, i: int) -> bool {
    bf & (1u64 << (i as u64)) != 0
}

/// A cell holding one value, its reference counter, and a tagged pointer
/// back to the owning page.  The tagged pointer is set once at page
/// construction and never modified.
pub struct Block<T> {
    /// The stored value; present exactly while the block is allocated.
    pub value: Option<T>,
    /// Number of live shared handles referring to this block.
    pub counter: u64,
    /// Owning page address, index of this block in it, and the page kind.
    pub page: PageTaggedPtr,
}

/// A fixed-capacity container of blocks, the free-block bitfield, and the
/// linkage fields used by the arena's page lists.
pub struct Page<T> {
    /// Free/used state of every block, plus the arena-retention bit.
    pub bitfield: u64,
    /// The blocks; always exactly [`BLOCK_PER_PAGE`] of them.
    pub blocks: Vec<Block<T>>,
    /// Link on the pending-free stack (address of the next page, 0 = none).
    pub next_free: u64,
    /// Link on the arena's all-pages list (address of the next page, 0 = none).
    pub next: u64,
    /// True while this page is linked into the pending-free stack.
    pub in_free_list: bool,
}

impl<T> Page<T> {
    /// Structural invariant of a page living at address `addr`: the block
    /// array is full-sized, every block's tagged pointer names this page and
    /// the block's own index, a free block holds neither a value nor a
    /// handle, and a referenced block is in use and holds a value.
    pub open spec fn wf(self, addr: u64) -> bool {
        &&& self.blocks@.len() == BLOCK_PER_PAGE
        &&& forall|i: int|
            0 <= i < BLOCK_PER_PAGE ==> (#[trigger] self.blocks@[i]).page.data == tag_encode(
                addr,
                i as u64,
                0,
            )
        &&& forall|i: int|
            0 <= i < BLOCK_PER_PAGE && nth_bit(self.bitfield, i) ==> (
            #[trigger] self.blocks@[i]).counter == 0 && self.blocks@[i].value is None
        &&& forall|i: int|
            0 <= i < BLOCK_PER_PAGE && (#[trigger] self.blocks@[i]).counter > 0 ==> !nth_bit(
                self.bitfield,
                i,
            ) && self.blocks@[i].value is Some
    }

    /// Coherence of counter and bitfield at a quiescent observation point:
    /// a block's bit is one exactly when no handle refers to the block.
    pub open spec fn quiescent(self) -> bool {
        forall|i: int|
            0 <= i < BLOCK_PER_PAGE ==> (nth_bit(self.bitfield, i) <==> (
            #[trigger] self.blocks@[i]).counter == 0)
    }

    /// No block of this page is free.
    pub open spec fn full(self) -> bool {
        forall|i: int| 0 <= i < BLOCK_PER_PAGE ==> !nth_bit(self.bitfield, i)
    }

    /// Some block of this page is referenced by a live handle.
    pub open spec fn some_block_live(self) -> bool {
        exists|i: int| 0 <= i < BLOCK_PER_PAGE && (#[trigger] self.blocks@[i]).counter > 0
    }
}

/// Every bit of the all-ones word is set.
pub proof fn lemma_all_ones_bit(i: u64)
    requires
        i < 64,
    ensures
        nth_bit(!0u64, i as int),
{
    assert(!0u64 & (1u64 << i) != 0) by (bit_vector)
        requires
            i < 64,
    ;
}

/// Clearing bit `i` clears exactly bit `i`.
pub proof fn lemma_clear_bit(x: u64, i: u64, j: u64)
    requires
        i < 64,
        j < 64,
    ensures
        !nth_bit(x & !(1u64 << i), i as int),
        j != i ==> nth_bit(x & !(1u64 << i), j as int) == nth_bit(x, j as int),
{
    assert((x & !(1u64 << i)) & (1u64 << i) == 0) by (bit_vector)
        requires
            i < 64,
    ;
    assert(j != i ==> ((x & !(1u64 << i)) & (1u64 << j) != 0) == (x & (1u64 << j) != 0))
        by (bit_vector)
        requires
            i < 64 && j < 64,
    ;
}

/// Setting a clear bit by addition is the same as setting it by or, does
/// not overflow, and changes exactly that bit.
pub proof fn lemma_set_bit(x: u64, i: u64, j: u64)
    requires
        i < 64,
        j < 64,
        x & (1u64 << i) == 0,
    ensures
        x + (1u64 << i) == x | (1u64 << i),
        nth_bit(x | (1u64 << i), i as int),
        j != i ==> nth_bit(x | (1u64 << i), j as int) == nth_bit(x, j as int),
{
    assert(x + (1u64 << i) == (x | (1u64 << i))) by (bit_vector)
        requires
            i < 64 && x & (1u64 << i) == 0,
    ;
    assert((x | (1u64 << i)) & (1u64 << i) != 0) by (bit_vector)
        requires
            i < 64,
    ;
    assert(j != i ==> ((x | (1u64 << i)) & (1u64 << j) != 0) == (x & (1u64 << j) != 0))
        by (bit_vector)
        requires
            i < 64 && j < 64,
    ;
}

/// Clearing the arena-retention bit by subtraction: it cannot underflow,
/// it leaves every block bit alone, and it clears the top bit.
pub proof fn lemma_release_arena_bit(x: u64, j: u64)
    requires
        j < 63,
        x & 0x8000_0000_0000_0000u64 != 0,
    ensures
        x >= 0x8000_0000_0000_0000u64,
        nth_bit((x - 0x8000_0000_0000_0000u64) as u64, j as int) == nth_bit(x, j as int),
        !nth_bit((x - 0x8000_0000_0000_0000u64) as u64, 63),
{
    assert(x & 0x8000_0000_0000_0000u64 != 0 ==> x >= 0x8000_0000_0000_0000u64) by (bit_vector);
    assert(x >= 0x8000_0000_0000_0000u64 ==> ((x - 0x8000_0000_0000_0000u64) as u64) == (x
        & 0x7fff_ffff_ffff_ffffu64)) by (bit_vector);
    assert(((x & 0x7fff_ffff_ffff_ffffu64) & (1u64 << j) != 0) == (x & (1u64 << j) != 0))
        by (bit_vector)
        requires
            j < 63,
    ;
    assert((x & 0x7fff_ffff_ffff_ffffu64) & (1u64 << 63u64) == 0) by (bit_vector);
}

/// A word with a clear block bit is neither the all-free-released word nor
/// the all-ones word: a page with an in-use block is never deallocated.
pub proof fn lemma_used_block_not_final(x: u64, j: u64)
    requires
        j < 63,
        x & (1u64 << j) == 0,
    ensures
        x != 0x7fff_ffff_ffff_ffffu64,
        x != 0xffff_ffff_ffff_ffffu64,
{
    assert(x != 0x7fff_ffff_ffff_ffffu64 && x != 0xffff_ffff_ffff_ffffu64) by (bit_vector)
        requires
            j < 63 && x & (1u64 << j) == 0,
    ;
}

/// The trailing-zeros count of a non-zero word names its lowest set bit.
pub proof fn lemma_trailing_zeros(x: u64)
    requires
        x != 0,
    ensures
        u64_trailing_zeros(x) < 64,
        nth_bit(x, u64_trailing_zeros(x) as int),
        forall|j: int| 0 <= j < u64_trailing_zeros(x) ==> !nth_bit(x, j),
{
    axiom_u64_trailing_zeros(x);
    let tz = u64_trailing_zeros(x) as u64;
    assert(((x >> tz) & 1 == 1) ==> (x & (1u64 << tz) != 0)) by (bit_vector)
        requires
            tz < 64,
    ;
    assert forall|j: int| 0 <= j < u64_trailing_zeros(x) implies !nth_bit(x, j) by {
        let ju = j as u64;
        assert((x >> ju) & 1u64 == 0u64);
        assert(((x >> ju) & 1 == 0) ==> (x & (1u64 << ju) == 0)) by (bit_vector)
            requires
                ju < 64,
        ;
    }
}

impl<T> Page<T> {
    /// Search for a free block and mark it as in use.
    ///
    /// Scans for the lowest set bit; because the arena-retention bit is
    /// inverted, the scan can only name a block position or the retention
    /// bit itself, which means no block is free.  The bit is then cleared
    /// and the pre-image examined, as the concurrent protocol demands.
    ///
    /// Returns the index of the acquired block, or nothing when the page is
    /// full.  On success the acquired block was the lowest free one, its
    /// bit alone is cleared, and the blocks themselves are untouched.
    ///
    /// A page whose bitfield is all zeros is past its final release and must
    /// not be scanned, so the contract excludes it.
    pub fn acquire_free_block(&mut self) -> (r: Option<usize>)
        requires
            old(self).bitfield != 0,
        ensures
            final(self).blocks == old(self).blocks,
            final(self).next == old(self).next,
            final(self).next_free == old(self).next_free,
            final(self).in_free_list == old(self).in_free_list,
            r is None ==> final(self).bitfield == old(self).bitfield && old(self).full(),
            r is Some ==> ({
                let i = r->0 as int;
                &&& 0 <= i < BLOCK_PER_PAGE
                &&& nth_bit(old(self).bitfield, i)
                &&& forall|j: int| 0 <= j < i ==> !nth_bit(old(self).bitfield, j)
                &&& final(self).bitfield == (old(self).bitfield & !(1u64 << (r->0 as u64)))
                &&& !nth_bit(final(self).bitfield, i)
                &&& forall|j: int|
                    0 <= j < 64 && j != i ==> nth_bit(final(self).bitfield, j) == nth_bit(
                        old(self).bitfield,
                        j,
                    )
            }),
    {
        let bitfield = self.bitfield;
        proof {
            lemma_trailing_zeros(bitfield);
        }
        let index_free = bitfield.trailing_zeros() as usize;

        if index_free == BLOCK_PER_PAGE {
            proof {
                assert forall|j: int| 0 <= j < BLOCK_PER_PAGE implies !nth_bit(
                    old(self).bitfield,
                    j,
                ) by {}
            }
            return None;
        }
        let bit: u64 = 1u64 << (index_free as u64);

        let previous_bitfield = self.bitfield;
        self.bitfield = self.bitfield & !bit;

        // The bit was still set in the pre-image: in the sequential model
        // nobody can have raced us to it.
        if previous_bitfield & bit != 0 {
            proof {
                assert forall|j: u64| j < 64 implies {
                    &&& !nth_bit(final(self).bitfield, index_free as int)
                    &&& (j != index_free ==> nth_bit(final(self).bitfield, j as int) == nth_bit(
                        old(self).bitfield,
                        j as int,
                    ))
                } by {
                    lemma_clear_bit(previous_bitfield, index_free as u64, j);
                }
            }
            return Some(index_free);
        }
        unreached()
    }

    /// Allocate one fresh page in the store and initialize it: every block
    /// free, the arena-retention bit set (so the bitfield is all ones), the
    /// two list links pointing at `next`, the pending-free flag set, and
    /// every block's tagged pointer naming this page and the block's index.
    /// No value destructor can run here: no values exist yet.
    ///
    /// Returns the address of the new page.
    pub fn new(heap: &mut Heap<T>, next: u64) -> (addr: u64)
        requires
            old(heap).wf(),
            old(heap).pages@.len() < MAX_PAGES,
        ensures
            final(heap).wf(),
            addr == old(heap).pages@.len() + 1,
            final(heap).pages@.len() == old(heap).pages@.len() + 1,
            final(heap).page_allocated(addr),
            forall|a: u64|
                a != addr ==> final(heap).page_allocated(a) == old(heap).page_allocated(a),
            forall|a: u64|
                a != addr && old(heap).page_allocated(a) ==> final(heap).page_at(a) == old(heap).page_at(a),
            final(heap).pending@ == old(heap).pending@,
            final(heap).pending_alive == old(heap).pending_alive,
            ({
                let p = final(heap).page_at(addr);
                &&& p.bitfield == !0u64
                &&& p.next_free == next
                &&& p.next == next
                &&& p.in_free_list
                &&& p.quiescent()
                &&& forall|i: int|
                    0 <= i < BLOCK_PER_PAGE ==> (#[trigger] p.blocks@[i]).counter == 0
                        && p.blocks@[i].value is None
            }),
    {
        let n = heap.pages.len();
        let addr: u64 = n as u64 + 1;
        let mut blocks: Vec<Block<T>> = Vec::new();
        let mut i: usize = 0;
        while i < BLOCK_PER_PAGE
            invariant
                i <= BLOCK_PER_PAGE,
                blocks@.len() == i,
                forall|j: int|
                    0 <= j < i ==> (#[trigger] blocks@[j]).counter == 0 && blocks@[j].value
                        is None && blocks@[j].page.data == tag_encode(addr, j as u64, 0),
            decreases BLOCK_PER_PAGE - i,
        {
            let tp = PageTaggedPtr::new(addr, i as u64, PageKind::PageSharedArena);
            blocks.push(Block { value: None, counter: 0, page: tp });
            i += 1;
        }
        let page = Page { bitfield: !0u64, blocks, next_free: next, next, in_free_list: true };
        heap.pages.push(Some(page));
        proof {
            assert forall|k: int| 0 <= k < BLOCK_PER_PAGE implies nth_bit(!0u64, k) by {
                lemma_all_ones_bit(k as u64);
            }
            assert(heap.page_allocated(addr));
            assert(heap.page_at(addr).wf(addr));
            assert forall|a: u64| #[trigger] heap.page_allocated(a) implies heap.page_at(a).wf(
                a,
            ) by {
                if a != addr {
                    assert(old(heap).page_allocated(a));
                }
            }
            assert forall|j: int|
                0 <= j < heap.pending@.len() && heap.page_allocated(
                    #[trigger] heap.pending@[j],
                ) implies heap.page_at(heap.pending@[j]).in_free_list by {
                assert(old(heap).page_allocated(heap.pending@[j]));
            }
        }
        addr
    }

    /// Make a new list of pages: allocate `npages` fresh pages, link them
    /// through `next` and `next_free` (the first-created page ends the
    /// chain), and put each on the pending-free stack, where the arena
    /// splices freshly made pages.
    ///
    /// Returns the first and the last page of the list: the most recently
    /// created page is the head, the first-created one the tail.
    pub fn make_list(heap: &mut Heap<T>, npages: usize) -> (r: (u64, u64))
        requires
            old(heap).wf(),
            1 <= npages,
            old(heap).pages@.len() + npages <= MAX_PAGES,
        ensures
            final(heap).wf(),
            final(heap).pending_alive == old(heap).pending_alive,
            final(heap).pages@.len() == old(heap).pages@.len() + npages,
            r.0 == old(heap).pages@.len() + npages,
            r.1 == old(heap).pages@.len() + 1,
            forall|a: u64|
                a <= old(heap).pages@.len() ==> final(heap).page_allocated(a) == old(heap).page_allocated(a),
            forall|a: u64|
                a <= old(heap).pages@.len() && old(heap).page_allocated(a) ==> final(heap).page_at(a) == old(heap).page_at(a),
            forall|a: u64|
                old(heap).pages@.len() < a <= old(heap).pages@.len() + npages
                    ==> #[trigger] final(heap).page_allocated(a),
            forall|a: u64| #![trigger final(heap).page_at(a)]
                old(heap).pages@.len() < a <= old(heap).pages@.len() + npages ==> ({
                    let p = final(heap).page_at(a);
                    &&& p.bitfield == !0u64
                    &&& p.in_free_list
                    &&& p.quiescent()
                    &&& p.next == (if a == old(heap).pages@.len() + 1 {
                        0u64
                    } else {
                        (a - 1) as u64
                    })
                    &&& p.next_free == p.next
                    &&& forall|i: int|
                        0 <= i < BLOCK_PER_PAGE ==> (#[trigger] p.blocks@[i]).counter == 0
                            && p.blocks@[i].value is None
                }),
            final(heap).pending@.len() == old(heap).pending@.len() + npages,
            forall|j: int|
                0 <= j < old(heap).pending@.len() ==> final(heap).pending@[j] == old(heap).pending@[j],
            forall|j: int|
                old(heap).pending@.len() <= j < old(heap).pending@.len() + npages
                    ==> #[trigger] final(heap).pending@[j] == old(heap).pages@.len() + 1 + (j
                    - old(heap).pending@.len()),
    {
        let last = Page::<T>::new(heap, 0);
        let ghost h_mid = *heap;
        heap.pending.push(last);
        proof {
            assert forall|j: int| 0 <= j < h_mid.pending@.len() implies h_mid.pending@[j]
                != last by {
                assert(h_mid.pending@[j] == old(heap).pending@[j]);
                assert(1 <= old(heap).pending@[j] <= old(heap).pages@.len());
            }
            lemma_wf_push_pending(h_mid, *heap, last);
        }
        let mut previous = last;
        let mut k: usize = 1;
        while k < npages
            invariant
                1 <= k <= npages,
                heap.wf(),
                heap.pages@.len() == old(heap).pages@.len() + k,
                heap.pages@.len() + (npages - k) <= MAX_PAGES,
                heap.pending_alive == old(heap).pending_alive,
                previous == old(heap).pages@.len() + k,
                last == old(heap).pages@.len() + 1,
                forall|a: u64|
                    a <= old(heap).pages@.len() ==> heap.page_allocated(a) == old(heap).page_allocated(a),
                forall|a: u64|
                    a <= old(heap).pages@.len() && old(heap).page_allocated(a) ==> heap.page_at(
                        a,
                    ) == old(heap).page_at(a),
                forall|a: u64|
                    old(heap).pages@.len() < a <= old(heap).pages@.len() + k
                        ==> #[trigger] heap.page_allocated(a),
                forall|a: u64| #![trigger heap.page_at(a)]
                    old(heap).pages@.len() < a <= old(heap).pages@.len() + k ==> ({
                        let p = heap.page_at(a);
                        &&& p.bitfield == !0u64
                        &&& p.in_free_list
                        &&& p.quiescent()
                        &&& p.next == (if a == old(heap).pages@.len() + 1 {
                            0u64
                        } else {
                            (a - 1) as u64
                        })
                        &&& p.next_free == p.next
                        &&& forall|i: int|
                            0 <= i < BLOCK_PER_PAGE ==> (#[trigger] p.blocks@[i]).counter == 0
                                && p.blocks@[i].value is None
                    }),
                heap.pending@.len() == old(heap).pending@.len() + k,
                forall|j: int|
                    0 <= j < old(heap).pending@.len() ==> heap.pending@[j] == old(heap).pending@[j],
                forall|j: int|
                    old(heap).pending@.len() <= j < old(heap).pending@.len() + k
                        ==> #[trigger] heap.pending@[j] == old(heap).pages@.len() + 1 + (j
                        - old(heap).pending@.len()),
            decreases npages - k,
        {
            let ghost h_pre = *heap;
            let page_addr = Page::<T>::new(heap, previous);
            let ghost h_mid = *heap;
            heap.pending.push(page_addr);
            proof {
                assert forall|j: int| 0 <= j < h_mid.pending@.len() implies h_mid.pending@[j]
                    != page_addr by {
                    assert(h_mid.pending@[j] == h_pre.pending@[j]);
                    assert(1 <= h_pre.pending@[j] <= h_pre.pages@.len());
                }
                lemma_wf_push_pending(h_mid, *heap, page_addr);
                assert forall|a: u64|
                    old(heap).pages@.len() < a <= old(heap).pages@.len() + k + 1 implies
                    #[trigger] heap.page_allocated(a) by {
                    if a == page_addr {
                        assert(h_mid.page_allocated(a));
                    } else {
                        assert(h_pre.page_allocated(a));
                        assert(h_mid.page_allocated(a));
                    }
                }
                assert forall|a: u64| #![trigger heap.page_at(a)]
                    old(heap).pages@.len() < a <= old(heap).pages@.len() + k + 1 implies ({
                        let p = heap.page_at(a);
                        &&& p.bitfield == !0u64
                        &&& p.in_free_list
                        &&& p.quiescent()
                        &&& p.next == (if a == old(heap).pages@.len() + 1 {
                            0u64
                        } else {
                            (a - 1) as u64
                        })
                        &&& p.next_free == p.next
                        &&& forall|i: int|
                            0 <= i < BLOCK_PER_PAGE ==> (#[trigger] p.blocks@[i]).counter == 0
                                && p.blocks@[i].value is None
                    }) by {
                    if a == page_addr {
                        assert(heap.page_at(a) == h_mid.page_at(a));
                    } else {
                        assert(h_pre.page_allocated(a));
                        assert(heap.page_at(a) == h_pre.page_at(a));
                    }
                }
            }
            previous = page_addr;
            k += 1;
        }
        (previous, last)
    }

    /// Release one block back to its page, invoked when the last handle to
    /// it disappears.  Drops the stored value, re-announces the page on the
    /// arena's pending-free stack if it is not already there (the inserter
    /// is whoever flips `in_free_list` false to true; if the arena is gone
    /// the insert is skipped), then sets the block's bit by addition — only
    /// the single releaser can be flipping it.  If the post-image says
    /// every block is free and the arena has released its stake, this
    /// release was the last one and the page is deallocated.
    pub fn drop_block(heap: &mut Heap<T>, addr: u64, index: usize)
        requires
            old(heap).wf(),
            old(heap).page_allocated(addr),
            index < BLOCK_PER_PAGE,
            old(heap).page_at(addr).blocks@[index as int].counter == 0,
            old(heap).page_at(addr).blocks@[index as int].value is Some,
            !nth_bit(old(heap).page_at(addr).bitfield, index as int),
        ensures
            final(heap).wf(),
            final(heap).pending_alive == old(heap).pending_alive,
            final(heap).pages@.len() == old(heap).pages@.len(),
            forall|a: u64|
                a != addr ==> final(heap).page_allocated(a) == old(heap).page_allocated(a),
            forall|a: u64|
                a != addr && old(heap).page_allocated(a) ==> final(heap).page_at(a) == old(heap).page_at(a),
            ({
                let p0 = old(heap).page_at(addr);
                let new_bf = p0.bitfield | (1u64 << (index as u64));
                let pushed = !p0.in_free_list && old(heap).pending_alive;
                &&& (pushed ==> final(heap).pending@ == old(heap).pending@.push(addr))
                &&& (!pushed ==> final(heap).pending@ == old(heap).pending@)
                &&& (new_bf == MASK_ALL_FREE_RELEASED ==> !final(heap).page_allocated(addr))
                &&& (new_bf != MASK_ALL_FREE_RELEASED ==> final(heap).page_allocated(addr) && ({
                    let p1 = final(heap).page_at(addr);
                    &&& p1.bitfield == new_bf
                    &&& p1.blocks@ == p0.blocks@.update(
                        index as int,
                        (Block {
                            value: None,
                            counter: 0,
                            page: p0.blocks@[index as int].page,
                        }),
                    )
                    &&& p1.in_free_list
                    &&& p1.next == p0.next
                    &&& p1.next_free == (if pushed {
                        old(heap).pending_head()
                    } else {
                        p0.next_free
                    })
                }))
                &&& ((exists|j: int|
                    0 <= j < BLOCK_PER_PAGE && j != index && (#[trigger] p0.blocks@[j]).counter
                        > 0) ==> final(heap).page_allocated(addr))
            }),
    {
        let ghost p0 = old(heap).page_at(addr);
        let mut page = heap.take_page(addr);
        let tp = page.blocks[index].page;
        // Drop the in-place value: the block returns to its vacant state.
        page.blocks.set(index, Block { value: None, counter: 0, page: tp });

        // Put the page in the pending-free stack of the arena, if necessary.
        // Only the actor that flips the flag performs the insert, and an
        // arena that is already gone will never consult the stack again.
        if !page.in_free_list {
            page.in_free_list = true;
            if heap.pending_alive {
                let head = heap.pending_head_ptr();
                page.next_free = head;
                heap.pending.push(addr);
            }
        }

        // Set the block's bit to mark it free.  Addition is safe: only the
        // single releaser of this block can be setting this bit.
        let bit: u64 = 1u64 << (index as u64);
        let old_bitfield = page.bitfield;
        proof {
            lemma_set_bit(old_bitfield, index as u64, 0);
        }
        page.bitfield = page.bitfield + bit;
        let new_bitfield = old_bitfield | bit;
        proof {
            assert(page.bitfield == new_bitfield);
            assert((!new_bitfield == 0x8000_0000_0000_0000u64) == (new_bitfield
                == 0x7fff_ffff_ffff_ffffu64)) by (bit_vector);
            if exists|j: int|
                0 <= j < BLOCK_PER_PAGE && j != index && (#[trigger] p0.blocks@[j]).counter > 0 {
                let j = choose|j: int|
                    0 <= j < BLOCK_PER_PAGE && j != index && (#[trigger] p0.blocks@[j]).counter
                        > 0;
                lemma_set_bit(old_bitfield, index as u64, j as u64);
                lemma_used_block_not_final(new_bitfield, j as u64);
            }
            assert forall|j: u64| j < 64 implies {
                &&& nth_bit(new_bitfield, index as int)
                &&& (j != index ==> nth_bit(new_bitfield, j as int) == nth_bit(p0.bitfield, j as int))
            } by {
                lemma_set_bit(old_bitfield, index as u64, j);
            }
        }

        // The arena-retention bit is inverted: this post-image means every
        // stake in the page is gone, so deallocate it.
        if !new_bitfield == MASK_ARENA_BIT {
            heap.put_page(addr, page);
            deallocate_page(heap, addr);
            proof {
                assert(heap.pages@ =~= old(heap).pages@.update(addr - 1, None::<Page<T>>));
                assert forall|a: u64| #[trigger] heap.page_allocated(a) implies heap.page_at(a).wf(a) by {
                    assert(old(heap).page_allocated(a));
                }
                assert forall|j: int|
                    0 <= j < heap.pending@.len() && heap.page_allocated(
                        #[trigger] heap.pending@[j],
                    ) implies heap.page_at(heap.pending@[j]).in_free_list by {
                    assert(old(heap).page_allocated(heap.pending@[j]));
                }
                if !p0.in_free_list && old(heap).pending_alive {
                    crate::heap::lemma_not_listed(*old(heap), addr);
                    assert forall|j: int, k: int|
                        0 <= j < k < heap.pending@.len() implies heap.pending@[j] != heap.pending@[k] by {
                        if k < old(heap).pending@.len() {
                        } else {
                            assert(heap.pending@[k] == addr);
                        }
                    }
                }
            }
        } else {
            heap.put_page(addr, page);
            proof {
                assert forall|a: u64| #[trigger] heap.page_allocated(a) implies heap.page_at(a).wf(a) by {
                    if a != addr {
                        assert(old(heap).page_allocated(a));
                    } else {
                        let p1 = heap.page_at(addr);
                        assert(p0.wf(addr));
                        assert forall|i: int|
                            0 <= i < BLOCK_PER_PAGE && nth_bit(p1.bitfield, i) implies (
                            #[trigger] p1.blocks@[i]).counter == 0 && p1.blocks@[i].value
                            is None by {
                            if i != index {
                                assert(p1.blocks@[i] == p0.blocks@[i]);
                                assert(nth_bit(p0.bitfield, i));
                            }
                        }
                        assert forall|i: int|
                            0 <= i < BLOCK_PER_PAGE && (#[trigger] p1.blocks@[i]).counter
                                > 0 implies !nth_bit(p1.bitfield, i) && p1.blocks@[i].value
                            is Some by {
                            assert(i != index);
                            assert(p1.blocks@[i] == p0.blocks@[i]);
                        }
                    }
                }
                if !p0.in_free_list && old(heap).pending_alive {
                    crate::heap::lemma_not_listed(*old(heap), addr);
                    assert forall|j: int, k: int|
                        0 <= j < k < heap.pending@.len() implies heap.pending@[j] != heap.pending@[k] by {
                        if k < old(heap).pending@.len() {
                        } else {
                            assert(heap.pending@[k] == addr);
                        }
                    }
                }
                assert forall|j: int|
                    0 <= j < heap.pending@.len() && heap.page_allocated(
                        #[trigger] heap.pending@[j],
                    ) implies heap.page_at(heap.pending@[j]).in_free_list by {
                    let b = heap.pending@[j];
                    if b != addr {
                        assert(old(heap).page_allocated(b));
                    }
                }
            }
        }
    }
}

/// Deallocate one page: its slot in the store is emptied for good and the
/// page value is dropped.  Ordered only by the release that observes the
/// page's last stake disappear, so it runs exactly once per page.
fn deallocate_page<T>(heap: &mut Heap<T>, page: u64)
    requires
        old(heap).page_allocated(page),
    ensures
        final(heap).pages@ == old(heap).pages@.update(page - 1, None::<Page<T>>),
        final(heap).pending == old(heap).pending,
        final(heap).pending_alive == old(heap).pending_alive,
        !final(heap).page_allocated(page),
{
    let _page = heap.take_page(page);
}

impl<T> Block<T> {
    /// Release the block that `block_tag` names: reach the owning page
    /// through the tagged pointer and dispatch on the page kind.  Only the
    /// shared-arena kind exists in this fabric; on the other kind the
    /// release aborts, so the contract excludes it.
    pub fn drop_block(heap: &mut Heap<T>, block_tag: PageTaggedPtr)
        requires
            old(heap).wf(),
            decode_kind(block_tag.data) == PageKind::PageSharedArena,
            old(heap).page_allocated(decode_page_ptr(block_tag.data)),
            decode_index(block_tag.data) < BLOCK_PER_PAGE,
            old(heap).page_at(decode_page_ptr(block_tag.data)).blocks@[decode_index(
                block_tag.data,
            ) as int].counter == 0,
            old(heap).page_at(decode_page_ptr(block_tag.data)).blocks@[decode_index(
                block_tag.data,
            ) as int].value is Some,
            !nth_bit(
                old(heap).page_at(decode_page_ptr(block_tag.data)).bitfield,
                decode_index(block_tag.data) as int,
            ),
        ensures
            final(heap).wf(),
            final(heap).pending_alive == old(heap).pending_alive,
            final(heap).pages@.len() == old(heap).pages@.len(),
            forall|a: u64|
                a != decode_page_ptr(block_tag.data) ==> final(heap).page_allocated(a) == old(heap).page_allocated(a),
            forall|a: u64|
                a != decode_page_ptr(block_tag.data) && old(heap).page_allocated(a) ==> final(heap).page_at(a) == old(heap).page_at(a),
            ({
                let addr = decode_page_ptr(block_tag.data);
                let index = decode_index(block_tag.data) as int;
                let p0 = old(heap).page_at(addr);
                let new_bf = p0.bitfield | (1u64 << (index as u64));
                let pushed = !p0.in_free_list && old(heap).pending_alive;
                &&& (pushed ==> final(heap).pending@ == old(heap).pending@.push(addr))
                &&& (!pushed ==> final(heap).pending@ == old(heap).pending@)
                &&& (new_bf == MASK_ALL_FREE_RELEASED ==> !final(heap).page_allocated(addr))
                &&& (new_bf != MASK_ALL_FREE_RELEASED ==> final(heap).page_allocated(addr) && ({
                    let p1 = final(heap).page_at(addr);
                    &&& p1.bitfield == new_bf
                    &&& p1.blocks@ == p0.blocks@.update(
                        index,
                        (Block { value: None, counter: 0, page: p0.blocks@[index].page }),
                    )
                    &&& p1.in_free_list
                    &&& p1.next == p0.next
                }))
                &&& ((exists|j: int|
                    0 <= j < BLOCK_PER_PAGE && j != index && (#[trigger] p0.blocks@[j]).counter
                        > 0) ==> final(heap).page_allocated(addr))
            }),
    {
        match block_tag.page_kind() {
            PageKind::PageSharedArena => {
                let page_ptr = block_tag.page_ptr();
                let index = block_tag.index_block();
                Page::<T>::drop_block(heap, page_ptr, index as usize);
            },
            PageKind::PageArena => unreached(),
        }
    }
}

/// The arena formally releases its stake in a page by clearing the
/// arena-retention bit.  If the pre-image was all ones — every block free
/// and the bit still set — no handle holds a stake either and the page is
/// deallocated here; otherwise the last outstanding handle will observe
/// the final transition and deallocate it on its own release path.
pub fn drop_page<T>(heap: &mut Heap<T>, page: u64)
    requires
        old(heap).wf(),
        old(heap).page_allocated(page),
        nth_bit(old(heap).page_at(page).bitfield, 63),
    ensures
        final(heap).wf(),
        final(heap).pending@ == old(heap).pending@,
        final(heap).pending_alive == old(heap).pending_alive,
        final(heap).pages@.len() == old(heap).pages@.len(),
        forall|a: u64|
            a != page ==> final(heap).page_allocated(a) == old(heap).page_allocated(a),
        forall|a: u64|
            a != page && old(heap).page_allocated(a) ==> final(heap).page_at(a) == old(heap).page_at(a),
        ({
            let p0 = old(heap).page_at(page);
            &&& (p0.bitfield == 0xffff_ffff_ffff_ffffu64 ==> !final(heap).page_allocated(page))
            &&& (p0.bitfield != 0xffff_ffff_ffff_ffffu64 ==> final(heap).page_allocated(page)
                && final(heap).page_at(page) == (Page {
                bitfield: (p0.bitfield - MASK_ARENA_BIT) as u64,
                ..p0
            }))
            &&& (p0.some_block_live() ==> final(heap).page_allocated(page))
            &&& (p0.bitfield != 0xffff_ffff_ffff_ffffu64 && p0.quiescent() ==> final(heap).page_at(page).quiescent())
        }),
{
    let ghost p0 = old(heap).page_at(page);
    let mut p = heap.take_page(page);
    let old_bitfield = p.bitfield;
    proof {
        assert((old_bitfield & (1u64 << 63u64) != 0) == (old_bitfield
            & 0x8000_0000_0000_0000u64 != 0)) by (bit_vector);
        lemma_release_arena_bit(old_bitfield, 0);
        assert((!old_bitfield == 0u64) == (old_bitfield == 0xffff_ffff_ffff_ffffu64))
            by (bit_vector);
        if p0.some_block_live() {
            let j = choose|j: int|
                0 <= j < BLOCK_PER_PAGE && (#[trigger] p0.blocks@[j]).counter > 0;
            lemma_used_block_not_final(old_bitfield, j as u64);
        }
    }
    p.bitfield = p.bitfield - MASK_ARENA_BIT;
    if !old_bitfield == 0 {
        // No stake remains anywhere: deallocate the page.
        heap.put_page(page, p);
        deallocate_page(heap, page);
        proof {
            assert(heap.pages@ =~= old(heap).pages@.update(page - 1, None::<Page<T>>));
            assert forall|a: u64| #[trigger] heap.page_allocated(a) implies heap.page_at(a).wf(a) by {
                assert(old(heap).page_allocated(a));
            }
            assert forall|j: int|
                0 <= j < heap.pending@.len() && heap.page_allocated(
                    #[trigger] heap.pending@[j],
                ) implies heap.page_at(heap.pending@[j]).in_free_list by {
                assert(old(heap).page_allocated(heap.pending@[j]));
            }
        }
    } else {
        heap.put_page(page, p);
        proof {
            assert forall|j: u64| j < 63 implies nth_bit(heap.page_at(page).bitfield, j as int)
                == nth_bit(p0.bitfield, j as int) by {
                lemma_release_arena_bit(old_bitfield, j);
            }
            assert forall|a: u64| #[trigger] heap.page_allocated(a) implies heap.page_at(a).wf(a) by {
                if a != page {
                    assert(old(heap).page_allocated(a));
                } else {
                    let p1 = heap.page_at(page);
                    assert(p0.wf(page));
                    assert forall|i: int|
                        0 <= i < BLOCK_PER_PAGE && nth_bit(p1.bitfield, i) implies (
                        #[trigger] p1.blocks@[i]).counter == 0 && p1.blocks@[i].value
                        is None by {
                        assert(nth_bit(p0.bitfield, i));
                    }
                    assert forall|i: int|
                        0 <= i < BLOCK_PER_PAGE && (#[trigger] p1.blocks@[i]).counter
                            > 0 implies !nth_bit(p1.bitfield, i) && p1.blocks@[i].value
                        is Some by {
                        assert(!nth_bit(p0.bitfield, i));
                    }
                }
            }
            assert forall|j: int|
                0 <= j < heap.pending@.len() && heap.page_allocated(
                    #[trigger] heap.pending@[j],
                ) implies heap.page_at(heap.pending@[j]).in_free_list by {
                assert(old(heap).page_allocated(heap.pending@[j]));
            }
        }
    }
}

} // verus!
