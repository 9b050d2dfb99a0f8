//! A reference-counting handle to one block in the arena's page fabric.
//!
//! An `ArenaArc` provides shared ownership of the value stored in one
//! block.  Cloning it increases the block's reference counter; dropping it
//! decreases the counter, and the last drop releases the block back to its
//! page — the value's destructor runs, the block's bit is set free again,
//! and the page may re-enter the arena's pending-free stack or, when no
//! stake in it remains, be deallocated.

use core::marker::PhantomData;

use vstd::prelude::*;

use crate::heap::Heap;
use crate::page::BLOCK_PER_PAGE;
use crate::page::Block;
use crate::page::IndexInPage;
use crate::page::MASK_ALL_FREE_RELEASED;
use crate::page::nth_bit;
use crate::tagged_ptr::PageKind;
use crate::tagged_ptr::lemma_tag_round_trip;

verus! {

broadcast use vstd::std_specs::vec::group_vec_axioms;

/// Safety ceiling for the reference counter: a clone that would push the
/// counter to this value aborts instead, as a guard against counter
/// overflow.  It is half of the counter's range.
pub const REFCOUNT_LIMIT: u64 = 0x7fff_ffff_ffff_ffff;

/// A shared-ownership handle to one block: the address of the owning page
/// (standing for the counted page reference the handle holds) and the
/// block's index within it.
pub struct ArenaArc<T> {
    /// Address of the owning page.
    pub page: u64,
    /// Index of the block within the page.
    pub block: usize,
    pub _marker: PhantomData<T>,
}

impl<T> ArenaArc<T> {
    /// The handle refers to an allocated page and a block that at least
    /// one handle (this one) is counted on.
    pub open spec fn valid(self, heap: Heap<T>) -> bool {
        &&& heap.page_allocated(self.page)
        &&& self.block < BLOCK_PER_PAGE
        &&& heap.page_at(self.page).blocks@[self.block as int].counter >= 1
    }

    /// Wrap a freshly acquired block in a handle.  The block must have been
    /// handed out by the page (its bit is cleared), its value must already
    /// be written, and no handle may be counted on it yet; the counter goes
    /// to one.
    pub fn new(heap: &mut Heap<T>, page: u64, index_in_page: IndexInPage) -> (r: ArenaArc<T>)
        requires
            old(heap).wf(),
            old(heap).page_allocated(page),
            index_in_page.0 < BLOCK_PER_PAGE,
            old(heap).page_at(page).blocks@[index_in_page.0 as int].counter == 0,
            old(heap).page_at(page).blocks@[index_in_page.0 as int].value is Some,
            !nth_bit(old(heap).page_at(page).bitfield, index_in_page.0 as int),
        ensures
            final(heap).wf(),
            r.page == page,
            r.block == index_in_page.0,
            r.valid(*final(heap)),
            final(heap).pending@ == old(heap).pending@,
            final(heap).pending_alive == old(heap).pending_alive,
            final(heap).pages@.len() == old(heap).pages@.len(),
            forall|a: u64|
                a != page ==> final(heap).page_allocated(a) == old(heap).page_allocated(a),
            forall|a: u64|
                a != page && old(heap).page_allocated(a) ==> final(heap).page_at(a) == old(heap).page_at(a),
            final(heap).page_allocated(page),
            ({
                let p0 = old(heap).page_at(page);
                let p1 = final(heap).page_at(page);
                &&& p1.bitfield == p0.bitfield
                &&& p1.next == p0.next
                &&& p1.next_free == p0.next_free
                &&& p1.in_free_list == p0.in_free_list
                &&& p1.blocks@ == p0.blocks@.update(
                    index_in_page.0 as int,
                    (Block { counter: 1, ..p0.blocks@[index_in_page.0 as int] }),
                )
            }),
    {
        let index = index_in_page.0;
        let mut p = heap.take_page(page);
        let counter = p.blocks[index].counter;
        proof {
            // A fresh block carries no references; anything else would be
            // a double hand-out, which the fabric's invariant excludes.
            assert(counter == 0);
        }
        p.blocks[index].counter = 1;
        heap.put_page(page, p);
        proof {
            assert forall|a: u64| #[trigger] heap.page_allocated(a) implies heap.page_at(a).wf(
                a,
            ) by {
                if a != page {
                    assert(old(heap).page_allocated(a));
                } else {
                    let p0 = old(heap).page_at(page);
                    let p1 = heap.page_at(page);
                    assert(p0.wf(page));
                    assert forall|i: int|
                        0 <= i < BLOCK_PER_PAGE && nth_bit(p1.bitfield, i) implies (
                        #[trigger] p1.blocks@[i]).counter == 0 && p1.blocks@[i].value
                        is None by {
                        assert(nth_bit(p0.bitfield, i));
                        assert(i != index);
                    }
                }
            }
            assert forall|j: int|
                0 <= j < heap.pending@.len() && heap.page_allocated(
                    #[trigger] heap.pending@[j],
                ) implies heap.page_at(heap.pending@[j]).in_free_list by {
                assert(old(heap).page_allocated(heap.pending@[j]));
            }
        }
        ArenaArc { page, block: index, _marker: PhantomData }
    }

    /// Make a clone of the handle: one more reference is counted on the
    /// same block.  A counter at the safety ceiling would make the clone
    /// abort, so it is outside the contract.
    pub fn clone_handle(&self, heap: &mut Heap<T>) -> (r: ArenaArc<T>)
        requires
            old(heap).wf(),
            self.valid(*old(heap)),
            old(heap).page_at(self.page).blocks@[self.block as int].counter < REFCOUNT_LIMIT,
        ensures
            final(heap).wf(),
            r.page == self.page,
            r.block == self.block,
            r.valid(*final(heap)),
            self.valid(*final(heap)),
            final(heap).pending@ == old(heap).pending@,
            final(heap).pending_alive == old(heap).pending_alive,
            final(heap).pages@.len() == old(heap).pages@.len(),
            forall|a: u64|
                a != self.page ==> final(heap).page_allocated(a) == old(heap).page_allocated(a),
            forall|a: u64|
                a != self.page && old(heap).page_allocated(a) ==> final(heap).page_at(a) == old(heap).page_at(a),
            ({
                let p0 = old(heap).page_at(self.page);
                let p1 = final(heap).page_at(self.page);
                &&& p1.bitfield == p0.bitfield
                &&& p1.next == p0.next
                &&& p1.next_free == p0.next_free
                &&& p1.in_free_list == p0.in_free_list
                &&& p1.blocks@ == p0.blocks@.update(
                    self.block as int,
                    (Block {
                        counter: (p0.blocks@[self.block as int].counter + 1) as u64,
                        ..p0.blocks@[self.block as int]
                    }),
                )
            }),
            old(heap).page_at(self.page).quiescent() ==> final(heap).page_at(self.page).quiescent(),
    {
        let index = self.block;
        let mut p = heap.take_page(self.page);
        let old_count = p.blocks[index].counter;
        p.blocks[index].counter = old_count + 1;
        heap.put_page(self.page, p);
        proof {
            assert forall|a: u64| #[trigger] heap.page_allocated(a) implies heap.page_at(a).wf(
                a,
            ) by {
                if a != self.page {
                    assert(old(heap).page_allocated(a));
                } else {
                    let p0 = old(heap).page_at(self.page);
                    let p1 = heap.page_at(self.page);
                    assert(p0.wf(self.page));
                    assert forall|i: int|
                        0 <= i < BLOCK_PER_PAGE && nth_bit(p1.bitfield, i) implies (
                        #[trigger] p1.blocks@[i]).counter == 0 && p1.blocks@[i].value
                        is None by {
                        assert(nth_bit(p0.bitfield, i));
                        assert(i != index);
                    }
                }
            }
            assert forall|j: int|
                0 <= j < heap.pending@.len() && heap.page_allocated(
                    #[trigger] heap.pending@[j],
                ) implies heap.page_at(heap.pending@[j]).in_free_list by {
                assert(old(heap).page_allocated(heap.pending@[j]));
            }
        }
        ArenaArc { page: self.page, block: index, _marker: PhantomData }
    }

    /// Read the value the handle refers to.  The contract is read-only
    /// sharing: a live handle always finds a live value.
    pub fn deref<'a>(&self, heap: &'a Heap<T>) -> (r: &'a T)
        requires
            heap.wf(),
            self.valid(*heap),
        ensures
            Some(*r) == heap.page_at(self.page).blocks@[self.block as int].value,
    {
        let idx: usize = (self.page - 1) as usize;
        match &heap.pages[idx] {
            Some(p) => match &p.blocks[self.block].value {
                Some(v) => v,
                None => vstd::pervasive::unreached(),
            },
            None => vstd::pervasive::unreached(),
        }
    }

    /// Drop the handle: one fewer reference is counted on the block.  If
    /// this was the last one, the block is released back to its page — the
    /// value's destructor runs, the block's bit goes free, the page
    /// re-announces itself to a still-living arena when needed, and the
    /// release that removes the page's last stake deallocates it.
    pub fn drop_handle(self, heap: &mut Heap<T>)
        requires
            old(heap).wf(),
            self.valid(*old(heap)),
        ensures
            final(heap).wf(),
            final(heap).pending_alive == old(heap).pending_alive,
            final(heap).pages@.len() == old(heap).pages@.len(),
            forall|a: u64|
                a != self.page ==> final(heap).page_allocated(a) == old(heap).page_allocated(a),
            forall|a: u64|
                a != self.page && old(heap).page_allocated(a) ==> final(heap).page_at(a) == old(heap).page_at(a),
            ({
                let p0 = old(heap).page_at(self.page);
                let i = self.block as int;
                let c0 = p0.blocks@[i].counter;
                let new_bf = p0.bitfield | (1u64 << (self.block as u64));
                let pushed = c0 == 1 && !p0.in_free_list && old(heap).pending_alive;
                &&& (c0 > 1 ==> ({
                    let p1 = final(heap).page_at(self.page);
                    &&& final(heap).pending@ == old(heap).pending@
                    &&& final(heap).page_allocated(self.page)
                    &&& p1.bitfield == p0.bitfield
                    &&& p1.next == p0.next
                    &&& p1.next_free == p0.next_free
                    &&& p1.in_free_list == p0.in_free_list
                    &&& p1.blocks@ == p0.blocks@.update(
                        i,
                        (Block { counter: (c0 - 1) as u64, ..p0.blocks@[i] }),
                    )
                }))
                &&& (c0 == 1 ==> ({
                    &&& (pushed ==> final(heap).pending@ == old(heap).pending@.push(self.page))
                    &&& (!pushed ==> final(heap).pending@ == old(heap).pending@)
                    &&& (new_bf == MASK_ALL_FREE_RELEASED ==> !final(heap).page_allocated(self.page))
                    &&& (new_bf != MASK_ALL_FREE_RELEASED ==> final(heap).page_allocated(self.page) && ({
                        let p1 = final(heap).page_at(self.page);
                        &&& p1.bitfield == new_bf
                        &&& p1.blocks@ == p0.blocks@.update(
                            i,
                            (Block { value: None, counter: 0, page: p0.blocks@[i].page }),
                        )
                        &&& p1.in_free_list
                        &&& p1.next == p0.next
                    }))
                }))
                &&& ((c0 > 1 || exists|j: int|
                    0 <= j < BLOCK_PER_PAGE && j != i && (#[trigger] p0.blocks@[j]).counter
                        > 0) ==> final(heap).page_allocated(self.page))
                &&& (p0.quiescent() && final(heap).page_allocated(self.page) ==> final(heap).page_at(self.page).quiescent())
            }),
    {
        let page_addr = self.page;
        let index = self.block;
        let ghost p0 = old(heap).page_at(page_addr);
        let mut p = heap.take_page(page_addr);
        let count = p.blocks[index].counter;
        p.blocks[index].counter = count - 1;
        let tp = p.blocks[index].page;
        heap.put_page(page_addr, p);
        proof {
            assert forall|a: u64| #[trigger] heap.page_allocated(a) implies heap.page_at(a).wf(
                a,
            ) by {
                if a != page_addr {
                    assert(old(heap).page_allocated(a));
                } else {
                    let p1 = heap.page_at(page_addr);
                    assert(p0.wf(page_addr));
                    assert forall|i2: int|
                        0 <= i2 < BLOCK_PER_PAGE && nth_bit(p1.bitfield, i2) implies (
                        #[trigger] p1.blocks@[i2]).counter == 0 && p1.blocks@[i2].value
                        is None by {
                        assert(nth_bit(p0.bitfield, i2));
                        assert(i2 != index);
                    }
                    assert forall|i2: int|
                        0 <= i2 < BLOCK_PER_PAGE && (#[trigger] p1.blocks@[i2]).counter
                            > 0 implies !nth_bit(p1.bitfield, i2) && p1.blocks@[i2].value
                        is Some by {
                        assert(p0.blocks@[i2].counter > 0);
                    }
                }
            }
            assert forall|j: int|
                0 <= j < heap.pending@.len() && heap.page_allocated(
                    #[trigger] heap.pending@[j],
                ) implies heap.page_at(heap.pending@[j]).in_free_list by {
                assert(old(heap).page_allocated(heap.pending@[j]));
            }
        }

        // This handle held the last reference: release the block.
        if count == 1 {
            let ghost h_mid = *heap;
            proof {
                assert(tp.data == crate::tagged_ptr::tag_encode(page_addr, index as u64, 0));
                assert(page_addr >> 56 == 0) by (bit_vector)
                    requires
                        page_addr <= 0x1000_0000u64,
                ;
                lemma_tag_round_trip(page_addr, index as u64, PageKind::PageSharedArena);
                if exists|j: int|
                    0 <= j < BLOCK_PER_PAGE && j != index && (#[trigger] p0.blocks@[j]).counter
                        > 0 {
                    let j = choose|j: int|
                        0 <= j < BLOCK_PER_PAGE && j != index && (
                        #[trigger] p0.blocks@[j]).counter > 0;
                    assert((h_mid.page_at(page_addr).blocks@[j]).counter > 0);
                }
            }
            Block::<T>::drop_block(heap, tp);
            proof {
                if heap.page_allocated(page_addr) {
                    let p1 = heap.page_at(page_addr);
                    assert(p1.blocks@ =~= p0.blocks@.update(
                        index as int,
                        (Block { value: None, counter: 0, page: p0.blocks@[index as int].page }),
                    ));
                    if p0.quiescent() {
                        assert forall|j: int|
                            0 <= j < BLOCK_PER_PAGE implies (nth_bit(p1.bitfield, j) <==> (
                            #[trigger] p1.blocks@[j]).counter == 0) by {
                            crate::page::lemma_set_bit(p0.bitfield, index as u64, j as u64);
                            if j != index {
                                assert(p1.blocks@[j] == p0.blocks@[j]);
                            }
                        }
                    }
                }
            }
        } else {
            proof {
                if p0.quiescent() {
                    let p1 = heap.page_at(page_addr);
                    assert forall|j: int|
                        0 <= j < BLOCK_PER_PAGE implies (nth_bit(p1.bitfield, j) <==> (
                        #[trigger] p1.blocks@[j]).counter == 0) by {
                        if j != index {
                            assert(p1.blocks@[j] == p0.blocks@[j]);
                        } else {
                            assert(!nth_bit(p0.bitfield, j));
                        }
                    }
                }
            }
        }
    }
}

/// The arena's allocation path: acquire a free block from the page, write
/// the fresh value into it, and wrap it in a handle counted at one.
/// Returns nothing exactly when the page has no free block.
pub fn alloc_from_page<T>(heap: &mut Heap<T>, page: u64, value: T) -> (r: Option<ArenaArc<T>>)
    requires
        old(heap).wf(),
        old(heap).page_allocated(page),
        old(heap).page_at(page).bitfield != 0,
    ensures
        final(heap).wf(),
        final(heap).pending@ == old(heap).pending@,
        final(heap).pending_alive == old(heap).pending_alive,
        final(heap).pages@.len() == old(heap).pages@.len(),
        forall|a: u64|
            a != page ==> final(heap).page_allocated(a) == old(heap).page_allocated(a),
        forall|a: u64|
            a != page && old(heap).page_allocated(a) ==> final(heap).page_at(a) == old(heap).page_at(a),
        final(heap).page_allocated(page),
        r is None ==> old(heap).page_at(page).full() && final(heap).page_at(page) == old(heap).page_at(page),
        r is Some ==> ({
            let h = r->0;
            let p0 = old(heap).page_at(page);
            let p1 = final(heap).page_at(page);
            let i = h.block as int;
            &&& h.page == page
            &&& 0 <= i < BLOCK_PER_PAGE
            &&& nth_bit(p0.bitfield, i)
            &&& forall|j: int| 0 <= j < i ==> !nth_bit(p0.bitfield, j)
            &&& h.valid(*final(heap))
            &&& p1.bitfield == (p0.bitfield & !(1u64 << (h.block as u64)))
            &&& p1.blocks@ == p0.blocks@.update(
                i,
                (Block { value: Some(value), counter: 1, page: p0.blocks@[i].page }),
            )
            &&& p1.in_free_list == p0.in_free_list
            &&& p1.next == p0.next
            &&& p1.next_free == p0.next_free
        }),
        old(heap).page_at(page).quiescent() ==> final(heap).page_at(page).quiescent(),
{
    let ghost p0 = old(heap).page_at(page);
    let mut p = heap.take_page(page);
    let got = p.acquire_free_block();
    match got {
        None => {
            heap.put_page(page, p);
            proof {
                assert(heap.pages@ =~= old(heap).pages@);
                crate::heap::lemma_wf_frame(*old(heap), *heap);
            }
            None
        },
        Some(i) => {
            let tp = p.blocks[i].page;
            // Write the fresh value into the acquired block; nothing lived
            // there, so no destructor runs.
            p.blocks.set(i, Block { value: Some(value), counter: 0, page: tp });
            heap.put_page(page, p);
            proof {
                assert forall|a: u64| #[trigger] heap.page_allocated(a) implies heap.page_at(
                    a,
                ).wf(a) by {
                    if a != page {
                        assert(old(heap).page_allocated(a));
                    } else {
                        let p1 = heap.page_at(page);
                        assert(p0.wf(page));
                        assert forall|i2: int|
                            0 <= i2 < BLOCK_PER_PAGE && nth_bit(p1.bitfield, i2) implies (
                            #[trigger] p1.blocks@[i2]).counter == 0 && p1.blocks@[i2].value
                            is None by {
                            assert(i2 != i);
                            assert(nth_bit(p0.bitfield, i2));
                        }
                        assert forall|i2: int|
                            0 <= i2 < BLOCK_PER_PAGE && (#[trigger] p1.blocks@[i2]).counter
                                > 0 implies !nth_bit(p1.bitfield, i2) && p1.blocks@[i2].value
                            is Some by {
                            assert(p0.blocks@[i2].counter > 0);
                        }
                    }
                }
                assert forall|j: int|
                    0 <= j < heap.pending@.len() && heap.page_allocated(
                        #[trigger] heap.pending@[j],
                    ) implies heap.page_at(heap.pending@[j]).in_free_list by {
                    assert(old(heap).page_allocated(heap.pending@[j]));
                }
            }
            let r = ArenaArc::<T>::new(heap, page, IndexInPage(i));
            proof {
                let p1 = heap.page_at(page);
                assert(p1.blocks@ =~= p0.blocks@.update(
                    i as int,
                    (Block { value: Some(value), counter: 1, page: p0.blocks@[i as int].page }),
                ));
                if p0.quiescent() {
                    assert forall|j: int|
                        0 <= j < BLOCK_PER_PAGE implies (nth_bit(p1.bitfield, j) <==> (
                        #[trigger] p1.blocks@[j]).counter == 0) by {
                        if j != i {
                            assert(nth_bit(p1.bitfield, j) == nth_bit(p0.bitfield, j));
                            assert(p1.blocks@[j] == p0.blocks@[j]);
                        }
                    }
                }
            }
            Some(r)
        },
    }
}

} // verus!
