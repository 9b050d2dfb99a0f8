//! The raw memory that pages are carved from, plus the arena boundary.
//!
//! Page memory is modelled as a store of slots addressed by small non-zero
//! machine words; deallocating a page empties its slot, and an address is
//! never handed out twice.  The store also carries the arena's pending-free
//! head: the lock-free stack of pages that re-announced themselves after
//! freeing a block, modelled as the sequence of their addresses (the head is
//! the last element), and a flag standing for the arena's own lifetime —
//! while it is set, the weak reference every page holds to the pending-free
//! head can still be upgraded.

use vstd::prelude::*;
use vstd::pervasive::unreached;

use crate::page::BLOCK_PER_PAGE;
use crate::page::Page;
use crate::page::nth_bit;

verus! {

broadcast use vstd::std_specs::vec::group_vec_axioms;

/// Upper bound on how many pages a store may ever allocate.  It keeps every
/// address canonical for the tagged-pointer encoding and within the index
/// range of the slot vector on any target.
pub const MAX_PAGES: u64 = 0x1000_0000;

pub struct Heap<T> {
    /// One slot per address ever allocated; address `a` lives in slot
    /// `a - 1`, and an empty slot is a deallocated page.
    pub pages: Vec<Option<Page<T>>>,
    /// The pending-free stack: addresses of pages holding at least one free
    /// block, most recently pushed last.
    pub pending: Vec<u64>,
    /// False once the arena has been destroyed: upgrading a page's weak
    /// reference to the pending-free head then fails and nothing is pushed.
    pub pending_alive: bool,
}

impl<T> Heap<T> {
    /// Address `addr` names a page that is currently allocated.
    pub open spec fn page_allocated(self, addr: u64) -> bool {
        1 <= addr <= self.pages@.len() && self.pages@[addr - 1] is Some
    }

    /// The page at address `addr`.
    pub open spec fn page_at(self, addr: u64) -> Page<T> {
        self.pages@[addr - 1]->0
    }

    /// The address on top of the pending-free stack, 0 when it is empty.
    pub open spec fn pending_head(self) -> u64 {
        if self.pending@.len() == 0 {
            0
        } else {
            self.pending@.last()
        }
    }

    /// Invariant of the store: few enough pages that addresses stay small,
    /// every allocated page well formed at its own address, and the
    /// pending-free stack holds valid addresses, no address twice, and only
    /// pages whose `in_free_list` flag is set (while they stay allocated).
    pub open spec fn wf(self) -> bool {
        &&& self.pages@.len() <= MAX_PAGES
        &&& forall|a: u64| #[trigger] self.page_allocated(a) ==> self.page_at(a).wf(a)
        &&& forall|j: int, k: int|
            0 <= j < k < self.pending@.len() ==> self.pending@[j] != self.pending@[k]
        &&& forall|j: int|
            0 <= j < self.pending@.len() ==> 1 <= #[trigger] self.pending@[j]
                <= self.pages@.len()
        &&& forall|j: int|
            0 <= j < self.pending@.len() && self.page_allocated(#[trigger] self.pending@[j])
                ==> self.page_at(self.pending@[j]).in_free_list
    }

    /// A fresh store: no pages yet, an empty pending-free stack, and an
    /// arena that is alive.
    pub fn new() -> (h: Heap<T>)
        ensures
            h.pages@.len() == 0,
            h.pending@.len() == 0,
            h.pending_alive,
            h.wf(),
    {
        Heap { pages: Vec::new(), pending: Vec::new(), pending_alive: true }
    }

    /// Move the page at `addr` out of its slot, leaving the slot empty.
    pub(crate) fn take_page(&mut self, addr: u64) -> (p: Page<T>)
        requires
            old(self).page_allocated(addr),
        ensures
            p == old(self).page_at(addr),
            final(self).pages@ == old(self).pages@.update(addr - 1, None::<Page<T>>),
            final(self).pending == old(self).pending,
            final(self).pending_alive == old(self).pending_alive,
    {
        let n = self.pages.len();
        let idx: usize = (addr - 1) as usize;
        proof {
            assert(n == self.pages@.len());
            assert(idx == addr - 1);
        }
        let mut slot: Option<Page<T>> = None;
        self.pages.set_and_swap(idx, &mut slot);
        match slot {
            Some(p) => p,
            None => unreached(),
        }
    }

    /// Put a page back into the slot for `addr`.
    pub(crate) fn put_page(&mut self, addr: u64, page: Page<T>)
        requires
            1 <= addr <= old(self).pages@.len(),
        ensures
            final(self).pages@ == old(self).pages@.update(addr - 1, Some(page)),
            final(self).pending == old(self).pending,
            final(self).pending_alive == old(self).pending_alive,
    {
        let n = self.pages.len();
        let idx: usize = (addr - 1) as usize;
        proof {
            assert(n == self.pages@.len());
            assert(idx == addr - 1);
        }
        self.pages.set(idx, Some(page));
    }

    /// The address on top of the pending-free stack, 0 when it is empty.
    pub fn pending_head_ptr(&self) -> (r: u64)
        ensures
            r == self.pending_head(),
    {
        if self.pending.len() == 0 {
            0
        } else {
            self.pending[self.pending.len() - 1]
        }
    }

    /// The arena pops a page off the pending-free stack.  Clearing the
    /// page's `in_free_list` flag before the pop is published is what lets
    /// a later block free re-announce the page.
    pub fn pop_pending(&mut self) -> (r: Option<u64>)
        requires
            old(self).wf(),
        ensures
            final(self).wf(),
            final(self).pending_alive == old(self).pending_alive,
            final(self).pages@.len() == old(self).pages@.len(),
            r is None ==> final(self).pages == old(self).pages
                && final(self).pending@ == old(self).pending@
                && old(self).pending@.len() == 0,
            r is Some ==> ({
                let a = r->0;
                &&& old(self).pending@.len() > 0
                &&& a == old(self).pending_head()
                &&& final(self).pending@ == old(self).pending@.drop_last()
                &&& forall|b: u64|
                    b != a && old(self).page_allocated(b) ==> final(self).page_allocated(b)
                        && final(self).page_at(b) == old(self).page_at(b)
                &&& (old(self).page_allocated(a) ==> final(self).page_allocated(a)
                    && final(self).page_at(a) == (Page {
                    in_free_list: false,
                    ..old(self).page_at(a)
                }))
                &&& (!old(self).page_allocated(a) ==> final(self).pages@ == old(self).pages@)
            }),
    {
        let popped = self.pending.pop();
        match popped {
            None => {
                proof {
                    lemma_wf_frame(*old(self), *self);
                }
                None
            },
            Some(a) => {
                let idx_ok = a >= 1 && a <= self.pages.len() as u64;
                if idx_ok {
                    let alloc = match &self.pages[(a - 1) as usize] {
                        Some(_) => true,
                        None => false,
                    };
                    if alloc {
                        let mut page = self.take_page(a);
                        page.in_free_list = false;
                        self.put_page(a, page);
                    }
                }
                proof {
                    assert forall|b: u64| #[trigger] self.page_allocated(b) implies self.page_at(
                        b,
                    ).wf(b) by {
                        assert(old(self).page_allocated(b));
                        assert(old(self).page_at(b).wf(b));
                    }
                    assert forall|j: int|
                        0 <= j < self.pending@.len() && self.page_allocated(
                            #[trigger] self.pending@[j],
                        ) implies self.page_at(self.pending@[j]).in_free_list by {
                        let b = self.pending@[j];
                        assert(b == old(self).pending@[j]);
                        assert(b != a);
                        assert(old(self).page_allocated(b));
                    }
                }
                Some(a)
            },
        }
    }

    /// The arena is destroyed: the pending-free head it owned disappears,
    /// and with it the whole stack; pages now exist solely to service their
    /// outstanding handles.
    pub fn release_arena(&mut self)
        requires
            old(self).wf(),
        ensures
            final(self).wf(),
            final(self).pages == old(self).pages,
            final(self).pending@.len() == 0,
            !final(self).pending_alive,
    {
        self.pending_alive = false;
        self.pending.clear();
        proof {
            assert forall|a: u64| #[trigger] self.page_allocated(a) implies self.page_at(a).wf(
                a,
            ) by {
                assert(old(self).page_allocated(a));
            }
        }
    }
}

/// A store with the same pages and the same pending-free stack as a
/// well-formed one is well formed.
pub(crate) proof fn lemma_wf_frame<T>(h0: Heap<T>, h1: Heap<T>)
    requires
        h0.wf(),
        h1.pages@ == h0.pages@,
        h1.pending@ == h0.pending@,
    ensures
        h1.wf(),
{
    assert forall|a: u64| #[trigger] h1.page_allocated(a) implies h1.page_at(a).wf(a) by {
        assert(h0.page_allocated(a));
    }
    assert forall|j: int|
        0 <= j < h1.pending@.len() && h1.page_allocated(#[trigger] h1.pending@[j]) implies h1
        .page_at(h1.pending@[j]).in_free_list by {
        assert(h0.page_allocated(h0.pending@[j]));
    }
}

/// A page whose `in_free_list` flag is clear is not on the pending-free
/// stack.
pub proof fn lemma_not_listed<T>(h: Heap<T>, addr: u64)
    requires
        h.wf(),
        h.page_allocated(addr),
        !h.page_at(addr).in_free_list,
    ensures
        forall|j: int| 0 <= j < h.pending@.len() ==> h.pending@[j] != addr,
{
    assert forall|j: int| 0 <= j < h.pending@.len() implies h.pending@[j] != addr by {
        if h.pending@[j] == addr {
            assert(h.page_allocated(h.pending@[j]));
        }
    }
}

/// Pushing an absent, allocated, flagged page onto the pending-free stack
/// keeps the store well formed.
pub(crate) proof fn lemma_wf_push_pending<T>(h0: Heap<T>, h1: Heap<T>, addr: u64)
    requires
        h0.wf(),
        h1.pages@ == h0.pages@,
        h1.pending@ == h0.pending@.push(addr),
        h0.page_allocated(addr),
        h0.page_at(addr).in_free_list,
        forall|j: int| 0 <= j < h0.pending@.len() ==> h0.pending@[j] != addr,
    ensures
        h1.wf(),
{
    assert forall|a: u64| #[trigger] h1.page_allocated(a) implies h1.page_at(a).wf(a) by {
        assert(h0.page_allocated(a));
    }
    assert forall|j: int, k: int|
        0 <= j < k < h1.pending@.len() implies h1.pending@[j] != h1.pending@[k] by {
        if k < h0.pending@.len() {
        } else {
            assert(h1.pending@[k] == addr);
        }
    }
    assert forall|j: int|
        0 <= j < h1.pending@.len() && h1.page_allocated(#[trigger] h1.pending@[j]) implies h1
        .page_at(h1.pending@[j]).in_free_list by {
        let b = h1.pending@[j];
        assert(h0.page_allocated(b));
        if j < h0.pending@.len() {
            assert(b == h0.pending@[j]);
        } else {
            assert(b == addr);
        }
    }
}

/// The pending-free stack never holds the same page twice: an insert happens
/// only on the flag's false-to-true transition, and the flag returns to
/// false only when the arena pops the page off.
pub proof fn lemma_pending_unique<T>(heap: Heap<T>, j: int, k: int)
    requires
        heap.wf(),
        0 <= j < heap.pending@.len(),
        0 <= k < heap.pending@.len(),
        j != k,
    ensures
        heap.pending@[j] != heap.pending@[k],
{
}

/// Counter/bitfield coherence: at a quiescent observation point a block
/// carries no references exactly when the page's bitfield says the block
/// is free.
pub proof fn lemma_counter_bitfield_coherence<T>(heap: Heap<T>, addr: u64, i: int)
    requires
        heap.page_allocated(addr),
        heap.page_at(addr).quiescent(),
        0 <= i < BLOCK_PER_PAGE,
    ensures
        heap.page_at(addr).blocks@[i].counter == 0 <==> nth_bit(heap.page_at(addr).bitfield, i),
{
}

/// A free block is inert: no handle refers to it and it holds no value, so
/// the destructor that ran when it was freed cannot run a second time
/// before the block is handed out anew.
pub proof fn lemma_free_block_inert<T>(heap: Heap<T>, addr: u64, i: int)
    requires
        heap.wf(),
        heap.page_allocated(addr),
        0 <= i < BLOCK_PER_PAGE,
        nth_bit(heap.page_at(addr).bitfield, i),
    ensures
        heap.page_at(addr).blocks@[i].counter == 0,
        heap.page_at(addr).blocks@[i].value is None,
{
}

} // verus!
