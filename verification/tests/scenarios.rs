use shared_arena::arena_arc::ArenaArc;
use shared_arena::arena_arc::alloc_from_page;
use shared_arena::heap::Heap;
use shared_arena::page::IndexInPage;
use shared_arena::page::BITFIELD_WIDTH;
use shared_arena::page::BLOCK_PER_PAGE;
use shared_arena::page::MASK_ALL_FREE_RELEASED;
use shared_arena::page::MASK_ARENA_BIT;
use shared_arena::page::Page;
use shared_arena::page::drop_page;

#[test]
fn clone_twice_drop_two_then_last() {
    let mut heap: Heap<u64> = Heap::new();
    let (head, _tail) = Page::make_list(&mut heap, 1);
    let h1 = alloc_from_page(&mut heap, head, 42u64).unwrap();
    let h2 = h1.clone_handle(&mut heap);
    let h3 = h1.clone_handle(&mut heap);
    h2.drop_handle(&mut heap);
    h3.drop_handle(&mut heap);
    assert_eq!(*h1.deref(&heap), 42);
    let idx = h1.block;
    h1.drop_handle(&mut heap);
    let page = heap.pages[(head - 1) as usize].as_ref().unwrap();
    assert_eq!(page.bitfield & (1u64 << idx), 1u64 << idx);
    assert_eq!(page.blocks[idx].counter, 0);
}

#[test]
fn clone_counts_references_exactly() {
    let mut heap: Heap<u32> = Heap::new();
    let (page, _) = Page::make_list(&mut heap, 1);
    let h1 = alloc_from_page(&mut heap, page, 5u32).unwrap();
    let h2 = h1.clone_handle(&mut heap);
    let h3 = h2.clone_handle(&mut heap);
    assert_eq!(
        heap.pages[(page - 1) as usize].as_ref().unwrap().blocks[h1.block].counter,
        3
    );
    h1.drop_handle(&mut heap);
    h2.drop_handle(&mut heap);
    assert_eq!(
        heap.pages[(page - 1) as usize].as_ref().unwrap().blocks[h3.block].counter,
        1
    );
    assert_eq!(*h3.deref(&heap), 5);
    h3.drop_handle(&mut heap);
}

#[test]
fn alloc_drop_cycles_leave_page_all_free() {
    let mut heap: Heap<u64> = Heap::new();
    let (page, _) = Page::make_list(&mut heap, 1);
    for i in 0..20_000u64 {
        let h = alloc_from_page(&mut heap, page, i).unwrap();
        h.drop_handle(&mut heap);
    }
    let p = heap.pages[(page - 1) as usize].as_ref().unwrap();
    // Every block free, the arena-retention bit still set.
    assert_eq!(p.bitfield, !0u64);
    assert_ne!(p.bitfield & MASK_ARENA_BIT, 0);
    for b in &p.blocks {
        assert_eq!(b.counter, 0);
    }
}

#[test]
fn full_page_refuses_then_hands_out_freed_index() {
    let mut heap: Heap<u64> = Heap::new();
    let (page, _) = Page::make_list(&mut heap, 1);
    let mut handles = Vec::new();
    for i in 0..63u64 {
        handles.push(alloc_from_page(&mut heap, page, i).unwrap());
    }
    assert!(alloc_from_page(&mut heap, page, 99).is_none());
    {
        let mut p = heap.pages[(page - 1) as usize].take().unwrap();
        assert!(p.acquire_free_block().is_none());
        heap.pages[(page - 1) as usize] = Some(p);
    }
    let h5 = handles.remove(5);
    h5.drop_handle(&mut heap);
    let fresh = alloc_from_page(&mut heap, page, 500).unwrap();
    assert_eq!(fresh.block, 5);
    assert_eq!(*fresh.deref(&heap), 500);
}

#[test]
fn acquire_hands_out_lowest_free_block_first() {
    let mut heap: Heap<u8> = Heap::new();
    let (page, _) = Page::make_list(&mut heap, 1);
    let h0 = alloc_from_page(&mut heap, page, 1u8).unwrap();
    let h1 = alloc_from_page(&mut heap, page, 2u8).unwrap();
    assert_eq!(h0.block, 0);
    assert_eq!(h1.block, 1);
    // Exactly the two lowest bits are cleared.
    let p = heap.pages[(page - 1) as usize].as_ref().unwrap();
    assert_eq!(p.bitfield, !0u64 & !0b11);
    h0.drop_handle(&mut heap);
    h1.drop_handle(&mut heap);
}

#[test]
fn arena_release_then_last_handle_deallocates() {
    let mut heap: Heap<u64> = Heap::new();
    let (page, _) = Page::make_list(&mut heap, 1);
    let h = alloc_from_page(&mut heap, page, 7u64).unwrap();
    drop_page(&mut heap, page);
    // Not freed while the handle lives.
    assert!(heap.pages[(page - 1) as usize].is_some());
    assert_eq!(*h.deref(&heap), 7);
    h.drop_handle(&mut heap);
    // The last handle drop observed the final transition and deallocated.
    assert!(heap.pages[(page - 1) as usize].is_none());
}

#[test]
fn arena_release_of_idle_page_deallocates_at_once() {
    let mut heap: Heap<u64> = Heap::new();
    let (page, _) = Page::make_list(&mut heap, 1);
    drop_page(&mut heap, page);
    assert!(heap.pages[(page - 1) as usize].is_none());
}

#[test]
fn one_push_per_free_transition() {
    let mut heap: Heap<u64> = Heap::new();
    let (page, _) = Page::make_list(&mut heap, 1);
    assert_eq!(heap.pending.len(), 1);
    assert_eq!(heap.pop_pending(), Some(page));
    assert!(!heap.pages[(page - 1) as usize].as_ref().unwrap().in_free_list);
    let h1 = alloc_from_page(&mut heap, page, 1u64).unwrap();
    let h2 = alloc_from_page(&mut heap, page, 2u64).unwrap();
    assert_eq!(heap.pending.len(), 0);
    h1.drop_handle(&mut heap);
    // Exactly one push on the false-to-true flag transition.
    assert_eq!(heap.pending.len(), 1);
    assert_eq!(heap.pending[0], page);
    h2.drop_handle(&mut heap);
    // No second push while the arena has not popped the page.
    assert_eq!(heap.pending.len(), 1);
}

#[test]
fn destroyed_arena_is_never_reannounced() {
    let mut heap: Heap<u64> = Heap::new();
    let (page, _) = Page::make_list(&mut heap, 1);
    assert_eq!(heap.pop_pending(), Some(page));
    let h = alloc_from_page(&mut heap, page, 3u64).unwrap();
    drop_page(&mut heap, page);
    heap.release_arena();
    h.drop_handle(&mut heap);
    // The page self-deallocated and the dead pending-free stack saw no push.
    assert!(heap.pages[(page - 1) as usize].is_none());
    assert_eq!(heap.pending.len(), 0);
}

#[test]
fn make_list_links_pages_head_to_tail() {
    let mut heap: Heap<u16> = Heap::new();
    let (head, tail) = Page::make_list(&mut heap, 3);
    assert_eq!(head, 3);
    assert_eq!(tail, 1);
    let next_of = |heap: &Heap<u16>, a: u64| heap.pages[(a - 1) as usize].as_ref().unwrap().next;
    assert_eq!(next_of(&heap, 3), 2);
    assert_eq!(next_of(&heap, 2), 1);
    assert_eq!(next_of(&heap, 1), 0);
    for a in 1..=3u64 {
        let p = heap.pages[(a - 1) as usize].as_ref().unwrap();
        assert_eq!(p.bitfield, !0u64);
        assert_eq!(p.next_free, p.next);
        assert!(p.in_free_list);
        assert_eq!(p.blocks.len(), 63);
    }
    assert_eq!(heap.pending.len(), 3);
}

#[test]
fn handle_new_counts_the_first_reference() {
    let mut heap: Heap<u32> = Heap::new();
    let (page, _) = Page::make_list(&mut heap, 1);
    let idx;
    {
        let mut p = heap.pages[(page - 1) as usize].take().unwrap();
        idx = p.acquire_free_block().unwrap();
        p.blocks[idx].value = Some(11u32);
        heap.pages[(page - 1) as usize] = Some(p);
    }
    let h = ArenaArc::new(&mut heap, page, IndexInPage(idx));
    assert_eq!(h.page, page);
    assert_eq!(h.block, idx);
    assert_eq!(
        heap.pages[(page - 1) as usize].as_ref().unwrap().blocks[idx].counter,
        1
    );
    assert_eq!(*h.deref(&heap), 11);
    h.drop_handle(&mut heap);
}

#[test]
fn value_destructor_runs_on_last_drop_only() {
    let mut heap: Heap<String> = Heap::new();
    let (page, _) = Page::make_list(&mut heap, 1);
    let h1 = alloc_from_page(&mut heap, page, String::from("alive")).unwrap();
    let h2 = h1.clone_handle(&mut heap);
    let idx = h1.block;
    h1.drop_handle(&mut heap);
    // A surviving handle keeps the value alive.
    assert!(heap.pages[(page - 1) as usize].as_ref().unwrap().blocks[idx].value.is_some());
    assert_eq!(h2.deref(&heap), "alive");
    h2.drop_handle(&mut heap);
    // The last drop removed it.
    assert!(heap.pages[(page - 1) as usize].as_ref().unwrap().blocks[idx].value.is_none());
}

#[test]
fn releasing_every_page_frees_all_memory() {
    let mut heap: Heap<u64> = Heap::new();
    let (head, tail) = Page::make_list(&mut heap, 3);
    assert_eq!((head, tail), (3, 1));
    for a in 1..=3u64 {
        drop_page(&mut heap, a);
    }
    for a in 1..=3u64 {
        assert!(heap.pages[(a - 1) as usize].is_none());
    }
}

#[test]
fn bitfield_constants_are_coherent() {
    assert_eq!(BITFIELD_WIDTH, 64);
    assert_eq!(BLOCK_PER_PAGE as u64, BITFIELD_WIDTH - 1);
    assert_eq!(MASK_ARENA_BIT, 1u64 << (BITFIELD_WIDTH - 1));
    assert_eq!(!MASK_ARENA_BIT, MASK_ALL_FREE_RELEASED);
}
