use shared_arena::tagged_ptr::PageKind;
use shared_arena::tagged_ptr::PageTaggedPtr;

#[test]
fn page_tagged_ptr() {
    for index_block in 0..64 {
        let tagged_ptr = PageTaggedPtr::new(!0, index_block, PageKind::PageSharedArena);
        let ptr = tagged_ptr.page_ptr();
        assert_eq!(ptr, !0, "{:064b}", ptr);
        assert_eq!(tagged_ptr.page_kind(), PageKind::PageSharedArena);
        assert_eq!(tagged_ptr.index_block(), index_block);

        let tagged_ptr = PageTaggedPtr::new(!0, index_block, PageKind::PageArena);
        let ptr = tagged_ptr.page_ptr();
        assert_eq!(ptr, !0, "{:064b}", ptr);
        assert_eq!(tagged_ptr.page_kind(), PageKind::PageArena);
        assert_eq!(tagged_ptr.index_block(), index_block);

        let tagged_ptr = PageTaggedPtr::new(16, index_block, PageKind::PageSharedArena);
        let ptr = tagged_ptr.page_ptr();
        assert_eq!(ptr, 16, "{:064b}", ptr);
        assert_eq!(tagged_ptr.page_kind(), PageKind::PageSharedArena);
        assert_eq!(tagged_ptr.index_block(), index_block);

        let tagged_ptr = PageTaggedPtr::new(16, index_block, PageKind::PageArena);
        let ptr = tagged_ptr.page_ptr();
        assert_eq!(ptr, 16, "{:064b}", ptr);
        assert_eq!(tagged_ptr.page_kind(), PageKind::PageArena);
        assert_eq!(tagged_ptr.index_block(), index_block);
    }
}

#[test]
fn tag_fields_decode_on_canonical_user_address() {
    let ptr = 0x0000_7fff_ffff_ff00u64;
    for &idx in &[37u64, 0, 62] {
        let t = PageTaggedPtr::new(ptr, idx, PageKind::PageSharedArena);
        assert_eq!(t.page_ptr(), ptr);
        assert_eq!(t.index_block(), idx);
        assert_eq!(t.page_kind(), PageKind::PageSharedArena);
    }
}

#[test]
fn tag_encoding_exact_word() {
    // Address bits survive below the tag; the 7-bit tag sits in the top bits:
    // kind above the 6-bit index.
    let t = PageTaggedPtr::new(0x100, 37, PageKind::PageSharedArena);
    assert_eq!(t.data, 0x100u64 | (37u64 << 57));
    let t = PageTaggedPtr::new(0x100, 37, PageKind::PageArena);
    assert_eq!(t.data, 0x100u64 | (37u64 << 57) | (1u64 << 63));
}
