//! Tagged page pointer: one machine word encoding a page address, the index
//! of a block within that page, and the page kind.
//!
//! Layout: bits 0..=56 hold a sign-extendable page address, bits 57..=62 the
//! block index, bit 63 the page kind.  Decoding the address sign-extends
//! from bit 56, so canonical kernel-half addresses survive the round trip.

use vstd::prelude::*;

verus! {

/// Variant tag carried by a tagged page pointer: a page owned by the shared
/// arena, or by the single-owner arena variant.
#[derive(Clone, Copy, Debug, PartialEq, Eq, Structural)]
pub enum PageKind {
    PageSharedArena,
    PageArena,
}

impl PageKind {
    /// The single bit that stands for this kind in a tagged pointer.
    pub open spec fn spec_bit(self) -> u64 {
        match self {
            PageKind::PageSharedArena => 0,
            PageKind::PageArena => 1,
        }
    }

    pub fn to_bit(self) -> (r: u64)
        ensures
            r == self.spec_bit(),
    {
        match self {
            PageKind::PageSharedArena => 0,
            PageKind::PageArena => 1,
        }
    }

    pub fn from_tagged(source: PageTaggedPtr) -> (r: PageKind)
        ensures
            r == decode_kind(source.data),
    {
        if source.data >> 63 == 0 {
            PageKind::PageSharedArena
        } else {
            PageKind::PageArena
        }
    }
}

/// The word a tagged page pointer is made of.
#[derive(Clone, Copy)]
pub struct PageTaggedPtr {
    pub data: u64,
}

/// The encoding: clear the seven high bits of the address, then place the
/// 7-bit tag (kind bit above the 6-bit index) in them.
pub open spec fn tag_encode(page_ptr: u64, index: u64, kind_bit: u64) -> u64 {
    (page_ptr & !(0x7fu64 << 57)) | (((kind_bit << 6) | index) << 57)
}

/// Decoding the address: keep the low 57 bits and sign-extend from bit 56.
pub open spec fn decode_page_ptr(data: u64) -> u64 {
    if data & (1u64 << 56) != 0 {
        (data & 0x01ff_ffff_ffff_ffffu64) | 0xfe00_0000_0000_0000u64
    } else {
        data & 0x01ff_ffff_ffff_ffffu64
    }
}

pub open spec fn decode_index(data: u64) -> u64 {
    (data >> 57) & 0x3f
}

pub open spec fn decode_kind(data: u64) -> PageKind {
    if data >> 63 == 0 {
        PageKind::PageSharedArena
    } else {
        PageKind::PageArena
    }
}

/// An address survives the sign-extending decode exactly when its eight high
/// bits already agree with bit 56: all zero or all one.
pub open spec fn canonical(page_ptr: u64) -> bool {
    page_ptr >> 56 == 0 || page_ptr >> 56 == 0xff
}

impl PageTaggedPtr {
    pub fn new(page_ptr: u64, index: u64, kind: PageKind) -> (r: PageTaggedPtr)
        requires
            index < 64,
        ensures
            r.data == tag_encode(page_ptr, index, kind.spec_bit()),
    {
        let kind_bit: u64 = kind.to_bit();
        // Index is 6 bits at most, kind is 1 bit: together a 7-bit tag.
        let tag: u64 = (kind_bit << 6) | index;
        PageTaggedPtr { data: (page_ptr & !(0x7fu64 << 57)) | (tag << 57) }
    }

    /// The page address this pointer was built from.  A null address cannot
    /// be encoded, so a word that decodes to null is outside the contract.
    pub fn page_ptr(self) -> (r: u64)
        requires
            decode_page_ptr(self.data) != 0,
        ensures
            r == decode_page_ptr(self.data),
            r != 0,
    {
        if self.data & (1u64 << 56) != 0 {
            (self.data & 0x01ff_ffff_ffff_ffffu64) | 0xfe00_0000_0000_0000u64
        } else {
            self.data & 0x01ff_ffff_ffff_ffffu64
        }
    }

    pub fn page_kind(self) -> (r: PageKind)
        ensures
            r == decode_kind(self.data),
    {
        PageKind::from_tagged(self)
    }

    pub fn index_block(self) -> (r: u64)
        ensures
            r == decode_index(self.data),
            r < 64,
    {
        proof {
            let d = self.data;
            assert((d >> 57) & 0x3f < 64) by (bit_vector);
        }
        (self.data >> 57) & 0x3f
    }
}

/// Round trip of the tag encoding: for every canonical address, every block
/// index below 64 and either kind, decoding the encoded word gives back the
/// address, the index and the kind unchanged.
pub proof fn lemma_tag_round_trip(page_ptr: u64, index: u64, kind: PageKind)
    requires
        index < 64,
        canonical(page_ptr),
    ensures
        decode_page_ptr(tag_encode(page_ptr, index, kind.spec_bit())) == page_ptr,
        decode_index(tag_encode(page_ptr, index, kind.spec_bit())) == index,
        decode_kind(tag_encode(page_ptr, index, kind.spec_bit())) == kind,
{
    let kb = kind.spec_bit();
    assert(kb == 0 || kb == 1);
    assert(decode_page_ptr(tag_encode(page_ptr, index, kb)) == page_ptr) by (bit_vector)
        requires
            index < 64 && (kb == 0 || kb == 1) && (page_ptr >> 56 == 0 || page_ptr >> 56 == 0xff),
    ;
    assert(decode_index(tag_encode(page_ptr, index, kb)) == index) by (bit_vector)
        requires
            index < 64 && (kb == 0 || kb == 1),
    ;
    assert(tag_encode(page_ptr, index, kb) >> 63 == kb) by (bit_vector)
        requires
            index < 64 && (kb == 0 || kb == 1),
    ;
}

} // verus!
