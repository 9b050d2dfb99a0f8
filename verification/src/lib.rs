//! Core of a page-based slab allocator with reference-counted handles.
//!
//! The allocator carves fixed-size pages of blocks out of memory, tracks
//! free blocks with a single machine-word bitfield per page, and hands out
//! shared-ownership handles that reach back to their page through a tagged
//! pointer.  This crate models that fabric over plain values: page memory
//! lives in a [`heap::Heap`], addresses are machine words, and every state
//! transition of the protocol is stated and proved.

pub mod arena_arc;
pub mod heap;
pub mod page;
pub mod tagged_ptr;
