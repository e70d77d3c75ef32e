//! Typed physical and virtual addresses checked against a platform's limits,
//! and a multi-level page table built on them: the bit-exact entry codec and
//! the protocol that maps, unmaps and queries ranges of pages.

pub mod attributes;
pub mod bits;
pub mod direct_map;
pub mod entry;
pub mod laws;
pub mod mapping;
pub mod memory;
pub mod page_address;
pub mod paging;
pub mod platform;
pub mod pml1;
pub mod pml2;
pub mod pml3;
pub mod pml4_5;
pub mod protocol;
pub mod query;
pub mod range;
pub mod segment;
pub mod table;
pub mod unmapping;
pub mod walk;
