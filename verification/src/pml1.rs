//! Entries of a level 1 table: each in use is the leaf of a 4 KiB page.

use crate::bits::{bit_is_set, get_bit};
use crate::entry::{
    entry_valid, leaf_word, spec_leaf_word, unpack_attributes, ACCESSED_BIT, DIRTY_BIT,
    PAGE_ATTRIBUTE_TABLE_BIT_4K, VALID_BIT,
};
use crate::page_address::PhysLv1PageAddress;
use crate::paging::PageAttributes;
use crate::table::{Slot, TableMemory};
use vstd::prelude::*;

verus! {

/// The (accessed, dirty) flags of an entry in use.
pub open spec fn spec_flags(word: u64) -> Option<(bool, bool)> {
    if entry_valid(word) {
        Some((bit_is_set(word, 5), bit_is_set(word, 6)))
    } else {
        None
    }
}

/// The page that the entry maps, if it is in use.
pub fn read_page(memory: &TableMemory, page_level_base_address: PhysLv1PageAddress, index: u16) -> (page:
    Option<(PageAttributes, PhysLv1PageAddress)>)
    requires
        memory.wf(),
        memory.has_table(page_level_base_address@),
        memory.level_of(page_level_base_address@) == 1,
        index < 512,
    ensures
        match memory.slot_in(page_level_base_address@, index as int) {
            Slot::Leaf(attributes, frame) => page matches Some(found) && found.0 == attributes
                && found.1@ == frame && found.1.wf(memory.spec_platform()),
            _ => page.is_none(),
        },
{
    let page_entry: u64 = memory.read_entry(
        page_level_base_address.get_address().get_u64(),
        index,
    );
    if get_bit(page_entry, VALID_BIT) {
        Some(
            (
                unpack_attributes(page_entry, PAGE_ATTRIBUTE_TABLE_BIT_4K),
                PhysLv1PageAddress::new_maskoff(memory.platform(), page_entry),
            ),
        )
    } else {
        None
    }
}

/// Returns (accessed, dirty) for an entry in use.
pub fn read_page_flags(
    memory: &TableMemory,
    page_level_base_address: PhysLv1PageAddress,
    index: u16,
) -> (flags: Option<(bool, bool)>)
    requires
        memory.wf(),
        memory.has_table(page_level_base_address@),
        index < 512,
    ensures
        flags == spec_flags(memory.words_of(page_level_base_address@)[index as int]),
{
    let page_entry: u64 = memory.read_entry(
        page_level_base_address.get_address().get_u64(),
        index,
    );
    if get_bit(page_entry, VALID_BIT) {
        Some((get_bit(page_entry, ACCESSED_BIT), get_bit(page_entry, DIRTY_BIT)))
    } else {
        None
    }
}

/// Writes the leaf of a 4 KiB page.
pub fn write_page(
    memory: &mut TableMemory,
    page_level_base_address: PhysLv1PageAddress,
    index: u16,
    attributes: PageAttributes,
    phys_address: PhysLv1PageAddress,
)
    requires
        old(memory).wf(),
        old(memory).has_table(page_level_base_address@),
        old(memory).level_of(page_level_base_address@) == 1,
        index < 512,
        phys_address.wf(old(memory).spec_platform()),
    ensures
        final(memory).wf(),
        final(memory).stored_from(
            *old(memory),
            page_level_base_address@,
            index as int,
            spec_leaf_word(attributes, false, phys_address@),
        ),
        final(memory).slot_in(page_level_base_address@, index as int) == Slot::Leaf(
            attributes,
            phys_address@,
        ),
{
    let page_entry: u64 = leaf_word(attributes, false, phys_address.get_address().get_u64());
    proof {
        TableMemory::lemma_leaf_round_trip(
            memory.spec_platform(),
            1,
            attributes,
            phys_address@,
        );
    }
    memory.store_leaf(page_level_base_address.get_address().get_u64(), index, page_entry);
}

/// Sets the entry to zero, which reads as absent.
pub fn unmap_page(memory: &mut TableMemory, page_level_base_address: PhysLv1PageAddress, index: u16)
    requires
        old(memory).wf(),
        old(memory).has_table(page_level_base_address@),
        old(memory).level_of(page_level_base_address@) == 1,
        index < 512,
    ensures
        final(memory).wf(),
        final(memory).stored_from(*old(memory), page_level_base_address@, index as int, 0),
        final(memory).slot_in(page_level_base_address@, index as int) == Slot::Absent,
{
    proof {
        crate::entry::lemma_zero_entry();
    }
    memory.store_leaf(page_level_base_address.get_address().get_u64(), index, 0);
}

} // verus!
