//! Entries of a level 3 table: each in use points to a level 2 table or,
//! with the large-page bit, is the leaf of a 1 GiB page.

use crate::bits::{bit_is_set, get_bit};
use crate::entry::{
    entry_valid, leaf_word, spec_leaf_word, unpack_attributes, ACCESSED_BIT, DIRTY_BIT,
    LARGE_PAGE_BIT, PAGE_ATTRIBUTE_TABLE_BIT_LARGE, VALID_BIT,
};
use crate::page_address::{PhysLv1PageAddress, PhysLv3PageAddress};
use crate::paging::PageAttributes;
use crate::table::{Slot, TableMemory};
use vstd::prelude::*;

verus! {

/// What an entry in use holds.
#[derive(Clone, Copy, Debug, PartialEq, Eq, Structural)]
pub enum Pml2Or1G {
    /// The frame of the level 2 table.
    Pml2(PhysLv1PageAddress),
    /// The attributes and the frame of a 1 GiB page.
    G1(PageAttributes, PhysLv3PageAddress),
}

/// The (accessed, dirty) flags of an entry in use. Only a leaf is ever
/// dirty.
pub open spec fn spec_flags(word: u64) -> Option<(bool, bool)> {
    if entry_valid(word) {
        Some((bit_is_set(word, 5), bit_is_set(word, 6) && bit_is_set(word, 7)))
    } else {
        None
    }
}

/// What the entry holds, if it is in use.
pub fn read_page(memory: &TableMemory, page_level_base_address: PhysLv1PageAddress, index: u16) -> (page:
    Option<Pml2Or1G>)
    requires
        memory.wf(),
        memory.has_table(page_level_base_address@),
        memory.level_of(page_level_base_address@) == 3,
        index < 512,
    ensures
        match memory.slot_in(page_level_base_address@, index as int) {
            Slot::Leaf(attributes, frame) => page matches Some(Pml2Or1G::G1(found, address))
                && found == attributes && address@ == frame && address.wf(
                memory.spec_platform(),
            ),
            Slot::Table(table) => page matches Some(Pml2Or1G::Pml2(address)) && address@ == table
                && address.wf(memory.spec_platform()),
            Slot::Absent => page.is_none(),
        },
{
    let page_entry: u64 = memory.read_entry(
        page_level_base_address.get_address().get_u64(),
        index,
    );
    if get_bit(page_entry, VALID_BIT) {
        if get_bit(page_entry, LARGE_PAGE_BIT) {
            Some(
                Pml2Or1G::G1(
                    unpack_attributes(page_entry, PAGE_ATTRIBUTE_TABLE_BIT_LARGE),
                    PhysLv3PageAddress::new_maskoff(memory.platform(), page_entry),
                ),
            )
        } else {
            Some(Pml2Or1G::Pml2(PhysLv1PageAddress::new_maskoff(memory.platform(), page_entry)))
        }
    } else {
        None
    }
}

/// Returns (accessed, dirty) for an entry in use; dirty only for a leaf.
pub fn read_page_flags(
    memory: &TableMemory,
    page_level_base_address: PhysLv1PageAddress,
    index: u16,
) -> (flags: Option<(bool, bool)>)
    requires
        memory.wf(),
        memory.has_table(page_level_base_address@),
        index < 512,
    ensures
        flags == spec_flags(memory.words_of(page_level_base_address@)[index as int]),
{
    let page_entry: u64 = memory.read_entry(
        page_level_base_address.get_address().get_u64(),
        index,
    );
    if get_bit(page_entry, VALID_BIT) {
        Some(
            (
                get_bit(page_entry, ACCESSED_BIT),
                get_bit(page_entry, DIRTY_BIT) && get_bit(page_entry, LARGE_PAGE_BIT),
            ),
        )
    } else {
        None
    }
}

/// Makes the frame at `pml2_base_address` a level 2 table of absent entries and
/// points the entry, which was absent, to it.
pub fn write_page_pml2(
    memory: &mut TableMemory,
    page_level_base_address: PhysLv1PageAddress,
    index: u16,
    pml2_base_address: PhysLv1PageAddress,
)
    requires
        old(memory).wf(),
        old(memory).has_table(page_level_base_address@),
        old(memory).level_of(page_level_base_address@) == 3,
        index < 512,
        old(memory).slot_in(page_level_base_address@, index as int) is Absent,
        pml2_base_address.wf(old(memory).spec_platform()),
        !old(memory).has_table(pml2_base_address@),
    ensures
        final(memory).wf(),
        final(memory).linked_from(
            *old(memory),
            page_level_base_address@,
            index as int,
            pml2_base_address@,
        ),
{
    memory.link_table(page_level_base_address.get_address().get_u64(), index, pml2_base_address);
}

/// Writes the leaf of a 1 GiB page where no table hangs.
pub fn write_page_1g(
    memory: &mut TableMemory,
    page_level_base_address: PhysLv1PageAddress,
    index: u16,
    attributes: PageAttributes,
    phys_address: PhysLv3PageAddress,
)
    requires
        old(memory).wf(),
        old(memory).has_table(page_level_base_address@),
        old(memory).level_of(page_level_base_address@) == 3,
        index < 512,
        !(old(memory).slot_in(page_level_base_address@, index as int) is Table),
        phys_address.wf(old(memory).spec_platform()),
    ensures
        final(memory).wf(),
        final(memory).stored_from(
            *old(memory),
            page_level_base_address@,
            index as int,
            spec_leaf_word(attributes, true, phys_address@),
        ),
        final(memory).slot_in(page_level_base_address@, index as int) == Slot::Leaf(
            attributes,
            phys_address@,
        ),
{
    let page_entry: u64 = leaf_word(attributes, true, phys_address.get_address().get_u64());
    proof {
        TableMemory::lemma_leaf_round_trip(
            memory.spec_platform(),
            3,
            attributes,
            phys_address@,
        );
    }
    memory.store_leaf(page_level_base_address.get_address().get_u64(), index, page_entry);
}

/// Sets the entry, at which no table hangs, to zero, which reads as absent.
pub fn unmap_page(memory: &mut TableMemory, page_level_base_address: PhysLv1PageAddress, index: u16)
    requires
        old(memory).wf(),
        old(memory).has_table(page_level_base_address@),
        old(memory).level_of(page_level_base_address@) == 3,
        index < 512,
        !(old(memory).slot_in(page_level_base_address@, index as int) is Table),
    ensures
        final(memory).wf(),
        final(memory).stored_from(*old(memory), page_level_base_address@, index as int, 0),
        final(memory).slot_in(page_level_base_address@, index as int) == Slot::Absent,
{
    proof {
        crate::entry::lemma_zero_entry();
    }
    memory.store_leaf(page_level_base_address.get_address().get_u64(), index, 0);
}

} // verus!
