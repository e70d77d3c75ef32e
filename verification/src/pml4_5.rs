//! Entries of a level 5 or level 4 table: each in use points to a table of
//! the next lower level.

use crate::bits::{bit_is_set, get_bit};
use crate::entry::{entry_valid, ACCESSED_BIT, VALID_BIT};
use crate::page_address::PhysLv1PageAddress;
use crate::table::{Slot, TableMemory};
use vstd::prelude::*;

verus! {

/// The accessed flag of an entry in use.
pub open spec fn spec_flag(word: u64) -> Option<bool> {
    if entry_valid(word) {
        Some(bit_is_set(word, 5))
    } else {
        None
    }
}

/// The frame of the table that the entry points to, if it is in use.
pub fn read_page(memory: &TableMemory, page_level_base_address: PhysLv1PageAddress, index: u16) -> (page:
    Option<PhysLv1PageAddress>)
    requires
        memory.wf(),
        memory.has_table(page_level_base_address@),
        memory.level_of(page_level_base_address@) >= 4,
        index < 512,
    ensures
        match memory.slot_in(page_level_base_address@, index as int) {
            Slot::Table(table) => page matches Some(address) && address@ == table && address.wf(
                memory.spec_platform(),
            ),
            _ => page.is_none(),
        },
{
    let page_entry: u64 = memory.read_entry(
        page_level_base_address.get_address().get_u64(),
        index,
    );
    if get_bit(page_entry, VALID_BIT) {
        Some(PhysLv1PageAddress::new_maskoff(memory.platform(), page_entry))
    } else {
        None
    }
}

/// Returns the accessed flag of an entry in use.
pub fn read_page_flag(
    memory: &TableMemory,
    page_level_base_address: PhysLv1PageAddress,
    index: u16,
) -> (flag: Option<bool>)
    requires
        memory.wf(),
        memory.has_table(page_level_base_address@),
        index < 512,
    ensures
        flag == spec_flag(memory.words_of(page_level_base_address@)[index as int]),
{
    let page_entry: u64 = memory.read_entry(
        page_level_base_address.get_address().get_u64(),
        index,
    );
    if get_bit(page_entry, VALID_BIT) {
        Some(get_bit(page_entry, ACCESSED_BIT))
    } else {
        None
    }
}

/// Makes the frame at `pml3_4_base_address` a table of absent entries, one
/// level below, and points the entry, which was absent, to it.
pub fn write_page_pml3_4(
    memory: &mut TableMemory,
    page_level_base_address: PhysLv1PageAddress,
    index: u16,
    pml3_4_base_address: PhysLv1PageAddress,
)
    requires
        old(memory).wf(),
        old(memory).has_table(page_level_base_address@),
        old(memory).level_of(page_level_base_address@) >= 4,
        index < 512,
        old(memory).slot_in(page_level_base_address@, index as int) is Absent,
        pml3_4_base_address.wf(old(memory).spec_platform()),
        !old(memory).has_table(pml3_4_base_address@),
    ensures
        final(memory).wf(),
        final(memory).linked_from(
            *old(memory),
            page_level_base_address@,
            index as int,
            pml3_4_base_address@,
        ),
{
    memory.link_table(page_level_base_address.get_address().get_u64(), index, pml3_4_base_address);
}

/// Sets the entry to zero, which reads as absent. The table that the entry
/// pointed to has no entry in use; it leaves the store and its frame is
/// returned.
pub fn unmap_page(memory: &mut TableMemory, page_level_base_address: PhysLv1PageAddress, index: u16) -> (freed:
    PhysLv1PageAddress)
    requires
        old(memory).wf(),
        old(memory).has_table(page_level_base_address@),
        index < 512,
        old(memory).slot_in(page_level_base_address@, index as int) is Table,
        old(memory).table_empty(
            old(memory).slot_in(page_level_base_address@, index as int)->Table_0,
        ),
    ensures
        final(memory).wf(),
        old(memory).slot_in(page_level_base_address@, index as int) == Slot::Table(freed@),
        freed.wf(old(memory).spec_platform()),
        final(memory).unlinked_from(
            *old(memory),
            page_level_base_address@,
            index as int,
            freed@,
        ),
{
    memory.unlink_table(page_level_base_address.get_address().get_u64(), index)
}

} // verus!
