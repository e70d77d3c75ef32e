//! Changing the attributes of the pages that are mapped in a range.

use crate::entry::{decode_address, leaf_word};
use crate::mapping::{covered, index_of, lemma_chain, lemma_covered_step, lemma_path_ends};
use crate::memory::PhysAddress;
use crate::page_address::lemma_page_mask;
use crate::paging::PageAttributes;
use crate::platform::LV1_PAGE_MASK_4K;
use crate::query::pages_between;
use crate::range::page_at;
use crate::table::{decode_entry, spec_index_at, Slot, TableMemory};
use crate::unmapping::descend;
use crate::walk::{
    lemma_path_table, lemma_resolve_at, lemma_resolve_level, lemma_same_indices_same_path,
    lemma_store_summary, same_indices_from,
};
use vstd::prelude::*;

verus! {

/// Addresses that select the same entries down to the level of the leaf
/// that one of them translates to translate to that same leaf.
pub proof fn lemma_same_leaf(memory: TableMemory, root: u64, a: u64, b: u64)
    requires
        memory.resolve(root, a).is_some(),
        same_indices_from(memory.resolve(root, a).unwrap().0, a, b),
    ensures
        memory.resolve(root, b) == memory.resolve(root, a),
{
    let level = memory.resolve(root, a).unwrap().0;
    assert(same_indices_from(level + 1, a, b)) by {
        assert forall|j: int| level + 1 <= j <= 5 implies #[trigger] spec_index_at(j, a)
            == spec_index_at(j, b) by {}
    }
    lemma_same_indices_same_path(memory, root, a, b, level);
    assert(spec_index_at(level, a) == spec_index_at(level, b));
    lemma_resolve_level(memory, root, a, level);
    lemma_resolve_at(memory, root, a, level);
    lemma_resolve_at(memory, root, b, level);
}

/// Selecting the same entries is mutual.
pub proof fn lemma_same_indices_symmetric(level: int, a: u64, b: u64)
    requires
        same_indices_from(level, a, b),
    ensures
        same_indices_from(level, b, a),
{
    assert forall|j: int| level <= j <= 5 implies #[trigger] spec_index_at(j, b) == spec_index_at(
        j,
        a,
    ) by {
        assert(spec_index_at(j, a) == spec_index_at(j, b));
    }
}

/// Gives the leaf that `address` translates to the attributes `attributes`
/// and keeps its frame. Changes nothing where `address` is not mapped.
pub fn update_at(memory: &mut TableMemory, root: u64, address: u64, attributes: PageAttributes)
    requires
        old(memory).wf(),
        old(memory).has_root(root),
    ensures
        final(memory).wf(),
        final(memory).spec_platform() == old(memory).spec_platform(),
        forall|r: u64| #[trigger] final(memory).has_root(r) == old(memory).has_root(r),
        forall|x: u64| #[trigger] final(memory).has_table(x) == old(memory).has_table(x),
        forall|r: u64, va: u64|
            old(memory).has_root(r) ==> #[trigger] final(memory).resolve(r, va) == (match old(
                memory,
            ).resolve(root, address) {
                Some(found) => if r == root && same_indices_from(found.0, address, va) {
                    Some((found.0, attributes, found.2))
                } else {
                    old(memory).resolve(r, va)
                },
                None => old(memory).resolve(r, va),
            }),
{
    let ghost first = *memory;
    let ghost platform = memory.spec_platform();
    let indices = decode_address(address);
    let path = descend(memory, root, address, 1);
    let level: u8 = (6 - path.len()) as u8;
    let table: u64 = path[path.len() - 1];
    let index: u16 = index_of(indices, level);
    proof {
        assert(first.table_on_path(root, address, level as int) == Some(path@[path@.len() - 1]));
        lemma_chain(first, root, address, level as int);
        lemma_path_table(first, root, address, level as int);
        lemma_resolve_level(first, root, address, 1);
        lemma_resolve_level(first, root, address, 2);
        lemma_resolve_level(first, root, address, 3);
        if level > 1 {
            lemma_path_ends(first, root, address, level as int);
        }
    }
    let entry: u64 = memory.read_entry(table, index);
    let frame: u64 = match decode_entry(memory.platform(), level, entry) {
        Slot::Leaf(_, frame) => frame,
        _ => {
            return ;
        },
    };
    proof {
        lemma_resolve_at(first, root, address, level as int);
        lemma_page_mask(crate::query::page_mask_of(level as int), platform.spec_phys_mask(), entry);
        PhysAddress::lemma_masked_fits(platform, entry & crate::query::page_mask_of(level as int));
        TableMemory::lemma_leaf_round_trip(platform, level as int, attributes, frame);
    }
    let word: u64 = leaf_word(attributes, level >= 2, frame);
    memory.store_leaf(table, index, word);
    proof {
        let after = *memory;
        assert forall|r: u64| #[trigger] after.has_root(r) == first.has_root(r) by {
            if first.has_table(r) {
                assert(after.has_table(r));
                assert(after.level_of(r) == first.level_of(r));
            }
        }
        assert forall|x: u64| #[trigger] after.has_table(x) == first.has_table(x) by {
            if first.has_table(x) {
                assert(after.has_table(x));
            }
        }
        assert forall|r: u64, va: u64| first.has_root(r) implies #[trigger] after.resolve(r, va)
            == (if r == root && same_indices_from(level as int, address, va) {
            Some((level as int, attributes, frame))
        } else {
            first.resolve(r, va)
        }) by {
            lemma_store_summary(
                first,
                after,
                table,
                index as int,
                word,
                root,
                address,
                level as int,
                r,
                va,
            );
            if r == root && same_indices_from(level as int, address, va) {
                lemma_resolve_at(after, root, va, level as int);
            }
        }
    }
}

/// What a leaf becomes when the attributes of a range are updated: it gets
/// `attributes` where it is in the address space of `root` and one of the
/// first `count` 4 KiB pages from `base` on lies in its page, and keeps its
/// own otherwise. The level and the frame stay.
pub open spec fn updated(
    found: Option<(int, PageAttributes, u64)>,
    touched_root: bool,
    base: u64,
    count: int,
    attributes: PageAttributes,
    address: u64,
) -> Option<(int, PageAttributes, u64)> {
    match found {
        Some(leaf) => if touched_root && covered(base, 1, count, leaf.0, address) {
            Some((leaf.0, attributes, leaf.2))
        } else {
            found
        },
        None => None,
    }
}

/// Gives every leaf that maps an address from the page of `start` up to,
/// but without, `end` the attributes `attributes`. A leaf of a large page
/// is updated as a whole; none is split.
pub fn update_range(
    memory: &mut TableMemory,
    root: u64,
    start: u64,
    end: u64,
    attributes: PageAttributes,
)
    requires
        old(memory).wf(),
        old(memory).has_root(root),
    ensures
        final(memory).wf(),
        final(memory).spec_platform() == old(memory).spec_platform(),
        forall|r: u64| #[trigger] final(memory).has_root(r) == old(memory).has_root(r),
        forall|x: u64| #[trigger] final(memory).has_table(x) == old(memory).has_table(x),
        forall|r: u64, va: u64|
            old(memory).has_root(r) ==> #[trigger] final(memory).resolve(r, va) == updated(
                old(memory).resolve(r, va),
                r == root,
                start & LV1_PAGE_MASK_4K,
                pages_between(start, end),
                attributes,
                va,
            ),
{
    let ghost first = *memory;
    let base: u64 = start & LV1_PAGE_MASK_4K;
    let count: u64 = if end <= base {
        0
    } else {
        (end - base - 1) / 4096 + 1
    };
    let mut done: u64 = 0;
    proof {
        assert forall|r: u64, va: u64| first.has_root(r) implies first.resolve(r, va) == updated(
            first.resolve(r, va),
            r == root,
            base,
            0,
            attributes,
            va,
        ) by {}
    }
    while done < count
        invariant
            first.wf(),
            first.has_root(root),
            base == start & LV1_PAGE_MASK_4K,
            count == pages_between(start, end),
            count > 0 ==> base + (count - 1) * 4096 <= u64::MAX,
            done <= count,
            memory.wf(),
            memory.spec_platform() == first.spec_platform(),
            forall|r: u64| #[trigger] memory.has_root(r) == first.has_root(r),
            forall|x: u64| #[trigger] memory.has_table(x) == first.has_table(x),
            forall|r: u64, va: u64|
                first.has_root(r) ==> #[trigger] memory.resolve(r, va) == updated(
                    first.resolve(r, va),
                    r == root,
                    base,
                    done as int,
                    attributes,
                    va,
                ),
        decreases count - done,
    {
        let ghost here = *memory;
        let address: u64 = base + done * 4096;
        proof {
            assert(address == page_at(base, 1, done as int));
            assert(here.has_root(root));
        }
        update_at(memory, root, address, attributes);
        proof {
            let after = *memory;
            assert forall|r: u64, va: u64| first.has_root(r) implies #[trigger] after.resolve(
                r,
                va,
            ) == updated(first.resolve(r, va), r == root, base, done + 1, attributes, va) by {
                assert(here.has_root(r));
                assert(here.resolve(r, va) == updated(
                    first.resolve(r, va),
                    r == root,
                    base,
                    done as int,
                    attributes,
                    va,
                ));
                assert(here.resolve(root, address) == updated(
                    first.resolve(root, address),
                    true,
                    base,
                    done as int,
                    attributes,
                    address,
                ));
                if let Some(leaf) = first.resolve(r, va) {
                    lemma_covered_step(base, 1, done as int, leaf.0, va);
                    if r == root && same_indices_from(leaf.0, address, va) {
                        lemma_same_indices_symmetric(leaf.0, address, va);
                        lemma_same_leaf(first, root, va, address);
                    }
                }
                if let Some(target) = first.resolve(root, address) {
                    if r == root && same_indices_from(target.0, address, va) {
                        lemma_same_leaf(first, root, address, va);
                    }
                }
            }
        }
        done = done + 1;
    }
}

} // verus!
