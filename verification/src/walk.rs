//! What the tree shape of a table store says about walks, and how each
//! change of the store shows in them.

use crate::table::{spec_decode, spec_index_at, Slot, TableMemory};
use vstd::prelude::*;

verus! {

/// Whether two addresses select the same entry at `level` and at every level
/// above it.
pub open spec fn same_indices_from(level: int, a: u64, b: u64) -> bool {
    forall|j: int| level <= j <= 5 ==> #[trigger] spec_index_at(j, a) == spec_index_at(j, b)
}

/// An index is below 512.
pub proof fn lemma_index_range(level: int, address: u64)
    ensures
        0 <= spec_index_at(level, address) < 512,
{
    assert({
        &&& (address >> 48) & 0x1FF < 512
        &&& (address >> 39) & 0x1FF < 512
        &&& (address >> 30) & 0x1FF < 512
        &&& (address >> 21) & 0x1FF < 512
        &&& (address >> 12) & 0x1FF < 512
    }) by (bit_vector);
}

/// A table on the way from a root is a table of the store and has the level
/// at which the walk meets it.
pub proof fn lemma_path_table(memory: TableMemory, root: u64, address: u64, level: int)
    requires
        memory.wf(),
        memory.has_root(root),
        1 <= level <= 5,
        memory.table_on_path(root, address, level).is_some(),
    ensures
        memory.has_table(memory.table_on_path(root, address, level).unwrap()),
        memory.level_of(memory.table_on_path(root, address, level).unwrap()) == level,
    decreases 5 - level,
{
    if level < 5 {
        lemma_path_table(memory, root, address, level + 1);
        let above = memory.table_on_path(root, address, level + 1).unwrap();
        lemma_index_range(level + 1, address);
        assert(memory.edge_ok(above, spec_index_at(level + 1, address)));
    }
}

/// No table is reached twice: where the walks to two addresses from two
/// roots meet the same table at `level`, the roots are one and the
/// addresses select the same entries above that level.
pub proof fn lemma_path_unique(
    memory: TableMemory,
    root_a: u64,
    a: u64,
    root_b: u64,
    b: u64,
    level: int,
)
    requires
        memory.wf(),
        memory.has_root(root_a),
        memory.has_root(root_b),
        1 <= level <= 5,
        memory.table_on_path(root_a, a, level).is_some(),
        memory.table_on_path(root_a, a, level) == memory.table_on_path(root_b, b, level),
    ensures
        root_a == root_b,
        same_indices_from(level + 1, a, b),
    decreases 5 - level,
{
    if level < 5 {
        let above_a = memory.table_on_path(root_a, a, level + 1).unwrap();
        let above_b = memory.table_on_path(root_b, b, level + 1).unwrap();
        lemma_path_table(memory, root_a, a, level + 1);
        lemma_path_table(memory, root_b, b, level + 1);
        lemma_index_range(level + 1, a);
        lemma_index_range(level + 1, b);
        assert(memory.edge_ok(above_a, spec_index_at(level + 1, a)));
        assert(memory.edge_ok(above_b, spec_index_at(level + 1, b)));
        assert(above_a == above_b);
        lemma_path_unique(memory, root_a, a, root_b, b, level + 1);
        assert forall|j: int| level + 1 <= j <= 5 implies #[trigger] spec_index_at(j, a)
            == spec_index_at(j, b) by {
            if j > level + 1 {
                assert(same_indices_from(level + 2, a, b));
            }
        }
    }
}

/// The converse: addresses that select the same entries above `level` meet
/// the same table there.
pub proof fn lemma_same_indices_same_path(
    memory: TableMemory,
    root: u64,
    a: u64,
    b: u64,
    level: int,
)
    requires
        1 <= level <= 5,
        same_indices_from(level + 1, a, b),
    ensures
        memory.table_on_path(root, a, level) == memory.table_on_path(root, b, level),
    decreases 5 - level,
{
    if level < 5 {
        assert(same_indices_from(level + 2, a, b));
        lemma_same_indices_same_path(memory, root, a, b, level + 1);
        assert(spec_index_at(level + 1, a) == spec_index_at(level + 1, b));
    }
}

/// Storing a leaf or clearing an entry where no table hangs leaves every
/// way through the tables as it is, and changes what is found at the end of
/// a walk only for the walks that end at that entry.
pub proof fn lemma_store_effect(
    before: TableMemory,
    after: TableMemory,
    table: u64,
    index: int,
    word: u64,
    root: u64,
    address: u64,
    level: int,
)
    requires
        before.wf(),
        before.has_table(table),
        0 <= index < 512,
        !(before.slot_in(table, index) is Table),
        !(spec_decode(before.spec_platform(), before.level_of(table), word) is Table),
        after.stored_from(before, table, index, word),
        before.has_root(root),
        1 <= level <= 5,
    ensures
        after.table_on_path(root, address, level) == before.table_on_path(root, address, level),
        after.slot_on_path(root, address, level) == (if before.table_on_path(root, address, level)
            == Some(table) && spec_index_at(level, address) == index {
            spec_decode(before.spec_platform(), before.level_of(table), word)
        } else {
            before.slot_on_path(root, address, level)
        }),
    decreases 5 - level,
{
    if level < 5 {
        lemma_store_effect(before, after, table, index, word, root, address, level + 1);
        if before.table_on_path(root, address, level + 1).is_some() {
            let above = before.table_on_path(root, address, level + 1).unwrap();
            lemma_path_table(before, root, address, level + 1);
            lemma_index_range(level + 1, address);
            let i = spec_index_at(level + 1, address);
            assert(after.level_of(above) == before.level_of(above));
            if !(above == table && i == index) {
                assert(after.words_of(above)[i] == before.words_of(above)[i]);
            }
        }
    }
    if before.table_on_path(root, address, level).is_some() {
        let here = before.table_on_path(root, address, level).unwrap();
        lemma_path_table(before, root, address, level);
        lemma_index_range(level, address);
        let i = spec_index_at(level, address);
        assert(after.level_of(here) == before.level_of(here));
        if !(here == table && i == index) {
            assert(after.words_of(here)[i] == before.words_of(here)[i]);
        }
    }
}

/// Linking a new table adds that table to the walks that pass the entry,
/// which end there as they ended before, and changes no other walk.
pub proof fn lemma_link_effect(
    before: TableMemory,
    after: TableMemory,
    table: u64,
    index: int,
    child: u64,
    root: u64,
    address: u64,
    level: int,
)
    requires
        before.wf(),
        before.has_table(table),
        0 <= index < 512,
        before.slot_in(table, index) is Absent,
        !before.has_table(child),
        after.linked_from(before, table, index, child),
        before.has_root(root),
        1 <= level <= 5,
    ensures
        after.table_on_path(root, address, level) == (if level < 5 && before.table_on_path(
            root,
            address,
            level + 1,
        ) == Some(table) && spec_index_at(level + 1, address) == index {
            Some(child)
        } else {
            before.table_on_path(root, address, level)
        }),
        after.slot_on_path(root, address, level) == (if before.table_on_path(root, address, level)
            == Some(table) && spec_index_at(level, address) == index {
            Slot::Table(child)
        } else {
            before.slot_on_path(root, address, level)
        }),
    decreases 5 - level,
{
    crate::entry::lemma_zero_entry();
    if level < 5 {
        lemma_link_effect(before, after, table, index, child, root, address, level + 1);
        lemma_index_range(level + 1, address);
        let i = spec_index_at(level + 1, address);
        if before.table_on_path(root, address, level + 1).is_some() {
            let above = before.table_on_path(root, address, level + 1).unwrap();
            lemma_path_table(before, root, address, level + 1);
            assert(after.level_of(above) == before.level_of(above));
            if !(above == table && i == index) {
                assert(after.words_of(above)[i] == before.words_of(above)[i]);
            }
        } else if after.table_on_path(root, address, level + 1).is_some() {
            assert(after.table_on_path(root, address, level + 1) == Some(child));
            assert(after.words_of(child)[i] == 0);
        }
    }
    lemma_index_range(level, address);
    let i = spec_index_at(level, address);
    if before.table_on_path(root, address, level).is_some() {
        let here = before.table_on_path(root, address, level).unwrap();
        lemma_path_table(before, root, address, level);
        assert(after.level_of(here) == before.level_of(here));
        if !(here == table && i == index) {
            assert(after.words_of(here)[i] == before.words_of(here)[i]);
        }
    } else if after.table_on_path(root, address, level).is_some() {
        assert(after.table_on_path(root, address, level) == Some(child));
        assert(after.words_of(child)[i] == 0);
    }
}

/// Unlinking a table without an entry in use takes that table out of the
/// walks that passed it, which end at an absent entry as they did before,
/// and changes no other walk.
pub proof fn lemma_unlink_effect(
    before: TableMemory,
    after: TableMemory,
    table: u64,
    index: int,
    child: u64,
    root: u64,
    address: u64,
    level: int,
)
    requires
        before.wf(),
        before.has_table(table),
        0 <= index < 512,
        before.slot_in(table, index) == Slot::Table(child),
        before.table_empty(child),
        after.unlinked_from(before, table, index, child),
        before.has_root(root),
        1 <= level <= 5,
    ensures
        after.table_on_path(root, address, level) == (if before.table_on_path(root, address, level)
            == Some(child) {
            None
        } else {
            before.table_on_path(root, address, level)
        }),
        after.slot_on_path(root, address, level) == (if before.table_on_path(root, address, level)
            == Some(table) && spec_index_at(level, address) == index {
            Slot::Absent
        } else {
            before.slot_on_path(root, address, level)
        }),
    decreases 5 - level,
{
    crate::entry::lemma_zero_entry();
    assert(before.edge_ok(table, index));
    if level < 5 {
        lemma_unlink_effect(before, after, table, index, child, root, address, level + 1);
        lemma_index_range(level + 1, address);
        let i = spec_index_at(level + 1, address);
        if before.table_on_path(root, address, level + 1).is_some() {
            let above = before.table_on_path(root, address, level + 1).unwrap();
            lemma_path_table(before, root, address, level + 1);
            assert(before.edge_ok(above, i));
            if above == child {
                assert(!crate::entry::entry_valid(before.words_of(child)[i]));
            } else {
                assert(after.has_table(above));
                assert(after.level_of(above) == before.level_of(above));
                if !(above == table && i == index) {
                    assert(after.words_of(above)[i] == before.words_of(above)[i]);
                }
            }
        }
    } else {
        assert(before.level_of(child) == before.level_of(table) - 1);
        assert(root != child);
    }
    lemma_index_range(level, address);
    let i = spec_index_at(level, address);
    if before.table_on_path(root, address, level).is_some() {
        let here = before.table_on_path(root, address, level).unwrap();
        lemma_path_table(before, root, address, level);
        if here == child {
            assert(!crate::entry::entry_valid(before.words_of(child)[i]));
        } else {
            assert(after.has_table(here));
            assert(after.level_of(here) == before.level_of(here));
            if !(here == table && i == index) {
                assert(after.words_of(here)[i] == before.words_of(here)[i]);
            }
        }
    }
}

/// Whether a page of `leaf_level` cannot be mapped at `address`: the entry
/// that would hold its leaf is in use, or a leaf of a larger page already
/// covers the address.
pub open spec fn blocked(memory: TableMemory, root: u64, address: u64, leaf_level: int) -> bool {
    ||| !(memory.slot_on_path(root, address, leaf_level) is Absent)
    ||| (leaf_level < 3 && memory.slot_on_path(root, address, 3) is Leaf)
    ||| (leaf_level < 2 && memory.slot_on_path(root, address, 2) is Leaf)
}

/// 1 where the walk to `address` finds no table of `level`, 0 where it finds
/// one.
pub open spec fn gap(memory: TableMemory, root: u64, address: u64, level: int) -> int {
    if memory.table_on_path(root, address, level).is_none() {
        1
    } else {
        0
    }
}

/// The number of tables that are missing on the way to the entry of a page
/// of `leaf_level` at `address`: one for each level from 4 down to
/// `leaf_level` at which the walk finds no table.
pub open spec fn missing_tables(
    memory: TableMemory,
    root: u64,
    address: u64,
    leaf_level: int,
) -> int {
    gap(memory, root, address, 4) + (if leaf_level <= 3 {
        gap(memory, root, address, 3)
    } else {
        0
    }) + (if leaf_level <= 2 {
        gap(memory, root, address, 2)
    } else {
        0
    }) + (if leaf_level <= 1 {
        gap(memory, root, address, 1)
    } else {
        0
    })
}

/// What linking a new table on the way to `owner` does to the walk to any
/// address from any root: it translates to what it did; it is as blocked
/// as it was for pages of the levels below the linking table; and it finds
/// the tables it found, and the new one where it selects the same entries as
/// `owner` down to the linking entry.
pub proof fn lemma_link_summary(
    before: TableMemory,
    after: TableMemory,
    table: u64,
    index: int,
    child: u64,
    owner_root: u64,
    owner: u64,
    link_level: int,
    root: u64,
    address: u64,
)
    requires
        before.wf(),
        before.has_table(table),
        before.slot_in(table, index) is Absent,
        !before.has_table(child),
        after.linked_from(before, table, index, child),
        before.has_root(owner_root),
        before.has_root(root),
        2 <= link_level <= 5,
        before.table_on_path(owner_root, owner, link_level) == Some(table),
        spec_index_at(link_level, owner) == index,
    ensures
        after.resolve(root, address) == before.resolve(root, address),
        forall|leaf_level: int|
            1 <= leaf_level < link_level && leaf_level <= 3 ==> #[trigger] blocked(
                after,
                root,
                address,
                leaf_level,
            ) == blocked(before, root, address, leaf_level),
        forall|level: int|
            1 <= level <= 5 ==> #[trigger] after.table_on_path(root, address, level) == (
            if before.table_on_path(root, address, level).is_some() {
                before.table_on_path(root, address, level)
            } else if root == owner_root && level == link_level - 1 && same_indices_from(
                link_level,
                owner,
                address,
            ) {
                Some(child)
            } else {
                None
            }),
{
    lemma_index_range(link_level, owner);
    lemma_link_effect(before, after, table, index, child, root, address, 1);
    lemma_link_effect(before, after, table, index, child, root, address, 2);
    lemma_link_effect(before, after, table, index, child, root, address, 3);
    lemma_link_effect(before, after, table, index, child, root, address, 4);
    lemma_link_effect(before, after, table, index, child, root, address, 5);
    lemma_path_table(before, owner_root, owner, link_level);
    assert forall|level: int| 1 <= level <= 5 implies #[trigger] after.table_on_path(
        root,
        address,
        level,
    ) == (if before.table_on_path(root, address, level).is_some() {
        before.table_on_path(root, address, level)
    } else if root == owner_root && level == link_level - 1 && same_indices_from(
        link_level,
        owner,
        address,
    ) {
        Some(child)
    } else {
        None
    }) by {
        if level < 5 && before.table_on_path(root, address, level + 1) == Some(table)
            && spec_index_at(level + 1, address) == index {
            lemma_path_table(before, root, address, level + 1);
            lemma_path_unique(before, owner_root, owner, root, address, link_level);
            assert forall|j: int| link_level <= j <= 5 implies #[trigger] spec_index_at(j, owner)
                == spec_index_at(j, address) by {
                if j > link_level {
                    assert(same_indices_from(link_level + 1, owner, address));
                }
            }
        } else if root == owner_root && level == link_level - 1 && same_indices_from(
            link_level,
            owner,
            address,
        ) {
            assert(same_indices_from(link_level + 1, owner, address)) by {
                assert forall|j: int| link_level + 1 <= j <= 5 implies #[trigger] spec_index_at(
                    j,
                    owner,
                ) == spec_index_at(j, address) by {}
            }
            lemma_same_indices_same_path(before, root, owner, address, link_level);
            assert(spec_index_at(link_level, owner) == spec_index_at(link_level, address));
        }
    }
    if before.table_on_path(root, address, 3) == Some(table) {
        lemma_path_table(before, root, address, 3);
    }
    if before.table_on_path(root, address, 2) == Some(table) {
        lemma_path_table(before, root, address, 2);
    }
    if before.table_on_path(root, address, 1) == Some(table) {
        lemma_path_table(before, root, address, 1);
    }
}

/// What storing an entry that is no table pointer, where none was, at the
/// entry of `level` on the way to `owner` does to the walk to any address
/// from any root: it finds the tables it found, and the entries it found
/// but for the stored one, which the walks that select the same entries as
/// `owner` down to `level` now find.
pub proof fn lemma_store_summary(
    before: TableMemory,
    after: TableMemory,
    table: u64,
    index: int,
    word: u64,
    owner_root: u64,
    owner: u64,
    store_level: int,
    root: u64,
    address: u64,
)
    requires
        before.wf(),
        before.has_table(table),
        !(before.slot_in(table, index) is Table),
        !(spec_decode(before.spec_platform(), store_level, word) is Table),
        after.stored_from(before, table, index, word),
        before.has_root(owner_root),
        before.has_root(root),
        1 <= store_level <= 5,
        before.table_on_path(owner_root, owner, store_level) == Some(table),
        spec_index_at(store_level, owner) == index,
    ensures
        forall|level: int|
            1 <= level <= 5 ==> #[trigger] after.table_on_path(root, address, level)
                == before.table_on_path(root, address, level),
        forall|level: int|
            1 <= level <= 5 ==> #[trigger] after.slot_on_path(root, address, level) == (if root
                == owner_root && level == store_level && same_indices_from(
                store_level,
                owner,
                address,
            ) {
                spec_decode(before.spec_platform(), store_level, word)
            } else {
                before.slot_on_path(root, address, level)
            }),
{
    lemma_index_range(store_level, owner);
    lemma_path_table(before, owner_root, owner, store_level);
    lemma_store_effect(before, after, table, index, word, root, address, 1);
    lemma_store_effect(before, after, table, index, word, root, address, 2);
    lemma_store_effect(before, after, table, index, word, root, address, 3);
    lemma_store_effect(before, after, table, index, word, root, address, 4);
    lemma_store_effect(before, after, table, index, word, root, address, 5);
    assert forall|level: int| 1 <= level <= 5 implies #[trigger] after.slot_on_path(
        root,
        address,
        level,
    ) == (if root == owner_root && level == store_level && same_indices_from(
        store_level,
        owner,
        address,
    ) {
        spec_decode(before.spec_platform(), store_level, word)
    } else {
        before.slot_on_path(root, address, level)
    }) by {
        if before.table_on_path(root, address, level) == Some(table) && spec_index_at(
            level,
            address,
        ) == index {
            lemma_path_table(before, root, address, level);
            lemma_path_unique(before, owner_root, owner, root, address, store_level);
            assert forall|j: int| store_level <= j <= 5 implies #[trigger] spec_index_at(j, owner)
                == spec_index_at(j, address) by {
                if j > store_level {
                    assert(same_indices_from(store_level + 1, owner, address));
                }
            }
        } else if root == owner_root && level == store_level && same_indices_from(
            store_level,
            owner,
            address,
        ) {
            assert(same_indices_from(store_level + 1, owner, address)) by {
                assert forall|j: int| store_level + 1 <= j <= 5 implies #[trigger] spec_index_at(
                    j,
                    owner,
                ) == spec_index_at(j, address) by {}
            }
            lemma_same_indices_same_path(before, root, owner, address, store_level);
            assert(spec_index_at(store_level, owner) == spec_index_at(store_level, address));
        }
    }
}

/// What unlinking a table without an entry in use does to the walk to any
/// address from any root: it translates to what it did, and it finds the
/// tables it found but for the unlinked one.
pub proof fn lemma_unlink_summary(
    before: TableMemory,
    after: TableMemory,
    table: u64,
    index: int,
    child: u64,
    root: u64,
    address: u64,
)
    requires
        before.wf(),
        before.has_table(table),
        0 <= index < 512,
        before.slot_in(table, index) == Slot::Table(child),
        before.table_empty(child),
        after.unlinked_from(before, table, index, child),
        before.has_root(root),
    ensures
        after.resolve(root, address) == before.resolve(root, address),
        forall|level: int|
            1 <= level <= 5 ==> #[trigger] after.table_on_path(root, address, level) == (
            if before.table_on_path(root, address, level) == Some(child) {
                None
            } else {
                before.table_on_path(root, address, level)
            }),
        forall|level: int|
            1 <= level <= 5 ==> (#[trigger] after.slot_on_path(root, address, level) is Leaf)
                == (before.slot_on_path(root, address, level) is Leaf),
{
    lemma_unlink_effect(before, after, table, index, child, root, address, 1);
    lemma_unlink_effect(before, after, table, index, child, root, address, 2);
    lemma_unlink_effect(before, after, table, index, child, root, address, 3);
    lemma_unlink_effect(before, after, table, index, child, root, address, 4);
    lemma_unlink_effect(before, after, table, index, child, root, address, 5);
}

/// A walk that ends at a leaf of `level` passes a table pointer at every
/// level above and translates to that leaf.
pub proof fn lemma_resolve_at(memory: TableMemory, root: u64, address: u64, level: int)
    requires
        1 <= level <= 3,
        memory.slot_on_path(root, address, level) is Leaf,
    ensures
        memory.resolve(root, address) == Some(
            (
                level,
                memory.slot_on_path(root, address, level)->Leaf_0,
                memory.slot_on_path(root, address, level)->Leaf_1,
            ),
        ),
        memory.table_on_path(root, address, level).is_some(),
{
    reveal_with_fuel(TableMemory::table_on_path, 4);
}

/// A walk translates to a leaf of `level` exactly when the entry it finds
/// at that level is a leaf.
pub proof fn lemma_resolve_level(memory: TableMemory, root: u64, address: u64, level: int)
    requires
        1 <= level <= 3,
    ensures
        (memory.resolve(root, address) matches Some(found) && found.0 == level)
            <==> memory.slot_on_path(root, address, level) is Leaf,
        memory.resolve(root, address).is_some() ==> blocked(memory, root, address, level),
{
    reveal_with_fuel(TableMemory::table_on_path, 4);
    if memory.slot_on_path(root, address, 3) is Leaf {
        lemma_resolve_at(memory, root, address, 3);
    } else if memory.slot_on_path(root, address, 2) is Leaf {
        lemma_resolve_at(memory, root, address, 2);
    } else if memory.slot_on_path(root, address, 1) is Leaf {
        lemma_resolve_at(memory, root, address, 1);
    }
}

} // verus!
