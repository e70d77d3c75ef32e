//! Establishing mappings: one page at a time down the tree, and ranges of
//! pages with every precondition checked before the first change.

use crate::bits::get_bit;
use crate::entry::{decode_address, leaf_word};
use crate::memory::VirtAddress;
use crate::page_address::PhysLv1PageAddress;
use crate::paging::{PageAttributes, PagingErros};
use crate::platform::Platform;
use crate::query::page_mask_of;
use crate::range::{
    lemma_pages_contiguous, lemma_pages_distinct, lemma_range_page, page_at, page_bytes,
    range_fits,
};
use crate::table::{decode_entry, spec_decode, spec_index_at, Slot, TableMemory};
use crate::walk::{
    blocked, gap, lemma_link_summary, lemma_path_table, lemma_store_summary, missing_tables,
    same_indices_from,
};
use vstd::prelude::*;

verus! {

/// The index that one of the five indices of an address is for `level`.
pub fn index_of(indices: (u16, u16, u16, u16, u16), level: u8) -> (index: u16)
    requires
        1 <= level <= 5,
    ensures
        index == (if level == 5 {
            indices.0
        } else if level == 4 {
            indices.1
        } else if level == 3 {
            indices.2
        } else if level == 2 {
            indices.3
        } else {
            indices.4
        }),
{
    if level == 5 {
        indices.0
    } else if level == 4 {
        indices.1
    } else if level == 3 {
        indices.2
    } else if level == 2 {
        indices.3
    } else {
        indices.4
    }
}

/// The number of tables that are missing on the way to `address` at the
/// levels from `leaf_level` up to, but without, `level`.
pub open spec fn gaps_below(
    memory: TableMemory,
    root: u64,
    address: u64,
    leaf_level: int,
    level: int,
) -> int
    decreases level - leaf_level,
{
    if level <= leaf_level {
        0
    } else {
        gaps_below(memory, root, address, leaf_level, level - 1) + (if level - 1 <= 4 {
            gap(memory, root, address, level - 1)
        } else {
            0
        })
    }
}

/// The number of tables that are missing on the way to `address` at the
/// levels above `level`, up to level 4.
pub open spec fn gaps_above(memory: TableMemory, root: u64, address: u64, level: int) -> int
    decreases 4 - level,
{
    if level >= 4 {
        0
    } else {
        gaps_above(memory, root, address, level + 1) + gap(memory, root, address, level + 1)
    }
}

/// Whether the spare frames from position `next` on can become tables: each
/// is a valid page address that holds no table yet, and no two are the same.
pub open spec fn spares_fresh(
    memory: TableMemory,
    spares: Seq<PhysLv1PageAddress>,
    next: int,
) -> bool {
    &&& forall|s: int|
        next <= s < spares.len() ==> (#[trigger] spares[s]).wf(memory.spec_platform())
            && !memory.has_table(spares[s]@)
    &&& forall|s: int, t: int|
        next <= s < t < spares.len() ==> (#[trigger] spares[s])@ != (#[trigger] spares[t])@
}

/// Whether `frame` is one of the spare frames at the positions from `from`
/// up to, but without, `to`.
pub open spec fn among(spares: Seq<PhysLv1PageAddress>, from: int, to: int, frame: u64) -> bool {
    exists|s: int| from <= s < to && 0 <= s < spares.len() && (#[trigger] spares[s])@ == frame
}

/// Maps one page of `leaf_level` at `address` by storing `word` as its leaf.
/// Tables that are missing on the way are made from the spare frames, taken
/// in order from position `next`. Returns how many were taken.
pub fn map_page(
    memory: &mut TableMemory,
    root: u64,
    address: u64,
    leaf_level: u8,
    word: u64,
    spares: &[PhysLv1PageAddress],
    next: usize,
) -> (used: usize)
    requires
        old(memory).wf(),
        old(memory).has_root(root),
        1 <= leaf_level <= 3,
        !blocked(*old(memory), root, address, leaf_level as int),
        spec_decode(old(memory).spec_platform(), leaf_level as int, word) is Leaf,
        next + missing_tables(*old(memory), root, address, leaf_level as int) <= spares@.len(),
        spares_fresh(*old(memory), spares@, next as int),
    ensures
        final(memory).wf(),
        final(memory).spec_platform() == old(memory).spec_platform(),
        used == missing_tables(*old(memory), root, address, leaf_level as int),
        forall|r: u64| #[trigger] final(memory).has_root(r) == old(memory).has_root(r),
        forall|x: u64| #[trigger]
            final(memory).has_table(x) == (old(memory).has_table(x) || among(
                spares@,
                next as int,
                next + used,
                x,
            )),
        forall|r: u64, va: u64|
            old(memory).has_root(r) ==> #[trigger] final(memory).resolve(r, va) == (if r == root
                && same_indices_from(leaf_level as int, address, va) {
                Some(
                    (
                        leaf_level as int,
                        spec_decode(old(memory).spec_platform(), leaf_level as int, word)->Leaf_0,
                        spec_decode(old(memory).spec_platform(), leaf_level as int, word)->Leaf_1,
                    ),
                )
            } else {
                old(memory).resolve(r, va)
            }),
        forall|r: u64, va: u64|
            old(memory).has_root(r) ==> #[trigger] blocked(*final(memory), r, va, leaf_level as int)
                == (blocked(*old(memory), r, va, leaf_level as int) || (r == root
                && same_indices_from(leaf_level as int, address, va))),
        forall|r: u64, va: u64, k: int|
            old(memory).has_root(r) && 1 <= k <= 5 ==> (#[trigger] final(memory).table_on_path(
                r,
                va,
                k,
            )).is_some() == (old(memory).table_on_path(r, va, k).is_some() || (r == root && k
                >= leaf_level && same_indices_from(k + 1, address, va))),
        forall|r: u64, va: u64, k: int|
            old(memory).has_root(r) && 1 <= k <= 5 && old(memory).table_on_path(
                r,
                va,
                k,
            ).is_some() ==> #[trigger] final(memory).table_on_path(r, va, k) == old(
                memory,
            ).table_on_path(r, va, k),
        forall|k: int|
            leaf_level <= k <= 4 && old(memory).table_on_path(root, address, k).is_none()
                ==> #[trigger] final(memory).table_on_path(root, address, k) == Some(
                spares@[next + gaps_above(*old(memory), root, address, k)]@,
            ),
{
    let ghost start = *memory;
    let indices = decode_address(address);
    let mut table: u64 = root;
    let mut level: u8 = 5;
    let mut used: usize = 0;
    let total: usize = spares.len();
    proof {
        lemma_gaps_total(start, root, address, leaf_level as int);
    }
    while level > leaf_level
        invariant
            1 <= leaf_level <= 3,
            total == spares@.len(),
            leaf_level <= level <= 5,
            used <= 5 - level,
            start.wf(),
            start.has_root(root),
            !blocked(start, root, address, leaf_level as int),
            spares_fresh(start, spares@, next as int),
            memory.wf(),
            memory.spec_platform() == start.spec_platform(),
            indices.0 as int == spec_index_at(5, address),
            indices.1 as int == spec_index_at(4, address),
            indices.2 as int == spec_index_at(3, address),
            indices.3 as int == spec_index_at(2, address),
            indices.4 as int == spec_index_at(1, address),
            indices.0 < 512 && indices.1 < 512 && indices.2 < 512 && indices.3 < 512 && indices.4
                < 512,
            memory.table_on_path(root, address, level as int) == Some(table),
            used + gaps_below(start, root, address, leaf_level as int, level as int)
                == missing_tables(start, root, address, leaf_level as int),
            next + missing_tables(start, root, address, leaf_level as int) <= spares@.len(),
            forall|r: u64| #[trigger] memory.has_root(r) == start.has_root(r),
            forall|x: u64| #[trigger]
                memory.has_table(x) == (start.has_table(x) || among(
                    spares@,
                    next as int,
                    next + used,
                    x,
                )),
            forall|r: u64, va: u64|
                start.has_root(r) ==> #[trigger] memory.resolve(r, va) == start.resolve(r, va),
            forall|r: u64, va: u64|
                start.has_root(r) ==> #[trigger] blocked(*memory, r, va, leaf_level as int)
                    == blocked(start, r, va, leaf_level as int),
            forall|r: u64, va: u64, k: int|
                start.has_root(r) && 1 <= k <= 5 ==> (#[trigger] memory.table_on_path(
                    r,
                    va,
                    k,
                )).is_some() == (start.table_on_path(r, va, k).is_some() || (r == root && k
                    >= level && same_indices_from(k + 1, address, va))),
            forall|r: u64, va: u64, k: int|
                start.has_root(r) && 1 <= k <= 5 && start.table_on_path(r, va, k).is_some()
                    ==> #[trigger] memory.table_on_path(r, va, k) == start.table_on_path(
                    r,
                    va,
                    k,
                ),
            used == gaps_above(start, root, address, level - 1),
            forall|k: int|
                level <= k <= 4 && start.table_on_path(root, address, k).is_none()
                    ==> #[trigger] memory.table_on_path(root, address, k) == Some(
                    spares@[next + gaps_above(start, root, address, k)]@,
                ),
        decreases level,
    {
        let index: u16 = index_of(indices, level);
        let ghost here = *memory;
        proof {
            lemma_path_table(here, root, address, level as int);
            assert(here.has_root(root));
            assert(here.edge_ok(table, index as int));
            assert(same_indices_from(level as int, address, address));
            assert(here.table_on_path(root, address, level - 1).is_some() == start.table_on_path(
                root,
                address,
                level - 1,
            ).is_some());
            lemma_gaps_nonnegative(start, root, address, leaf_level as int, level - 1);
            assert(gaps_below(start, root, address, leaf_level as int, level as int)
                == gaps_below(start, root, address, leaf_level as int, level - 1) + gap(
                start,
                root,
                address,
                level - 1,
            ));
        }
        let entry: u64 = memory.read_entry(table, index);
        let slot = decode_entry(memory.platform(), level, entry);
        match slot {
            Slot::Table(below) => {
                proof {
                    assert forall|r: u64, va: u64, k: int|
                        start.has_root(r) && 1 <= k <= 5 implies (#[trigger] here.table_on_path(
                        r,
                        va,
                        k,
                    )).is_some() == (start.table_on_path(r, va, k).is_some() || (r == root && k
                        >= level - 1 && same_indices_from(k + 1, address, va))) by {
                        if r == root && k == level - 1 && same_indices_from(k + 1, address, va) {
                            crate::walk::lemma_same_indices_same_path(
                                here,
                                root,
                                address,
                                va,
                                level - 1,
                            );
                        }
                    }
                }
                table = below;
            },
            Slot::Absent => {
                let child = spares[next + used];
                proof {
                    assert(spares@[next + used].wf(start.spec_platform()));
                    assert(!start.has_table(child@));
                    assert(!among(spares@, next as int, next + used, child@)) by {
                        if among(spares@, next as int, next + used, child@) {
                            let s = choose|s: int|
                                next <= s < next + used && 0 <= s < spares@.len() && (
                                #[trigger] spares@[s])@ == child@;
                            assert(spares@[s]@ != spares@[next + used]@);
                        }
                    }
                    assert(!here.has_table(child@));
                }
                memory.link_table(table, index, child);
                proof {
                    let after = *memory;
                    assert forall|r: u64| #[trigger] after.has_root(r) == start.has_root(r) by {
                        assert(here.has_root(r) == start.has_root(r));
                        if here.has_table(r) {
                            assert(after.has_table(r));
                            assert(after.level_of(r) == here.level_of(r));
                        }
                    }
                    assert forall|x: u64| #[trigger]
                        after.has_table(x) == (start.has_table(x) || among(
                            spares@,
                            next as int,
                            next + used + 1,
                            x,
                        )) by {
                        assert(here.has_table(x) == (start.has_table(x) || among(
                            spares@,
                            next as int,
                            next + used,
                            x,
                        )));
                        if among(spares@, next as int, next + used, x) {
                            let s = choose|s: int|
                                next <= s < next + used && 0 <= s < spares@.len() && (
                                #[trigger] spares@[s])@ == x;
                            assert(next <= s < next + used + 1 && spares@[s]@ == x);
                        }
                        if x == child@ {
                            assert(spares@[next + used]@ == x);
                        }
                        if among(spares@, next as int, next + used + 1, x) {
                            let s = choose|s: int|
                                next <= s < next + used + 1 && 0 <= s < spares@.len() && (
                                #[trigger] spares@[s])@ == x;
                            if s < next + used {
                                assert(among(spares@, next as int, next + used, x));
                            }
                        }
                        if here.has_table(x) {
                            assert(after.has_table(x));
                        }
                    }
                    assert forall|r: u64, va: u64| start.has_root(r) implies #[trigger]
                        after.resolve(r, va) == start.resolve(r, va) by {
                        assert(here.has_root(r));
                        lemma_link_summary(
                            here,
                            after,
                            table,
                            index as int,
                            child@,
                            root,
                            address,
                            level as int,
                            r,
                            va,
                        );
                        assert(here.resolve(r, va) == start.resolve(r, va));
                    }
                    assert forall|r: u64, va: u64| start.has_root(r) implies #[trigger] blocked(
                        after,
                        r,
                        va,
                        leaf_level as int,
                    ) == blocked(start, r, va, leaf_level as int) by {
                        assert(here.has_root(r));
                        lemma_link_summary(
                            here,
                            after,
                            table,
                            index as int,
                            child@,
                            root,
                            address,
                            level as int,
                            r,
                            va,
                        );
                        assert(blocked(here, r, va, leaf_level as int) == blocked(
                            start,
                            r,
                            va,
                            leaf_level as int,
                        ));
                    }
                    assert forall|r: u64, va: u64, k: int|
                        start.has_root(r) && 1 <= k <= 5 implies (#[trigger] after.table_on_path(
                        r,
                        va,
                        k,
                    )).is_some() == (start.table_on_path(r, va, k).is_some() || (r == root && k
                        >= level - 1 && same_indices_from(k + 1, address, va))) by {
                        assert(here.has_root(r));
                        lemma_link_summary(
                            here,
                            after,
                            table,
                            index as int,
                            child@,
                            root,
                            address,
                            level as int,
                            r,
                            va,
                        );
                        assert(here.table_on_path(r, va, k).is_some() == (start.table_on_path(
                            r,
                            va,
                            k,
                        ).is_some() || (r == root && k >= level && same_indices_from(
                            k + 1,
                            address,
                            va,
                        ))));
                    }
                    lemma_link_summary(
                        here,
                        after,
                        table,
                        index as int,
                        child@,
                        root,
                        address,
                        level as int,
                        root,
                        address,
                    );
                    assert(after.table_on_path(root, address, level - 1) == Some(child@));
                    assert forall|r: u64, va: u64, k: int|
                        start.has_root(r) && 1 <= k <= 5 && start.table_on_path(
                            r,
                            va,
                            k,
                        ).is_some() implies #[trigger] after.table_on_path(r, va, k)
                        == start.table_on_path(r, va, k) by {
                        assert(here.has_root(r));
                        lemma_link_summary(
                            here,
                            after,
                            table,
                            index as int,
                            child@,
                            root,
                            address,
                            level as int,
                            r,
                            va,
                        );
                        assert(here.table_on_path(r, va, k) == start.table_on_path(r, va, k));
                    }
                    assert forall|k: int|
                        level - 1 <= k <= 4 && start.table_on_path(
                            root,
                            address,
                            k,
                        ).is_none() implies #[trigger] after.table_on_path(root, address, k)
                        == Some(spares@[next + gaps_above(start, root, address, k)]@) by {
                        if k >= level {
                            assert(here.table_on_path(root, address, k) == Some(
                                spares@[next + gaps_above(start, root, address, k)]@,
                            ));
                        }
                    }
                }
                table = child.get_address().get_u64();
                used = used + 1;
            },
            Slot::Leaf(_, _) => {
                proof {
                    assert(here.slot_on_path(root, address, level as int) is Leaf);
                    assert(blocked(here, root, address, leaf_level as int));
                    assert(false);
                }
            },
        }
        level = level - 1;
    }
    let index: u16 = index_of(indices, leaf_level);
    let ghost here = *memory;
    proof {
        lemma_path_table(here, root, address, leaf_level as int);
        assert(here.has_root(root));
        assert(!blocked(here, root, address, leaf_level as int));
        assert(here.slot_on_path(root, address, leaf_level as int) is Absent);
    }
    memory.store_leaf(table, index, word);
    proof {
        let after = *memory;
        let found = spec_decode(start.spec_platform(), leaf_level as int, word);
        assert forall|r: u64| #[trigger] after.has_root(r) == start.has_root(r) by {
            assert(here.has_root(r) == start.has_root(r));
            if here.has_table(r) {
                assert(after.has_table(r));
                assert(after.level_of(r) == here.level_of(r));
            }
        }
        assert forall|x: u64| #[trigger]
            after.has_table(x) == (start.has_table(x) || among(
                spares@,
                next as int,
                next + used,
                x,
            )) by {
            assert(here.has_table(x) == (start.has_table(x) || among(
                spares@,
                next as int,
                next + used,
                x,
            )));
            if here.has_table(x) {
                assert(after.has_table(x));
            }
        }
        assert forall|r: u64, va: u64, k: int|
            start.has_root(r) && 1 <= k <= 5 implies (#[trigger] after.table_on_path(
            r,
            va,
            k,
        )).is_some() == (start.table_on_path(r, va, k).is_some() || (r == root && k >= leaf_level
            && same_indices_from(k + 1, address, va))) by {
            assert(here.has_root(r));
            lemma_store_summary(
                here,
                after,
                table,
                index as int,
                word,
                root,
                address,
                leaf_level as int,
                r,
                va,
            );
            assert(here.table_on_path(r, va, k).is_some() == (start.table_on_path(
                r,
                va,
                k,
            ).is_some() || (r == root && k >= leaf_level && same_indices_from(
                k + 1,
                address,
                va,
            ))));
        }
        assert forall|r: u64, va: u64, k: int|
            start.has_root(r) && 1 <= k <= 5 && start.table_on_path(
                r,
                va,
                k,
            ).is_some() implies #[trigger] after.table_on_path(r, va, k) == start.table_on_path(
            r,
            va,
            k,
        ) by {
            assert(here.has_root(r));
            lemma_store_summary(
                here,
                after,
                table,
                index as int,
                word,
                root,
                address,
                leaf_level as int,
                r,
                va,
            );
            assert(here.table_on_path(r, va, k) == start.table_on_path(r, va, k));
        }
        assert forall|k: int|
            leaf_level <= k <= 4 && start.table_on_path(
                root,
                address,
                k,
            ).is_none() implies #[trigger] after.table_on_path(root, address, k) == Some(
            spares@[next + gaps_above(start, root, address, k)]@,
        ) by {
            lemma_store_summary(
                here,
                after,
                table,
                index as int,
                word,
                root,
                address,
                leaf_level as int,
                root,
                address,
            );
            assert(here.table_on_path(root, address, k) == Some(
                spares@[next + gaps_above(start, root, address, k)]@,
            ));
        }
        assert forall|r: u64, va: u64| start.has_root(r) implies #[trigger] after.resolve(r, va)
            == (if r == root && same_indices_from(leaf_level as int, address, va) {
            Some((leaf_level as int, found->Leaf_0, found->Leaf_1))
        } else {
            start.resolve(r, va)
        }) by {
            assert(here.has_root(r));
            lemma_store_summary(
                here,
                after,
                table,
                index as int,
                word,
                root,
                address,
                leaf_level as int,
                r,
                va,
            );
            assert(here.resolve(r, va) == start.resolve(r, va));
            if r == root && same_indices_from(leaf_level as int, address, va) {
                lemma_upper_slots(here, root, address, va, leaf_level as int);
            }
        }
        assert forall|r: u64, va: u64| start.has_root(r) implies #[trigger] blocked(
            after,
            r,
            va,
            leaf_level as int,
        ) == (blocked(start, r, va, leaf_level as int) || (r == root && same_indices_from(
            leaf_level as int,
            address,
            va,
        ))) by {
            assert(here.has_root(r));
            lemma_store_summary(
                here,
                after,
                table,
                index as int,
                word,
                root,
                address,
                leaf_level as int,
                r,
                va,
            );
            assert(blocked(here, r, va, leaf_level as int) == blocked(
                start,
                r,
                va,
                leaf_level as int,
            ));
        }
    }
    used
}

/// A number of gaps is not negative.
pub proof fn lemma_gaps_nonnegative(
    memory: TableMemory,
    root: u64,
    address: u64,
    leaf_level: int,
    level: int,
)
    ensures
        gaps_below(memory, root, address, leaf_level, level) >= 0,
    decreases level - leaf_level,
{
    if level > leaf_level {
        lemma_gaps_nonnegative(memory, root, address, leaf_level, level - 1);
    }
}

/// The gaps below the root are all the missing tables.
pub proof fn lemma_gaps_total(memory: TableMemory, root: u64, address: u64, leaf_level: int)
    requires
        1 <= leaf_level <= 3,
    ensures
        gaps_below(memory, root, address, leaf_level, 5) == missing_tables(
            memory,
            root,
            address,
            leaf_level,
        ),
{
    reveal_with_fuel(gaps_below, 6);
}

/// Where the walk to `owner` finds a table of `level`, the walk to an address
/// that selects the same entries down to `level` passes table pointers at
/// every level above it.
pub proof fn lemma_upper_slots(memory: TableMemory, root: u64, owner: u64, address: u64, level: int)
    requires
        1 <= level <= 3,
        memory.table_on_path(root, owner, level).is_some(),
        same_indices_from(level, owner, address),
    ensures
        level < 3 ==> memory.slot_on_path(root, address, 3) is Table,
        level < 2 ==> memory.slot_on_path(root, address, 2) is Table,
{
    assert(same_indices_from(level + 1, owner, address)) by {
        assert forall|j: int| level + 1 <= j <= 5 implies #[trigger] spec_index_at(j, owner)
            == spec_index_at(j, address) by {}
    }
    crate::walk::lemma_same_indices_same_path(memory, root, owner, address, level);
    reveal_with_fuel(TableMemory::table_on_path, 4);
}

/// Whether page `i` of a range is the first of the range to need the table
/// of `table_level` on its way: it is the first page, or the page before it
/// selects other entries above that level.
pub open spec fn first_use(start: u64, leaf_level: int, i: int, table_level: int) -> bool {
    i == 0 || !same_indices_from(
        table_level + 1,
        page_at(start, leaf_level, i - 1),
        page_at(start, leaf_level, i),
    )
}

/// 1 where page `i` of a range needs a new table of `table_level`: the walk
/// to it finds none, and no earlier page of the range needs the same one.
pub open spec fn fresh_gap(
    memory: TableMemory,
    root: u64,
    start: u64,
    leaf_level: int,
    i: int,
    table_level: int,
) -> int {
    if table_level >= leaf_level && memory.table_on_path(
        root,
        page_at(start, leaf_level, i),
        table_level,
    ).is_none() && first_use(start, leaf_level, i, table_level) {
        1
    } else {
        0
    }
}

/// The number of new tables that page `i` of a range needs.
pub open spec fn fresh_tables(
    memory: TableMemory,
    root: u64,
    start: u64,
    leaf_level: int,
    i: int,
) -> int {
    fresh_gap(memory, root, start, leaf_level, i, 4) + fresh_gap(
        memory,
        root,
        start,
        leaf_level,
        i,
        3,
    ) + fresh_gap(memory, root, start, leaf_level, i, 2) + fresh_gap(
        memory,
        root,
        start,
        leaf_level,
        i,
        1,
    )
}

/// The number of new tables that page `i` of a range needs at the levels
/// above `table_level`, up to level 4.
pub open spec fn fresh_above(
    memory: TableMemory,
    root: u64,
    start: u64,
    leaf_level: int,
    i: int,
    table_level: int,
) -> int
    decreases 4 - table_level,
{
    if table_level >= 4 {
        0
    } else {
        fresh_above(memory, root, start, leaf_level, i, table_level + 1) + fresh_gap(
            memory,
            root,
            start,
            leaf_level,
            i,
            table_level + 1,
        )
    }
}

/// The number of new tables that the first `count` pages of a range need:
/// each missing table counted once, with the first page on whose way it
/// lies.
pub open spec fn needed_tables(
    memory: TableMemory,
    root: u64,
    start: u64,
    leaf_level: int,
    count: int,
) -> int
    decreases count,
{
    if count <= 0 {
        0
    } else {
        needed_tables(memory, root, start, leaf_level, count - 1) + fresh_tables(
            memory,
            root,
            start,
            leaf_level,
            count - 1,
        )
    }
}

/// Whether one of the first `count` pages of a range cannot be mapped.
pub open spec fn any_blocked(
    memory: TableMemory,
    root: u64,
    start: u64,
    leaf_level: int,
    count: int,
) -> bool {
    exists|j: int|
        0 <= j < count && #[trigger] blocked(
            memory,
            root,
            page_at(start, leaf_level, j),
            leaf_level,
        )
}

/// Whether `address` selects the same entries, at `from_level` and above, as
/// one of the first `count` pages of a range. With `from_level` the level of
/// the leaves, this says that `address` lies in one of those pages.
pub open spec fn covered(
    start: u64,
    leaf_level: int,
    count: int,
    from_level: int,
    address: u64,
) -> bool {
    exists|j: int|
        0 <= j < count && same_indices_from(
            from_level,
            #[trigger] page_at(start, leaf_level, j),
            address,
        )
}

/// The count of needed tables lies between zero and four for each page.
pub proof fn lemma_needed_bounds(
    memory: TableMemory,
    root: u64,
    start: u64,
    leaf_level: int,
    count: int,
)
    requires
        0 <= count,
    ensures
        0 <= needed_tables(memory, root, start, leaf_level, count) <= 4 * count,
    decreases count,
{
    if count > 0 {
        lemma_needed_bounds(memory, root, start, leaf_level, count - 1);
    }
}

/// The count of needed tables does not shrink as the range grows.
pub proof fn lemma_needed_grows(
    memory: TableMemory,
    root: u64,
    start: u64,
    leaf_level: int,
    shorter: int,
    longer: int,
)
    requires
        0 <= shorter <= longer,
    ensures
        needed_tables(memory, root, start, leaf_level, shorter) <= needed_tables(
            memory,
            root,
            start,
            leaf_level,
            longer,
        ),
    decreases longer - shorter,
{
    if shorter < longer {
        lemma_needed_grows(memory, root, start, leaf_level, shorter, longer - 1);
    }
}

/// Looks at the way to the entry of a page of `leaf_level` at `address`
/// without changing anything. Returns whether the page cannot be mapped,
/// and the lowest level, from `leaf_level` up, at which the walk finds a
/// table.
pub fn probe(memory: &TableMemory, root: u64, address: u64, leaf_level: u8) -> (found: (bool, u8))
    requires
        memory.wf(),
        memory.has_root(root),
        1 <= leaf_level <= 3,
    ensures
        found.0 == blocked(*memory, root, address, leaf_level as int),
        leaf_level <= found.1 <= 5,
        forall|k: int|
            leaf_level <= k <= 5 ==> ((#[trigger] memory.table_on_path(
                root,
                address,
                k,
            )).is_some() <==> k >= found.1),
{
    let indices = decode_address(address);
    let mut table: u64 = root;
    let mut level: u8 = 5;
    let mut ended = false;
    let mut leaf_above = false;
    while level > leaf_level && !ended
        invariant
            memory.wf(),
            memory.has_root(root),
            1 <= leaf_level <= 3,
            leaf_level <= level <= 5,
            indices.0 as int == spec_index_at(5, address),
            indices.1 as int == spec_index_at(4, address),
            indices.2 as int == spec_index_at(3, address),
            indices.3 as int == spec_index_at(2, address),
            indices.4 as int == spec_index_at(1, address),
            indices.0 < 512 && indices.1 < 512 && indices.2 < 512 && indices.3 < 512 && indices.4
                < 512,
            memory.table_on_path(root, address, level as int) == Some(table),
            forall|k: int| level < k <= 5 ==> memory.slot_on_path(root, address, k) is Table,
            ended ==> level > leaf_level && !(memory.slot_on_path(root, address, level as int)
                is Table),
            ended ==> leaf_above == (memory.slot_on_path(root, address, level as int) is Leaf),
            !ended ==> !leaf_above,
        decreases level + (if ended { 0int } else { 1 }),
    {
        let index: u16 = index_of(indices, level);
        proof {
            lemma_path_table(*memory, root, address, level as int);
        }
        let entry: u64 = memory.read_entry(table, index);
        match decode_entry(memory.platform(), level, entry) {
            Slot::Table(below) => {
                table = below;
                level = level - 1;
            },
            Slot::Absent => {
                ended = true;
            },
            Slot::Leaf(_, _) => {
                ended = true;
                leaf_above = true;
            },
        }
    }
    proof {
        lemma_path_table(*memory, root, address, level as int);
        lemma_chain(*memory, root, address, level as int);
        if ended {
            lemma_path_ends(*memory, root, address, level as int);
        }
    }
    if ended {
        (leaf_above, level)
    } else {
        let index: u16 = index_of(indices, leaf_level);
        let entry: u64 = memory.read_entry(table, index);
        let occupied = match decode_entry(memory.platform(), leaf_level, entry) {
            Slot::Absent => false,
            _ => true,
        };
        (occupied, level)
    }
}

/// Where the walk finds a table of `level`, it finds one at every level
/// above, through a table pointer at each.
pub proof fn lemma_chain(memory: TableMemory, root: u64, address: u64, level: int)
    requires
        1 <= level <= 5,
        memory.table_on_path(root, address, level).is_some(),
    ensures
        forall|k: int|
            level <= k <= 5 ==> (#[trigger] memory.table_on_path(root, address, k)).is_some(),
        forall|k: int|
            level < k <= 5 ==> #[trigger] memory.slot_on_path(root, address, k) is Table,
    decreases 5 - level,
{
    if level < 5 {
        lemma_chain(memory, root, address, level + 1);
    }
}

/// Where the walk ends at an entry of `level` that is no table pointer, it
/// finds no table below, and every entry below reads as absent.
pub proof fn lemma_path_ends(memory: TableMemory, root: u64, address: u64, level: int)
    requires
        1 <= level <= 5,
        !(memory.slot_on_path(root, address, level) is Table),
    ensures
        forall|k: int|
            1 <= k < level ==> (#[trigger] memory.table_on_path(root, address, k)).is_none(),
        forall|k: int|
            1 <= k < level ==> #[trigger] memory.slot_on_path(root, address, k) is Absent,
{
    reveal_with_fuel(TableMemory::table_on_path, 6);
}

/// The size in bytes of the page that a leaf of `level` maps.
pub fn page_size_of(level: u8) -> (size: u64)
    requires
        1 <= level <= 3,
    ensures
        size == page_bytes(level as int),
{
    if level == 3 {
        0x4000_0000
    } else if level == 2 {
        0x20_0000
    } else {
        0x1000
    }
}

/// Selecting the same entries from `level` up is selecting the same entry
/// at `level` and the same entries from the next level up.
pub proof fn lemma_same_indices_step(level: int, a: u64, b: u64)
    requires
        1 <= level <= 5,
    ensures
        same_indices_from(level, a, b) <==> (spec_index_at(level, a) == spec_index_at(level, b)
            && same_indices_from(level + 1, a, b)),
        same_indices_from(6, a, b),
{
    if spec_index_at(level, a) == spec_index_at(level, b) && same_indices_from(level + 1, a, b) {
        assert forall|j: int| level <= j <= 5 implies #[trigger] spec_index_at(j, a)
            == spec_index_at(j, b) by {}
    }
    if same_indices_from(level, a, b) {
        assert forall|j: int| level + 1 <= j <= 5 implies #[trigger] spec_index_at(j, a)
            == spec_index_at(j, b) by {}
    }
}

/// One more page makes one more page that can be blocked.
pub proof fn lemma_any_blocked_step(
    memory: TableMemory,
    root: u64,
    start: u64,
    leaf_level: int,
    count: int,
)
    requires
        0 <= count,
    ensures
        any_blocked(memory, root, start, leaf_level, count + 1) <==> (any_blocked(
            memory,
            root,
            start,
            leaf_level,
            count,
        ) || blocked(memory, root, page_at(start, leaf_level, count), leaf_level)),
{
    if any_blocked(memory, root, start, leaf_level, count + 1) {
        let j = choose|j: int|
            0 <= j < count + 1 && #[trigger] blocked(
                memory,
                root,
                page_at(start, leaf_level, j),
                leaf_level,
            );
        if j < count {
            assert(any_blocked(memory, root, start, leaf_level, count));
        }
    }
    if any_blocked(memory, root, start, leaf_level, count) {
        let j = choose|j: int|
            0 <= j < count && #[trigger] blocked(
                memory,
                root,
                page_at(start, leaf_level, j),
                leaf_level,
            );
        assert(0 <= j < count + 1);
    }
}

/// Walks a range of pages without changing anything. Returns whether one of
/// the pages cannot be mapped, and how many new tables the range needs.
pub fn plan(memory: &TableMemory, root: u64, start: u64, leaf_level: u8, count: u64) -> (found: (
    bool,
    u64,
))
    requires
        memory.wf(),
        memory.has_root(root),
        1 <= leaf_level <= 3,
        VirtAddress::verdict(memory.spec_platform(), start).is_none(),
        start & !page_mask_of(leaf_level as int) == 0,
        range_fits(memory.spec_platform(), start, leaf_level as int, count as int),
    ensures
        found.0 == any_blocked(*memory, root, start, leaf_level as int, count as int),
        found.1 == needed_tables(*memory, root, start, leaf_level as int, count as int),
{
    let size: u64 = page_size_of(leaf_level);
    let mut any = false;
    let mut needed: u64 = 0;
    let mut previous: (u16, u16, u16, u16, u16) = (0, 0, 0, 0, 0);
    let mut i: u64 = 0;
    while i < count
        invariant
            memory.wf(),
            memory.has_root(root),
            1 <= leaf_level <= 3,
            size == page_bytes(leaf_level as int),
            VirtAddress::verdict(memory.spec_platform(), start).is_none(),
            start & !page_mask_of(leaf_level as int) == 0,
            range_fits(memory.spec_platform(), start, leaf_level as int, count as int),
            0 <= i <= count,
            any == any_blocked(*memory, root, start, leaf_level as int, i as int),
            needed == needed_tables(*memory, root, start, leaf_level as int, i as int),
            i > 0 ==> {
                let before = page_at(start, leaf_level as int, i - 1);
                &&& previous.0 as int == spec_index_at(5, before)
                &&& previous.1 as int == spec_index_at(4, before)
                &&& previous.2 as int == spec_index_at(3, before)
                &&& previous.3 as int == spec_index_at(2, before)
                &&& previous.4 as int == spec_index_at(1, before)
            },
        decreases count - i,
    {
        proof {
            lemma_range_page(
                memory.spec_platform(),
                start,
                leaf_level as int,
                count as int,
                i as int,
            );
            lemma_needed_bounds(*memory, root, start, leaf_level as int, i as int);
            lemma_any_blocked_step(*memory, root, start, leaf_level as int, i as int);
            assert(i * size <= u64::MAX) by (nonlinear_arith)
                requires
                    start + i * size <= u64::MAX,
                    0 <= start,
            ;
            assert(4 * i <= 4 * 0x10_0000_0000_0000) by (nonlinear_arith)
                requires
                    i * size <= u64::MAX,
                    size >= 0x1000,
                    0 <= i,
            ;
        }
        let step: u64 = i * size;
        let address: u64 = start + step;
        let ghost before = page_at(start, leaf_level as int, i - 1);
        let (occupied, depth) = probe(memory, root, address, leaf_level);
        let current = decode_address(address);
        let same5 = i > 0 && current.0 == previous.0;
        let same4 = same5 && current.1 == previous.1;
        let same3 = same4 && current.2 == previous.2;
        let same2 = same3 && current.3 == previous.3;
        proof {
            if i > 0 {
                lemma_same_indices_step(5, before, address);
                lemma_same_indices_step(4, before, address);
                lemma_same_indices_step(3, before, address);
                lemma_same_indices_step(2, before, address);
            }
            assert(same5 == !first_use(start, leaf_level as int, i as int, 4));
            assert(same4 == !first_use(start, leaf_level as int, i as int, 3));
            assert(same3 == !first_use(start, leaf_level as int, i as int, 2));
            assert(same2 == !first_use(start, leaf_level as int, i as int, 1));
            assert(memory.table_on_path(root, address, 4).is_some() <==> 4 >= depth);
            assert(leaf_level <= 3 ==> (memory.table_on_path(root, address, 3).is_some() <==> 3
                >= depth));
            assert(leaf_level <= 2 ==> (memory.table_on_path(root, address, 2).is_some() <==> 2
                >= depth));
            assert(leaf_level <= 1 ==> (memory.table_on_path(root, address, 1).is_some() <==> 1
                >= depth));
        }
        let mut fresh: u64 = 0;
        if 4 < depth && !same5 {
            fresh = fresh + 1;
        }
        if leaf_level <= 3 && 3 < depth && !same4 {
            fresh = fresh + 1;
        }
        if leaf_level <= 2 && 2 < depth && !same3 {
            fresh = fresh + 1;
        }
        if leaf_level <= 1 && 1 < depth && !same2 {
            fresh = fresh + 1;
        }
        assert(fresh == fresh_tables(*memory, root, start, leaf_level as int, i as int));
        needed = needed + fresh;
        any = any || occupied;
        previous = current;
        i = i + 1;
    }
    (any, needed)
}

/// Whether `frame` is the address of a frame that a leaf of `level` can map:
/// inside the physical address width and aligned to the page size.
pub open spec fn frame_ok(platform: Platform, level: int, frame: u64) -> bool {
    &&& crate::memory::PhysAddress::fits(platform, frame)
    &&& frame & !page_mask_of(level) == 0
}

/// One more page covers what the pages before it cover and what selects
/// the same entries as it does.
pub proof fn lemma_covered_step(
    start: u64,
    leaf_level: int,
    count: int,
    from_level: int,
    address: u64,
)
    requires
        0 <= count,
    ensures
        covered(start, leaf_level, count + 1, from_level, address) <==> (covered(
            start,
            leaf_level,
            count,
            from_level,
            address,
        ) || same_indices_from(from_level, page_at(start, leaf_level, count), address)),
{
    if covered(start, leaf_level, count + 1, from_level, address) {
        let j = choose|j: int|
            0 <= j < count + 1 && same_indices_from(
                from_level,
                #[trigger] page_at(start, leaf_level, j),
                address,
            );
        if j < count {
            assert(covered(start, leaf_level, count, from_level, address));
        }
    }
    if covered(start, leaf_level, count, from_level, address) {
        let j = choose|j: int|
            0 <= j < count && same_indices_from(
                from_level,
                #[trigger] page_at(start, leaf_level, j),
                address,
            );
        assert(0 <= j < count + 1);
    }
    if same_indices_from(from_level, page_at(start, leaf_level, count), address) {
        assert(0 <= count < count + 1);
    }
}

/// Page `i` of a range is covered by the pages before it, above
/// `table_level`, exactly when it is not the first to use its table of that
/// level; and no earlier page covers it down to the level of the leaves.
pub proof fn lemma_covered_page(
    platform: Platform,
    start: u64,
    leaf_level: int,
    count: int,
    i: int,
    table_level: int,
)
    requires
        platform.wf(),
        platform.has_x86_64_paging(),
        1 <= leaf_level <= 3,
        1 <= table_level <= 5,
        VirtAddress::verdict(platform, start).is_none(),
        start & !page_mask_of(leaf_level) == 0,
        range_fits(platform, start, leaf_level, count),
        0 <= i < count,
    ensures
        covered(start, leaf_level, i, table_level + 1, page_at(start, leaf_level, i))
            <==> !first_use(start, leaf_level, i, table_level),
        !covered(start, leaf_level, i, leaf_level, page_at(start, leaf_level, i)),
{
    let here = page_at(start, leaf_level, i);
    if covered(start, leaf_level, i, table_level + 1, here) {
        let j = choose|j: int|
            0 <= j < i && same_indices_from(
                table_level + 1,
                #[trigger] page_at(start, leaf_level, j),
                here,
            );
        lemma_pages_contiguous(platform, start, leaf_level, count, table_level, j, i);
    }
    if !first_use(start, leaf_level, i, table_level) {
        assert(same_indices_from(table_level + 1, page_at(start, leaf_level, i - 1), here));
    }
    if covered(start, leaf_level, i, leaf_level, here) {
        let j = choose|j: int|
            0 <= j < i && same_indices_from(
                leaf_level,
                #[trigger] page_at(start, leaf_level, j),
                here,
            );
        lemma_pages_distinct(platform, start, leaf_level, count, j, i);
    }
}

/// What mapping a range of pages makes of a store: every address in page
/// `j` of the range translates to frame `j` with the attributes asked for;
/// every other address, in every address space, translates as before; the
/// roots are the same; and the tables are those of before and the needed
/// number of spare frames, taken from the front in the order given: page
/// by page, and for each page from the highest missing table down. A walk
/// finds a table where it found one before, and where it selects the same
/// entries as a page of the range down to the level of that table.
pub open spec fn mapped(
    before: TableMemory,
    after: TableMemory,
    root: u64,
    start: u64,
    leaf_level: int,
    attributes: PageAttributes,
    frames: Seq<u64>,
    spares: Seq<PhysLv1PageAddress>,
) -> bool {
    &&& after.wf()
    &&& after.spec_platform() == before.spec_platform()
    &&& forall|r: u64| #[trigger] after.has_root(r) == before.has_root(r)
    &&& forall|x: u64| #[trigger]
        after.has_table(x) == (before.has_table(x) || among(
            spares,
            0,
            needed_tables(before, root, start, leaf_level, frames.len() as int),
            x,
        ))
    &&& forall|j: int, va: u64|
        0 <= j < frames.len() && same_indices_from(
            leaf_level,
            #[trigger] page_at(start, leaf_level, j),
            va,
        ) ==> #[trigger] after.resolve(root, va) == Some((leaf_level, attributes, frames[j]))
    &&& forall|r: u64, va: u64|
        before.has_root(r) && !(r == root && covered(
            start,
            leaf_level,
            frames.len() as int,
            leaf_level,
            va,
        )) ==> #[trigger] after.resolve(r, va) == before.resolve(r, va)
    &&& forall|j: int, k: int|
        0 <= j < frames.len() && leaf_level <= k <= 4 && fresh_gap(
            before,
            root,
            start,
            leaf_level,
            j,
            k,
        ) == 1 ==> #[trigger] after.table_on_path(root, page_at(start, leaf_level, j), k) == Some(
            spares[needed_tables(before, root, start, leaf_level, j) + fresh_above(
                before,
                root,
                start,
                leaf_level,
                j,
                k,
            )]@,
        )
    &&& forall|r: u64, va: u64, k: int|
        before.has_root(r) && 1 <= k <= 5 ==> (#[trigger] after.table_on_path(r, va, k)).is_some()
            == (before.table_on_path(r, va, k).is_some() || (r == root && k >= leaf_level
            && covered(start, leaf_level, frames.len() as int, k + 1, va)))
}

/// Maps a range of pages whose preconditions have been checked: page `j`
/// to frame `j`, in order, taking spare frames for new tables from the
/// front.
#[verifier::rlimit(40)]
pub fn map_range(
    memory: &mut TableMemory,
    root: u64,
    start: u64,
    leaf_level: u8,
    frames: &Vec<u64>,
    attributes: PageAttributes,
    spares: &[PhysLv1PageAddress],
)
    requires
        old(memory).wf(),
        old(memory).has_root(root),
        1 <= leaf_level <= 3,
        VirtAddress::verdict(old(memory).spec_platform(), start).is_none(),
        start & !page_mask_of(leaf_level as int) == 0,
        range_fits(old(memory).spec_platform(), start, leaf_level as int, frames@.len() as int),
        !any_blocked(*old(memory), root, start, leaf_level as int, frames@.len() as int),
        needed_tables(*old(memory), root, start, leaf_level as int, frames@.len() as int)
            <= spares@.len(),
        spares_fresh(*old(memory), spares@, 0),
        forall|j: int|
            0 <= j < frames@.len() ==> frame_ok(
                old(memory).spec_platform(),
                leaf_level as int,
                #[trigger] frames@[j],
            ),
    ensures
        mapped(
            *old(memory),
            *final(memory),
            root,
            start,
            leaf_level as int,
            attributes,
            frames@,
            spares@,
        ),
{
    let ghost first = *memory;
    let ghost platform = memory.spec_platform();
    let ghost level = leaf_level as int;
    let count: usize = frames.len();
    let size: u64 = page_size_of(leaf_level);
    let total: usize = spares.len();
    let mut used: usize = 0;
    let mut i: usize = 0;
    while i < count
        invariant
            first.wf(),
            first.has_root(root),
            platform == first.spec_platform(),
            level == leaf_level as int,
            1 <= leaf_level <= 3,
            count == frames@.len(),
            total == spares@.len(),
            size == page_bytes(level),
            VirtAddress::verdict(platform, start).is_none(),
            start & !page_mask_of(level) == 0,
            range_fits(platform, start, level, count as int),
            !any_blocked(first, root, start, level, count as int),
            needed_tables(first, root, start, level, count as int) <= spares@.len(),
            spares_fresh(first, spares@, 0),
            forall|j: int| 0 <= j < frames@.len() ==> frame_ok(platform, level, #[trigger] frames@[j]),
            0 <= i <= count,
            memory.wf(),
            memory.spec_platform() == platform,
            used == needed_tables(first, root, start, level, i as int),
            forall|r: u64| #[trigger] memory.has_root(r) == first.has_root(r),
            forall|x: u64| #[trigger]
                memory.has_table(x) == (first.has_table(x) || among(spares@, 0, used as int, x)),
            forall|j: int, va: u64|
                0 <= j < i && same_indices_from(level, #[trigger] page_at(start, level, j), va)
                    ==> #[trigger] memory.resolve(root, va) == Some(
                    (level, attributes, frames@[j]),
                ),
            forall|r: u64, va: u64|
                first.has_root(r) && !(r == root && covered(start, level, i as int, level, va))
                    ==> #[trigger] memory.resolve(r, va) == first.resolve(r, va),
            forall|r: u64, va: u64|
                first.has_root(r) ==> #[trigger] blocked(*memory, r, va, level) == (blocked(
                    first,
                    r,
                    va,
                    level,
                ) || (r == root && covered(start, level, i as int, level, va))),
            forall|r: u64, va: u64, k: int|
                first.has_root(r) && 1 <= k <= 5 ==> (#[trigger] memory.table_on_path(
                    r,
                    va,
                    k,
                )).is_some() == (first.table_on_path(r, va, k).is_some() || (r == root && k
                    >= level && covered(start, level, i as int, k + 1, va))),
            forall|j: int, k: int|
                0 <= j < i && level <= k <= 4 && fresh_gap(first, root, start, level, j, k) == 1
                    ==> #[trigger] memory.table_on_path(root, page_at(start, level, j), k)
                    == Some(
                    spares@[needed_tables(first, root, start, level, j) + fresh_above(
                        first,
                        root,
                        start,
                        level,
                        j,
                        k,
                    )]@,
                ),
        decreases count - i,
    {
        let ghost here = *memory;
        let ghost page = page_at(start, level, i as int);
        proof {
            lemma_range_page(platform, start, level, count as int, i as int);
            assert(i * size <= u64::MAX) by (nonlinear_arith)
                requires
                    start + i * size <= u64::MAX,
                    0 <= start,
            ;
            lemma_covered_page(platform, start, level, count as int, i as int, 4);
            lemma_covered_page(platform, start, level, count as int, i as int, 3);
            lemma_covered_page(platform, start, level, count as int, i as int, 2);
            lemma_covered_page(platform, start, level, count as int, i as int, 1);
            assert(!blocked(first, root, page, level));
            assert(blocked(here, root, page, level) == (blocked(first, root, page, level) || (root
                == root && covered(start, level, i as int, level, page))));
            assert(here.table_on_path(root, page, 4).is_some() == (first.table_on_path(
                root,
                page,
                4,
            ).is_some() || covered(start, level, i as int, 5, page)));
            assert(level <= 3 ==> here.table_on_path(root, page, 3).is_some() == (
            first.table_on_path(root, page, 3).is_some() || covered(
                start,
                level,
                i as int,
                4,
                page,
            )));
            assert(level <= 2 ==> here.table_on_path(root, page, 2).is_some() == (
            first.table_on_path(root, page, 2).is_some() || covered(
                start,
                level,
                i as int,
                3,
                page,
            )));
            assert(level <= 1 ==> here.table_on_path(root, page, 1).is_some() == (
            first.table_on_path(root, page, 1).is_some() || covered(
                start,
                level,
                i as int,
                2,
                page,
            )));
            assert(missing_tables(here, root, page, level) == fresh_tables(
                first,
                root,
                start,
                level,
                i as int,
            ));
            assert forall|k: int| level <= k <= 4 implies gaps_above(here, root, page, k)
                == fresh_above(first, root, start, level, i as int, k) by {
                reveal_with_fuel(gaps_above, 5);
                reveal_with_fuel(fresh_above, 5);
            }
            lemma_needed_grows(first, root, start, level, i + 1, count as int);
            assert forall|s: int| used <= s < spares@.len() implies (#[trigger] spares@[s]).wf(
                platform,
            ) && !here.has_table(spares@[s]@) by {
                if among(spares@, 0, used as int, spares@[s]@) {
                    let t = choose|t: int|
                        0 <= t < used && 0 <= t < spares@.len() && (#[trigger] spares@[t])@
                            == spares@[s]@;
                    assert(spares@[t]@ != spares@[s]@);
                }
            }
            crate::table::TableMemory::lemma_leaf_round_trip(
                platform,
                level,
                attributes,
                frames@[i as int],
            );
        }
        let step: u64 = (i as u64) * size;
        let address: u64 = start + step;
        let word: u64 = leaf_word(attributes, leaf_level >= 2, frames[i]);
        let taken: usize = map_page(memory, root, address, leaf_level, word, spares, used);
        proof {
            let after = *memory;
            assert forall|r: u64| #[trigger] after.has_root(r) == first.has_root(r) by {
                assert(here.has_root(r) == first.has_root(r));
            }
            assert forall|x: u64| #[trigger]
                after.has_table(x) == (first.has_table(x) || among(
                    spares@,
                    0,
                    used + taken,
                    x,
                )) by {
                assert(here.has_table(x) == (first.has_table(x) || among(
                    spares@,
                    0,
                    used as int,
                    x,
                )));
                if among(spares@, 0, used as int, x) {
                    let t = choose|t: int|
                        0 <= t < used && 0 <= t < spares@.len() && (#[trigger] spares@[t])@ == x;
                    assert(0 <= t < used + taken);
                }
                if among(spares@, used as int, used + taken, x) {
                    let t = choose|t: int|
                        used <= t < used + taken && 0 <= t < spares@.len() && (
                        #[trigger] spares@[t])@ == x;
                    assert(0 <= t < used + taken);
                }
                if among(spares@, 0, used + taken, x) {
                    let t = choose|t: int|
                        0 <= t < used + taken && 0 <= t < spares@.len() && (
                        #[trigger] spares@[t])@ == x;
                    if t < used {
                        assert(among(spares@, 0, used as int, x));
                    } else {
                        assert(among(spares@, used as int, used + taken, x));
                    }
                }
            }
            assert forall|j: int, va: u64|
                0 <= j < i + 1 && same_indices_from(
                    level,
                    #[trigger] page_at(start, level, j),
                    va,
                ) implies #[trigger] after.resolve(root, va) == Some(
                (level, attributes, frames@[j]),
            ) by {
                assert(here.has_root(root));
                if j < i {
                    if same_indices_from(level, page, va) {
                        assert forall|q: int| level <= q <= 5 implies #[trigger] spec_index_at(
                            q,
                            page_at(start, level, j),
                        ) == spec_index_at(q, page) by {}
                        lemma_pages_distinct(platform, start, level, count as int, j, i as int);
                    }
                    assert(here.resolve(root, va) == Some((level, attributes, frames@[j])));
                }
            }
            assert forall|j: int, k: int|
                0 <= j < i + 1 && level <= k <= 4 && fresh_gap(
                    first,
                    root,
                    start,
                    level,
                    j,
                    k,
                ) == 1 implies #[trigger] after.table_on_path(root, page_at(start, level, j), k)
                == Some(
                spares@[needed_tables(first, root, start, level, j) + fresh_above(
                    first,
                    root,
                    start,
                    level,
                    j,
                    k,
                )]@,
            ) by {
                assert(here.has_root(root));
                if j < i {
                    assert(here.table_on_path(root, page_at(start, level, j), k) == Some(
                        spares@[needed_tables(first, root, start, level, j) + fresh_above(
                            first,
                            root,
                            start,
                            level,
                            j,
                            k,
                        )]@,
                    ));
                } else {
                    assert(here.table_on_path(root, page, k).is_none());
                    assert(gaps_above(here, root, page, k) == fresh_above(
                        first,
                        root,
                        start,
                        level,
                        i as int,
                        k,
                    ));
                }
            }
            assert forall|r: u64, va: u64|
                first.has_root(r) && !(r == root && covered(
                    start,
                    level,
                    i + 1,
                    level,
                    va,
                )) implies #[trigger] after.resolve(r, va) == first.resolve(r, va) by {
                assert(here.has_root(r));
                lemma_covered_step(start, level, i as int, level, va);
                assert(here.resolve(r, va) == first.resolve(r, va));
            }
            assert forall|r: u64, va: u64| first.has_root(r) implies #[trigger] blocked(
                after,
                r,
                va,
                level,
            ) == (blocked(first, r, va, level) || (r == root && covered(
                start,
                level,
                i + 1,
                level,
                va,
            ))) by {
                assert(here.has_root(r));
                lemma_covered_step(start, level, i as int, level, va);
                assert(blocked(here, r, va, level) == (blocked(first, r, va, level) || (r == root
                    && covered(start, level, i as int, level, va))));
            }
            assert forall|r: u64, va: u64, k: int|
                first.has_root(r) && 1 <= k <= 5 implies (#[trigger] after.table_on_path(
                r,
                va,
                k,
            )).is_some() == (first.table_on_path(r, va, k).is_some() || (r == root && k >= level
                && covered(start, level, i + 1, k + 1, va))) by {
                assert(here.has_root(r));
                lemma_covered_step(start, level, i as int, k + 1, va);
                assert(here.table_on_path(r, va, k).is_some() == (first.table_on_path(
                    r,
                    va,
                    k,
                ).is_some() || (r == root && k >= level && covered(
                    start,
                    level,
                    i as int,
                    k + 1,
                    va,
                ))));
            }
        }
        used = used + taken;
        i = i + 1;
    }
}

/// Tests whether `count` pages of `leaf_level` from `start` on are a range.
pub fn check_range(platform: &Platform, start: u64, leaf_level: u8, count: u64) -> (fits: bool)
    requires
        platform.wf(),
        1 <= leaf_level <= 3,
    ensures
        fits == range_fits(*platform, start, leaf_level as int, count as int),
{
    if count == 0 {
        return true;
    }
    let size: u64 = page_size_of(leaf_level);
    let ghost last_page = start + (count - 1) * size;
    let span: u64 = match (count - 1).checked_mul(size) {
        Some(span) => span,
        None => {
            return false;
        },
    };
    let last: u64 = match start.checked_add(span) {
        Some(last) => last,
        None => {
            return false;
        },
    };
    if VirtAddress::new(platform, last).is_err() {
        return false;
    }
    match platform.canonical_bit() {
        Some(bit) => get_bit(start, bit as usize) == get_bit(last, bit as usize),
        None => true,
    }
}

/// Whether one of the first `count` pages of a range is mapped already: a
/// leaf of any level covers its address.
pub open spec fn any_mapped(
    memory: TableMemory,
    root: u64,
    start: u64,
    leaf_level: int,
    count: int,
) -> bool {
    exists|j: int|
        0 <= j < count && (#[trigger] memory.resolve(root, page_at(start, leaf_level, j))).is_some()
}

/// A page that is mapped cannot be mapped again: a range with a mapped page
/// has a blocked page.
pub proof fn lemma_mapped_is_blocked(
    memory: TableMemory,
    root: u64,
    start: u64,
    leaf_level: int,
    count: int,
)
    requires
        1 <= leaf_level <= 3,
        any_mapped(memory, root, start, leaf_level, count),
    ensures
        any_blocked(memory, root, start, leaf_level, count),
{
    let j = choose|j: int|
        0 <= j < count && (#[trigger] memory.resolve(
            root,
            page_at(start, leaf_level, j),
        )).is_some();
    crate::walk::lemma_resolve_level(memory, root, page_at(start, leaf_level, j), leaf_level);
    assert(blocked(memory, root, page_at(start, leaf_level, j), leaf_level));
}

/// The error that a request to map `count` pages of `leaf_level` from
/// `start` on meets, if any, with `spare_count` spare frames at hand. The
/// range is checked first, then whether a page is already in use, then the
/// number of spare frames.
pub open spec fn map_verdict(
    memory: TableMemory,
    root: u64,
    start: u64,
    leaf_level: int,
    count: int,
    spare_count: int,
) -> Option<PagingErros> {
    if !range_fits(memory.spec_platform(), start, leaf_level, count) {
        Some(PagingErros::NumberOfPagesOutOfBounds)
    } else if any_blocked(memory, root, start, leaf_level, count) {
        Some(PagingErros::PageAlreadyPresent)
    } else if spare_count < needed_tables(memory, root, start, leaf_level, count) {
        Some(PagingErros::InsufficientPagesForPageTable)
    } else {
        None
    }
}

/// Maps a range of pages, page `j` to frame `j`, or changes nothing and
/// says why not.
pub fn map_checked(
    memory: &mut TableMemory,
    root: u64,
    start: u64,
    leaf_level: u8,
    frames: &Vec<u64>,
    attributes: PageAttributes,
    spares: &[PhysLv1PageAddress],
) -> (result: Result<(), PagingErros>)
    requires
        old(memory).wf(),
        old(memory).has_root(root),
        1 <= leaf_level <= 3,
        VirtAddress::verdict(old(memory).spec_platform(), start).is_none(),
        start & !page_mask_of(leaf_level as int) == 0,
        spares_fresh(*old(memory), spares@, 0),
        forall|j: int|
            0 <= j < frames@.len() ==> frame_ok(
                old(memory).spec_platform(),
                leaf_level as int,
                #[trigger] frames@[j],
            ),
    ensures
        match result {
            Ok(_) => map_verdict(
                *old(memory),
                root,
                start,
                leaf_level as int,
                frames@.len() as int,
                spares@.len() as int,
            ).is_none() && mapped(
                *old(memory),
                *final(memory),
                root,
                start,
                leaf_level as int,
                attributes,
                frames@,
                spares@,
            ),
            Err(e) => map_verdict(
                *old(memory),
                root,
                start,
                leaf_level as int,
                frames@.len() as int,
                spares@.len() as int,
            ) == Some(e) && *final(memory) == *old(memory),
        },
        range_fits(old(memory).spec_platform(), start, leaf_level as int, frames@.len() as int)
            && any_mapped(*old(memory), root, start, leaf_level as int, frames@.len() as int)
            ==> result == Err::<(), PagingErros>(PagingErros::PageAlreadyPresent)
            && *final(memory) == *old(memory),
{
    proof {
        if any_mapped(*memory, root, start, leaf_level as int, frames@.len() as int) {
            lemma_mapped_is_blocked(*memory, root, start, leaf_level as int, frames@.len() as int);
        }
    }
    let count: u64 = frames.len() as u64;
    if !check_range(memory.platform(), start, leaf_level, count) {
        return Err(PagingErros::NumberOfPagesOutOfBounds);
    }
    let (occupied, needed) = plan(memory, root, start, leaf_level, count);
    if occupied {
        return Err(PagingErros::PageAlreadyPresent);
    }
    if (spares.len() as u64) < needed {
        return Err(PagingErros::InsufficientPagesForPageTable);
    }
    map_range(memory, root, start, leaf_level, frames, attributes, spares);
    Ok(())
}

} // verus!
