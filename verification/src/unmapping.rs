//! Taking mappings away: clearing the leaf of a page and giving back every
//! table that is left without an entry in use.

use crate::entry::{decode_address, entry_valid, lemma_zero_entry};
use crate::mapping::{
    covered, index_of, lemma_chain, lemma_covered_page, lemma_covered_step, lemma_path_ends,
    page_size_of,
};
use crate::memory::VirtAddress;
use crate::page_address::PhysLv1PageAddress;
use crate::query::page_mask_of;
use crate::range::{lemma_range_page, page_at, page_bytes, range_fits};
use crate::table::{decode_entry, spec_index_at, Slot, TableMemory};
use crate::walk::{
    lemma_index_range, lemma_path_table, lemma_resolve_level,
    lemma_store_summary, lemma_unlink_summary, same_indices_from,
};
use vstd::prelude::*;

verus! {

/// The tables on the way to the entry of a page of `leaf_level` at
/// `address`, from the root down, as far as the walk finds them.
pub fn descend(memory: &TableMemory, root: u64, address: u64, leaf_level: u8) -> (path: Vec<u64>)
    requires
        memory.wf(),
        memory.has_root(root),
        1 <= leaf_level <= 3,
    ensures
        1 <= path@.len() <= 6 - leaf_level,
        forall|q: int|
            0 <= q < path@.len() ==> memory.table_on_path(root, address, 5 - q) == Some(
                #[trigger] path@[q],
            ),
        path@.len() < 6 - leaf_level ==> !(memory.slot_on_path(
            root,
            address,
            6 - path@.len(),
        ) is Table),
{
    let indices = decode_address(address);
    let mut path: Vec<u64> = Vec::new();
    path.push(root);
    let mut table: u64 = root;
    let mut level: u8 = 5;
    let mut ended = false;
    while level > leaf_level && !ended
        invariant
            memory.wf(),
            memory.has_root(root),
            1 <= leaf_level <= 3,
            leaf_level <= level <= 5,
            indices.0 as int == spec_index_at(5, address),
            indices.1 as int == spec_index_at(4, address),
            indices.2 as int == spec_index_at(3, address),
            indices.3 as int == spec_index_at(2, address),
            indices.4 as int == spec_index_at(1, address),
            indices.0 < 512 && indices.1 < 512 && indices.2 < 512 && indices.3 < 512 && indices.4
                < 512,
            path@.len() == 6 - level,
            memory.table_on_path(root, address, level as int) == Some(table),
            forall|q: int|
                0 <= q < path@.len() ==> memory.table_on_path(root, address, 5 - q) == Some(
                    #[trigger] path@[q],
                ),
            ended ==> level > leaf_level && !(memory.slot_on_path(root, address, level as int)
                is Table),
        decreases level + (if ended { 0int } else { 1 }),
    {
        let index: u16 = index_of(indices, level);
        proof {
            lemma_path_table(*memory, root, address, level as int);
        }
        let entry: u64 = memory.read_entry(table, index);
        match decode_entry(memory.platform(), level, entry) {
            Slot::Table(below) => {
                table = below;
                level = level - 1;
                path.push(below);
            },
            _ => {
                ended = true;
            },
        }
    }
    path
}

/// Whether `frame` is one of the frames of `freed` from position `from` on.
pub open spec fn released(freed: Seq<PhysLv1PageAddress>, from: int, frame: u64) -> bool {
    exists|q: int| from <= q < freed.len() && (#[trigger] freed[q])@ == frame
}

/// The table that a walk finds after unmapping where it found `found`
/// before: the same one, unless it was given back.
pub open spec fn kept(found: Option<u64>, after: TableMemory) -> Option<u64> {
    match found {
        Some(table) => if after.has_table(table) {
            Some(table)
        } else {
            None
        },
        None => None,
    }
}

/// Nothing changed: a store is what unmapping nothing makes of it.
pub proof fn lemma_reclaimed_nothing(memory: TableMemory, freed: Seq<PhysLv1PageAddress>)
    requires
        memory.wf(),
    ensures
        reclaimed(memory, memory, freed, freed),
{
    assert forall|r: u64, va: u64, k: int| memory.has_root(r) && 1 <= k <= 5 implies #[trigger]
        memory.table_on_path(r, va, k) == kept(memory.table_on_path(r, va, k), memory) by {
        if memory.table_on_path(r, va, k).is_some() {
            lemma_path_table(memory, r, va, k);
        }
    }
}

/// What unmapping makes of a store, with the frames it gave back appended
/// to `freed_before`: the roots are the same; the tables are those of
/// before without the frames given back, each of which held a table; no
/// table below a root that had an entry in use is left without one; and a
/// walk finds the tables it found, but for those given back.
pub open spec fn reclaimed(
    before: TableMemory,
    after: TableMemory,
    freed_before: Seq<PhysLv1PageAddress>,
    freed_after: Seq<PhysLv1PageAddress>,
) -> bool {
    &&& after.wf()
    &&& after.spec_platform() == before.spec_platform()
    &&& forall|r: u64| #[trigger] after.has_root(r) == before.has_root(r)
    &&& freed_before.len() <= freed_after.len()
    &&& forall|q: int| 0 <= q < freed_before.len() ==> #[trigger] freed_after[q] == freed_before[q]
    &&& forall|q: int|
        freed_before.len() <= q < freed_after.len() ==> before.has_table(
            (#[trigger] freed_after[q])@,
        ) && freed_after[q].wf(before.spec_platform())
    &&& forall|x: u64| #[trigger]
        after.has_table(x) == (before.has_table(x) && !released(
            freed_after,
            freed_before.len() as int,
            x,
        ))
    &&& forall|p: int, q: int|
        freed_before.len() <= p < q < freed_after.len() ==> (#[trigger] freed_after[p])@ != (
        #[trigger] freed_after[q])@
    &&& forall|t: u64|
        #[trigger] after.has_table(t) && after.level_of(t) < 5 && !before.table_empty(t)
            ==> !after.table_empty(t)
    &&& forall|r: u64, va: u64, k: int|
        before.has_root(r) && 1 <= k <= 5 ==> #[trigger] after.table_on_path(r, va, k) == kept(
            before.table_on_path(r, va, k),
            after,
        )
}

/// A table that keeps its entries keeps having one in use.
pub proof fn lemma_still_in_use(before: TableMemory, after: TableMemory, table: u64)
    requires
        !before.table_empty(table),
        forall|i: int|
            0 <= i < 512 ==> #[trigger] after.words_of(table)[i] == before.words_of(table)[i],
    ensures
        !after.table_empty(table),
{
    let i = choose|i: int| 0 <= i < 512 && entry_valid(#[trigger] before.words_of(table)[i]);
    assert(entry_valid(after.words_of(table)[i]));
}

/// Unmaps the page of `leaf_level` at `address`, where the walk ends at a
/// leaf of that level, and changes nothing otherwise. Every table on the
/// way that is left without an entry in use is unlinked, from the lowest
/// up, and its frame appended to `freed`.
pub fn unmap_page_at(
    memory: &mut TableMemory,
    root: u64,
    address: u64,
    leaf_level: u8,
    freed: &mut Vec<PhysLv1PageAddress>,
)
    requires
        old(memory).wf(),
        old(memory).has_root(root),
        1 <= leaf_level <= 3,
    ensures
        reclaimed(*old(memory), *final(memory), old(freed)@, final(freed)@),
        final(freed)@.len() <= old(freed)@.len() + 4,
        forall|r: u64, va: u64|
            old(memory).has_root(r) ==> #[trigger] final(memory).resolve(r, va) == (if r == root
                && same_indices_from(leaf_level as int, address, va) && old(memory).slot_on_path(
                root,
                address,
                leaf_level as int,
            ) is Leaf {
                None
            } else {
                old(memory).resolve(r, va)
            }),
{
    let ghost first = *memory;
    let ghost given = freed@;
    let indices = decode_address(address);
    let path = descend(memory, root, address, leaf_level);
    proof {
        assert(first.table_on_path(root, address, 6 - path@.len()) == Some(
            path@[path@.len() - 1],
        ));
        lemma_chain(first, root, address, 6 - path@.len());
    }
    if path.len() < 6 - leaf_level as usize {
        proof {
            lemma_path_ends(first, root, address, 6 - path@.len());
            lemma_reclaimed_nothing(first, given);
        }
        return ;
    }
    let lowest: u64 = path[5 - leaf_level as usize];
    let index: u16 = index_of(indices, leaf_level);
    proof {
        lemma_path_table(first, root, address, leaf_level as int);
    }
    let entry: u64 = memory.read_entry(lowest, index);
    match decode_entry(memory.platform(), leaf_level, entry) {
        Slot::Leaf(_, _) => {},
        _ => {
            proof {
                lemma_reclaimed_nothing(first, given);
            }
            return ;
        },
    }
    proof {
        lemma_zero_entry();
    }
    memory.store_leaf(lowest, index, 0);
    let ghost cleared = *memory;
    proof {
        assert forall|r: u64| #[trigger] cleared.has_root(r) == first.has_root(r) by {
            if first.has_table(r) {
                assert(cleared.has_table(r));
                assert(cleared.level_of(r) == first.level_of(r));
            }
        }
        assert forall|r: u64, va: u64| first.has_root(r) implies #[trigger] cleared.resolve(r, va)
            == (if r == root && same_indices_from(leaf_level as int, address, va) {
            None
        } else {
            first.resolve(r, va)
        }) by {
            lemma_store_summary(
                first,
                cleared,
                lowest,
                index as int,
                0,
                root,
                address,
                leaf_level as int,
                r,
                va,
            );
            if r == root && same_indices_from(leaf_level as int, address, va) {
                crate::mapping::lemma_upper_slots(first, root, address, va, leaf_level as int);
                assert(same_indices_from(leaf_level + 1, address, va)) by {
                    assert forall|j: int| leaf_level + 1 <= j <= 5 implies #[trigger] spec_index_at(
                        j,
                        address,
                    ) == spec_index_at(j, va) by {}
                }
                crate::walk::lemma_same_indices_same_path(
                    first,
                    root,
                    address,
                    va,
                    leaf_level as int,
                );
                assert(spec_index_at(leaf_level as int, address) == spec_index_at(
                    leaf_level as int,
                    va,
                ));
                assert(first.slot_on_path(root, va, leaf_level as int) is Leaf);
                lemma_path_ends(first, root, va, leaf_level as int);
                lemma_path_ends(cleared, root, va, leaf_level as int);
            }
        }
        assert forall|q: int| 0 <= q < path@.len() implies cleared.table_on_path(
            root,
            address,
            5 - q,
        ) == Some(#[trigger] path@[q]) by {
            lemma_store_summary(
                first,
                cleared,
                lowest,
                index as int,
                0,
                root,
                address,
                leaf_level as int,
                root,
                address,
            );
        }
        assert forall|r: u64, va: u64, k: int|
            first.has_root(r) && 1 <= k <= 5 implies #[trigger] cleared.table_on_path(r, va, k)
            == kept(first.table_on_path(r, va, k), cleared) by {
            lemma_store_summary(
                first,
                cleared,
                lowest,
                index as int,
                0,
                root,
                address,
                leaf_level as int,
                r,
                va,
            );
            if first.table_on_path(r, va, k).is_some() {
                lemma_path_table(first, r, va, k);
                assert(cleared.has_table(first.table_on_path(r, va, k).unwrap()));
            }
        }
        assert forall|t: u64|
            #[trigger] cleared.has_table(t) && t != lowest && !first.table_empty(
                t,
            ) implies !cleared.table_empty(t) by {
            assert(first.has_table(t));
            assert forall|i: int| 0 <= i < 512 implies #[trigger] cleared.words_of(t)[i]
                == first.words_of(t)[i] by {}
            lemma_still_in_use(first, cleared, t);
        }
    }
    let mut level: u8 = leaf_level;
    let mut going = true;
    while level < 5 && going
        invariant
            first.wf(),
            first.has_root(root),
            1 <= leaf_level <= 3,
            leaf_level <= level <= 5,
            path@.len() == 6 - leaf_level,
            indices.0 as int == spec_index_at(5, address),
            indices.1 as int == spec_index_at(4, address),
            indices.2 as int == spec_index_at(3, address),
            indices.3 as int == spec_index_at(2, address),
            indices.4 as int == spec_index_at(1, address),
            indices.0 < 512 && indices.1 < 512 && indices.2 < 512 && indices.3 < 512 && indices.4
                < 512,
            memory.wf(),
            memory.spec_platform() == first.spec_platform(),
            forall|r: u64| #[trigger] memory.has_root(r) == first.has_root(r),
            forall|q: int|
                0 <= q <= 5 - level ==> memory.table_on_path(root, address, 5 - q) == Some(
                    #[trigger] path@[q],
                ),
            forall|r: u64, va: u64|
                first.has_root(r) ==> #[trigger] memory.resolve(r, va) == cleared.resolve(r, va),
            forall|r: u64, va: u64, k: int|
                first.has_root(r) && 1 <= k <= 5 ==> #[trigger] memory.table_on_path(r, va, k)
                    == kept(first.table_on_path(r, va, k), *memory),
            given.len() <= freed@.len(),
            freed@.len() == given.len() + (level - leaf_level),
            forall|q: int| 0 <= q < given.len() ==> #[trigger] freed@[q] == given[q],
            forall|q: int|
                given.len() <= q < freed@.len() ==> first.has_table((#[trigger] freed@[q])@)
                    && freed@[q].wf(first.spec_platform()),
            forall|x: u64| #[trigger]
                memory.has_table(x) == (first.has_table(x) && !released(
                    freed@,
                    given.len() as int,
                    x,
                )),
            forall|p: int, q: int|
                given.len() <= p < q < freed@.len() ==> (#[trigger] freed@[p])@ != (
                #[trigger] freed@[q])@,
            going ==> forall|t: u64|
                #[trigger] memory.has_table(t) && t != path@[5 - level] && !first.table_empty(t)
                    ==> !memory.table_empty(t),
            !going ==> forall|t: u64|
                #[trigger] memory.has_table(t) && memory.level_of(t) < 5 && !first.table_empty(t)
                    ==> !memory.table_empty(t),
        decreases 5 - level + (if going { 1int } else { 0 }),
    {
        let here_table: u64 = path[5 - level as usize];
        let ghost here = *memory;
        proof {
            lemma_path_table(here, root, address, level as int);
            lemma_path_table(here, root, address, level + 1);
            assert(here.table_on_path(root, address, level as int) == Some(path@[5 - level]));
            assert(here.table_on_path(root, address, level + 1) == Some(path@[4 - level]));
        }
        if memory.table_is_empty(here_table) {
            let above: u64 = path[4 - level as usize];
            let slot: u16 = index_of(indices, level + 1);
            proof {
                lemma_index_range(level + 1, address);
                assert(here.slot_in(above, slot as int) == Slot::Table(here_table));
            }
            let frame = memory.unlink_table(above, slot);
            let ghost earlier = freed@;
            freed.push(frame);
            proof {
                let after = *memory;
                assert forall|r: u64| #[trigger] after.has_root(r) == first.has_root(r) by {
                    assert(here.has_root(r) == first.has_root(r));
                    assert(here.level_of(here_table) == level);
                    if here.has_table(r) && r != here_table {
                        assert(after.has_table(r));
                        assert(after.level_of(r) == here.level_of(r));
                    }
                }
                assert forall|q: int| 0 <= q <= 4 - level implies after.table_on_path(
                    root,
                    address,
                    5 - q,
                ) == Some(#[trigger] path@[q]) by {
                    lemma_unlink_summary(
                        here,
                        after,
                        above,
                        slot as int,
                        here_table,
                        root,
                        address,
                    );
                    assert(here.table_on_path(root, address, 5 - q) == Some(path@[q]));
                    lemma_path_table(here, root, address, 5 - q);
                }
                assert forall|r: u64, va: u64| first.has_root(r) implies #[trigger] after.resolve(
                    r,
                    va,
                ) == cleared.resolve(r, va) by {
                    assert(here.has_root(r));
                    lemma_unlink_summary(here, after, above, slot as int, here_table, r, va);
                    assert(here.resolve(r, va) == cleared.resolve(r, va));
                }
                assert forall|r: u64, va: u64, k: int|
                    first.has_root(r) && 1 <= k <= 5 implies #[trigger] after.table_on_path(
                    r,
                    va,
                    k,
                ) == kept(first.table_on_path(r, va, k), after) by {
                    assert(here.has_root(r));
                    lemma_unlink_summary(here, after, above, slot as int, here_table, r, va);
                    assert(here.table_on_path(r, va, k) == kept(
                        first.table_on_path(r, va, k),
                        here,
                    ));
                    if let Some(t) = first.table_on_path(r, va, k) {
                        assert(after.has_table(t) == (here.has_table(t) && t != here_table));
                    }
                }
                assert forall|p: int, q: int|
                    given.len() <= p < q < freed@.len() implies (#[trigger] freed@[p])@ != (
                #[trigger] freed@[q])@ by {
                    if q == freed@.len() - 1 {
                        assert(here.has_table(here_table));
                        assert(earlier[p] == freed@[p]);
                        if earlier[p]@ == here_table {
                            assert(released(earlier, given.len() as int, here_table));
                        }
                    } else {
                        assert(earlier[p] == freed@[p] && earlier[q] == freed@[q]);
                    }
                }
                assert forall|x: u64| #[trigger]
                    after.has_table(x) == (first.has_table(x) && !released(
                        freed@,
                        given.len() as int,
                        x,
                    )) by {
                    assert(here.has_table(x) == (first.has_table(x) && !released(
                        earlier,
                        given.len() as int,
                        x,
                    )));
                    if released(earlier, given.len() as int, x) {
                        let q = choose|q: int|
                            given.len() <= q < earlier.len() && (#[trigger] earlier[q])@ == x;
                        assert(freed@[q]@ == x);
                    }
                    if x == here_table {
                        assert(freed@[freed@.len() - 1]@ == x);
                    }
                    if released(freed@, given.len() as int, x) {
                        let q = choose|q: int|
                            given.len() <= q < freed@.len() && (#[trigger] freed@[q])@ == x;
                        if q < freed@.len() - 1 {
                            assert(earlier[q]@ == x);
                        }
                    }
                }
                assert forall|t: u64|
                    #[trigger] after.has_table(t) && t != above && !first.table_empty(
                        t,
                    ) implies !after.table_empty(t) by {
                    assert(here.has_table(t));
                    assert(t != here_table);
                    assert(!here.table_empty(t));
                    assert forall|i: int| 0 <= i < 512 implies #[trigger] after.words_of(t)[i]
                        == here.words_of(t)[i] by {}
                    lemma_still_in_use(here, after, t);
                }
            }
            level = level + 1;
        } else {
            going = false;
            proof {
                assert forall|t: u64|
                    #[trigger] here.has_table(t) && here.level_of(t) < 5 && !first.table_empty(
                        t,
                    ) implies !here.table_empty(t) by {}
            }
        }
    }
    proof {
        let last = *memory;
        if going {
            assert(level == 5);
            assert(path@[0] == root);
            assert forall|t: u64|
                #[trigger] last.has_table(t) && last.level_of(t) < 5 && !first.table_empty(
                    t,
                ) implies !last.table_empty(t) by {
                assert(last.has_root(root));
            }
        }
        assert forall|r: u64, va: u64| first.has_root(r) implies #[trigger] last.resolve(r, va)
            == (if r == root && same_indices_from(leaf_level as int, address, va)
            && first.slot_on_path(root, address, leaf_level as int) is Leaf {
            None
        } else {
            first.resolve(r, va)
        }) by {
            assert(last.resolve(r, va) == cleared.resolve(r, va));
        }
    }
}

/// Whether the walk to `address` ends at a leaf of `level`.
pub open spec fn maps_at(memory: TableMemory, root: u64, address: u64, level: int) -> bool {
    memory.resolve(root, address) matches Some(found) && found.0 == level
}

/// What unmapping a range makes of the translations: an address that lay
/// in a page of the range that was mapped as a page of `leaf_level`
/// translates to nothing, and every other address, in every address space,
/// translates as before.
pub open spec fn unmapped(
    before: TableMemory,
    after: TableMemory,
    root: u64,
    start: u64,
    leaf_level: int,
    count: int,
) -> bool {
    forall|r: u64, va: u64|
        before.has_root(r) ==> #[trigger] after.resolve(r, va) == (if r == root && covered(
            start,
            leaf_level,
            count,
            leaf_level,
            va,
        ) && maps_at(before, root, va, leaf_level) {
            None
        } else {
            before.resolve(r, va)
        })
}

/// Two steps of unmapping are one: what the second gives back is appended
/// to what the first gave back.
pub proof fn lemma_reclaimed_twice(
    first: TableMemory,
    middle: TableMemory,
    last: TableMemory,
    freed_first: Seq<PhysLv1PageAddress>,
    freed_middle: Seq<PhysLv1PageAddress>,
    freed_last: Seq<PhysLv1PageAddress>,
)
    requires
        first.wf(),
        reclaimed(first, middle, freed_first, freed_middle),
        reclaimed(middle, last, freed_middle, freed_last),
    ensures
        reclaimed(first, last, freed_first, freed_last),
{
    assert forall|q: int| 0 <= q < freed_first.len() implies #[trigger] freed_last[q]
        == freed_first[q] by {
        assert(freed_middle[q] == freed_first[q]);
    }
    assert forall|q: int| freed_first.len() <= q < freed_last.len() implies first.has_table(
        (#[trigger] freed_last[q])@,
    ) && freed_last[q].wf(first.spec_platform()) by {
        if q < freed_middle.len() {
            assert(freed_last[q] == freed_middle[q]);
        } else {
            assert(middle.has_table(freed_last[q]@));
        }
    }
    assert forall|x: u64| #[trigger]
        last.has_table(x) == (first.has_table(x) && !released(
            freed_last,
            freed_first.len() as int,
            x,
        )) by {
        assert(middle.has_table(x) == (first.has_table(x) && !released(
            freed_middle,
            freed_first.len() as int,
            x,
        )));
        if released(freed_middle, freed_first.len() as int, x) {
            let q = choose|q: int|
                freed_first.len() <= q < freed_middle.len() && (#[trigger] freed_middle[q])@ == x;
            assert(freed_last[q] == freed_middle[q]);
        }
        if released(freed_last, freed_middle.len() as int, x) {
            let q = choose|q: int|
                freed_middle.len() <= q < freed_last.len() && (#[trigger] freed_last[q])@ == x;
            assert(freed_first.len() <= q);
        }
        if released(freed_last, freed_first.len() as int, x) {
            let q = choose|q: int|
                freed_first.len() <= q < freed_last.len() && (#[trigger] freed_last[q])@ == x;
            if q < freed_middle.len() {
                assert(freed_last[q] == freed_middle[q]);
                assert(released(freed_middle, freed_first.len() as int, x));
            } else {
                assert(released(freed_last, freed_middle.len() as int, x));
            }
        }
    }
    assert forall|p: int, q: int|
        freed_first.len() <= p < q < freed_last.len() implies (#[trigger] freed_last[p])@ != (
    #[trigger] freed_last[q])@ by {
        if q < freed_middle.len() {
            assert(freed_last[p] == freed_middle[p] && freed_last[q] == freed_middle[q]);
        } else if p < freed_middle.len() {
            assert(freed_last[p] == freed_middle[p]);
            assert(middle.has_table(freed_last[q]@));
            if freed_middle[p]@ == freed_last[q]@ {
                assert(released(freed_middle, freed_first.len() as int, freed_last[q]@));
            }
        }
    }
    assert forall|r: u64, va: u64, k: int| first.has_root(r) && 1 <= k <= 5 implies #[trigger]
        last.table_on_path(r, va, k) == kept(first.table_on_path(r, va, k), last) by {
        assert(middle.has_root(r) == first.has_root(r));
        assert(middle.table_on_path(r, va, k) == kept(first.table_on_path(r, va, k), middle));
        assert(last.table_on_path(r, va, k) == kept(middle.table_on_path(r, va, k), last));
        if let Some(t) = first.table_on_path(r, va, k) {
            assert(last.has_table(t) ==> middle.has_table(t));
        }
    }
    assert forall|t: u64|
        #[trigger] last.has_table(t) && last.level_of(t) < 5 && !first.table_empty(
            t,
        ) implies !last.table_empty(t) by {
        assert(middle.has_table(t));
        assert(last.has_root(t) == middle.has_root(t));
        assert(middle.table_ok(t));
        assert(last.table_ok(t));
    }
}

/// Addresses that select the same entries down to `level` end at a leaf of
/// that level together.
pub proof fn lemma_maps_at_same(memory: TableMemory, root: u64, a: u64, b: u64, level: int)
    requires
        1 <= level <= 3,
        same_indices_from(level, a, b),
    ensures
        memory.slot_on_path(root, a, level) == memory.slot_on_path(root, b, level),
        maps_at(memory, root, a, level) == maps_at(memory, root, b, level),
{
    assert(same_indices_from(level + 1, a, b)) by {
        assert forall|j: int| level + 1 <= j <= 5 implies #[trigger] spec_index_at(j, a)
            == spec_index_at(j, b) by {}
    }
    crate::walk::lemma_same_indices_same_path(memory, root, a, b, level);
    assert(spec_index_at(level, a) == spec_index_at(level, b));
    lemma_resolve_level(memory, root, a, level);
    lemma_resolve_level(memory, root, b, level);
}

/// Unmaps the pages of a range that are mapped as pages of `leaf_level`
/// and returns the frames of the tables that are left without an entry in
/// use. Pages that are not mapped, or that a page of another size covers,
/// stay as they are.
pub fn unmap_range(memory: &mut TableMemory, root: u64, start: u64, leaf_level: u8, count: u64) -> (freed:
    Vec<PhysLv1PageAddress>)
    requires
        old(memory).wf(),
        old(memory).has_root(root),
        1 <= leaf_level <= 3,
        VirtAddress::verdict(old(memory).spec_platform(), start).is_none(),
        start & !page_mask_of(leaf_level as int) == 0,
        range_fits(old(memory).spec_platform(), start, leaf_level as int, count as int),
    ensures
        reclaimed(*old(memory), *final(memory), Seq::empty(), freed@),
        unmapped(
            *old(memory),
            *final(memory),
            root,
            start,
            leaf_level as int,
            count as int,
        ),
{
    let ghost first = *memory;
    let ghost platform = memory.spec_platform();
    let ghost level = leaf_level as int;
    let size: u64 = page_size_of(leaf_level);
    let mut freed: Vec<PhysLv1PageAddress> = Vec::new();
    let mut i: u64 = 0;
    proof {
        lemma_reclaimed_nothing(first, freed@);
    }
    while i < count
        invariant
            first.wf(),
            first.has_root(root),
            platform == first.spec_platform(),
            level == leaf_level as int,
            1 <= leaf_level <= 3,
            size == page_bytes(level),
            VirtAddress::verdict(platform, start).is_none(),
            start & !page_mask_of(level) == 0,
            range_fits(platform, start, level, count as int),
            0 <= i <= count,
            reclaimed(first, *memory, Seq::empty(), freed@),
            forall|r: u64, va: u64|
                first.has_root(r) ==> #[trigger] memory.resolve(r, va) == (if r == root
                    && covered(start, level, i as int, level, va) && maps_at(
                    first,
                    root,
                    va,
                    level,
                ) {
                    None
                } else {
                    first.resolve(r, va)
                }),
        decreases count - i,
    {
        let ghost here = *memory;
        let ghost earlier = freed@;
        let ghost page = page_at(start, level, i as int);
        proof {
            lemma_range_page(platform, start, level, count as int, i as int);
            assert(i * size <= u64::MAX) by (nonlinear_arith)
                requires
                    start + i * size <= u64::MAX,
                    0 <= start,
            ;
            assert(here.has_root(root));
        }
        let address: u64 = start + i * size;
        unmap_page_at(memory, root, address, leaf_level, &mut freed);
        proof {
            let after = *memory;
            lemma_reclaimed_twice(first, here, after, Seq::empty(), earlier, freed@);
            lemma_covered_page(platform, start, level, count as int, i as int, 4);
            assert(here.resolve(root, page) == first.resolve(root, page));
            lemma_resolve_level(here, root, page, level);
            lemma_resolve_level(first, root, page, level);
            assert forall|r: u64, va: u64| first.has_root(r) implies #[trigger] after.resolve(
                r,
                va,
            ) == (if r == root && covered(start, level, i + 1, level, va) && maps_at(
                first,
                root,
                va,
                level,
            ) {
                None
            } else {
                first.resolve(r, va)
            }) by {
                assert(here.has_root(r));
                lemma_covered_step(start, level, i as int, level, va);
                if r == root && same_indices_from(level, page, va) {
                    lemma_maps_at_same(first, root, page, va, level);
                }
                assert(here.resolve(r, va) == (if r == root && covered(
                    start,
                    level,
                    i as int,
                    level,
                    va,
                ) && maps_at(first, root, va, level) {
                    None
                } else {
                    first.resolve(r, va)
                }));
            }
        }
        i = i + 1;
    }
    freed
}

} // verus!
