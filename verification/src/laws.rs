//! What holds between the operations of the protocol.

use crate::entry::entry_valid;
use crate::mapping::{
    among, any_blocked, covered, fresh_above, fresh_gap, fresh_tables, lemma_chain, map_verdict,
    mapped, needed_tables,
};
use crate::page_address::PhysLv1PageAddress;
use crate::paging::{Page, PageAttributes, PagingErros};
use crate::query::{answers, nameable, page_mask_of, reports};
use crate::range::{lemma_with_index, page_at, range_fits, with_index};
use crate::table::{spec_index_at, Slot, TableMemory};
use crate::unmapping::{kept, maps_at, reclaimed, released, unmapped};
use crate::walk::{
    lemma_index_range, lemma_path_table, lemma_resolve_at, lemma_resolve_level,
    lemma_same_indices_same_path, same_indices_from,
};
use vstd::prelude::*;

verus! {

/// A query that follows a mapping finds what was mapped: at every address
/// that lies in page `j` of the range, the answer names a page of the level
/// that was mapped, with the attributes that were asked for and frame `j`.
pub proof fn lemma_map_then_query(
    before: TableMemory,
    after: TableMemory,
    root: u64,
    start: u64,
    leaf_level: int,
    attributes: PageAttributes,
    frames: Seq<u64>,
    spares: Seq<PhysLv1PageAddress>,
    j: int,
    address: u64,
    page: Option<Page>,
)
    requires
        mapped(before, after, root, start, leaf_level, attributes, frames, spares),
        0 <= j < frames.len(),
        same_indices_from(leaf_level, page_at(start, leaf_level, j), address),
        nameable(after.spec_platform(), address & page_mask_of(leaf_level)),
        answers(after, root, address, page),
    ensures
        page matches Some(found) && reports(
            after.spec_platform(),
            found,
            (leaf_level, attributes, frames[j]),
            address,
        ),
{
    assert(after.resolve(root, address) == Some((leaf_level, attributes, frames[j])));
}

/// A query that follows an unmapping finds nothing: at every address that
/// lay in a page of the range that was mapped as a page of the unmapped
/// size, the answer is that nothing is mapped.
pub proof fn lemma_unmap_then_query(
    before: TableMemory,
    after: TableMemory,
    root: u64,
    start: u64,
    leaf_level: int,
    count: int,
    address: u64,
    page: Option<Page>,
)
    requires
        before.has_root(root),
        unmapped(before, after, root, start, leaf_level, count),
        covered(start, leaf_level, count, leaf_level, address),
        maps_at(before, root, address, leaf_level),
        answers(after, root, address, page),
    ensures
        page.is_none(),
{
    assert(after.resolve(root, address).is_none());
}

/// Mapping a range and unmapping it again leaves every address of the range
/// without a translation.
pub proof fn lemma_map_then_unmap(
    first: TableMemory,
    middle: TableMemory,
    last: TableMemory,
    root: u64,
    start: u64,
    leaf_level: int,
    attributes: PageAttributes,
    frames: Seq<u64>,
    spares: Seq<PhysLv1PageAddress>,
    j: int,
    address: u64,
)
    requires
        first.has_root(root),
        mapped(first, middle, root, start, leaf_level, attributes, frames, spares),
        unmapped(middle, last, root, start, leaf_level, frames.len() as int),
        0 <= j < frames.len(),
        same_indices_from(leaf_level, page_at(start, leaf_level, j), address),
    ensures
        last.resolve(root, address).is_none(),
{
    assert(middle.has_root(root) == first.has_root(root));
    assert(middle.resolve(root, address) == Some((leaf_level, attributes, frames[j])));
    assert(covered(start, leaf_level, frames.len() as int, leaf_level, address));
}

/// Mapping over a page that is mapped fails with `PageAlreadyPresent`: one
/// page of a valid range that translates to anything is enough.
pub proof fn lemma_map_present_fails(
    memory: TableMemory,
    root: u64,
    start: u64,
    leaf_level: int,
    count: int,
    spare_count: int,
    j: int,
)
    requires
        1 <= leaf_level <= 3,
        range_fits(memory.spec_platform(), start, leaf_level, count),
        0 <= j < count,
        memory.resolve(root, page_at(start, leaf_level, j)).is_some(),
    ensures
        map_verdict(memory, root, start, leaf_level, count, spare_count) == Some(
            PagingErros::PageAlreadyPresent,
        ),
{
    lemma_resolve_level(memory, root, page_at(start, leaf_level, j), leaf_level);
}

/// The count of needed tables is exact: with that many spare frames a valid
/// range without a mapped page is mapped, and with one fewer the request
/// fails with `InsufficientPagesForPageTable`.
pub proof fn lemma_exact_spares(
    memory: TableMemory,
    root: u64,
    start: u64,
    leaf_level: int,
    count: int,
)
    requires
        range_fits(memory.spec_platform(), start, leaf_level, count),
        !any_blocked(memory, root, start, leaf_level, count),
    ensures
        map_verdict(
            memory,
            root,
            start,
            leaf_level,
            count,
            needed_tables(memory, root, start, leaf_level, count),
        ).is_none(),
        map_verdict(
            memory,
            root,
            start,
            leaf_level,
            count,
            needed_tables(memory, root, start, leaf_level, count) - 1,
        ) == Some(PagingErros::InsufficientPagesForPageTable),
{
}

/// A mapping that was handed exactly the needed number of spare frames
/// leaves none over: every one of them holds a table afterwards.
pub proof fn lemma_no_spare_left(
    before: TableMemory,
    after: TableMemory,
    root: u64,
    start: u64,
    leaf_level: int,
    attributes: PageAttributes,
    frames: Seq<u64>,
    spares: Seq<PhysLv1PageAddress>,
    s: int,
)
    requires
        mapped(before, after, root, start, leaf_level, attributes, frames, spares),
        spares.len() == needed_tables(before, root, start, leaf_level, frames.len() as int),
        0 <= s < spares.len(),
    ensures
        after.has_table(spares[s]@),
{
    assert(among(
        spares,
        0,
        needed_tables(before, root, start, leaf_level, frames.len() as int),
        spares[s]@,
    ));
}

/// A table that mapping a range made is given back when the range is
/// unmapped: where the walk to page `j` found no table of level `k` before
/// the mapping, the table that it found afterwards has left the store and
/// its frame is among those that the unmapping returned.
pub proof fn lemma_created_table_comes_back(
    first: TableMemory,
    middle: TableMemory,
    last: TableMemory,
    root: u64,
    start: u64,
    leaf_level: int,
    attributes: PageAttributes,
    frames: Seq<u64>,
    spares: Seq<PhysLv1PageAddress>,
    freed: Seq<PhysLv1PageAddress>,
    j: int,
    k: int,
)
    requires
        first.has_root(root),
        1 <= leaf_level <= 3,
        mapped(first, middle, root, start, leaf_level, attributes, frames, spares),
        unmapped(middle, last, root, start, leaf_level, frames.len() as int),
        reclaimed(middle, last, Seq::empty(), freed),
        0 <= j < frames.len(),
        leaf_level <= k <= 4,
        first.table_on_path(root, page_at(start, leaf_level, j), k).is_none(),
    ensures
        middle.table_on_path(root, page_at(start, leaf_level, j), k).is_some(),
        !last.has_table(middle.table_on_path(root, page_at(start, leaf_level, j), k).unwrap()),
        released(
            freed,
            0,
            middle.table_on_path(root, page_at(start, leaf_level, j), k).unwrap(),
        ),
    decreases k,
{
    let count = frames.len() as int;
    let page = page_at(start, leaf_level, j);
    assert(middle.has_root(root) == first.has_root(root));
    assert(last.has_root(root) == middle.has_root(root));
    assert(covered(start, leaf_level, count, k + 1, page)) by {
        assert(same_indices_from(k + 1, page_at(start, leaf_level, j), page));
    }
    assert(middle.table_on_path(root, page, k).is_some());
    let x = middle.table_on_path(root, page, k).unwrap();
    lemma_path_table(middle, root, page, k);
    if last.has_table(x) {
        lemma_index_range(k, page);
        let own = spec_index_at(k, page);
        if k == leaf_level {
            assert(same_indices_from(leaf_level, page_at(start, leaf_level, j), page));
            assert(middle.resolve(root, page) == Some((leaf_level, attributes, frames[j])));
            lemma_resolve_level(middle, root, page, leaf_level);
        } else {
            assert(covered(start, leaf_level, count, k, page)) by {
                assert(same_indices_from(k, page_at(start, leaf_level, j), page));
            }
            assert(middle.table_on_path(root, page, k - 1).is_some());
            assert(middle.slot_on_path(root, page, k) is Table);
        }
        assert(entry_valid(middle.words_of(x)[own]));
        assert(!middle.table_empty(x));
        assert(last.has_root(x) == middle.has_root(x));
        assert(last.table_ok(x));
        assert(!last.table_empty(x));
        let i = choose|i: int| 0 <= i < 512 && entry_valid(#[trigger] last.words_of(x)[i]);
        let va = with_index(k, page, i as u64);
        lemma_with_index(k, page, i as u64);
        assert(last.table_on_path(root, page, k) == kept(
            middle.table_on_path(root, page, k),
            last,
        ));
        lemma_same_indices_same_path(last, root, page, va, k);
        lemma_same_indices_same_path(first, root, page, va, k);
        lemma_path_table(last, root, va, k);
        match last.slot_on_path(root, va, k) {
            Slot::Absent => {},
            Slot::Leaf(_, _) => {
                lemma_resolve_at(last, root, va, k);
                assert(last.resolve(root, va) == (if covered(
                    start,
                    leaf_level,
                    count,
                    leaf_level,
                    va,
                ) && maps_at(middle, root, va, leaf_level) {
                    None
                } else {
                    middle.resolve(root, va)
                }));
                if covered(start, leaf_level, count, leaf_level, va) {
                    let other = choose|other: int|
                        0 <= other < count && same_indices_from(
                            leaf_level,
                            #[trigger] page_at(start, leaf_level, other),
                            va,
                        );
                    assert(middle.resolve(root, va) == Some(
                        (leaf_level, attributes, frames[other]),
                    ));
                } else {
                    assert(middle.resolve(root, va) == first.resolve(root, va));
                    lemma_resolve_level(first, root, va, k);
                    lemma_resolve_at(first, root, va, k);
                }
            },
            Slot::Table(below) => {
                assert(last.edge_ok(x, i));
                assert(last.table_on_path(root, va, k - 1) == Some(below));
                assert(last.table_on_path(root, va, k - 1) == kept(
                    middle.table_on_path(root, va, k - 1),
                    last,
                ));
                assert(middle.table_on_path(root, va, k - 1) == Some(below));
                if first.table_on_path(root, va, k - 1).is_some() {
                    lemma_chain(first, root, va, k - 1);
                } else {
                    assert(covered(start, leaf_level, count, k, va));
                    let other = choose|other: int|
                        0 <= other < count && same_indices_from(
                            k,
                            #[trigger] page_at(start, leaf_level, other),
                            va,
                        );
                    let beside = page_at(start, leaf_level, other);
                    lemma_same_indices_same_path(middle, root, beside, va, k - 1);
                    lemma_same_indices_same_path(first, root, beside, va, k - 1);
                    lemma_created_table_comes_back(
                        first,
                        middle,
                        last,
                        root,
                        start,
                        leaf_level,
                        attributes,
                        frames,
                        spares,
                        freed,
                        other,
                        k - 1,
                    );
                }
            },
        }
    }
    assert(last.has_table(x) == (middle.has_table(x) && !released(freed, 0, x)));
}

/// Every spare frame that a range needs is needed by one page for one
/// level: for a position below the count of needed tables, the page and the
/// level whose new table takes the spare frame at that position.
pub proof fn lemma_spare_owner(
    memory: TableMemory,
    root: u64,
    start: u64,
    leaf_level: int,
    count: int,
    position: int,
) -> (owner: (int, int))
    requires
        0 <= count,
        0 <= position < needed_tables(memory, root, start, leaf_level, count),
    ensures
        0 <= owner.0 < count,
        leaf_level <= owner.1 <= 4,
        fresh_gap(memory, root, start, leaf_level, owner.0, owner.1) == 1,
        needed_tables(memory, root, start, leaf_level, owner.0) + fresh_above(
            memory,
            root,
            start,
            leaf_level,
            owner.0,
            owner.1,
        ) == position,
    decreases count,
{
    let page = count - 1;
    if position < needed_tables(memory, root, start, leaf_level, page) {
        lemma_spare_owner(memory, root, start, leaf_level, page, position)
    } else {
        reveal_with_fuel(fresh_above, 5);
        let offset = position - needed_tables(memory, root, start, leaf_level, page);
        let at4 = fresh_gap(memory, root, start, leaf_level, page, 4);
        let at3 = fresh_gap(memory, root, start, leaf_level, page, 3);
        let at2 = fresh_gap(memory, root, start, leaf_level, page, 2);
        assert(offset < fresh_tables(memory, root, start, leaf_level, page));
        if at4 == 1 && offset == 0 {
            (page, 4)
        } else if at3 == 1 && offset == at4 {
            (page, 3)
        } else if at2 == 1 && offset == at4 + at3 {
            (page, 2)
        } else {
            (page, 1)
        }
    }
}

/// Unmapping a range that was just mapped gives back what the mapping took:
/// every spare frame that became a table is returned, and has left the
/// store; no frame is returned twice; and a returned frame that held no
/// table before the mapping is one of the spare frames that became a table.
/// So where the mapping made every table that the unmapping empties, the
/// frames returned are the spare frames taken, in some order.
pub proof fn lemma_unmap_returns_spares(
    first: TableMemory,
    middle: TableMemory,
    last: TableMemory,
    root: u64,
    start: u64,
    leaf_level: int,
    attributes: PageAttributes,
    frames: Seq<u64>,
    spares: Seq<PhysLv1PageAddress>,
    freed: Seq<PhysLv1PageAddress>,
)
    requires
        first.has_root(root),
        1 <= leaf_level <= 3,
        needed_tables(first, root, start, leaf_level, frames.len() as int) <= spares.len(),
        mapped(first, middle, root, start, leaf_level, attributes, frames, spares),
        unmapped(middle, last, root, start, leaf_level, frames.len() as int),
        reclaimed(middle, last, Seq::empty(), freed),
    ensures
        forall|position: int|
            0 <= position < needed_tables(first, root, start, leaf_level, frames.len() as int)
                ==> released(freed, 0, (#[trigger] spares[position])@) && !last.has_table(
                spares[position]@,
            ),
        forall|p: int, q: int|
            0 <= p < q < freed.len() ==> (#[trigger] freed[p])@ != (#[trigger] freed[q])@,
        forall|q: int|
            0 <= q < freed.len() && !first.has_table((#[trigger] freed[q])@) ==> among(
                spares,
                0,
                needed_tables(first, root, start, leaf_level, frames.len() as int),
                freed[q]@,
            ),
        forall|q: int|
            0 <= q < freed.len() ==> middle.has_table((#[trigger] freed[q])@) && !last.has_table(
                freed[q]@,
            ),
{
    let count = frames.len() as int;
    assert forall|position: int|
        0 <= position < needed_tables(first, root, start, leaf_level, count) implies released(
        freed,
        0,
        (#[trigger] spares[position])@,
    ) && !last.has_table(spares[position]@) by {
        let owner = lemma_spare_owner(first, root, start, leaf_level, count, position);
        let page = page_at(start, leaf_level, owner.0);
        assert(middle.table_on_path(root, page, owner.1) == Some(spares[position]@));
        lemma_created_table_comes_back(
            first,
            middle,
            last,
            root,
            start,
            leaf_level,
            attributes,
            frames,
            spares,
            freed,
            owner.0,
            owner.1,
        );
    }
    assert forall|q: int| 0 <= q < freed.len() implies middle.has_table((#[trigger] freed[q])@)
        && !last.has_table(freed[q]@) by {
        assert(released(freed, 0, freed[q]@));
        assert(last.has_table(freed[q]@) == (middle.has_table(freed[q]@) && !released(
            freed,
            0,
            freed[q]@,
        )));
    }
    assert forall|q: int|
        0 <= q < freed.len() && !first.has_table((#[trigger] freed[q])@) implies among(
        spares,
        0,
        needed_tables(first, root, start, leaf_level, count),
        freed[q]@,
    ) by {
        assert(middle.has_table(freed[q]@));
    }
}

} // verus!
