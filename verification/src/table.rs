//! The memory that holds page tables: every table by the physical address of
//! its frame, with the level it has in its tree and the entry that points to
//! it. The tables of one store form trees; no table is reachable twice.
//!
//! A walk always passes five levels, from the root at level 5 down to level
//! 1. With 48-bit addresses a canonical address selects entry 0 or entry 511
//! of the root, so that the root holds at most two tables of level 4.

use crate::bits::get_bit;
use crate::entry::{
    entry_large, entry_valid, spec_unpack_attributes, unpack_attributes, LARGE_PAGE_BIT,
    PAGE_ATTRIBUTE_TABLE_BIT_4K, PAGE_ATTRIBUTE_TABLE_BIT_LARGE, VALID_BIT,
};
use crate::memory::PhysAddress;
use crate::page_address::{PhysLv1PageAddress, PhysLv2PageAddress, PhysLv3PageAddress};
use crate::paging::PageAttributes;
use crate::platform::Platform;
use std::collections::HashMap;
use vstd::prelude::*;

verus! {

broadcast use vstd::std_specs::hash::group_hash_axioms;

/// The number of entries of a table.
pub const ENTRIES_PER_TABLE: usize = 512;

/// The level of the top table of a tree.
pub const ROOT_LEVEL: u8 = 5;

/// What an entry of a table is, once its bits are read.
#[derive(Clone, Copy, Debug, PartialEq, Eq, Structural)]
pub enum Slot {
    /// Not in use.
    Absent,
    /// Points to the table of the next lower level, by its frame address.
    Table(u64),
    /// Ends the translation: the attributes and the frame address of a page.
    Leaf(PageAttributes, u64),
}

/// The index into the table of `level` (5 for the root, 1 for the last)
/// that `address` selects: nine bits, starting at bit 12 for level 1.
pub open spec fn spec_index_at(level: int, address: u64) -> int {
    if level == 5 {
        ((address >> 48) & 0x1FF) as int
    } else if level == 4 {
        ((address >> 39) & 0x1FF) as int
    } else if level == 3 {
        ((address >> 30) & 0x1FF) as int
    } else if level == 2 {
        ((address >> 21) & 0x1FF) as int
    } else {
        ((address >> 12) & 0x1FF) as int
    }
}

/// Reads an entry of a table of `level`. An entry without the valid bit is
/// absent. At levels 5 and 4 a valid entry points to a table; at levels 3 and
/// 2 it does so unless its large-page bit makes it a leaf; at level 1 it is
/// a leaf.
pub open spec fn spec_decode(platform: Platform, level: int, word: u64) -> Slot {
    if !entry_valid(word) {
        Slot::Absent
    } else if level >= 4 || (level >= 2 && !entry_large(word)) {
        Slot::Table(PhysLv1PageAddress::masked(platform, word))
    } else if level == 3 {
        Slot::Leaf(spec_unpack_attributes(word, 12), PhysLv3PageAddress::masked(platform, word))
    } else if level == 2 {
        Slot::Leaf(spec_unpack_attributes(word, 12), PhysLv2PageAddress::masked(platform, word))
    } else {
        Slot::Leaf(spec_unpack_attributes(word, 7), PhysLv1PageAddress::masked(platform, word))
    }
}

/// Reads an entry of a table of `level`.
pub fn decode_entry(platform: &Platform, level: u8, word: u64) -> (slot: Slot)
    ensures
        slot == spec_decode(*platform, level as int, word),
{
    if !get_bit(word, VALID_BIT) {
        Slot::Absent
    } else if level >= 4 || (level >= 2 && !get_bit(word, LARGE_PAGE_BIT)) {
        Slot::Table(PhysLv1PageAddress::new_maskoff(platform, word).get_address().get_u64())
    } else if level == 3 {
        Slot::Leaf(
            unpack_attributes(word, PAGE_ATTRIBUTE_TABLE_BIT_LARGE),
            PhysLv3PageAddress::new_maskoff(platform, word).get_address().get_u64(),
        )
    } else if level == 2 {
        Slot::Leaf(
            unpack_attributes(word, PAGE_ATTRIBUTE_TABLE_BIT_LARGE),
            PhysLv2PageAddress::new_maskoff(platform, word).get_address().get_u64(),
        )
    } else {
        Slot::Leaf(
            unpack_attributes(word, PAGE_ATTRIBUTE_TABLE_BIT_4K),
            PhysLv1PageAddress::new_maskoff(platform, word).get_address().get_u64(),
        )
    }
}

/// One table: its entries, its level and the entry that points to it.
pub struct Table {
    level: u8,
    parent: u64,
    slot: u16,
    words: Vec<u64>,
}

/// The tables of any number of address spaces on one platform.
pub struct TableMemory {
    platform: Platform,
    tables: HashMap<u64, Table>,
}

impl TableMemory {
    /// The platform whose table format the store has.
    pub closed spec fn spec_platform(&self) -> Platform {
        self.platform
    }

    /// Whether the frame at `table` holds a table.
    pub closed spec fn has_table(&self, table: u64) -> bool {
        self.tables@.contains_key(table)
    }

    /// The level of a table: 5 for a root, 1 for a table of 4 KiB leaves.
    pub closed spec fn level_of(&self, table: u64) -> int {
        self.tables@[table].level as int
    }

    /// The table whose entry points to `table`. A root has none.
    pub closed spec fn parent_of(&self, table: u64) -> u64 {
        self.tables@[table].parent
    }

    /// The index of the entry that points to `table`.
    pub closed spec fn slot_of(&self, table: u64) -> int {
        self.tables@[table].slot as int
    }

    /// The entries of a table.
    pub closed spec fn words_of(&self, table: u64) -> Seq<u64> {
        self.tables@[table].words@
    }

    /// The entry of `table` at `index`, read by the table's level.
    pub open spec fn slot_in(&self, table: u64, index: int) -> Slot {
        spec_decode(self.spec_platform(), self.level_of(table), self.words_of(table)[index])
    }

    /// An entry that points to a table points to a table of the store, of
    /// the next lower level, and that table names this entry as the one that
    /// points to it.
    pub open spec fn edge_ok(&self, table: u64, index: int) -> bool {
        match self.slot_in(table, index) {
            Slot::Table(child) => {
                &&& self.has_table(child)
                &&& self.level_of(child) == self.level_of(table) - 1
                &&& self.parent_of(child) == table
                &&& self.slot_of(child) == index
            },
            _ => true,
        }
    }

    /// The shape of a single table.
    pub open spec fn table_ok(&self, table: u64) -> bool {
        &&& 1 <= self.level_of(table) <= 5
        &&& self.words_of(table).len() == 512
        &&& PhysLv1PageAddress::aligned(self.spec_platform(), table)
        &&& PhysAddress::fits(self.spec_platform(), table)
    }

    /// A table below a root hangs in its tree: the entry that it names as the
    /// one pointing to it is an entry of a table of the store and points to
    /// it. No table is kept that nothing leads to.
    pub open spec fn hangs(&self, table: u64) -> bool {
        self.level_of(table) < 5 ==> {
            &&& self.has_table(self.parent_of(table))
            &&& 0 <= self.slot_of(table) < 512
            &&& self.slot_in(self.parent_of(table), self.slot_of(table)) == Slot::Table(table)
        }
    }

    /// Validity of the store.
    pub open spec fn wf(&self) -> bool {
        &&& self.spec_platform().wf()
        &&& self.spec_platform().has_x86_64_paging()
        &&& forall|table: u64| #[trigger] self.has_table(table) ==> self.table_ok(table)
        &&& forall|table: u64, index: int|
            self.has_table(table) && 0 <= index < 512 ==> #[trigger] self.edge_ok(table, index)
        &&& forall|table: u64| self.has_table(table) ==> #[trigger] self.hangs(table)
    }

    /// Whether `table` is the top table of a tree.
    pub open spec fn has_root(&self, table: u64) -> bool {
        self.has_table(table) && self.level_of(table) == 5
    }

    /// The table of `level` on the way from `root` to `address`, if the
    /// entries above it lead that far.
    pub open spec fn table_on_path(&self, root: u64, address: u64, level: int) -> Option<u64>
        decreases 5 - level,
    {
        if level >= 5 {
            Some(root)
        } else {
            match self.table_on_path(root, address, level + 1) {
                Some(above) => match self.slot_in(above, spec_index_at(level + 1, address)) {
                    Slot::Table(table) => Some(table),
                    _ => None,
                },
                None => None,
            }
        }
    }

    /// The entry of `level` that `address` selects on the way from `root`;
    /// absent where the way ends above that level.
    pub open spec fn slot_on_path(&self, root: u64, address: u64, level: int) -> Slot {
        match self.table_on_path(root, address, level) {
            Some(table) => self.slot_in(table, spec_index_at(level, address)),
            None => Slot::Absent,
        }
    }

    /// What `address` translates to in the tree of `root`: the level of the
    /// leaf that ends the walk, its attributes and its frame address; `None`
    /// where the walk ends at an absent entry.
    pub open spec fn resolve(&self, root: u64, address: u64) -> Option<(int, PageAttributes, u64)> {
        match self.slot_on_path(root, address, 3) {
            Slot::Leaf(attributes, frame) => Some((3, attributes, frame)),
            _ => match self.slot_on_path(root, address, 2) {
                Slot::Leaf(attributes, frame) => Some((2, attributes, frame)),
                _ => match self.slot_on_path(root, address, 1) {
                    Slot::Leaf(attributes, frame) => Some((1, attributes, frame)),
                    _ => None,
                },
            },
        }
    }

    /// An empty store for `platform`; `None` where the platform does not
    /// have the x86-64 page table.
    pub fn new(platform: Platform) -> (memory: Option<Self>)
        requires
            platform.wf(),
        ensures
            memory.is_some() == platform.has_x86_64_paging(),
            memory matches Some(m) ==> {
                &&& m.wf()
                &&& m.spec_platform() == platform
                &&& forall|table: u64| !m.has_table(table)
            },
    {
        if !platform.supports_x86_64_paging() {
            return None;
        }
        Some(Self { platform, tables: HashMap::new() })
    }

    pub fn platform(&self) -> (platform: &Platform)
        ensures
            *platform == self.spec_platform(),
    {
        &self.platform
    }

    /// Whether the frame at `frame` holds a table.
    pub fn contains_table(&self, frame: PhysLv1PageAddress) -> (found: bool)
        ensures
            found == self.has_table(frame@),
    {
        let key: u64 = frame.get_address().get_u64();
        self.tables.contains_key(&key)
    }

    /// The level of the table at `table`.
    pub fn table_level(&self, table: u64) -> (level: u8)
        requires
            self.has_table(table),
        ensures
            level as int == self.level_of(table),
    {
        let found = self.tables.get(&table);
        match found {
            Some(entry) => entry.level,
            None => 0,
        }
    }

    /// The entry of `table` at `index`.
    pub fn read_entry(&self, table: u64, index: u16) -> (word: u64)
        requires
            self.wf(),
            self.has_table(table),
            index < 512,
        ensures
            word == self.words_of(table)[index as int],
    {
        assert(self.table_ok(table));
        let found = self.tables.get(&table);
        match found {
            Some(entry) => entry.words[index as usize],
            None => 0,
        }
    }

    /// Whether every table of `before` is a table here too, with the level
    /// and the pointing entry it had.
    pub open spec fn keeps_tables_of(&self, before: TableMemory) -> bool {
        &&& self.spec_platform() == before.spec_platform()
        &&& forall|t: u64| before.has_table(t) ==> #[trigger] self.has_table(t)
        &&& forall|t: u64| before.has_table(t) ==> #[trigger] self.level_of(t) == before.level_of(t)
        &&& forall|t: u64|
            before.has_table(t) ==> #[trigger] self.parent_of(t) == before.parent_of(t)
        &&& forall|t: u64| before.has_table(t) ==> #[trigger] self.slot_of(t) == before.slot_of(t)
        &&& forall|t: u64|
            before.has_table(t) ==> (#[trigger] self.words_of(t)).len() == before.words_of(t).len()
    }

    /// Whether every entry of `before` but the one at (`table`, `index`) is
    /// unchanged here.
    pub open spec fn keeps_words_but(&self, before: TableMemory, table: u64, index: int) -> bool {
        forall|t: u64, i: int|
            before.has_table(t) && 0 <= i < 512 && !(t == table && i == index)
                ==> #[trigger] self.words_of(t)[i] == before.words_of(t)[i]
    }

    /// The change that storing `word` at (`table`, `index`) makes: that
    /// entry and nothing else.
    pub open spec fn stored_from(
        &self,
        before: TableMemory,
        table: u64,
        index: int,
        word: u64,
    ) -> bool {
        &&& self.keeps_tables_of(before)
        &&& forall|t: u64| #[trigger] self.has_table(t) ==> before.has_table(t)
        &&& self.keeps_words_but(before, table, index)
        &&& self.words_of(table)[index] == word
    }

    /// The change that linking the new table `child` at (`table`, `index`)
    /// makes: `child` joins the store with 512 absent entries, one level
    /// below `table`, and the entry points to it.
    pub open spec fn linked_from(
        &self,
        before: TableMemory,
        table: u64,
        index: int,
        child: u64,
    ) -> bool {
        &&& self.keeps_tables_of(before)
        &&& forall|t: u64| #[trigger] self.has_table(t) ==> before.has_table(t) || t == child
        &&& self.has_table(child)
        &&& self.keeps_words_but(before, table, index)
        &&& self.words_of(table)[index] == crate::entry::TABLE_POINTER_FLAGS | child
        &&& self.slot_in(table, index) == Slot::Table(child)
        &&& self.level_of(child) == before.level_of(table) - 1
        &&& self.parent_of(child) == table
        &&& self.slot_of(child) == index
        &&& self.words_of(child) == Seq::new(512, |i: int| 0u64)
    }

    /// The change that unlinking the table `child` from (`table`, `index`)
    /// makes: the entry is zero and `child` has left the store.
    pub open spec fn unlinked_from(
        &self,
        before: TableMemory,
        table: u64,
        index: int,
        child: u64,
    ) -> bool {
        &&& self.spec_platform() == before.spec_platform()
        &&& forall|t: u64| #[trigger] self.has_table(t) == (before.has_table(t) && t != child)
        &&& forall|t: u64| self.has_table(t) ==> #[trigger] self.level_of(t) == before.level_of(t)
        &&& forall|t: u64| self.has_table(t) ==> #[trigger] self.parent_of(t) == before.parent_of(t)
        &&& forall|t: u64| self.has_table(t) ==> #[trigger] self.slot_of(t) == before.slot_of(t)
        &&& forall|t: u64|
            self.has_table(t) ==> (#[trigger] self.words_of(t)).len() == before.words_of(t).len()
        &&& forall|t: u64, i: int|
            self.has_table(t) && 0 <= i < 512 && !(t == table && i == index)
                ==> #[trigger] self.words_of(t)[i] == before.words_of(t)[i]
        &&& self.words_of(table)[index] == 0
    }

    /// Whether no entry of `table` is in use.
    pub open spec fn table_empty(&self, table: u64) -> bool {
        forall|i: int| 0 <= i < 512 ==> !entry_valid(#[trigger] self.words_of(table)[i])
    }

    /// Replaces the entry at (`table`, `index`).
    fn put_word(&mut self, table: u64, index: u16, word: u64)
        requires
            old(self).has_table(table),
            old(self).words_of(table).len() == 512,
            index < 512,
        ensures
            final(self).stored_from(*old(self), table, index as int, word),
    {
        let removed = self.tables.remove(&table);
        match removed {
            Some(entry) => {
                let mut entry = entry;
                entry.words.set(index as usize, word);
                self.tables.insert(table, entry);
            },
            None => {},
        }
    }

    /// Stores a leaf, or clears an entry, where no table hangs: neither the
    /// entry as it is nor `word` points to a table.
    pub fn store_leaf(&mut self, table: u64, index: u16, word: u64)
        requires
            old(self).wf(),
            old(self).has_table(table),
            index < 512,
            !(old(self).slot_in(table, index as int) is Table),
            !(spec_decode(old(self).spec_platform(), old(self).level_of(table), word) is Table),
        ensures
            final(self).wf(),
            final(self).stored_from(*old(self), table, index as int, word),
    {
        let ghost before = *self;
        assert(before.table_ok(table));
        self.put_word(table, index, word);
        proof {
            assert forall|t: u64| #[trigger] self.has_table(t) implies self.table_ok(t) by {
                assert(before.has_table(t));
                assert(before.table_ok(t));
            }
            assert forall|t: u64, i: int|
                self.has_table(t) && 0 <= i < 512 implies #[trigger] self.edge_ok(t, i) by {
                assert(before.has_table(t));
                assert(before.edge_ok(t, i));
                assert(before.table_ok(t));
            }
            assert forall|t: u64| self.has_table(t) implies #[trigger] self.hangs(t) by {
                assert(before.has_table(t));
                assert(before.hangs(t));
                assert(self.level_of(t) == before.level_of(t));
                assert(self.parent_of(t) == before.parent_of(t));
                assert(self.slot_of(t) == before.slot_of(t));
                if before.level_of(t) < 5 {
                    let above = before.parent_of(t);
                    let at = before.slot_of(t);
                    assert(self.has_table(above));
                    assert(self.level_of(above) == before.level_of(above));
                    assert(self.words_of(above)[at] == before.words_of(above)[at]);
                }
            }
        }
    }

    /// An entry that points to an aligned frame inside the physical address
    /// width reads as a pointer to that frame at every level above the
    /// first, and a zero entry reads as absent.
    pub proof fn lemma_pointer_word(platform: Platform, level: int, child: u64)
        requires
            platform.has_x86_64_paging(),
            PhysLv1PageAddress::aligned(platform, child),
            PhysAddress::fits(platform, child),
            2 <= level <= 5,
        ensures
            spec_decode(platform, level, crate::entry::TABLE_POINTER_FLAGS | child) == Slot::Table(
                child,
            ),
            spec_decode(platform, level, 0) == Slot::Absent,
    {
        let phys = platform.spec_phys_mask();
        crate::entry::lemma_zero_entry();
        assert({
            &&& (0x207u64 | child) & (1u64 << 9) != 0
            &&& (0x207u64 | child) & (1u64 << 7) == 0
            &&& ((0x207u64 | child) & 0xFFFF_FFFF_FFFF_F000u64) & phys == child
        }) by (bit_vector)
            requires
                child & !0xFFFF_FFFF_FFFF_F000u64 == 0,
                child & !phys == 0,
        ;
    }

    /// A leaf entry reads back as the leaf it was built from: for every
    /// combination of attributes and every frame address that is valid for
    /// the page size of `level`, reading the entry gives those attributes
    /// and that frame.
    pub proof fn lemma_leaf_round_trip(
        platform: Platform,
        level: int,
        attributes: PageAttributes,
        frame: u64,
    )
        requires
            platform.has_x86_64_paging(),
            1 <= level <= 3,
            PhysAddress::fits(platform, frame),
            level == 1 ==> PhysLv1PageAddress::aligned(platform, frame),
            level == 2 ==> PhysLv2PageAddress::aligned(platform, frame),
            level == 3 ==> PhysLv3PageAddress::aligned(platform, frame),
        ensures
            spec_decode(platform, level, crate::entry::spec_leaf_word(attributes, level >= 2, frame))
                == Slot::Leaf(attributes, frame),
            crate::entry::spec_leaf_word(attributes, level >= 2, frame) != 0,
    {
        let phys = platform.spec_phys_mask();
        let large = level >= 2;
        let page_mask: u64 = if level == 1 {
            0xFFFF_FFFF_FFFF_F000u64
        } else if level == 2 {
            0xFFFF_FFFF_FFE0_0000u64
        } else {
            0xFFFF_FFFF_C000_0000u64
        };
        let bits: u64 = crate::entry::leaf_flag_bits(if large { 12 } else { 7 });
        assert(frame & bits == 0) by (bit_vector)
            requires
                frame & !phys == 0,
                phys & !0xF_FFFF_FFFF_FFFFu64 == 0,
                frame & !page_mask == 0,
                page_mask == 0xFFFF_FFFF_FFFF_F000u64 || page_mask == 0xFFFF_FFFF_FFE0_0000u64
                    || page_mask == 0xFFFF_FFFF_C000_0000u64,
                bits == (if page_mask == 0xFFFF_FFFF_FFFF_F000u64 {
                    0x8000_0000_0000_03FFu64
                } else {
                    0x8000_0000_0000_13FFu64
                }),
        ;
        crate::entry::lemma_leaf_word(attributes, large, frame);
        let word = crate::entry::spec_leaf_word(attributes, large, frame);
        assert((word & page_mask) & phys == frame) by (bit_vector)
            requires
                word & !bits == frame,
                frame & !phys == 0,
                phys & !0xF_FFFF_FFFF_FFFFu64 == 0,
                frame & !page_mask == 0,
                page_mask == 0xFFFF_FFFF_FFFF_F000u64 || page_mask == 0xFFFF_FFFF_FFE0_0000u64
                    || page_mask == 0xFFFF_FFFF_C000_0000u64,
                bits == (if page_mask == 0xFFFF_FFFF_FFFF_F000u64 {
                    0x8000_0000_0000_03FFu64
                } else {
                    0x8000_0000_0000_13FFu64
                }),
        ;
    }

    /// A table of 512 absent entries.
    fn blank_words() -> (words: Vec<u64>)
        ensures
            words@ == Seq::new(512, |i: int| 0u64),
    {
        let mut words: Vec<u64> = Vec::new();
        let mut filled: usize = 0;
        while filled < ENTRIES_PER_TABLE
            invariant
                filled <= 512,
                words@.len() == filled,
                forall|i: int| 0 <= i < filled ==> words@[i] == 0,
            decreases 512 - filled,
        {
            words.push(0);
            filled = filled + 1;
        }
        assert(words@ =~= Seq::new(512, |i: int| 0u64));
        words
    }

    /// Makes the frame at `child` a table of absent entries and points the
    /// entry at (`table`, `index`), which was absent, to it.
    pub fn link_table(&mut self, table: u64, index: u16, child: PhysLv1PageAddress)
        requires
            old(self).wf(),
            old(self).has_table(table),
            old(self).level_of(table) >= 2,
            index < 512,
            old(self).slot_in(table, index as int) is Absent,
            child.wf(old(self).spec_platform()),
            !old(self).has_table(child@),
        ensures
            final(self).wf(),
            final(self).linked_from(*old(self), table, index as int, child@),
    {
        let ghost before = *self;
        let frame: u64 = child.get_address().get_u64();
        assert(before.table_ok(table));
        let level: u8 = self.table_level(table);
        proof {
            Self::lemma_pointer_word(self.platform, level as int, frame);
        }
        let fresh = Table { level: level - 1, parent: table, slot: index, words: Self::blank_words() };
        self.tables.insert(frame, fresh);
        let ghost middle = *self;
        self.put_word(table, index, crate::entry::TABLE_POINTER_FLAGS | frame);
        proof {
            assert(middle.words_of(frame) == Seq::new(512, |i: int| 0u64));
            assert(middle.level_of(frame) == before.level_of(table) - 1);
            assert(middle.parent_of(frame) == table && middle.slot_of(frame) == index as int);
            assert forall|t: u64| before.has_table(t) implies middle.has_table(t)
                && middle.level_of(t) == before.level_of(t) && middle.parent_of(t)
                == before.parent_of(t) && middle.slot_of(t) == before.slot_of(t)
                && middle.words_of(t) == before.words_of(t) by {}
            assert forall|t: u64| #[trigger] self.has_table(t) implies self.table_ok(t) by {
                assert(middle.has_table(t));
                assert(self.level_of(t) == middle.level_of(t));
                assert(self.words_of(t).len() == middle.words_of(t).len());
                if t != frame {
                    assert(before.has_table(t));
                    assert(before.table_ok(t));
                }
            }
            assert forall|t: u64, i: int|
                before.has_table(t) && 0 <= i < 512 && !(t == table && i == index as int)
                    implies #[trigger] self.words_of(t)[i] == before.words_of(t)[i] by {
                assert(middle.has_table(t));
                assert(self.words_of(t)[i] == middle.words_of(t)[i]);
            }
            assert(self.level_of(frame) == middle.level_of(frame));
            assert(self.parent_of(frame) == middle.parent_of(frame));
            assert(self.slot_of(frame) == middle.slot_of(frame));
            assert(self.level_of(table) == middle.level_of(table));
            assert(self.words_of(frame).len() == middle.words_of(frame).len());
            assert forall|i: int| 0 <= i < 512 implies self.words_of(frame)[i] == 0u64 by {
                assert(self.words_of(frame)[i] == middle.words_of(frame)[i]);
            }
            assert(self.words_of(frame) =~= Seq::new(512, |i: int| 0u64));
            assert forall|t: u64, i: int|
                self.has_table(t) && 0 <= i < 512 implies #[trigger] self.edge_ok(t, i) by {
                assert(middle.has_table(t));
                assert(self.level_of(t) == middle.level_of(t));
                if t == frame {
                    assert(self.words_of(t)[i] == 0);
                    crate::entry::lemma_zero_entry();
                } else if t == table && i == index as int {
                } else {
                    assert(before.has_table(t));
                    assert(before.edge_ok(t, i));
                    assert(before.table_ok(t));
                    assert(self.words_of(t)[i] == before.words_of(t)[i]);
                    match before.slot_in(t, i) {
                        Slot::Table(c) => {
                            assert(before.has_table(c));
                            assert(middle.has_table(c));
                            assert(self.level_of(c) == middle.level_of(c));
                            assert(self.parent_of(c) == middle.parent_of(c));
                            assert(self.slot_of(c) == middle.slot_of(c));
                        },
                        _ => {},
                    }
                }
            }
            assert forall|t: u64| self.has_table(t) implies #[trigger] self.hangs(t) by {
                assert(middle.has_table(t));
                assert(self.level_of(t) == middle.level_of(t));
                assert(self.parent_of(t) == middle.parent_of(t));
                assert(self.slot_of(t) == middle.slot_of(t));
                if t != frame {
                    assert(before.has_table(t));
                    assert(before.hangs(t));
                    if before.level_of(t) < 5 {
                        let above = before.parent_of(t);
                        let at = before.slot_of(t);
                        assert(middle.has_table(above));
                        assert(self.has_table(above));
                        assert(self.level_of(above) == middle.level_of(above));
                        assert(self.words_of(above)[at] == before.words_of(above)[at]);
                    }
                }
            }
            assert forall|t: u64| before.has_table(t) implies #[trigger] self.level_of(t)
                == before.level_of(t) by {
                assert(middle.has_table(t));
                assert(self.level_of(t) == middle.level_of(t));
            }
            assert forall|t: u64| before.has_table(t) implies #[trigger] self.parent_of(t)
                == before.parent_of(t) by {
                assert(middle.has_table(t));
                assert(self.parent_of(t) == middle.parent_of(t));
            }
            assert forall|t: u64| before.has_table(t) implies #[trigger] self.slot_of(t)
                == before.slot_of(t) by {
                assert(middle.has_table(t));
                assert(self.slot_of(t) == middle.slot_of(t));
            }
            assert forall|t: u64| before.has_table(t) implies (#[trigger] self.words_of(t)).len()
                == before.words_of(t).len() by {
                assert(middle.has_table(t));
                assert(self.words_of(t).len() == middle.words_of(t).len());
            }
        }
    }

    /// Clears the entry at (`table`, `index`), which points to a table
    /// without an entry in use, takes that table out of the store and
    /// returns its frame.
    pub fn unlink_table(&mut self, table: u64, index: u16) -> (child: PhysLv1PageAddress)
        requires
            old(self).wf(),
            old(self).has_table(table),
            index < 512,
            old(self).slot_in(table, index as int) is Table,
            old(self).table_empty(old(self).slot_in(table, index as int)->Table_0),
        ensures
            final(self).wf(),
            old(self).slot_in(table, index as int) == Slot::Table(child@),
            child.wf(old(self).spec_platform()),
            final(self).unlinked_from(*old(self), table, index as int, child@),
    {
        let ghost before = *self;
        assert(before.table_ok(table));
        assert(before.edge_ok(table, index as int));
        let level: u8 = self.table_level(table);
        let word: u64 = self.read_entry(table, index);
        let frame: u64 = match decode_entry(&self.platform, level, word) {
            Slot::Table(frame) => frame,
            _ => 0,
        };
        assert(before.has_table(frame));
        assert(before.table_ok(frame));
        self.put_word(table, index, 0);
        let ghost middle = *self;
        self.tables.remove(&frame);
        proof {
            crate::entry::lemma_zero_entry();
            assert forall|t: u64| self.has_table(t) implies middle.has_table(t)
                && before.has_table(t) && t != frame && self.level_of(t) == before.level_of(t)
                && self.parent_of(t) == before.parent_of(t) && self.slot_of(t) == before.slot_of(
                t,
            ) && self.words_of(t) == middle.words_of(t) && self.words_of(t).len()
                == before.words_of(t).len() by {
                assert(middle.has_table(t));
                assert(before.has_table(t));
                assert(middle.level_of(t) == before.level_of(t));
                assert(middle.parent_of(t) == before.parent_of(t));
                assert(middle.slot_of(t) == before.slot_of(t));
                assert(middle.words_of(t).len() == before.words_of(t).len());
            }
            assert forall|t: u64| #[trigger] self.has_table(t) implies self.table_ok(t) by {
                assert(before.table_ok(t));
            }
            assert forall|t: u64, i: int|
                self.has_table(t) && 0 <= i < 512 && !(t == table && i == index as int)
                    implies #[trigger] self.words_of(t)[i] == before.words_of(t)[i] by {
                assert(middle.has_table(t));
                assert(middle.words_of(t)[i] == before.words_of(t)[i]);
            }
            assert(before.level_of(frame) == before.level_of(table) - 1);
            assert(frame != table);
            assert(middle.has_table(table));
            assert(self.has_table(table));
            assert(self.words_of(table) == middle.words_of(table));
            assert(self.words_of(table)[index as int] == 0);
            assert forall|t: u64| #[trigger]
                self.has_table(t) == (before.has_table(t) && t != frame) by {
                if before.has_table(t) && t != frame {
                    assert(middle.has_table(t));
                }
            }
            assert forall|t: u64, i: int|
                self.has_table(t) && 0 <= i < 512 implies #[trigger] self.edge_ok(t, i) by {
                assert(before.edge_ok(t, i));
                assert(before.table_ok(t));
                if !(t == table && i == index as int) {
                    assert(self.words_of(t)[i] == before.words_of(t)[i]);
                    match before.slot_in(t, i) {
                        Slot::Table(c) => {
                            assert(before.has_table(c));
                            assert(c != frame);
                            assert(middle.has_table(c));
                            assert(self.has_table(c));
                        },
                        _ => {},
                    }
                }
            }
            assert forall|t: u64| self.has_table(t) implies #[trigger] self.hangs(t) by {
                assert(before.has_table(t));
                assert(before.hangs(t));
                if before.level_of(t) < 5 {
                    let above = before.parent_of(t);
                    let at = before.slot_of(t);
                    if above == frame {
                        assert(!entry_valid(before.words_of(frame)[at]));
                    }
                    assert(middle.has_table(above));
                    assert(self.has_table(above));
                    assert(self.level_of(above) == before.level_of(above));
                    assert(self.words_of(above)[at] == before.words_of(above)[at]);
                }
            }
        }
        PhysLv1PageAddress::new_unchecked(&self.platform, frame)
    }

    /// Whether `root` is the handle of an address space of this store.
    pub fn is_root(&self, root: &ArchPageRoot) -> (found: bool)
        ensures
            found == self.has_root(root@),
    {
        let key: u64 = root.address.get_address().get_u64();
        match self.tables.get(&key) {
            Some(entry) => entry.level == ROOT_LEVEL,
            None => false,
        }
    }

    /// The entry at `index` of the table at `frame`; `None` where the frame
    /// holds no table or the index is 512 or more.
    pub fn entry_at(&self, frame: PhysLv1PageAddress, index: u16) -> (word: Option<u64>)
        requires
            self.wf(),
        ensures
            word.is_some() == (self.has_table(frame@) && index < 512),
            word matches Some(w) ==> w == self.words_of(frame@)[index as int],
    {
        let key: u64 = frame.get_address().get_u64();
        if index >= 512 || !self.tables.contains_key(&key) {
            return None;
        }
        Some(self.read_entry(key, index))
    }

    /// Whether no entry of `table` is in use.
    pub fn table_is_empty(&self, table: u64) -> (empty: bool)
        requires
            self.wf(),
            self.has_table(table),
        ensures
            empty == self.table_empty(table),
    {
        let mut index: u16 = 0;
        while index < 512
            invariant
                self.wf(),
                self.has_table(table),
                index <= 512,
                forall|i: int| 0 <= i < index ==> !entry_valid(#[trigger] self.words_of(table)[i]),
            decreases 512 - index,
        {
            let word: u64 = self.read_entry(table, index);
            if get_bit(word, VALID_BIT) {
                return false;
            }
            index = index + 1;
        }
        true
    }

    /// Makes the frame at `frame` the top table of a new tree, with every
    /// entry absent. `None` where the frame already holds a table or is no
    /// valid page address of the platform.
    pub fn create_root(&mut self, frame: PhysLv1PageAddress) -> (root: Option<ArchPageRoot>)
        requires
            old(self).wf(),
        ensures
            final(self).wf(),
            root.is_some() == (!old(self).has_table(frame@) && frame.wf(
                old(self).spec_platform(),
            )),
            root matches Some(r) ==> {
                &&& r@ == frame@
                &&& final(self).has_root(r@)
                &&& final(self).keeps_tables_of(*old(self))
                &&& final(self).keeps_words_but(*old(self), r@, 0)
                &&& forall|t: u64|
                    #[trigger] final(self).has_table(t) ==> old(self).has_table(t) || t == r@
                &&& final(self).words_of(r@) == Seq::new(512, |i: int| 0u64)
            },
            root.is_none() ==> *final(self) == *old(self),
    {
        let ghost before = *self;
        let key: u64 = frame.get_address().get_u64();
        if self.tables.contains_key(&key) {
            return None;
        }
        if key & !self.platform.lv1_page_mask() != 0 || key & !self.platform.phys_mask() != 0 {
            return None;
        }
        let top = Table { level: ROOT_LEVEL, parent: 0, slot: 0, words: Self::blank_words() };
        self.tables.insert(key, top);
        proof {
            crate::entry::lemma_zero_entry();
            assert forall|t: u64| #[trigger] self.has_table(t) implies self.table_ok(t) by {
                if t != key {
                    assert(before.has_table(t));
                    assert(before.table_ok(t));
                }
            }
            assert forall|t: u64, i: int|
                self.has_table(t) && 0 <= i < 512 implies #[trigger] self.edge_ok(t, i) by {
                if t != key {
                    assert(before.has_table(t));
                    assert(before.edge_ok(t, i));
                }
            }
            assert forall|t: u64| self.has_table(t) implies #[trigger] self.hangs(t) by {
                if t != key {
                    assert(before.has_table(t));
                    assert(before.hangs(t));
                }
            }
        }
        Some(ArchPageRoot { address: frame })
    }
}

/// The handle of one address space: the frame of its top table. It says which
/// tree an operation works on and owns nothing.
#[derive(Clone, Copy, Debug, PartialEq, Eq, Structural)]
pub struct ArchPageRoot {
    address: PhysLv1PageAddress,
}

impl View for ArchPageRoot {
    type V = u64;

    closed spec fn view(&self) -> u64 {
        self.address@
    }
}

impl ArchPageRoot {
    /// The frame of the top table.
    pub fn address(&self) -> (address: PhysLv1PageAddress)
        ensures
            address@ == self@,
    {
        self.address
    }
}

} // verus!
