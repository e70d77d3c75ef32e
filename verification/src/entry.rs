//! The 64-bit table entry: which bit means what, and how page attributes
//! and caching modes are packed into it and read back.

use crate::bits::{bit_is_set, get_bit, set_bit, with_bit};
use crate::memory::VirtAddress;
use crate::paging::{CachingMode, PageAttributes};
use vstd::prelude::*;

verus! {

pub const PML5ENTRYINDEXMASK: u64 = 0x1FF_0000_0000_0000;

pub const PML4ENTRYINDEXMASK: u64 = 0xFF80_0000_0000;

pub const PML3ENTRYINDEXMASK: u64 = 0x7F_C000_0000;

pub const PML2ENTRYINDEXMASK: u64 = 0x3FE0_0000;

pub const PML1ENTRYINDEXMASK: u64 = 0x1F_F000;

pub const PRESENT_BIT: usize = 0;

pub const READ_WRITE_BIT: usize = 1;

pub const USER_SUPERVISOR_BIT: usize = 2;

pub const PAGE_LEVEL_WRITETHROUGH_BIT: usize = 3;

pub const PAGE_LEVEL_CACHE_DISABLE_BIT: usize = 4;

pub const ACCESSED_BIT: usize = 5;

pub const DIRTY_BIT: usize = 6;

/// Marks a leaf in a level 2 or level 3 table.
pub const LARGE_PAGE_BIT: usize = 7;

/// The page-attribute-table bit of a 4 KiB leaf.
pub const PAGE_ATTRIBUTE_TABLE_BIT_4K: usize = 7;

/// The page-attribute-table bit of a 2 MiB or 1 GiB leaf.
pub const PAGE_ATTRIBUTE_TABLE_BIT_LARGE: usize = 12;

pub const GLOBAL_BIT: usize = 8;

/// Software bit: the entry is in use. An entry without it is absent,
/// whatever else it holds.
pub const VALID_BIT: usize = 9;

pub const NO_EXECUTE_BIT: usize = 63;

pub const MEMORY_PROTECTION_KEY_START_BIT: usize = 59;

pub const MEMORY_PROTECTION_KEY_END_BIT: usize = 62;

pub const DEFAULTPHYSADDRESSMASK: u64 = 0xF_FFFF_FFFF_F000;

/// Frame bits of a 2 MiB leaf.
pub const LV2PHYSADDRESSMASK: u64 = 0xF_FFFF_FFE0_0000;

/// Frame bits of a 1 GiB leaf.
pub const LV3PHYSADDRESSMASK: u64 = 0xF_FFFF_C000_0000;

/// The flags of an entry that points to the next table: present, writable,
/// user-accessible and valid.
pub const TABLE_POINTER_FLAGS: u64 = 0x207;

/// The (write-through, cache-disable, page-attribute-table) bits of a
/// caching mode.
pub open spec fn spec_encode_caching_bits(caching_mode: CachingMode) -> (bool, bool, bool) {
    match caching_mode {
        CachingMode::Default => (false, false, false),
        CachingMode::Framebuffer => (true, false, false),
        CachingMode::MMIO => (false, true, false),
        CachingMode::MmioPrefetch => (false, true, true),
        CachingMode::DMA => (true, true, false),
    }
}

/// The caching mode of a (write-through, cache-disable,
/// page-attribute-table) triple. The three triples that no mode is packed
/// to read as `Default`.
pub open spec fn spec_decode_caching_bits(pwt: bool, pcd: bool, pat: bool) -> CachingMode {
    if pwt && !pcd && !pat {
        CachingMode::Framebuffer
    } else if !pwt && pcd && !pat {
        CachingMode::MMIO
    } else if !pwt && pcd && pat {
        CachingMode::MmioPrefetch
    } else if pwt && pcd && !pat {
        CachingMode::DMA
    } else {
        CachingMode::Default
    }
}

pub fn decode_caching_bits(pwt: bool, pcd: bool, pat: bool) -> (caching_mode: CachingMode)
    ensures
        caching_mode == spec_decode_caching_bits(pwt, pcd, pat),
{
    if pwt && !pcd && !pat {
        CachingMode::Framebuffer
    } else if !pwt && pcd && !pat {
        CachingMode::MMIO
    } else if !pwt && pcd && pat {
        CachingMode::MmioPrefetch
    } else if pwt && pcd && !pat {
        CachingMode::DMA
    } else {
        CachingMode::Default
    }
}

/// Returns (write-through, cache-disable, page-attribute-table).
pub fn encode_caching_bits(caching_mode: CachingMode) -> (bits: (bool, bool, bool))
    ensures
        bits == spec_encode_caching_bits(caching_mode),
{
    match caching_mode {
        CachingMode::Default => (false, false, false),
        CachingMode::Framebuffer => (true, false, false),
        CachingMode::MMIO => (false, true, false),
        CachingMode::MmioPrefetch => (false, true, true),
        CachingMode::DMA => (true, true, false),
    }
}

/// Packing a caching mode and reading it back gives the same mode.
pub proof fn lemma_caching_round_trip(caching_mode: CachingMode)
    ensures
        ({
            let bits = spec_encode_caching_bits(caching_mode);
            spec_decode_caching_bits(bits.0, bits.1, bits.2) == caching_mode
        }),
{
}

/// A single bit as a word.
pub open spec fn flag(bit: u64, on: bool) -> u64 {
    if on {
        1u64 << bit
    } else {
        0
    }
}

/// The flag bits of a leaf with the given attributes: valid, then present,
/// writable (not read-only), no-execute (not executable), user (not
/// supervisor), global and the three caching bits. `pat_bit` is where the
/// level keeps its page-attribute-table bit.
pub open spec fn spec_pack_attributes(attributes: PageAttributes, pat_bit: u64) -> u64 {
    let caching = spec_encode_caching_bits(attributes.caching_mode);
    flag(9, true) | flag(0, attributes.present) | flag(1, !attributes.readonly) | flag(
        63,
        !attributes.executable,
    ) | flag(2, !attributes.supervisor) | flag(8, attributes.global) | flag(3, caching.0) | flag(
        4,
        caching.1,
    ) | flag(pat_bit, caching.2)
}

/// The attributes that the flag bits of `word` stand for.
pub open spec fn spec_unpack_attributes(word: u64, pat_bit: u64) -> PageAttributes {
    PageAttributes {
        present: bit_is_set(word, 0),
        readonly: !bit_is_set(word, 1),
        executable: !bit_is_set(word, 63),
        supervisor: !bit_is_set(word, 2),
        global: bit_is_set(word, 8),
        caching_mode: spec_decode_caching_bits(
            bit_is_set(word, 3),
            bit_is_set(word, 4),
            bit_is_set(word, pat_bit),
        ),
    }
}

/// Whether an entry is in use.
pub open spec fn entry_valid(word: u64) -> bool {
    bit_is_set(word, 9)
}

/// Whether an entry of a level 2 or level 3 table is a leaf.
pub open spec fn entry_large(word: u64) -> bool {
    bit_is_set(word, 7)
}

/// Packs the attributes of a leaf into the flag bits of an entry.
pub fn pack_attributes(attributes: PageAttributes, pat_bit: usize) -> (word: u64)
    requires
        pat_bit == PAGE_ATTRIBUTE_TABLE_BIT_4K || pat_bit == PAGE_ATTRIBUTE_TABLE_BIT_LARGE,
    ensures
        word == spec_pack_attributes(attributes, pat_bit as u64),
{
    let mut page_entry: u64 = 0;
    page_entry = set_bit(page_entry, VALID_BIT, true);
    page_entry = set_bit(page_entry, PRESENT_BIT, attributes.present);
    page_entry = set_bit(page_entry, READ_WRITE_BIT, !attributes.readonly);
    page_entry = set_bit(page_entry, NO_EXECUTE_BIT, !attributes.executable);
    page_entry = set_bit(page_entry, USER_SUPERVISOR_BIT, !attributes.supervisor);
    page_entry = set_bit(page_entry, GLOBAL_BIT, attributes.global);
    let caching: (bool, bool, bool) = encode_caching_bits(attributes.caching_mode);
    page_entry = set_bit(page_entry, PAGE_LEVEL_WRITETHROUGH_BIT, caching.0);
    page_entry = set_bit(page_entry, PAGE_LEVEL_CACHE_DISABLE_BIT, caching.1);
    page_entry = set_bit(page_entry, pat_bit, caching.2);
    proof {
        let p = attributes.present;
        let w = !attributes.readonly;
        let x = !attributes.executable;
        let u = !attributes.supervisor;
        let g = attributes.global;
        let (c0, c1, c2) = caching;
        let t: u64 = pat_bit as u64;
        assert(with_bit(
            with_bit(
                with_bit(
                    with_bit(
                        with_bit(
                            with_bit(with_bit(with_bit(with_bit(0, 9, true), 0, p), 1, w), 63, x),
                            2,
                            u,
                        ),
                        8,
                        g,
                    ),
                    3,
                    c0,
                ),
                4,
                c1,
            ),
            t,
            c2,
        ) == flag(9, true) | flag(0, p) | flag(1, w) | flag(63, x) | flag(2, u) | flag(8, g)
            | flag(3, c0) | flag(4, c1) | flag(t, c2)) by (bit_vector)
            requires
                t == 7 || t == 12,
        ;
    }
    page_entry
}

/// Reads the attributes of a leaf from the flag bits of an entry.
pub fn unpack_attributes(word: u64, pat_bit: usize) -> (attributes: PageAttributes)
    requires
        pat_bit < 64,
    ensures
        attributes == spec_unpack_attributes(word, pat_bit as u64),
{
    PageAttributes {
        present: get_bit(word, PRESENT_BIT),
        readonly: !get_bit(word, READ_WRITE_BIT),
        executable: !get_bit(word, NO_EXECUTE_BIT),
        supervisor: !get_bit(word, USER_SUPERVISOR_BIT),
        global: get_bit(word, GLOBAL_BIT),
        caching_mode: decode_caching_bits(
            get_bit(word, PAGE_LEVEL_WRITETHROUGH_BIT),
            get_bit(word, PAGE_LEVEL_CACHE_DISABLE_BIT),
            get_bit(word, pat_bit),
        ),
    }
}

/// An index into a table: at most 511.
#[derive(Clone, Copy, Debug, PartialEq, Eq, Structural)]
pub struct PMLEntryIndex {
    index: u64,
}

impl View for PMLEntryIndex {
    type V = u64;

    closed spec fn view(&self) -> u64 {
        self.index
    }
}

impl PMLEntryIndex {
    /// Validity of an index.
    pub open spec fn wf(&self) -> bool {
        self@ <= 511
    }

    pub fn new(index: u64) -> (entry_index: Option<PMLEntryIndex>)
        ensures
            entry_index.is_some() == (index <= 511),
            entry_index matches Some(i) ==> i@ == index && i.wf(),
    {
        if index > 511 {
            return None;
        }
        Some(Self { index })
    }

    /// Keeps the lowest nine bits of `index`.
    pub fn new_maskoff(index: u64) -> (entry_index: PMLEntryIndex)
        ensures
            entry_index@ == index & 0x1FF,
            entry_index.wf(),
    {
        assert(index & 0x1FF <= 511) by (bit_vector);
        Self { index: index & 0x1FF }
    }

    /// Keeps `index` without looking at it: the caller has checked it.
    pub fn new_unchecked(index: u64) -> (entry_index: PMLEntryIndex)
        requires
            index <= 511,
        ensures
            entry_index@ == index,
            entry_index.wf(),
    {
        Self { index }
    }

    pub fn get_index(&self) -> (index: u64)
        ensures
            index == self@,
    {
        self.index
    }
}

/// Returns the indices that `address` selects in the tables of levels 5, 4,
/// 3, 2 and 1, in that order.
pub fn decode_virtual_address(address: VirtAddress) -> (indices: (u16, u16, u16, u16, u16))
    ensures
        indices.0 as int == crate::table::spec_index_at(5, address@),
        indices.1 as int == crate::table::spec_index_at(4, address@),
        indices.2 as int == crate::table::spec_index_at(3, address@),
        indices.3 as int == crate::table::spec_index_at(2, address@),
        indices.4 as int == crate::table::spec_index_at(1, address@),
        indices.0 < 512 && indices.1 < 512 && indices.2 < 512 && indices.3 < 512 && indices.4
            < 512,
{
    decode_address(address.get_u64())
}

/// Returns the indices that the 64-bit value `address` selects in the tables
/// of levels 5, 4, 3, 2 and 1, in that order.
pub fn decode_address(address: u64) -> (indices: (u16, u16, u16, u16, u16))
    ensures
        indices.0 as int == crate::table::spec_index_at(5, address),
        indices.1 as int == crate::table::spec_index_at(4, address),
        indices.2 as int == crate::table::spec_index_at(3, address),
        indices.3 as int == crate::table::spec_index_at(2, address),
        indices.4 as int == crate::table::spec_index_at(1, address),
        indices.0 < 512 && indices.1 < 512 && indices.2 < 512 && indices.3 < 512 && indices.4
            < 512,
{
    proof {
        crate::walk::lemma_index_range(5, address);
        crate::walk::lemma_index_range(4, address);
        crate::walk::lemma_index_range(3, address);
        crate::walk::lemma_index_range(2, address);
        crate::walk::lemma_index_range(1, address);
    }
    (
        ((address >> 48) & 0x1FF) as u16,
        ((address >> 39) & 0x1FF) as u16,
        ((address >> 30) & 0x1FF) as u16,
        ((address >> 21) & 0x1FF) as u16,
        ((address >> 12) & 0x1FF) as u16,
    )
}

/// The zero entry is not in use.
pub proof fn lemma_zero_entry()
    ensures
        !entry_valid(0),
{
    assert(0u64 & (1u64 << 9) == 0) by (bit_vector);
}

/// The bits of an entry that the flags of a leaf may occupy: bits 0 to 9
/// and bit 63, and bit 12 where the level keeps its page-attribute-table bit
/// there.
pub open spec fn leaf_flag_bits(pat_bit: u64) -> u64 {
    if pat_bit == 12 {
        0x8000_0000_0000_13FF
    } else {
        0x8000_0000_0000_03FF
    }
}

/// The entry of a leaf: its packed attributes, the large-page bit where the
/// leaf stands in a level 2 or level 3 table, and the frame address.
pub open spec fn spec_leaf_word(attributes: PageAttributes, large: bool, frame: u64) -> u64 {
    if large {
        spec_pack_attributes(attributes, 12) | flag(7, true) | frame
    } else {
        spec_pack_attributes(attributes, 7) | frame
    }
}

/// Builds the entry of a leaf.
pub fn leaf_word(attributes: PageAttributes, large: bool, frame: u64) -> (word: u64)
    ensures
        word == spec_leaf_word(attributes, large, frame),
{
    if large {
        let flags: u64 = pack_attributes(attributes, PAGE_ATTRIBUTE_TABLE_BIT_LARGE);
        let marked: u64 = set_bit(flags, LARGE_PAGE_BIT, true);
        proof {
            assert(with_bit(flags, 7, true) == flags | flag(7, true)) by (bit_vector);
        }
        marked | frame
    } else {
        pack_attributes(attributes, PAGE_ATTRIBUTE_TABLE_BIT_4K) | frame
    }
}

/// What is known of the entry of a leaf whose frame address keeps clear of
/// the flag bits of its level: it is valid and not zero, its large-page bit
/// is set where the leaf is a large page, its attributes read back
/// unchanged, and the frame is what is left when the flag bits are cleared.
pub proof fn lemma_leaf_word(attributes: PageAttributes, large: bool, frame: u64)
    requires
        frame & leaf_flag_bits(if large { 12 } else { 7 }) == 0,
    ensures
        ({
            let pat_bit: u64 = if large { 12 } else { 7 };
            let word = spec_leaf_word(attributes, large, frame);
            &&& entry_valid(word)
            &&& large ==> entry_large(word)
            &&& spec_unpack_attributes(word, pat_bit) == attributes
            &&& word & !leaf_flag_bits(pat_bit) == frame
            &&& word != 0
        }),
{
    let p = attributes.present;
    let w = !attributes.readonly;
    let x = !attributes.executable;
    let u = !attributes.supervisor;
    let g = attributes.global;
    let caching = spec_encode_caching_bits(attributes.caching_mode);
    let (c0, c1, c2) = caching;
    lemma_caching_round_trip(attributes.caching_mode);
    let pat_bit: u64 = if large { 12 } else { 7 };
    let bits: u64 = leaf_flag_bits(pat_bit);
    let word: u64 = spec_leaf_word(attributes, large, frame);
    assert({
        &&& word & (1u64 << 9) != 0
        &&& (word & (1u64 << 0) != 0) == p
        &&& (word & (1u64 << 1) != 0) == w
        &&& (word & (1u64 << 63) != 0) == x
        &&& (word & (1u64 << 2) != 0) == u
        &&& (word & (1u64 << 8) != 0) == g
        &&& (word & (1u64 << 3) != 0) == c0
        &&& (word & (1u64 << 4) != 0) == c1
        &&& (word & (1u64 << pat_bit) != 0) == c2
        &&& large ==> word & (1u64 << 7) != 0
        &&& word & !bits == frame
        &&& word != 0
    }) by (bit_vector)
        requires
            pat_bit == (if large { 12u64 } else { 7u64 }),
            bits == (if large { 0x8000_0000_0000_13FFu64 } else { 0x8000_0000_0000_03FFu64 }),
            frame & bits == 0,
            word == (if large {
                (flag(9, true) | flag(0, p) | flag(1, w) | flag(63, x) | flag(2, u) | flag(8, g)
                    | flag(3, c0) | flag(4, c1) | flag(12, c2)) | flag(7, true) | frame
            } else {
                (flag(9, true) | flag(0, p) | flag(1, w) | flag(63, x) | flag(2, u) | flag(8, g)
                    | flag(3, c0) | flag(4, c1) | flag(7, c2)) | frame
            }),
    ;
}

} // verus!
