use pagecore::entry::{
    decode_address, decode_caching_bits, decode_virtual_address, encode_caching_bits, leaf_word,
    pack_attributes, unpack_attributes, PMLEntryIndex, PAGE_ATTRIBUTE_TABLE_BIT_4K,
    PAGE_ATTRIBUTE_TABLE_BIT_LARGE,
};
use pagecore::memory::VirtAddress;
use pagecore::page_address::{
    PhysLv1PageAddress, PhysLv2PageAddress, PhysLv3PageAddress, VirtLv1PageAddress,
    VirtLv2PageAddress, VirtLv3PageAddress,
};
use pagecore::paging::{CachingMode, Page, PageAttributes, PagingErros};
use pagecore::platform::Platform;
use pagecore::pml2::Pml1Or2M;
use pagecore::pml3::Pml2Or1G;
use pagecore::protocol::{
    map_slice_lv1_page, map_slice_lv2_page, map_slice_lv3_page, map_vec_lv1_page,
    map_vec_lv2_page, map_vec_lv3_page, needed_pt_pages_lv1, needed_pt_pages_lv2,
    needed_pt_pages_lv3, unmap_lv1_page, unmap_lv2_page, unmap_lv3_page, update_page_attributes,
};
use pagecore::query::{get_single_page, get_vec_page, PageRoot};
use pagecore::segment::{Segment, SegmentError, SegmentsTypes};
use pagecore::table::{decode_entry, Slot, TableMemory};

fn platform() -> Platform {
    Platform::x86_64(40, 0)
}

fn plain() -> PageAttributes {
    PageAttributes {
        present: true,
        readonly: false,
        executable: false,
        supervisor: false,
        global: false,
        caching_mode: CachingMode::Default,
    }
}

fn frame(p: &Platform, value: u64) -> PhysLv1PageAddress {
    PhysLv1PageAddress::new(p, value).unwrap()
}

fn frames(p: &Platform, first: u64, count: u64) -> Vec<PhysLv1PageAddress> {
    (0..count).map(|i| frame(p, first + i * 0x1000)).collect()
}

fn fresh(p: &Platform) -> (TableMemory, PageRoot) {
    let mut memory = TableMemory::new(*p).unwrap();
    let root = memory.create_root(frame(p, 0x1000)).unwrap();
    (memory, root)
}

fn virt(p: &Platform, value: u64) -> VirtAddress {
    VirtAddress::new(p, value).unwrap()
}

fn lv1_frame_at(memory: &TableMemory, root: PageRoot, p: &Platform, address: u64) -> Option<u64> {
    match get_single_page(memory, root, virt(p, address)) {
        Some(Page::Lv1Page(page)) => Some(page.phys_address.get_address().get_u64()),
        Some(_) => panic!("not a 4 KiB page"),
        None => None,
    }
}

#[test]
fn caching_bits_follow_the_table() {
    assert_eq!(encode_caching_bits(CachingMode::Default), (false, false, false));
    assert_eq!(encode_caching_bits(CachingMode::Framebuffer), (true, false, false));
    assert_eq!(encode_caching_bits(CachingMode::MMIO), (false, true, false));
    assert_eq!(encode_caching_bits(CachingMode::MmioPrefetch), (false, true, true));
    assert_eq!(encode_caching_bits(CachingMode::DMA), (true, true, false));
    for mode in [
        CachingMode::Default,
        CachingMode::Framebuffer,
        CachingMode::MMIO,
        CachingMode::MmioPrefetch,
        CachingMode::DMA,
    ] {
        let (wt, cd, pat) = encode_caching_bits(mode);
        assert_eq!(decode_caching_bits(wt, cd, pat), mode);
    }
    assert_eq!(decode_caching_bits(false, false, true), CachingMode::Default);
    assert_eq!(decode_caching_bits(true, false, true), CachingMode::Default);
    assert_eq!(decode_caching_bits(true, true, true), CachingMode::Default);
}

#[test]
fn packed_attributes_have_the_documented_bits() {
    assert_eq!(pack_attributes(plain(), PAGE_ATTRIBUTE_TABLE_BIT_4K), 0x8000_0000_0000_0207);
    let kernel_code = PageAttributes {
        present: true,
        readonly: true,
        executable: true,
        supervisor: true,
        global: true,
        caching_mode: CachingMode::Default,
    };
    assert_eq!(pack_attributes(kernel_code, PAGE_ATTRIBUTE_TABLE_BIT_4K), 0x301);
    let absent = PageAttributes { present: false, ..kernel_code };
    assert_eq!(pack_attributes(absent, PAGE_ATTRIBUTE_TABLE_BIT_4K), 0x300);
    let prefetch = PageAttributes { caching_mode: CachingMode::MmioPrefetch, ..kernel_code };
    assert_eq!(pack_attributes(prefetch, PAGE_ATTRIBUTE_TABLE_BIT_4K), 0x391);
    assert_eq!(pack_attributes(prefetch, PAGE_ATTRIBUTE_TABLE_BIT_LARGE), 0x1311);
    let dma = PageAttributes { caching_mode: CachingMode::DMA, ..kernel_code };
    assert_eq!(pack_attributes(dma, PAGE_ATTRIBUTE_TABLE_BIT_4K), 0x319);
    let framebuffer = PageAttributes { caching_mode: CachingMode::Framebuffer, ..kernel_code };
    assert_eq!(pack_attributes(framebuffer, PAGE_ATTRIBUTE_TABLE_BIT_LARGE), 0x309);
}

#[test]
fn leaf_words_carry_frame_and_large_bit() {
    assert_eq!(leaf_word(plain(), false, 0x1234_5000), 0x8000_0000_1234_5207);
    assert_eq!(leaf_word(plain(), true, 0x20_0000), 0x8000_0000_0020_0287);
    assert_eq!(leaf_word(plain(), true, 0x4000_0000), 0x8000_0000_4000_0287);
}

#[test]
fn unpack_reads_every_attribute_back() {
    let modes = [
        CachingMode::Default,
        CachingMode::Framebuffer,
        CachingMode::MMIO,
        CachingMode::MmioPrefetch,
        CachingMode::DMA,
    ];
    for bits in 0..32u32 {
        for mode in modes {
            let attributes = PageAttributes {
                present: bits & 1 != 0,
                readonly: bits & 2 != 0,
                executable: bits & 4 != 0,
                supervisor: bits & 8 != 0,
                global: bits & 16 != 0,
                caching_mode: mode,
            };
            for pat in [PAGE_ATTRIBUTE_TABLE_BIT_4K, PAGE_ATTRIBUTE_TABLE_BIT_LARGE] {
                assert_eq!(unpack_attributes(pack_attributes(attributes, pat), pat), attributes);
            }
        }
    }
}

#[test]
fn decode_entry_round_trips_leaves_at_every_level() {
    let p = platform();
    let attributes = PageAttributes { caching_mode: CachingMode::MmioPrefetch, ..plain() };
    assert_eq!(
        decode_entry(&p, 1, leaf_word(attributes, false, 0xFF_FFFF_F000)),
        Slot::Leaf(attributes, 0xFF_FFFF_F000)
    );
    assert_eq!(
        decode_entry(&p, 2, leaf_word(attributes, true, 0xFF_FFE0_0000)),
        Slot::Leaf(attributes, 0xFF_FFE0_0000)
    );
    assert_eq!(
        decode_entry(&p, 3, leaf_word(attributes, true, 0xFF_C000_0000)),
        Slot::Leaf(attributes, 0xFF_C000_0000)
    );
    assert_eq!(decode_entry(&p, 1, 0), Slot::Absent);
    assert_eq!(decode_entry(&p, 3, 0x8000_0000_0000_01FF), Slot::Absent);
    assert_eq!(decode_entry(&p, 4, 0x207 | 0x5000), Slot::Table(0x5000));
    assert_eq!(decode_entry(&p, 5, 0x287 | 0x5000), Slot::Table(0x5000));
    assert_eq!(decode_entry(&p, 2, 0x207 | 0x5000), Slot::Table(0x5000));
}

#[test]
fn virtual_address_splits_into_five_indices() {
    let p = Platform::x86_64(52, 1 << 12);
    let address = (3u64 << 48) | (5 << 39) | (7 << 30) | (9 << 21) | (11 << 12) | 0x123;
    assert_eq!(decode_virtual_address(virt(&p, address)), (3, 5, 7, 9, 11));
    assert_eq!(decode_address(u64::MAX), (511, 511, 511, 511, 511));
    assert_eq!(decode_address(0xFFFF_8000_0000_0000), (511, 256, 0, 0, 0));
}

#[test]
fn entry_index_is_at_most_511() {
    assert_eq!(PMLEntryIndex::new(511).unwrap().get_index(), 511);
    assert!(PMLEntryIndex::new(512).is_none());
    assert_eq!(PMLEntryIndex::new_maskoff(0x3FF).get_index(), 0x1FF);
    assert_eq!(PMLEntryIndex::new_maskoff(0x200).get_index(), 0);
    assert_eq!(PMLEntryIndex::new_unchecked(7).get_index(), 7);
}

#[test]
fn store_needs_the_x86_64_page_table() {
    let bare = Platform::new(0xFFFF, 0xFFFF, None, 0xFFFF_FFFF_FFFF_F000, 0, 0).unwrap();
    assert!(TableMemory::new(bare).is_none());
    assert!(TableMemory::new(Platform::x86_64(60, 0)).is_none());
    assert!(TableMemory::new(platform()).is_some());
}

#[test]
fn roots_are_fresh_zeroed_tables() {
    let p = platform();
    let (mut memory, root) = fresh(&p);
    assert!(memory.is_root(&root));
    assert!(memory.contains_table(frame(&p, 0x1000)));
    assert!(!memory.contains_table(frame(&p, 0x2000)));
    assert_eq!(root.address(), frame(&p, 0x1000));
    for index in [0u16, 1, 255, 511] {
        assert_eq!(memory.entry_at(frame(&p, 0x1000), index), Some(0));
    }
    assert_eq!(memory.entry_at(frame(&p, 0x1000), 512), None);
    assert_eq!(memory.entry_at(frame(&p, 0x2000), 0), None);
    assert!(memory.create_root(frame(&p, 0x1000)).is_none());
    let wide = Platform::x86_64(52, 0);
    assert!(memory.create_root(frame(&wide, 1 << 45)).is_none());
    let second = memory.create_root(frame(&p, 0x9000)).unwrap();
    assert!(memory.is_root(&second));
    assert!(get_single_page(&memory, second, virt(&p, 0x5000)).is_none());
}

#[test]
fn per_level_entries_read_back_what_was_written() {
    let p = platform();
    let (mut memory, root) = fresh(&p);
    let top = root.address();
    assert!(pagecore::pml4_5::read_page(&memory, top, 0).is_none());
    assert_eq!(pagecore::pml4_5::read_page_flag(&memory, top, 0), None);
    pagecore::pml4_5::write_page_pml3_4(&mut memory, top, 0, frame(&p, 0x2000));
    assert_eq!(pagecore::pml4_5::read_page(&memory, top, 0), Some(frame(&p, 0x2000)));
    assert_eq!(pagecore::pml4_5::read_page_flag(&memory, top, 0), Some(false));
    assert_eq!(memory.entry_at(top, 0), Some(0x2207));
    let pml4 = frame(&p, 0x2000);
    pagecore::pml4_5::write_page_pml3_4(&mut memory, pml4, 0, frame(&p, 0x3000));
    let pml3 = frame(&p, 0x3000);
    let giant = PhysLv3PageAddress::new(&p, 0x4000_0000).unwrap();
    pagecore::pml3::write_page_1g(&mut memory, pml3, 1, plain(), giant);
    assert_eq!(pagecore::pml3::read_page(&memory, pml3, 1), Some(Pml2Or1G::G1(plain(), giant)));
    assert_eq!(pagecore::pml3::read_page_flags(&memory, pml3, 1), Some((false, false)));
    assert_eq!(memory.entry_at(pml3, 1), Some(0x8000_0000_4000_0287));
    pagecore::pml3::write_page_pml2(&mut memory, pml3, 2, frame(&p, 0x4000));
    assert_eq!(
        pagecore::pml3::read_page(&memory, pml3, 2),
        Some(Pml2Or1G::Pml2(frame(&p, 0x4000)))
    );
    let pml2 = frame(&p, 0x4000);
    let big = PhysLv2PageAddress::new(&p, 0x60_0000).unwrap();
    pagecore::pml2::write_page_2mb(&mut memory, pml2, 5, plain(), big);
    assert_eq!(pagecore::pml2::read_page(&memory, pml2, 5), Some(Pml1Or2M::MB2(plain(), big)));
    assert_eq!(pagecore::pml2::read_page_flags(&memory, pml2, 5), Some((false, false)));
    pagecore::pml2::write_page_pml1(&mut memory, pml2, 6, frame(&p, 0x5000));
    assert_eq!(
        pagecore::pml2::read_page(&memory, pml2, 6),
        Some(Pml1Or2M::Pml1(frame(&p, 0x5000)))
    );
    let pml1 = frame(&p, 0x5000);
    pagecore::pml1::write_page(&mut memory, pml1, 511, plain(), frame(&p, 0x7000));
    assert_eq!(
        pagecore::pml1::read_page(&memory, pml1, 511),
        Some((plain(), frame(&p, 0x7000)))
    );
    assert_eq!(pagecore::pml1::read_page_flags(&memory, pml1, 511), Some((false, false)));
    assert_eq!(pagecore::pml1::read_page_flags(&memory, pml1, 0), None);
    // root entry 0, level 4 entry 0, level 3 entry 2, level 2 entry 6, level 1 entry 511
    let address = (2u64 << 30) | (6 << 21) | (511 << 12) | 0x10;
    assert_eq!(lv1_frame_at(&memory, root, &p, address), Some(0x7000));
    pagecore::pml1::unmap_page(&mut memory, pml1, 511);
    assert!(pagecore::pml1::read_page(&memory, pml1, 511).is_none());
    assert_eq!(memory.entry_at(pml1, 511), Some(0));
    pagecore::pml2::unmap_page(&mut memory, pml2, 5);
    assert!(pagecore::pml2::read_page(&memory, pml2, 5).is_none());
    pagecore::pml3::unmap_page(&mut memory, pml3, 1);
    assert!(pagecore::pml3::read_page(&memory, pml3, 1).is_none());
    assert!(memory.table_is_empty(0x5000));
    let freed = memory.unlink_table(0x4000, 6);
    assert_eq!(freed, frame(&p, 0x5000));
    assert!(!memory.contains_table(frame(&p, 0x5000)));
    assert!(memory.table_is_empty(0x4000));
    assert!(!memory.table_is_empty(0x3000));
    let freed = memory.unlink_table(0x3000, 2);
    assert_eq!(freed, frame(&p, 0x4000));
    let freed = pagecore::pml4_5::unmap_page(&mut memory, pml4, 0);
    assert_eq!(freed, frame(&p, 0x3000));
    let freed = pagecore::pml4_5::unmap_page(&mut memory, top, 0);
    assert_eq!(freed, frame(&p, 0x2000));
    assert!(memory.table_is_empty(0x1000));
}

#[test]
fn accessed_and_dirty_flags_are_read_from_their_bits() {
    let p = platform();
    let (mut memory, root) = fresh(&p);
    let top = root.address();
    pagecore::pml4_5::write_page_pml3_4(&mut memory, top, 0, frame(&p, 0x2000));
    pagecore::pml4_5::write_page_pml3_4(&mut memory, frame(&p, 0x2000), 0, frame(&p, 0x3000));
    pagecore::pml3::write_page_pml2(&mut memory, frame(&p, 0x3000), 0, frame(&p, 0x4000));
    pagecore::pml2::write_page_pml1(&mut memory, frame(&p, 0x4000), 0, frame(&p, 0x5000));
    // accessed (bit 5) and dirty (bit 6) set by the hardware on a 4 KiB leaf
    memory.store_leaf(0x5000, 1, leaf_word(plain(), false, 0x7000) | 0x60);
    assert_eq!(
        pagecore::pml1::read_page_flags(&memory, frame(&p, 0x5000), 1),
        Some((true, true))
    );
    memory.store_leaf(0x5000, 2, leaf_word(plain(), false, 0x7000) | 0x20);
    assert_eq!(
        pagecore::pml1::read_page_flags(&memory, frame(&p, 0x5000), 2),
        Some((true, false))
    );
    // a 2 MiB leaf that is dirty
    memory.store_leaf(0x4000, 3, leaf_word(plain(), true, 0x20_0000) | 0x40);
    assert_eq!(
        pagecore::pml2::read_page_flags(&memory, frame(&p, 0x4000), 3),
        Some((false, true))
    );
    // a table pointer is never dirty
    assert_eq!(
        pagecore::pml2::read_page_flags(&memory, frame(&p, 0x4000), 0),
        Some((false, false))
    );
    assert_eq!(
        pagecore::pml3::read_page_flags(&memory, frame(&p, 0x3000), 0),
        Some((false, false))
    );
}

#[test]
fn map_then_query_then_unmap() {
    let p = platform();
    let (mut memory, root) = fresh(&p);
    let start = VirtLv1PageAddress::new(&p, 0x40_0000_0000).unwrap();
    let attributes = PageAttributes { readonly: true, global: true, ..plain() };
    assert_eq!(needed_pt_pages_lv1(&memory, root, start, 1), Ok(4));
    let spares = frames(&p, 0x10_0000, 4);
    let pages = [frame(&p, 0x7000)];
    assert_eq!(map_slice_lv1_page(&mut memory, root, &spares, &pages, start, attributes), Ok(()));
    match get_single_page(&memory, root, virt(&p, 0x40_0000_0ABC)) {
        Some(Page::Lv1Page(page)) => {
            assert_eq!(page.attributes, attributes);
            assert_eq!(page.phys_address, frame(&p, 0x7000));
            assert_eq!(page.virt_address, start);
        },
        other => panic!("unexpected {:?}", other),
    }
    assert!(get_single_page(&memory, root, virt(&p, 0x40_0000_1000)).is_none());
    assert!(get_single_page(&memory, root, virt(&p, 0x3F_FFFF_F000)).is_none());
    let freed = unmap_lv1_page(&mut memory, root, start, 1).unwrap();
    assert_eq!(freed.len(), 4);
    assert!(get_single_page(&memory, root, virt(&p, 0x40_0000_0ABC)).is_none());
}

#[test]
fn mapping_a_present_page_fails_and_changes_nothing() {
    let p = platform();
    let (mut memory, root) = fresh(&p);
    let start = VirtLv1PageAddress::new(&p, 0x40_0000_0000).unwrap();
    let spares = frames(&p, 0x10_0000, 4);
    assert_eq!(
        map_slice_lv1_page(&mut memory, root, &spares, &[frame(&p, 0x7000)], start, plain()),
        Ok(())
    );
    let more = frames(&p, 0x20_0000, 4);
    let other = PageAttributes { readonly: true, ..plain() };
    assert_eq!(
        map_slice_lv1_page(&mut memory, root, &more, &[frame(&p, 0x8000)], start, other),
        Err(PagingErros::PageAlreadyPresent)
    );
    // a range whose second page is the present one
    let before = VirtLv1PageAddress::new(&p, 0x3F_FFFF_F000).unwrap();
    assert_eq!(
        map_slice_lv1_page(
            &mut memory,
            root,
            &more,
            &[frame(&p, 0x8000), frame(&p, 0x9000)],
            before,
            other
        ),
        Err(PagingErros::PageAlreadyPresent)
    );
    assert_eq!(lv1_frame_at(&memory, root, &p, 0x40_0000_0000), Some(0x7000));
    assert_eq!(lv1_frame_at(&memory, root, &p, 0x3F_FFFF_F000), None);
    for spare in &more {
        assert!(!memory.contains_table(*spare));
    }
    match get_single_page(&memory, root, virt(&p, 0x40_0000_0000)) {
        Some(Page::Lv1Page(page)) => assert_eq!(page.attributes, plain()),
        other => panic!("unexpected {:?}", other),
    }
}

#[test]
fn exact_spare_count_succeeds_and_one_fewer_fails() {
    let p = platform();
    let (mut memory, root) = fresh(&p);
    // pages 510 and 511 of one table and pages 0 and 1 of the next
    let start = VirtLv1PageAddress::new(&p, 0x40_001F_E000).unwrap();
    let needed = needed_pt_pages_lv1(&memory, root, start, 4).unwrap();
    assert_eq!(needed, 5);
    let pages = frames(&p, 0x70_0000, 4);
    let short = frames(&p, 0x10_0000, needed - 1);
    assert_eq!(
        map_slice_lv1_page(&mut memory, root, &short, &pages, start, plain()),
        Err(PagingErros::InsufficientPagesForPageTable)
    );
    for spare in &short {
        assert!(!memory.contains_table(*spare));
    }
    assert_eq!(lv1_frame_at(&memory, root, &p, 0x40_001F_E000), None);
    let exact = frames(&p, 0x10_0000, needed);
    assert_eq!(map_slice_lv1_page(&mut memory, root, &exact, &pages, start, plain()), Ok(()));
    for spare in &exact {
        assert!(memory.contains_table(*spare));
    }
    assert_eq!(needed_pt_pages_lv1(&memory, root, start, 4), Ok(0));
    // the next page shares every table
    let next = VirtLv1PageAddress::new(&p, 0x40_0020_2000).unwrap();
    assert_eq!(needed_pt_pages_lv1(&memory, root, next, 1), Ok(0));
    // a page under another level 3 entry needs two tables
    let far = VirtLv1PageAddress::new(&p, 0x40_4000_0000).unwrap();
    assert_eq!(needed_pt_pages_lv1(&memory, root, far, 1), Ok(2));
}

#[test]
fn more_spares_than_needed_leaves_the_rest_untouched() {
    let p = platform();
    let (mut memory, root) = fresh(&p);
    let start = VirtLv1PageAddress::new(&p, 0x1000).unwrap();
    let spares = frames(&p, 0x10_0000, 6);
    let pages = frames(&p, 0x70_0000, 2);
    assert_eq!(map_vec_lv1_page(&mut memory, root, spares.clone(), pages, start, plain()), Ok(()));
    for (position, spare) in spares.iter().enumerate() {
        assert_eq!(memory.contains_table(*spare), position < 4);
    }
    // taken in order, from the top table down
    assert_eq!(memory.entry_at(frame(&p, 0x1000), 0), Some(0x10_0207));
    assert_eq!(memory.entry_at(frame(&p, 0x10_0000), 0), Some(0x10_1207));
    assert_eq!(memory.entry_at(frame(&p, 0x10_1000), 0), Some(0x10_2207));
    assert_eq!(memory.entry_at(frame(&p, 0x10_2000), 0), Some(0x10_3207));
    assert_eq!(memory.entry_at(frame(&p, 0x10_3000), 1), Some(0x8000_0000_0070_0207));
    assert_eq!(memory.entry_at(frame(&p, 0x10_3000), 2), Some(0x8000_0000_0070_1207));
    assert_eq!(memory.entry_at(frame(&p, 0x10_3000), 0), Some(0));
}

#[test]
fn four_pages_end_to_end() {
    let p = platform();
    let (mut memory, root) = fresh(&p);
    let v = 0xFFFF_8000_0000_0000u64;
    let start = VirtLv1PageAddress::new(&p, v).unwrap();
    let mapped = [
        frame(&p, 0x50_0000),
        frame(&p, 0x30_0000),
        frame(&p, 0x90_0000),
        frame(&p, 0x10_0000),
    ];
    let spares = frames(&p, 0x2000, 4);
    assert_eq!(map_slice_lv1_page(&mut memory, root, &spares, &mapped, start, plain()), Ok(()));
    let found = get_vec_page(&memory, root, virt(&p, v), virt(&p, v + 4 * 4096));
    assert_eq!(found.len(), 4);
    for (i, page) in found.iter().enumerate() {
        match page {
            Some(Page::Lv1Page(page)) => {
                assert_eq!(page.phys_address, mapped[i]);
                assert_eq!(page.virt_address.get_address().get_u64(), v + (i as u64) * 4096);
                assert_eq!(page.attributes, plain());
            },
            other => panic!("unexpected {:?}", other),
        }
    }
    let freed = unmap_lv1_page(&mut memory, root, start, 4).unwrap();
    // the tables come back from the lowest up
    assert_eq!(
        freed,
        vec![frame(&p, 0x5000), frame(&p, 0x4000), frame(&p, 0x3000), frame(&p, 0x2000)]
    );
    for table in &freed {
        assert!(!memory.contains_table(*table));
    }
    let found = get_vec_page(&memory, root, virt(&p, v), virt(&p, v + 4 * 4096));
    assert_eq!(found.len(), 4);
    assert!(found.iter().all(|page| page.is_none()));
    assert!(memory.is_root(&root));
    assert!(memory.table_is_empty(0x1000));
}

#[test]
fn unmapping_part_of_a_table_gives_nothing_back() {
    let p = platform();
    let (mut memory, root) = fresh(&p);
    let start = VirtLv1PageAddress::new(&p, 0x40_001F_E000).unwrap();
    let pages = frames(&p, 0x70_0000, 4);
    let spares = frames(&p, 0x10_0000, 5);
    assert_eq!(map_slice_lv1_page(&mut memory, root, &spares, &pages, start, plain()), Ok(()));
    // the first two pages fill the use of the first level 1 table
    let freed = unmap_lv1_page(&mut memory, root, start, 1).unwrap();
    assert!(freed.is_empty());
    let second = VirtLv1PageAddress::new(&p, 0x40_001F_F000).unwrap();
    let freed = unmap_lv1_page(&mut memory, root, second, 1).unwrap();
    assert_eq!(freed, vec![frame(&p, 0x10_3000)]);
    assert_eq!(lv1_frame_at(&memory, root, &p, 0x40_0020_0000), Some(0x70_2000));
    assert_eq!(lv1_frame_at(&memory, root, &p, 0x40_0020_1000), Some(0x70_3000));
    // unmapping what is not mapped changes nothing
    let freed = unmap_lv1_page(&mut memory, root, start, 2).unwrap();
    assert!(freed.is_empty());
    let third = VirtLv1PageAddress::new(&p, 0x40_0020_0000).unwrap();
    let freed = unmap_lv1_page(&mut memory, root, third, 2).unwrap();
    assert_eq!(freed.len(), 4);
    assert!(memory.table_is_empty(0x1000));
}

#[test]
fn large_page_resolves_at_level_two_everywhere() {
    let p = platform();
    let (mut memory, root) = fresh(&p);
    let start = VirtLv2PageAddress::new(&p, 0x4020_0000).unwrap();
    let attributes =
        PageAttributes { present: true, readonly: false, executable: false, ..plain() };
    assert_eq!(needed_pt_pages_lv2(&memory, root, start, 1), Ok(3));
    let spares = frames(&p, 0x10_0000, 3);
    let big = PhysLv2PageAddress::new(&p, 0x80_0000).unwrap();
    assert_eq!(map_slice_lv2_page(&mut memory, root, &spares, &[big], start, attributes), Ok(()));
    for offset in [0u64, 0x1000, 0x12_3456, 0x1F_FFFF] {
        match get_single_page(&memory, root, virt(&p, 0x4020_0000 + offset)) {
            Some(Page::Lv2Page(page)) => {
                assert_eq!(page.phys_address, big);
                assert_eq!(page.virt_address, start);
                assert_eq!(page.attributes, attributes);
            },
            other => panic!("unexpected {:?}", other),
        }
    }
    assert!(get_single_page(&memory, root, virt(&p, 0x4040_0000)).is_none());
    assert!(get_single_page(&memory, root, virt(&p, 0x401F_FFFF)).is_none());
    // a 4 KiB page inside the large page is already present
    let inside = VirtLv1PageAddress::new(&p, 0x4020_3000).unwrap();
    assert_eq!(
        map_slice_lv1_page(&mut memory, root, &[], &[frame(&p, 0x7000)], inside, plain()),
        Err(PagingErros::PageAlreadyPresent)
    );
    // unmapping 4 KiB pages does not touch the large page
    assert!(unmap_lv1_page(&mut memory, root, inside, 1).unwrap().is_empty());
    assert!(get_single_page(&memory, root, virt(&p, 0x4020_3000)).is_some());
    let freed = unmap_lv2_page(&mut memory, root, start, 1).unwrap();
    assert_eq!(freed.len(), 3);
    assert!(get_single_page(&memory, root, virt(&p, 0x4020_3000)).is_none());
}

#[test]
fn large_page_cannot_replace_a_table_of_small_pages() {
    let p = platform();
    let (mut memory, root) = fresh(&p);
    let small = VirtLv1PageAddress::new(&p, 0x4020_3000).unwrap();
    let spares = frames(&p, 0x10_0000, 4);
    assert_eq!(
        map_slice_lv1_page(&mut memory, root, &spares, &[frame(&p, 0x7000)], small, plain()),
        Ok(())
    );
    let start = VirtLv2PageAddress::new(&p, 0x4020_0000).unwrap();
    let big = PhysLv2PageAddress::new(&p, 0x80_0000).unwrap();
    assert_eq!(
        map_vec_lv2_page(&mut memory, root, vec![], vec![big], start, plain()),
        Err(PagingErros::PageAlreadyPresent)
    );
    // the neighbouring 2 MiB slot is free and needs no table
    let next = VirtLv2PageAddress::new(&p, 0x4040_0000).unwrap();
    assert_eq!(needed_pt_pages_lv2(&memory, root, next, 1), Ok(0));
    assert_eq!(map_vec_lv2_page(&mut memory, root, vec![], vec![big], next, plain()), Ok(()));
    // unmapping 2 MiB pages over the table of small pages leaves them
    assert!(unmap_lv2_page(&mut memory, root, start, 1).unwrap().is_empty());
    assert_eq!(lv1_frame_at(&memory, root, &p, 0x4020_3000), Some(0x7000));
}

#[test]
fn one_gigabyte_pages_map_and_unmap() {
    let p = platform();
    let (mut memory, root) = fresh(&p);
    let start = VirtLv3PageAddress::new(&p, 0x80_0000_0000).unwrap();
    assert_eq!(needed_pt_pages_lv3(&memory, root, start, 2), Ok(2));
    let spares = frames(&p, 0x10_0000, 2);
    let giants = [
        PhysLv3PageAddress::new(&p, 0x4000_0000).unwrap(),
        PhysLv3PageAddress::new(&p, 0xC000_0000).unwrap(),
    ];
    assert_eq!(map_slice_lv3_page(&mut memory, root, &spares, &giants, start, plain()), Ok(()));
    match get_single_page(&memory, root, virt(&p, 0x80_7FFF_FFFF)) {
        Some(Page::Lv3Page(page)) => {
            assert_eq!(page.phys_address, giants[1]);
            assert_eq!(page.virt_address.get_address().get_u64(), 0x80_4000_0000);
        },
        other => panic!("unexpected {:?}", other),
    }
    assert_eq!(
        map_vec_lv3_page(&mut memory, root, vec![], vec![giants[0]], start, plain()),
        Err(PagingErros::PageAlreadyPresent)
    );
    let freed = unmap_lv3_page(&mut memory, root, start, 1).unwrap();
    assert!(freed.is_empty());
    let second = VirtLv3PageAddress::new(&p, 0x80_4000_0000).unwrap();
    let freed = unmap_lv3_page(&mut memory, root, second, 1).unwrap();
    assert_eq!(freed, vec![frame(&p, 0x10_1000), frame(&p, 0x10_0000)]);
}

#[test]
fn ranges_that_leave_the_address_space_are_out_of_bounds() {
    let p = platform();
    let (mut memory, root) = fresh(&p);
    // runs into the non-canonical hole
    let top_of_low = VirtLv1PageAddress::new(&p, 0x7FFF_FFFF_F000).unwrap();
    let pages = frames(&p, 0x70_0000, 2);
    let spares = frames(&p, 0x10_0000, 8);
    assert_eq!(
        map_slice_lv1_page(&mut memory, root, &spares, &pages, top_of_low, plain()),
        Err(PagingErros::NumberOfPagesOutOfBounds)
    );
    assert_eq!(
        needed_pt_pages_lv1(&memory, root, top_of_low, 2),
        Err(PagingErros::NumberOfPagesOutOfBounds)
    );
    assert_eq!(needed_pt_pages_lv1(&memory, root, top_of_low, 1), Ok(4));
    assert_eq!(
        unmap_lv1_page(&mut memory, root, top_of_low, 2),
        Err(PagingErros::NumberOfPagesOutOfBounds)
    );
    // wraps around the end of the address space
    let last = VirtLv1PageAddress::new(&p, 0xFFFF_FFFF_FFFF_F000).unwrap();
    assert_eq!(
        map_slice_lv1_page(&mut memory, root, &spares, &pages, last, plain()),
        Err(PagingErros::NumberOfPagesOutOfBounds)
    );
    assert_eq!(
        needed_pt_pages_lv2(
            &memory,
            root,
            VirtLv2PageAddress::new(&p, 0xFFFF_FFFF_FFE0_0000).unwrap(),
            u64::MAX
        ),
        Err(PagingErros::NumberOfPagesOutOfBounds)
    );
    assert_eq!(
        needed_pt_pages_lv3(
            &memory,
            root,
            VirtLv3PageAddress::new(&p, 0x7FFF_C000_0000).unwrap(),
            2
        ),
        Err(PagingErros::NumberOfPagesOutOfBounds)
    );
    // an empty range is a range
    assert_eq!(map_slice_lv1_page(&mut memory, root, &[], &[], last, plain()), Ok(()));
    assert_eq!(needed_pt_pages_lv1(&memory, root, last, 0), Ok(0));
    assert_eq!(unmap_lv1_page(&mut memory, root, last, 0), Ok(vec![]));
    assert!(memory.table_is_empty(0x1000));
}

#[test]
fn attributes_are_updated_in_place() {
    let p = platform();
    let (mut memory, root) = fresh(&p);
    let start = VirtLv1PageAddress::new(&p, 0x40_0000_0000).unwrap();
    let pages = frames(&p, 0x70_0000, 3);
    let spares = frames(&p, 0x10_0000, 4);
    assert_eq!(map_slice_lv1_page(&mut memory, root, &spares, &pages, start, plain()), Ok(()));
    let big_start = VirtLv2PageAddress::new(&p, 0x40_0020_0000).unwrap();
    let big = PhysLv2PageAddress::new(&p, 0x80_0000).unwrap();
    assert_eq!(map_slice_lv2_page(&mut memory, root, &[], &[big], big_start, plain()), Ok(()));
    let read_only = PageAttributes {
        readonly: true,
        caching_mode: CachingMode::MmioPrefetch,
        ..plain()
    };
    // the second 4 KiB page only
    update_page_attributes(
        &mut memory,
        root,
        virt(&p, 0x40_0000_1234),
        virt(&p, 0x40_0000_2000),
        read_only,
    );
    let attributes_at = |memory: &TableMemory, address: u64| match get_single_page(
        memory,
        root,
        virt(&p, address),
    ) {
        Some(Page::Lv1Page(page)) => (page.attributes, page.phys_address.get_address().get_u64()),
        Some(Page::Lv2Page(page)) => (page.attributes, page.phys_address.get_address().get_u64()),
        other => panic!("unexpected {:?}", other),
    };
    assert_eq!(attributes_at(&memory, 0x40_0000_0000), (plain(), 0x70_0000));
    assert_eq!(attributes_at(&memory, 0x40_0000_1000), (read_only, 0x70_1000));
    assert_eq!(attributes_at(&memory, 0x40_0000_2000), (plain(), 0x70_2000));
    assert_eq!(attributes_at(&memory, 0x40_0020_0000), (plain(), 0x80_0000));
    // one address inside the large page updates the whole large page
    update_page_attributes(
        &mut memory,
        root,
        virt(&p, 0x40_0020_5000),
        virt(&p, 0x40_0020_5001),
        read_only,
    );
    assert_eq!(attributes_at(&memory, 0x40_0020_0000), (read_only, 0x80_0000));
    assert_eq!(attributes_at(&memory, 0x40_003F_FFFF), (read_only, 0x80_0000));
    // an empty range changes nothing
    update_page_attributes(
        &mut memory,
        root,
        virt(&p, 0x40_0000_3000),
        virt(&p, 0x40_0000_0000),
        read_only,
    );
    assert_eq!(attributes_at(&memory, 0x40_0000_0000), (plain(), 0x70_0000));
    assert_eq!(attributes_at(&memory, 0x40_0000_2000), (plain(), 0x70_2000));
}

#[test]
fn address_spaces_do_not_see_each_other() {
    let p = platform();
    let (mut memory, first) = fresh(&p);
    let second = memory.create_root(frame(&p, 0x9000)).unwrap();
    let start = VirtLv1PageAddress::new(&p, 0x5000).unwrap();
    let spares = frames(&p, 0x10_0000, 4);
    assert_eq!(
        map_slice_lv1_page(&mut memory, first, &spares, &[frame(&p, 0x7000)], start, plain()),
        Ok(())
    );
    assert_eq!(lv1_frame_at(&memory, first, &p, 0x5000), Some(0x7000));
    assert_eq!(lv1_frame_at(&memory, second, &p, 0x5000), None);
    assert_eq!(needed_pt_pages_lv1(&memory, second, start, 1), Ok(4));
    let more = frames(&p, 0x20_0000, 4);
    assert_eq!(
        map_slice_lv1_page(&mut memory, second, &more, &[frame(&p, 0x8000)], start, plain()),
        Ok(())
    );
    assert_eq!(lv1_frame_at(&memory, first, &p, 0x5000), Some(0x7000));
    assert_eq!(lv1_frame_at(&memory, second, &p, 0x5000), Some(0x8000));
    assert_eq!(unmap_lv1_page(&mut memory, first, start, 1).unwrap().len(), 4);
    assert_eq!(lv1_frame_at(&memory, second, &p, 0x5000), Some(0x8000));
}

#[test]
fn range_query_counts_pages_from_the_page_of_the_start() {
    let p = platform();
    let (memory, root) = fresh(&p);
    let count = |start: u64, end: u64| {
        get_vec_page(&memory, root, virt(&p, start), virt(&p, end)).len()
    };
    assert_eq!(count(0x5000, 0x5000), 0);
    assert_eq!(count(0x5000, 0x5001), 1);
    assert_eq!(count(0x5FFF, 0x6000), 1);
    assert_eq!(count(0x5FFF, 0x6001), 2);
    assert_eq!(count(0x5000, 0x9000), 4);
    assert_eq!(count(0x9000, 0x5000), 0);
    assert_eq!(count(0x5800, 0x5400), 1);
}

#[test]
fn five_level_platform_uses_the_top_index() {
    let p = Platform::x86_64(52, 1 << 12);
    let mut memory = TableMemory::new(p).unwrap();
    let root = memory.create_root(frame(&p, 0x1000)).unwrap();
    let low = VirtLv1PageAddress::new(&p, 0x00FF_0000_0000_0000).unwrap();
    let high = VirtLv1PageAddress::new(&p, 0xFF00_0000_0000_0000).unwrap();
    let spares = frames(&p, 0x10_0000, 8);
    assert_eq!(
        map_slice_lv1_page(&mut memory, root, &spares, &[frame(&p, 0x7000)], low, plain()),
        Ok(())
    );
    assert_eq!(needed_pt_pages_lv1(&memory, root, high, 1), Ok(4));
    assert_eq!(
        map_slice_lv1_page(&mut memory, root, &spares[4..], &[frame(&p, 0x8000)], high, plain()),
        Ok(())
    );
    assert_eq!(lv1_frame_at(&memory, root, &p, 0x00FF_0000_0000_0000), Some(0x7000));
    assert_eq!(lv1_frame_at(&memory, root, &p, 0xFF00_0000_0000_0000), Some(0x8000));
    assert_ne!(memory.entry_at(frame(&p, 0x1000), 0x0FF), Some(0));
    assert_ne!(memory.entry_at(frame(&p, 0x1000), 0x100), Some(0));
}

#[test]
fn unmapping_returns_the_spares_that_mapping_took() {
    let p = platform();
    let (mut memory, root) = fresh(&p);
    // pages 510 and 511 of one level 1 table and pages 0 and 1 of the next
    let start = VirtLv1PageAddress::new(&p, 0x40_001F_E000).unwrap();
    let pages = frames(&p, 0x70_0000, 4);
    let spares = frames(&p, 0x10_0000, 7);
    assert_eq!(map_slice_lv1_page(&mut memory, root, &spares, &pages, start, plain()), Ok(()));
    let mut freed = unmap_lv1_page(&mut memory, root, start, 4).unwrap();
    assert_eq!(freed.len(), 5);
    for page in &pages {
        assert!(!freed.contains(page));
    }
    for table in &freed {
        assert!(!memory.contains_table(*table));
    }
    freed.sort();
    assert_eq!(freed, spares[..5].to_vec());
    assert!(!memory.contains_table(spares[5]));
    assert!(memory.table_is_empty(0x1000));
    let found = get_vec_page(&memory, root, virt(&p, 0x40_001F_E000), virt(&p, 0x40_0020_2000));
    assert_eq!(found.len(), 4);
    assert!(found.iter().all(|page| page.is_none()));
}

#[test]
fn unmapping_returns_an_emptied_table_that_was_there_before() {
    let p = platform();
    let (mut memory, root) = fresh(&p);
    // an empty level 4 table that no mapping made
    pagecore::pml4_5::write_page_pml3_4(&mut memory, root.address(), 0, frame(&p, 0x9000));
    let start = VirtLv1PageAddress::new(&p, 0x5000).unwrap();
    assert_eq!(needed_pt_pages_lv1(&memory, root, start, 1), Ok(3));
    let spares = frames(&p, 0x10_0000, 3);
    assert_eq!(
        map_slice_lv1_page(&mut memory, root, &spares, &[frame(&p, 0x7000)], start, plain()),
        Ok(())
    );
    let mut freed = unmap_lv1_page(&mut memory, root, start, 1).unwrap();
    freed.sort();
    assert_eq!(
        freed,
        vec![frame(&p, 0x9000), frame(&p, 0x10_0000), frame(&p, 0x10_1000), frame(&p, 0x10_2000)]
    );
}

#[test]
fn a_mapped_page_in_a_valid_range_is_already_present_whatever_the_spares() {
    let p = platform();
    let (mut memory, root) = fresh(&p);
    let big_start = VirtLv2PageAddress::new(&p, 0x4020_0000).unwrap();
    let big = PhysLv2PageAddress::new(&p, 0x80_0000).unwrap();
    let spares = frames(&p, 0x10_0000, 3);
    assert_eq!(map_slice_lv2_page(&mut memory, root, &spares, &[big], big_start, plain()), Ok(()));
    // the third page of the range lies in the large page; no spare is at hand
    let start = VirtLv1PageAddress::new(&p, 0x401F_E000).unwrap();
    let pages = frames(&p, 0x70_0000, 4);
    assert_eq!(
        map_slice_lv1_page(&mut memory, root, &[], &pages, start, plain()),
        Err(PagingErros::PageAlreadyPresent)
    );
    let plenty = frames(&p, 0x20_0000, 8);
    assert_eq!(
        map_vec_lv1_page(&mut memory, root, plenty.clone(), pages, start, plain()),
        Err(PagingErros::PageAlreadyPresent)
    );
    for spare in &plenty {
        assert!(!memory.contains_table(*spare));
    }
    assert!(get_single_page(&memory, root, virt(&p, 0x401F_E000)).is_none());
    assert!(matches!(
        get_single_page(&memory, root, virt(&p, 0x4020_0000)),
        Some(Page::Lv2Page(_))
    ));
}

#[test]
fn segment_kinds_decide_what_can_be_made() {
    let p = platform();
    let base = VirtLv1PageAddress::new(&p, 0x40_0000_0000).unwrap();
    for kind in [SegmentsTypes::DataSegment, SegmentsTypes::StackSegment, SegmentsTypes::DMASegment]
    {
        let segment = Segment::new(kind, true, false, base, 0x3000, 0).unwrap();
        assert_eq!(segment.get_segment_type(), kind);
        assert!(segment.is_kernel());
        assert!(!segment.is_global());
        assert_eq!(segment.get_segment_base_address(), base);
    }
    for kind in [
        SegmentsTypes::CodeSegment,
        SegmentsTypes::DataROSegment,
        SegmentsTypes::DeviceMMIOSegment,
        SegmentsTypes::DeviceMMIOROSegment,
        SegmentsTypes::IPCSegment,
        SegmentsTypes::IPCROSegment,
        SegmentsTypes::HHDMSegment,
    ] {
        assert_eq!(
            Segment::new(kind, false, false, base, 0x3000, 0).err(),
            Some(SegmentError::InvalidSegmentTypeForConstructor)
        );
        assert_eq!(
            Segment::new(kind, false, false, base, 0x3000, 0x1000).err(),
            Some(SegmentError::InvalidSegmentTypeForConstructor)
        );
    }
    assert!(Segment::new(SegmentsTypes::DataSegment, false, true, base, 0x3000, 0x1000).is_ok());
    assert_eq!(
        Segment::new(SegmentsTypes::StackSegment, false, true, base, 0x3000, 0x1000).err(),
        Some(SegmentError::FixedSizeSegmentCantHaveReservedSpace)
    );
    assert_eq!(
        Segment::new(SegmentsTypes::DMASegment, false, true, base, 0x3000, 1).err(),
        Some(SegmentError::FixedSizeSegmentCantHaveReservedSpace)
    );
}

#[test]
fn segment_translates_inside_its_bounds_only() {
    let p = platform();
    let (mut memory, root) = fresh(&p);
    let base = VirtLv1PageAddress::new(&p, 0x40_0000_0000).unwrap();
    let spares = frames(&p, 0x10_0000, 4);
    assert_eq!(
        map_slice_lv1_page(&mut memory, root, &spares, &[frame(&p, 0x7000)], base, plain()),
        Ok(())
    );
    let segment = Segment::new(SegmentsTypes::DataSegment, false, false, base, 0x2000, 0).unwrap();
    match segment.virt_to_phys_translation(&memory, root, virt(&p, 0x40_0000_0FFF)) {
        Ok(Some(Page::Lv1Page(page))) => assert_eq!(page.phys_address, frame(&p, 0x7000)),
        other => panic!("unexpected {:?}", other),
    }
    assert_eq!(
        segment.virt_to_phys_translation(&memory, root, virt(&p, 0x40_0000_1000)),
        Ok(None)
    );
    assert_eq!(
        segment.virt_to_phys_translation(&memory, root, virt(&p, 0x40_0000_2000)),
        Ok(None)
    );
    assert_eq!(
        segment.virt_to_phys_translation(&memory, root, virt(&p, 0x40_0000_2001)),
        Err(SegmentError::OutOfBounds)
    );
    assert_eq!(
        segment.virt_to_phys_translation(&memory, root, virt(&p, 0x3F_FFFF_FFFF)),
        Err(SegmentError::OutOfBounds)
    );
    let top = VirtLv1PageAddress::new(&p, 0xFFFF_FFFF_FFFF_F000).unwrap();
    let last = Segment::new(SegmentsTypes::DataSegment, false, false, top, u64::MAX, 0).unwrap();
    assert_eq!(last.virt_to_phys_translation(&memory, root, virt(&p, u64::MAX)), Ok(None));
}
