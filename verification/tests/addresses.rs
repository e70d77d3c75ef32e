use pagecore::direct_map::{get_lowest_higher_half_address, DirectMap};
use pagecore::memory::{MemoryAddressErrors, PhysAddress, VirtAddress};
use pagecore::page_address::{
    PhysLv1PageAddress, PhysLv2PageAddress, PhysLv3PageAddress, VirtLv1PageAddress,
    VirtLv2PageAddress, VirtLv3PageAddress,
};
use pagecore::platform::{
    get_cannonical_bit_number, get_lv1_page_size_mask, get_lv2_page_size_mask,
    get_lv3_page_size_mask, get_max_supported_phy_address_as_bit_mask,
    get_max_supported_virt_address_as_bit_mask, Platform,
};

fn four_level() -> Platform {
    Platform::x86_64(40, 0)
}

fn five_level() -> Platform {
    Platform::x86_64(52, 1 << 12)
}

fn hhdm(platform: &Platform) -> DirectMap {
    DirectMap::new(VirtLv1PageAddress::new(platform, 0xFFFF_8000_0000_0000).unwrap())
}

#[test]
fn platform_masks_have_the_documented_values() {
    assert_eq!(get_lv1_page_size_mask(), 0xFFFF_FFFF_FFFF_F000);
    assert_eq!(get_lv2_page_size_mask(), 0xFFFF_FFFF_FFE0_0000);
    assert_eq!(get_lv3_page_size_mask(), 0xFFFF_FFFF_C000_0000);
    assert_eq!(get_max_supported_phy_address_as_bit_mask(40), 0xFF_FFFF_FFFF);
    assert_eq!(get_max_supported_phy_address_as_bit_mask(64), u64::MAX);
    assert_eq!(get_max_supported_phy_address_as_bit_mask(1), 1);
    assert_eq!(get_max_supported_virt_address_as_bit_mask(0), 0xFFFF_FFFF_FFFF);
    assert_eq!(get_max_supported_virt_address_as_bit_mask(!(1 << 12)), 0xFFFF_FFFF_FFFF);
    assert_eq!(get_max_supported_virt_address_as_bit_mask(0x0030_0EF8), 0xFFFF_FFFF_FFFF);
    assert_eq!(get_max_supported_virt_address_as_bit_mask(1 << 12), 0x1FF_FFFF_FFFF_FFFF);
    assert_eq!(get_max_supported_virt_address_as_bit_mask(u64::MAX), 0x1FF_FFFF_FFFF_FFFF);
    assert_eq!(get_max_supported_virt_address_as_bit_mask(0x0030_1EF8), 0x1FF_FFFF_FFFF_FFFF);
    assert_eq!(get_cannonical_bit_number(0x1FF_FFFF_FFFF_FFFF), Some(56));
    assert_eq!(get_cannonical_bit_number(0xFFFF_FFFF_FFFF), Some(47));
}

#[test]
fn platform_sizes_follow_the_masks() {
    let p = four_level();
    assert_eq!(p.lv1_page_size(), 4096);
    assert_eq!(p.lv2_page_size(), 0x20_0000);
    assert_eq!(p.lv3_page_size(), 0x4000_0000);
    assert!(p.lv2_page_supported());
    assert!(p.lv3_page_supported());
    assert!(p.supports_x86_64_paging());
    let bare = Platform::new(0xFFFF, 0xFFFF, None, 0xFFFF_FFFF_FFFF_F000, 0, 0x1).unwrap();
    assert_eq!(bare.lv2_page_size(), 0);
    assert!(!bare.lv2_page_supported());
    assert!(!bare.lv3_page_supported());
    assert!(!bare.supports_x86_64_paging());
}

#[test]
fn platform_new_refuses_a_canonical_bit_that_is_not_the_top_bit() {
    assert!(Platform::new(u64::MAX, 0xFFFF_FFFF_FFFF, Some(47), 0, 0, 0).is_some());
    assert!(Platform::new(u64::MAX, 0xFFFF_FFFF_FFFF, Some(46), 0, 0, 0).is_none());
    assert!(Platform::new(u64::MAX, 0xFFFF_FFFF_FFFF, Some(64), 0, 0, 0).is_none());
    assert!(Platform::new(u64::MAX, u64::MAX, Some(63), 0, 0, 0).is_some());
    assert!(Platform::new(u64::MAX, 0x1234, None, 0, 0, 0).is_some());
}

#[test]
fn physical_address_outside_the_width_is_invalid_bits() {
    let p = four_level();
    assert_eq!(PhysAddress::new(&p, 1 << 40).err(), Some(MemoryAddressErrors::InvalidBits));
    assert_eq!(PhysAddress::new(&p, u64::MAX).err(), Some(MemoryAddressErrors::InvalidBits));
    assert_eq!(PhysAddress::new(&p, (1 << 40) - 1).unwrap().get_u64(), (1 << 40) - 1);
    assert_eq!(PhysAddress::new(&p, 0).unwrap().get_u64(), 0);
}

#[test]
fn physical_maskoff_clears_the_unsupported_bits() {
    let p = four_level();
    assert_eq!(PhysAddress::new_maskoff(&p, u64::MAX).get_u64(), 0xFF_FFFF_FFFF);
    assert_eq!(PhysAddress::new_maskoff(&p, (1 << 40) | 0x1234).get_u64(), 0x1234);
    assert_eq!(PhysAddress::new_unchecked(&p, 0x5000).get_u64(), 0x5000);
}

#[test]
fn virtual_zero_is_null() {
    for p in [four_level(), five_level()] {
        assert_eq!(VirtAddress::new(&p, 0).err(), Some(MemoryAddressErrors::NULLPTR));
        assert_eq!(VirtAddress::new_maskoff(&p, 0).err(), Some(MemoryAddressErrors::NULLPTR));
    }
    let bare = Platform::new(0xFFFF, 0xFFFF, None, 0xF000, 0, 0).unwrap();
    assert_eq!(VirtAddress::new(&bare, 0).err(), Some(MemoryAddressErrors::NULLPTR));
}

#[test]
fn virtual_non_canonical_is_refused() {
    let p = four_level();
    // bit 47 set, bits above not all set
    assert_eq!(
        VirtAddress::new(&p, 0x0000_8000_0000_0000).err(),
        Some(MemoryAddressErrors::NonCannonical)
    );
    assert_eq!(
        VirtAddress::new(&p, 0xFFFE_8000_0000_0000).err(),
        Some(MemoryAddressErrors::NonCannonical)
    );
    // bit 47 clear, a bit above set
    assert_eq!(
        VirtAddress::new(&p, 0x0001_0000_0000_0000).err(),
        Some(MemoryAddressErrors::NonCannonical)
    );
    assert_eq!(
        VirtAddress::new(&p, 0xFFFF_0000_0000_1000).err(),
        Some(MemoryAddressErrors::NonCannonical)
    );
}

#[test]
fn virtual_without_canonical_bit_reports_invalid_bits() {
    let bare = Platform::new(0xFFFF, 0xFFFF, None, 0xF000, 0, 0).unwrap();
    assert_eq!(VirtAddress::new(&bare, 0x1_0000).err(), Some(MemoryAddressErrors::InvalidBits));
    assert_eq!(VirtAddress::new(&bare, 0xFFFF).unwrap().get_u64(), 0xFFFF);
}

#[test]
fn virtual_new_round_trips_and_revalidates() {
    let p = four_level();
    for v in [1u64, 0x1000, 0x7FFF_FFFF_FFFF, 0xFFFF_8000_0000_0000, u64::MAX] {
        let a = VirtAddress::new(&p, v).unwrap();
        assert_eq!(a.get_u64(), v);
        let again = VirtAddress::new(&p, a.get_u64()).unwrap();
        assert_eq!(again, a);
    }
}

#[test]
fn virtual_maskoff_makes_the_value_canonical() {
    let p = four_level();
    assert_eq!(
        VirtAddress::new_maskoff(&p, 0x0000_8000_0000_1000).unwrap().get_u64(),
        0xFFFF_8000_0000_1000
    );
    assert_eq!(
        VirtAddress::new_maskoff(&p, 0xABCD_0000_0000_1000).unwrap().get_u64(),
        0x1000
    );
    assert_eq!(
        VirtAddress::new_maskoff(&p, 0xABCD_0000_0000_0000).err(),
        Some(MemoryAddressErrors::NULLPTR)
    );
    let q = five_level();
    assert_eq!(
        VirtAddress::new_maskoff(&q, 0x0100_0000_0000_0000).unwrap().get_u64(),
        0xFF00_0000_0000_0000
    );
}

#[test]
fn offset_moves_by_the_size_of_the_type() {
    let p = four_level();
    let a = PhysAddress::new(&p, 0x1000).unwrap();
    assert_eq!(a.offset::<u64>(&p, 3).unwrap().get_u64(), 0x1018);
    assert_eq!(a.offset::<u64>(&p, -2).unwrap().get_u64(), 0xFF0);
    assert_eq!(a.offset::<u8>(&p, -0x1000).unwrap().get_u64(), 0);
    assert_eq!(a.offset::<u8>(&p, -0x1001).err(), Some(MemoryAddressErrors::OutOfBounds));
    assert_eq!(a.offset::<u64>(&p, i64::MAX).err(), Some(MemoryAddressErrors::OutOfBounds));
    assert_eq!(a.offset::<u8>(&p, 1 << 40).err(), Some(MemoryAddressErrors::InvalidBits));
    assert_eq!(a.offset_maskoff::<u8>(&p, 1 << 40).unwrap().get_u64(), 0x1000);
    assert_eq!(a.offset_maskoff::<u8>(&p, -0x1001).err(), Some(MemoryAddressErrors::OutOfBounds));
    assert_eq!(a.offset_unchecked::<u32>(&p, 2).get_u64(), 0x1008);
    let v = VirtAddress::new(&p, 0x7FFF_FFFF_FFF8).unwrap();
    assert_eq!(v.offset::<u64>(&p, 1).err(), Some(MemoryAddressErrors::NonCannonical));
    assert_eq!(v.offset_maskoff::<u64>(&p, 1).unwrap().get_u64(), 0xFFFF_8000_0000_0000);
    assert_eq!(v.offset::<u64>(&p, -1).unwrap().get_u64(), 0x7FFF_FFFF_FFF0);
    assert_eq!(v.offset_unchecked::<u8>(&p, 7).get_u64(), 0x7FFF_FFFF_FFFF);
    let low = VirtAddress::new(&p, 8).unwrap();
    assert_eq!(low.offset::<u64>(&p, -1).err(), Some(MemoryAddressErrors::NULLPTR));
    assert_eq!(low.offset::<u64>(&p, -2).err(), Some(MemoryAddressErrors::OutOfBounds));
}

#[test]
fn page_addresses_check_alignment_first() {
    let p = four_level();
    assert_eq!(
        PhysLv1PageAddress::new(&p, 0x1001).err(),
        Some(MemoryAddressErrors::InvalidBits)
    );
    assert_eq!(PhysLv1PageAddress::new(&p, 0x3000).unwrap().get_address().get_u64(), 0x3000);
    assert_eq!(
        PhysLv2PageAddress::new(&p, 0x1000).err(),
        Some(MemoryAddressErrors::InvalidBits)
    );
    assert_eq!(
        PhysLv2PageAddress::new(&p, 0x40_0000).unwrap().get_address().get_u64(),
        0x40_0000
    );
    assert_eq!(
        PhysLv3PageAddress::new(&p, 0x20_0000).err(),
        Some(MemoryAddressErrors::InvalidBits)
    );
    assert_eq!(
        PhysLv3PageAddress::new(&p, 0x8000_0000).unwrap().get_address().get_u64(),
        0x8000_0000
    );
    assert_eq!(
        VirtLv1PageAddress::new(&p, 0x0000_8000_0000_0001).err(),
        Some(MemoryAddressErrors::InvalidBits)
    );
    assert_eq!(
        VirtLv1PageAddress::new(&p, 0x0000_8000_0000_0000).err(),
        Some(MemoryAddressErrors::NonCannonical)
    );
    assert_eq!(VirtLv1PageAddress::new(&p, 0).err(), Some(MemoryAddressErrors::NULLPTR));
    assert_eq!(
        VirtLv2PageAddress::new(&p, 0x20_0000).unwrap().get_address().get_u64(),
        0x20_0000
    );
    assert_eq!(
        VirtLv3PageAddress::new(&p, 0xFFFF_FFFF_C000_0000).unwrap().get_address().get_u64(),
        0xFFFF_FFFF_C000_0000
    );
}

#[test]
fn page_maskoff_rounds_down() {
    let p = four_level();
    assert_eq!(PhysLv1PageAddress::new_maskoff(&p, 0x1FFF).get_address().get_u64(), 0x1000);
    assert_eq!(
        PhysLv2PageAddress::new_maskoff(&p, 0x3F_FFFF).get_address().get_u64(),
        0x20_0000
    );
    assert_eq!(
        PhysLv3PageAddress::new_maskoff(&p, u64::MAX).get_address().get_u64(),
        0xFF_C000_0000
    );
    assert_eq!(
        VirtLv1PageAddress::new_maskoff(&p, 0x1FFF).unwrap().get_address().get_u64(),
        0x1000
    );
    assert_eq!(
        VirtLv1PageAddress::new_maskoff(&p, 0xFFF).err(),
        Some(MemoryAddressErrors::NULLPTR)
    );
    assert_eq!(
        VirtLv2PageAddress::new_maskoff(&p, 0x0000_8000_0030_0000)
            .unwrap()
            .get_address()
            .get_u64(),
        0xFFFF_8000_0020_0000
    );
    assert_eq!(
        VirtLv3PageAddress::new_maskoff(&p, 0x3FFF_FFFF).err(),
        Some(MemoryAddressErrors::NULLPTR)
    );
    assert_eq!(
        VirtLv3PageAddress::new_maskoff(&p, 0x7FFF_FFFF).unwrap().get_address().get_u64(),
        0x4000_0000
    );
}

#[test]
fn page_offset_moves_by_whole_pages() {
    let p = four_level();
    let a = PhysLv1PageAddress::new(&p, 0x1000).unwrap();
    assert_eq!(a.offset(&p, 2).unwrap().get_address().get_u64(), 0x3000);
    assert_eq!(a.offset(&p, -1).unwrap().get_address().get_u64(), 0);
    assert_eq!(a.offset(&p, -2).err(), Some(MemoryAddressErrors::OutOfBounds));
    assert_eq!(a.offset(&p, 1 << 28).err(), Some(MemoryAddressErrors::InvalidBits));
    assert_eq!(a.offset_maskoff(&p, 1 << 28).unwrap().get_address().get_u64(), 0x1000);
    assert_eq!(a.offset_unchecked(&p, 3).get_address().get_u64(), 0x4000);
    let b = PhysLv2PageAddress::new(&p, 0x20_0000).unwrap();
    assert_eq!(b.offset(&p, 1).unwrap().get_address().get_u64(), 0x40_0000);
    assert_eq!(b.offset_maskoff(&p, -1).unwrap().get_address().get_u64(), 0);
    assert_eq!(b.offset_unchecked(&p, 1).get_address().get_u64(), 0x40_0000);
    let c = PhysLv3PageAddress::new(&p, 0x4000_0000).unwrap();
    assert_eq!(c.offset(&p, 3).unwrap().get_address().get_u64(), 0x1_0000_0000);
    assert_eq!(c.offset_maskoff(&p, 1).unwrap().get_address().get_u64(), 0x8000_0000);
    assert_eq!(c.offset_unchecked(&p, -1).get_address().get_u64(), 0);
    let v = VirtLv1PageAddress::new(&p, 0x2000).unwrap();
    assert_eq!(v.offset(&p, 1).unwrap().get_address().get_u64(), 0x3000);
    assert_eq!(v.offset(&p, -2).err(), Some(MemoryAddressErrors::NULLPTR));
    assert_eq!(v.offset(&p, -3).err(), Some(MemoryAddressErrors::OutOfBounds));
    assert_eq!(v.offset_maskoff(&p, 1).unwrap().get_address().get_u64(), 0x3000);
    assert_eq!(v.offset_unchecked(&p, 2).get_address().get_u64(), 0x4000);
    let w = VirtLv2PageAddress::new(&p, 0x7FFF_FFE0_0000).unwrap();
    assert_eq!(w.offset(&p, 1).err(), Some(MemoryAddressErrors::NonCannonical));
    assert_eq!(
        w.offset_maskoff(&p, 1).unwrap().get_address().get_u64(),
        0xFFFF_8000_0000_0000
    );
    assert_eq!(w.offset_unchecked(&p, -1).get_address().get_u64(), 0x7FFF_FFC0_0000);
    let x = VirtLv3PageAddress::new(&p, 0x4000_0000).unwrap();
    assert_eq!(x.offset(&p, 1).unwrap().get_address().get_u64(), 0x8000_0000);
    assert_eq!(x.offset_maskoff(&p, 2).unwrap().get_address().get_u64(), 0xC000_0000);
    assert_eq!(x.offset_unchecked(&p, 1).get_address().get_u64(), 0x8000_0000);
}

#[test]
fn direct_map_adds_and_subtracts_the_offset() {
    let p = four_level();
    let map = hhdm(&p);
    assert_eq!(map.base(), 0xFFFF_8000_0000_0000);
    assert_eq!(map.physical_to_virtual(0x1000), Some(0xFFFF_8000_0000_1000));
    assert_eq!(map.physical_to_virtual(0x8000_0000_0000), None);
    assert_eq!(map.virtual_to_physical(0xFFFF_8000_0000_1000), Some(0x1000));
    assert_eq!(map.virtual_to_physical(0x1000), None);
}

#[test]
fn direct_map_round_trip_for_every_page_size() {
    let p = four_level();
    let map = hhdm(&p);
    let a = PhysAddress::new(&p, 0x1234).unwrap();
    assert_eq!(a.to_virt(&p, &map).unwrap().get_u64(), 0xFFFF_8000_0000_1234);
    assert_eq!(a.to_virt(&p, &map).unwrap().to_phys(&p, &map).unwrap(), a);
    let l1 = PhysLv1PageAddress::new(&p, 0x7000).unwrap();
    assert_eq!(l1.to_virt(&p, &map).unwrap().to_phys(&p, &map).unwrap(), l1);
    let l2 = PhysLv2PageAddress::new(&p, 0x60_0000).unwrap();
    assert_eq!(l2.to_virt(&p, &map).unwrap().to_phys(&p, &map).unwrap(), l2);
    let l3 = PhysLv3PageAddress::new(&p, 0xC000_0000).unwrap();
    assert_eq!(l3.to_virt(&p, &map).unwrap().to_phys(&p, &map).unwrap(), l3);
    assert_eq!(l1.to_virt_maskoff(&p, &map).unwrap().to_phys_maskoff(&p, &map), l1);
    assert_eq!(l2.to_virt_unchecked(&p, &map).to_phys_unchecked(&p, &map), l2);
    assert_eq!(l3.to_virt_maskoff(&p, &map).unwrap().to_phys_unchecked(&p, &map), l3);
    assert_eq!(a.to_virt_unchecked(&p, &map).to_phys_maskoff(&p, &map), a);
    assert_eq!(a.to_virt_maskoff(&p, &map).unwrap().to_phys_unchecked(&p, &map), a);
}

#[test]
fn to_phys_below_the_direct_map_is_invalid() {
    let p = four_level();
    let map = hhdm(&p);
    let v = VirtAddress::new(&p, 0x1000).unwrap();
    assert_eq!(v.to_phys(&p, &map).err(), Some(MemoryAddressErrors::Invalid));
    assert_eq!(v.to_phys_maskoff(&p, &map).get_u64(), 0);
    let l1 = VirtLv1PageAddress::new(&p, 0x1000).unwrap();
    assert_eq!(l1.to_phys(&p, &map).err(), Some(MemoryAddressErrors::Invalid));
    assert_eq!(l1.to_phys_maskoff(&p, &map).get_address().get_u64(), 0);
    let l2 = VirtLv2PageAddress::new(&p, 0x20_0000).unwrap();
    assert_eq!(l2.to_phys(&p, &map).err(), Some(MemoryAddressErrors::Invalid));
    let l3 = VirtLv3PageAddress::new(&p, 0x4000_0000).unwrap();
    assert_eq!(l3.to_phys(&p, &map).err(), Some(MemoryAddressErrors::Invalid));
    // above the physical width
    let high = VirtAddress::new(&p, 0xFFFF_FFFF_FFFF_F000).unwrap();
    assert_eq!(high.to_phys(&p, &map).err(), Some(MemoryAddressErrors::InvalidBits));
    assert_eq!(high.to_phys_maskoff(&p, &map).get_u64(), 0xFF_FFFF_F000);
}

#[test]
fn to_virt_reports_overflow_and_bad_sums() {
    let p = Platform::new(u64::MAX, 0xFFFF_FFFF_FFFF, Some(47), 0xFFFF_FFFF_FFFF_F000, 0, 0)
        .unwrap();
    let map = hhdm(&p);
    let far = PhysAddress::new(&p, 0x8000_0000_0000).unwrap();
    assert_eq!(far.to_virt(&p, &map).err(), Some(MemoryAddressErrors::OutOfBounds));
    assert_eq!(far.to_virt_maskoff(&p, &map).err(), Some(MemoryAddressErrors::OutOfBounds));
    let low = DirectMap::new(VirtLv1PageAddress::new(&p, 0x1000).unwrap());
    let odd = PhysAddress::new(&p, 0x8000_0000_0000).unwrap();
    assert_eq!(odd.to_virt(&p, &low).err(), Some(MemoryAddressErrors::NonCannonical));
    assert_eq!(odd.to_virt_maskoff(&p, &low).unwrap().get_u64(), 0xFFFF_8000_0000_1000);
}

#[test]
fn lowest_higher_half_address_is_the_sign_extended_canonical_bit() {
    assert_eq!(
        get_lowest_higher_half_address(&four_level()).unwrap().get_address().get_u64(),
        0xFFFF_8000_0000_0000
    );
    assert_eq!(
        get_lowest_higher_half_address(&five_level()).unwrap().get_address().get_u64(),
        0xFF00_0000_0000_0000
    );
    let bare = Platform::new(0xFFFF, 0xFFFF, None, 0xF000, 0, 0).unwrap();
    assert_eq!(
        get_lowest_higher_half_address(&bare).unwrap().get_address().get_u64(),
        0x8000
    );
    let tiny = Platform::new(0xFF, 0xFF, Some(7), 0xFFFF_FFFF_FFFF_F000, 0, 0).unwrap();
    assert_eq!(
        get_lowest_higher_half_address(&tiny).err(),
        Some(MemoryAddressErrors::InvalidBits)
    );
}
