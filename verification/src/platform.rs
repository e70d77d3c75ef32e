//! The limits a platform puts on addresses: the physical and virtual address
//! widths, the canonical bit and the masks of up to three page sizes. They are
//! found once while booting and handed to every address constructor.

use crate::bits::{bit_is_set, get_bit};
use vstd::prelude::*;

verus! {

/// Mask of a 4 KiB page: the bits of an address that select the page.
pub const LV1_PAGE_MASK_4K: u64 = 0xFFFF_FFFF_FFFF_F000u64;

/// Mask of a 2 MiB page.
pub const LV2_PAGE_MASK_2M: u64 = 0xFFFF_FFFF_FFE0_0000u64;

/// Mask of a 1 GiB page.
pub const LV3_PAGE_MASK_1G: u64 = 0xFFFF_FFFF_C000_0000u64;

/// Virtual address mask with four table levels in use (48 bits).
pub const VIRT_MASK_4_LEVEL: u64 = 0xFFFF_FFFF_FFFFu64;

/// Virtual address mask with five table levels in use (57 bits).
pub const VIRT_MASK_5_LEVEL: u64 = 0x1FF_FFFF_FFFF_FFFFu64;

/// The mask whose lowest `bits` bits are set, for `1 <= bits <= 64`.
pub open spec fn low_mask(bits: u64) -> u64 {
    0xFFFF_FFFF_FFFF_FFFFu64 >> ((64 - bits) as u64)
}

pub fn get_lv1_page_size_mask() -> (mask: u64)
    ensures
        mask == LV1_PAGE_MASK_4K,
{
    LV1_PAGE_MASK_4K
}

pub fn get_lv2_page_size_mask() -> (mask: u64)
    ensures
        mask == LV2_PAGE_MASK_2M,
{
    LV2_PAGE_MASK_2M
}

pub fn get_lv3_page_size_mask() -> (mask: u64)
    ensures
        mask == LV3_PAGE_MASK_1G,
{
    LV3_PAGE_MASK_1G
}

/// The physical address mask of a processor that reports
/// `physical_address_bits` physical address bits.
pub fn get_max_supported_phy_address_as_bit_mask(physical_address_bits: u8) -> (mask: u64)
    requires
        1 <= physical_address_bits <= 64,
    ensures
        mask == low_mask(physical_address_bits as u64),
{
    let shift: u8 = 64 - physical_address_bits;
    0xFFFF_FFFF_FFFF_FFFFu64 >> shift
}

/// The bit of control register 4 that switches five-level paging on.
pub const CR4_FIVE_LEVEL_PAGING_BIT: usize = 12;

/// The virtual address mask, given the value of control register 4: 57 bits
/// where its bit 12 says that five table levels are in use, 48 bits
/// otherwise.
pub fn get_max_supported_virt_address_as_bit_mask(cr4: u64) -> (mask: u64)
    ensures
        mask == if bit_is_set(cr4, 12) {
            VIRT_MASK_5_LEVEL
        } else {
            VIRT_MASK_4_LEVEL
        },
{
    if get_bit(cr4, CR4_FIVE_LEVEL_PAGING_BIT) {
        return VIRT_MASK_5_LEVEL;
    }
    VIRT_MASK_4_LEVEL
}

/// The number of the bit that is sign-extended into the unused high bits:
/// the highest bit of the virtual address mask.
pub fn get_cannonical_bit_number(virt_mask: u64) -> (bit: Option<u8>)
    ensures
        bit == if virt_mask == VIRT_MASK_5_LEVEL {
            Some(56u8)
        } else {
            Some(47u8)
        },
{
    if virt_mask == VIRT_MASK_5_LEVEL {
        return Some(56);
    }
    Some(47)
}

/// The limits of one platform. A value is only ever made by [`Platform::new`],
/// so it always satisfies [`Platform::wf`].
#[derive(Clone, Copy, Debug)]
pub struct Platform {
    phys_mask: u64,
    virt_mask: u64,
    canonical_bit: Option<u8>,
    lv1_page_mask: u64,
    lv2_page_mask: u64,
    lv3_page_mask: u64,
}

impl Platform {
    pub closed spec fn spec_phys_mask(&self) -> u64 {
        self.phys_mask
    }

    pub closed spec fn spec_virt_mask(&self) -> u64 {
        self.virt_mask
    }

    pub closed spec fn spec_canonical_bit(&self) -> Option<u8> {
        self.canonical_bit
    }

    pub closed spec fn spec_lv1_page_mask(&self) -> u64 {
        self.lv1_page_mask
    }

    pub closed spec fn spec_lv2_page_mask(&self) -> u64 {
        self.lv2_page_mask
    }

    pub closed spec fn spec_lv3_page_mask(&self) -> u64 {
        self.lv3_page_mask
    }

    /// Whether a set of limits is consistent: a canonical bit, where there is
    /// one, is the highest bit of the virtual address mask.
    pub open spec fn limits_agree(virt_mask: u64, canonical_bit: Option<u8>) -> bool {
        match canonical_bit {
            Some(bit) => bit < 64 && virt_mask == low_mask((bit + 1) as u64),
            None => true,
        }
    }

    /// Validity of a platform description.
    pub open spec fn wf(&self) -> bool {
        Self::limits_agree(self.spec_virt_mask(), self.spec_canonical_bit())
    }

    /// Whether the platform has the x86-64 page table: pages of 4 KiB, 2 MiB
    /// and 1 GiB, virtual addresses of 48 or 57 bits with the highest as the
    /// canonical bit, and physical addresses of at most 52 bits, so that a
    /// frame address never overlaps the flag bits of a table entry.
    pub open spec fn has_x86_64_paging(&self) -> bool {
        &&& self.spec_lv1_page_mask() == LV1_PAGE_MASK_4K
        &&& self.spec_lv2_page_mask() == LV2_PAGE_MASK_2M
        &&& self.spec_lv3_page_mask() == LV3_PAGE_MASK_1G
        &&& self.spec_phys_mask() & !0xF_FFFF_FFFF_FFFFu64 == 0
        &&& (self.spec_canonical_bit() == Some(47u8) || self.spec_canonical_bit() == Some(56u8))
    }

    /// Tests for the x86-64 page table.
    pub fn supports_x86_64_paging(&self) -> (supported: bool)
        ensures
            supported == self.has_x86_64_paging(),
    {
        self.lv1_page_mask == LV1_PAGE_MASK_4K && self.lv2_page_mask == LV2_PAGE_MASK_2M
            && self.lv3_page_mask == LV3_PAGE_MASK_1G && self.phys_mask & !0xF_FFFF_FFFF_FFFFu64
            == 0 && match self.canonical_bit {
            Some(bit) => bit == 47 || bit == 56,
            None => false,
        }
    }

    /// Checks the limits and keeps them. `None` exactly when a canonical bit
    /// is given that is not the highest bit of `virt_mask`.
    pub fn new(
        phys_mask: u64,
        virt_mask: u64,
        canonical_bit: Option<u8>,
        lv1_page_mask: u64,
        lv2_page_mask: u64,
        lv3_page_mask: u64,
    ) -> (platform: Option<Platform>)
        ensures
            platform.is_some() == Self::limits_agree(virt_mask, canonical_bit),
            platform matches Some(p) ==> {
                &&& p.wf()
                &&& p.spec_phys_mask() == phys_mask
                &&& p.spec_virt_mask() == virt_mask
                &&& p.spec_canonical_bit() == canonical_bit
                &&& p.spec_lv1_page_mask() == lv1_page_mask
                &&& p.spec_lv2_page_mask() == lv2_page_mask
                &&& p.spec_lv3_page_mask() == lv3_page_mask
            },
    {
        if let Some(bit) = canonical_bit {
            if bit >= 64 {
                return None;
            }
            let shift: u8 = 63 - bit;
            if virt_mask != 0xFFFF_FFFF_FFFF_FFFFu64 >> shift {
                return None;
            }
        }
        Some(
            Platform {
                phys_mask,
                virt_mask,
                canonical_bit,
                lv1_page_mask,
                lv2_page_mask,
                lv3_page_mask,
            },
        )
    }

    /// The limits of an x86-64 processor with `physical_address_bits`
    /// physical address bits, with four or five table levels in use as bit
    /// 12 of control register 4 says.
    pub fn x86_64(physical_address_bits: u8, cr4: u64) -> (platform: Platform)
        requires
            1 <= physical_address_bits <= 64,
        ensures
            platform.wf(),
            platform.spec_phys_mask() == low_mask(physical_address_bits as u64),
            platform.spec_virt_mask() == if bit_is_set(cr4, 12) {
                VIRT_MASK_5_LEVEL
            } else {
                VIRT_MASK_4_LEVEL
            },
            platform.spec_canonical_bit() == if bit_is_set(cr4, 12) {
                Some(56u8)
            } else {
                Some(47u8)
            },
            platform.spec_lv1_page_mask() == LV1_PAGE_MASK_4K,
            platform.spec_lv2_page_mask() == LV2_PAGE_MASK_2M,
            platform.spec_lv3_page_mask() == LV3_PAGE_MASK_1G,
            physical_address_bits <= 52 ==> platform.has_x86_64_paging(),
    {
        let virt_mask = get_max_supported_virt_address_as_bit_mask(cr4);
        proof {
            assert(low_mask(57) == VIRT_MASK_5_LEVEL) by (bit_vector);
            assert(low_mask(48) == VIRT_MASK_4_LEVEL) by (bit_vector);
            let bits: u64 = physical_address_bits as u64;
            assert(1 <= bits <= 52 ==> low_mask(bits) & !0xF_FFFF_FFFF_FFFFu64 == 0)
                by (bit_vector);
        }
        Platform {
            phys_mask: get_max_supported_phy_address_as_bit_mask(physical_address_bits),
            virt_mask,
            canonical_bit: get_cannonical_bit_number(virt_mask),
            lv1_page_mask: get_lv1_page_size_mask(),
            lv2_page_mask: get_lv2_page_size_mask(),
            lv3_page_mask: get_lv3_page_size_mask(),
        }
    }

    #[verifier::when_used_as_spec(spec_phys_mask)]
    pub fn phys_mask(&self) -> (mask: u64)
        ensures
            mask == self.spec_phys_mask(),
    {
        self.phys_mask
    }

    #[verifier::when_used_as_spec(spec_virt_mask)]
    pub fn virt_mask(&self) -> (mask: u64)
        ensures
            mask == self.spec_virt_mask(),
    {
        self.virt_mask
    }

    #[verifier::when_used_as_spec(spec_canonical_bit)]
    pub fn canonical_bit(&self) -> (bit: Option<u8>)
        ensures
            bit == self.spec_canonical_bit(),
    {
        self.canonical_bit
    }

    #[verifier::when_used_as_spec(spec_lv1_page_mask)]
    pub fn lv1_page_mask(&self) -> (mask: u64)
        ensures
            mask == self.spec_lv1_page_mask(),
    {
        self.lv1_page_mask
    }

    #[verifier::when_used_as_spec(spec_lv2_page_mask)]
    pub fn lv2_page_mask(&self) -> (mask: u64)
        ensures
            mask == self.spec_lv2_page_mask(),
    {
        self.lv2_page_mask
    }

    #[verifier::when_used_as_spec(spec_lv3_page_mask)]
    pub fn lv3_page_mask(&self) -> (mask: u64)
        ensures
            mask == self.spec_lv3_page_mask(),
    {
        self.lv3_page_mask
    }

    /// The size in bytes of a page whose mask is `mask`; 0 stands for a page
    /// size that the platform does not have.
    pub open spec fn spec_page_size(mask: u64) -> u64 {
        vstd::wrapping::u64_specs::wrapping_add(!mask, 1)
    }

    pub fn lv1_page_size(&self) -> (size: u64)
        ensures
            size == Self::spec_page_size(self.spec_lv1_page_mask()),
    {
        (!self.lv1_page_mask).wrapping_add(1)
    }

    pub fn lv2_page_size(&self) -> (size: u64)
        ensures
            size == Self::spec_page_size(self.spec_lv2_page_mask()),
    {
        (!self.lv2_page_mask).wrapping_add(1)
    }

    pub fn lv3_page_size(&self) -> (size: u64)
        ensures
            size == Self::spec_page_size(self.spec_lv3_page_mask()),
    {
        (!self.lv3_page_mask).wrapping_add(1)
    }

    /// Whether the platform has the second page size.
    pub fn lv2_page_supported(&self) -> (supported: bool)
        ensures
            supported == (self.spec_lv2_page_mask() > 0),
    {
        self.lv2_page_mask > 0
    }

    /// Whether the platform has the third page size, which it only has
    /// together with the second.
    pub fn lv3_page_supported(&self) -> (supported: bool)
        ensures
            supported == (self.spec_lv3_page_mask() > 0 && self.spec_lv2_page_mask() > 0),
    {
        self.lv3_page_mask > 0 && self.lv2_page_mask > 0
    }
}

} // verus!
