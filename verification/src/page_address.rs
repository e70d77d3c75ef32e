//! Addresses aligned to one of the platform's page sizes. Only these can be
//! mapped.

use crate::memory::{
    checked_offset, wrapping_offset_target, offset_target, MemoryAddressErrors, PhysAddress,
    VirtAddress,
};
use crate::platform::Platform;
use vstd::prelude::*;

verus! {

/// Whether `value` has no bit below the page size that `page_mask` stands for.
pub open spec fn page_aligned(page_mask: u64, value: u64) -> bool {
    value & !page_mask == 0
}

/// Whether a page fits into the virtual address width: no bit below the
/// page size lies outside the address mask, so that making an address
/// canonical leaves its alignment alone.
pub open spec fn page_within_width(virt_mask: u64, page_mask: u64) -> bool {
    !virt_mask & !page_mask == 0
}

/// Making a page address canonical, by setting or by clearing the bits
/// outside the address width, leaves it aligned where the page fits into
/// the address width.
pub proof fn lemma_canonical_page(virt_mask: u64, page_mask: u64, value: u64)
    requires
        page_within_width(virt_mask, page_mask),
    ensures
        page_aligned(page_mask, ((value & page_mask) & virt_mask) | !virt_mask),
        page_aligned(page_mask, (value & page_mask) & virt_mask),
{
    assert({
        &&& (((value & page_mask) & virt_mask) | !virt_mask) & !page_mask == 0
        &&& ((value & page_mask) & virt_mask) & !page_mask == 0
    }) by (bit_vector)
        requires
            !virt_mask & !page_mask == 0,
    ;
}

/// Clearing the low bits of a value leaves it aligned, whatever is cleared
/// after that, and changes nothing in a value that was aligned.
pub proof fn lemma_page_mask(page_mask: u64, other_mask: u64, value: u64)
    ensures
        page_aligned(page_mask, value & page_mask),
        page_aligned(page_mask, (value & page_mask) & other_mask),
        page_aligned(page_mask, value) ==> value & page_mask == value,
{
    assert({
        &&& (value & page_mask) & !page_mask == 0
        &&& ((value & page_mask) & other_mask) & !page_mask == 0
        &&& value & !page_mask == 0 ==> value & page_mask == value
    }) by (bit_vector);
}

/// A physical address aligned to the platform's first (base) page size.
#[derive(Clone, Copy, Debug, Hash, PartialEq, Eq, Structural, PartialOrd, Ord)]
pub struct PhysLv1PageAddress {
    address: PhysAddress,
}

impl View for PhysLv1PageAddress {
    type V = u64;

    closed spec fn view(&self) -> u64 {
        self.address@
    }
}

impl PhysLv1PageAddress {
    /// Whether `value` is a multiple of the first (base) page size.
    pub open spec fn aligned(platform: Platform, value: u64) -> bool {
        page_aligned(platform.spec_lv1_page_mask(), value)
    }

    /// What `new` returns for `value`, by the address it holds.
    pub open spec fn checked(platform: Platform, value: u64) -> Result<u64, MemoryAddressErrors> {
        if !Self::aligned(platform, value) {
            Err(MemoryAddressErrors::InvalidBits)
        } else {
            PhysAddress::checked(platform, value)
        }
    }

    /// `value` rounded down to a page and cut to the physical address width.
    pub open spec fn masked(platform: Platform, value: u64) -> u64 {
        PhysAddress::masked(platform, value & platform.spec_lv1_page_mask())
    }

    /// Validity of an address on `platform`.
    pub open spec fn wf(&self, platform: Platform) -> bool {
        Self::aligned(platform, self@) && PhysAddress::fits(platform, self@)
    }

    /// Two addresses with the same value are the same address.
    pub proof fn lemma_view_injective(a: PhysLv1PageAddress, b: PhysLv1PageAddress)
        ensures
            a@ == b@ <==> a == b,
    {
        PhysAddress::lemma_view_injective(a.address, b.address);
    }

    pub fn new(platform: &Platform, value: u64) -> (address: Result<Self, MemoryAddressErrors>)
        ensures
            match address {
                Ok(a) => Self::checked(*platform, value) == Ok::<u64, MemoryAddressErrors>(a@)
                    && a.wf(*platform),
                Err(e) => Self::checked(*platform, value) == Err::<u64, MemoryAddressErrors>(e),
            },
    {
        if value & (!platform.lv1_page_mask()) != 0 {
            return Err(MemoryAddressErrors::InvalidBits);
        }
        match PhysAddress::new(platform, value) {
            Ok(address) => Ok(Self { address }),
            Err(e) => Err(e),
        }
    }

    /// Rounds `value` down to a page and clears the bits that the platform
    /// does not support.
    pub fn new_maskoff(platform: &Platform, value: u64) -> (address: Self)
        ensures
            address@ == Self::masked(*platform, value),
            address.wf(*platform),
    {
        proof {
            lemma_page_mask(platform.spec_lv1_page_mask(), platform.spec_phys_mask(), value);
        }
        Self { address: PhysAddress::new_maskoff(platform, value & platform.lv1_page_mask()) }
    }

    /// Keeps `value` without looking at it: the caller has checked it.
    pub fn new_unchecked(platform: &Platform, value: u64) -> (address: Self)
        requires
            Self::aligned(*platform, value),
            PhysAddress::fits(*platform, value),
        ensures
            address@ == value,
            address.wf(*platform),
    {
        Self { address: PhysAddress::new_unchecked(platform, value) }
    }

    pub fn get_address(&self) -> (address: PhysAddress)
        ensures
            address@ == self@,
    {
        self.address
    }

    /// Moves the address by `count` pages.
    pub fn offset(&self, platform: &Platform, count: i64) -> (address: Result<
        Self,
        MemoryAddressErrors,
    >)
        ensures
            ({
                let size = Platform::spec_page_size(platform.spec_lv1_page_mask());
                let target = offset_target(self@, size as nat, count);
                let expected = if 0 <= target <= u64::MAX {
                    Self::checked(*platform, target as u64)
                } else {
                    Err(MemoryAddressErrors::OutOfBounds)
                };
                match address {
                    Ok(a) => expected == Ok::<u64, MemoryAddressErrors>(a@) && a.wf(*platform),
                    Err(e) => expected == Err::<u64, MemoryAddressErrors>(e),
                }
            }),
    {
        match checked_offset(self.get_address().get_u64(), platform.lv1_page_size(), count) {
            Some(target) => Self::new(platform, target),
            None => Err(MemoryAddressErrors::OutOfBounds),
        }
    }

    /// Moves the address by `count` pages, then rounds down to a page and
    /// clears the bits that the platform does not support.
    pub fn offset_maskoff(&self, platform: &Platform, count: i64) -> (address: Result<
        Self,
        MemoryAddressErrors,
    >)
        ensures
            ({
                let size = Platform::spec_page_size(platform.spec_lv1_page_mask());
                let target = offset_target(self@, size as nat, count);
                match address {
                    Ok(a) => 0 <= target <= u64::MAX && a@ == Self::masked(
                        *platform,
                        target as u64,
                    ) && a.wf(*platform),
                    Err(e) => !(0 <= target <= u64::MAX) && e == MemoryAddressErrors::OutOfBounds,
                }
            }),
    {
        match checked_offset(self.get_address().get_u64(), platform.lv1_page_size(), count) {
            Some(target) => Ok(Self::new_maskoff(platform, target)),
            None => Err(MemoryAddressErrors::OutOfBounds),
        }
    }

    /// Moves the address by `count` pages, wrapping around the 64-bit range.
    /// The caller has checked that the target is an aligned physical address.
    pub fn offset_unchecked(&self, platform: &Platform, count: i64) -> (address: Self)
        requires
            Platform::spec_page_size(platform.spec_lv1_page_mask()) <= i64::MAX,
            Self::aligned(
                *platform,
                wrapping_offset_target(
                    self@,
                    Platform::spec_page_size(platform.spec_lv1_page_mask()) as i64,
                    count,
                ),
            ),
            PhysAddress::fits(
                *platform,
                wrapping_offset_target(
                    self@,
                    Platform::spec_page_size(platform.spec_lv1_page_mask()) as i64,
                    count,
                ),
            ),
        ensures
            address@ == wrapping_offset_target(
                self@,
                Platform::spec_page_size(platform.spec_lv1_page_mask()) as i64,
                count,
            ),
            address.wf(*platform),
    {
        let step: i64 = platform.lv1_page_size() as i64;
        Self::new_unchecked(
            platform,
            self.get_address().get_u64().wrapping_add_signed(step.wrapping_mul(count)),
        )
    }
}

/// A physical address aligned to the platform's second page size.
#[derive(Clone, Copy, Debug, Hash, PartialEq, Eq, Structural, PartialOrd, Ord)]
pub struct PhysLv2PageAddress {
    address: PhysAddress,
}

impl View for PhysLv2PageAddress {
    type V = u64;

    closed spec fn view(&self) -> u64 {
        self.address@
    }
}

impl PhysLv2PageAddress {
    /// Whether `value` is a multiple of the second page size.
    pub open spec fn aligned(platform: Platform, value: u64) -> bool {
        page_aligned(platform.spec_lv2_page_mask(), value)
    }

    /// What `new` returns for `value`, by the address it holds.
    pub open spec fn checked(platform: Platform, value: u64) -> Result<u64, MemoryAddressErrors> {
        if !Self::aligned(platform, value) {
            Err(MemoryAddressErrors::InvalidBits)
        } else {
            PhysAddress::checked(platform, value)
        }
    }

    /// `value` rounded down to a page and cut to the physical address width.
    pub open spec fn masked(platform: Platform, value: u64) -> u64 {
        PhysAddress::masked(platform, value & platform.spec_lv2_page_mask())
    }

    /// Validity of an address on `platform`.
    pub open spec fn wf(&self, platform: Platform) -> bool {
        Self::aligned(platform, self@) && PhysAddress::fits(platform, self@)
    }

    /// Two addresses with the same value are the same address.
    pub proof fn lemma_view_injective(a: PhysLv2PageAddress, b: PhysLv2PageAddress)
        ensures
            a@ == b@ <==> a == b,
    {
        PhysAddress::lemma_view_injective(a.address, b.address);
    }

    pub fn new(platform: &Platform, value: u64) -> (address: Result<Self, MemoryAddressErrors>)
        ensures
            match address {
                Ok(a) => Self::checked(*platform, value) == Ok::<u64, MemoryAddressErrors>(a@)
                    && a.wf(*platform),
                Err(e) => Self::checked(*platform, value) == Err::<u64, MemoryAddressErrors>(e),
            },
    {
        if value & (!platform.lv2_page_mask()) != 0 {
            return Err(MemoryAddressErrors::InvalidBits);
        }
        match PhysAddress::new(platform, value) {
            Ok(address) => Ok(Self { address }),
            Err(e) => Err(e),
        }
    }

    /// Rounds `value` down to a page and clears the bits that the platform
    /// does not support.
    pub fn new_maskoff(platform: &Platform, value: u64) -> (address: Self)
        ensures
            address@ == Self::masked(*platform, value),
            address.wf(*platform),
    {
        proof {
            lemma_page_mask(platform.spec_lv2_page_mask(), platform.spec_phys_mask(), value);
        }
        Self { address: PhysAddress::new_maskoff(platform, value & platform.lv2_page_mask()) }
    }

    /// Keeps `value` without looking at it: the caller has checked it.
    pub fn new_unchecked(platform: &Platform, value: u64) -> (address: Self)
        requires
            Self::aligned(*platform, value),
            PhysAddress::fits(*platform, value),
        ensures
            address@ == value,
            address.wf(*platform),
    {
        Self { address: PhysAddress::new_unchecked(platform, value) }
    }

    pub fn get_address(&self) -> (address: PhysAddress)
        ensures
            address@ == self@,
    {
        self.address
    }

    /// Moves the address by `count` pages.
    pub fn offset(&self, platform: &Platform, count: i64) -> (address: Result<
        Self,
        MemoryAddressErrors,
    >)
        ensures
            ({
                let size = Platform::spec_page_size(platform.spec_lv2_page_mask());
                let target = offset_target(self@, size as nat, count);
                let expected = if 0 <= target <= u64::MAX {
                    Self::checked(*platform, target as u64)
                } else {
                    Err(MemoryAddressErrors::OutOfBounds)
                };
                match address {
                    Ok(a) => expected == Ok::<u64, MemoryAddressErrors>(a@) && a.wf(*platform),
                    Err(e) => expected == Err::<u64, MemoryAddressErrors>(e),
                }
            }),
    {
        match checked_offset(self.get_address().get_u64(), platform.lv2_page_size(), count) {
            Some(target) => Self::new(platform, target),
            None => Err(MemoryAddressErrors::OutOfBounds),
        }
    }

    /// Moves the address by `count` pages, then rounds down to a page and
    /// clears the bits that the platform does not support.
    pub fn offset_maskoff(&self, platform: &Platform, count: i64) -> (address: Result<
        Self,
        MemoryAddressErrors,
    >)
        ensures
            ({
                let size = Platform::spec_page_size(platform.spec_lv2_page_mask());
                let target = offset_target(self@, size as nat, count);
                match address {
                    Ok(a) => 0 <= target <= u64::MAX && a@ == Self::masked(
                        *platform,
                        target as u64,
                    ) && a.wf(*platform),
                    Err(e) => !(0 <= target <= u64::MAX) && e == MemoryAddressErrors::OutOfBounds,
                }
            }),
    {
        match checked_offset(self.get_address().get_u64(), platform.lv2_page_size(), count) {
            Some(target) => Ok(Self::new_maskoff(platform, target)),
            None => Err(MemoryAddressErrors::OutOfBounds),
        }
    }

    /// Moves the address by `count` pages, wrapping around the 64-bit range.
    /// The caller has checked that the target is an aligned physical address.
    pub fn offset_unchecked(&self, platform: &Platform, count: i64) -> (address: Self)
        requires
            Platform::spec_page_size(platform.spec_lv2_page_mask()) <= i64::MAX,
            Self::aligned(
                *platform,
                wrapping_offset_target(
                    self@,
                    Platform::spec_page_size(platform.spec_lv2_page_mask()) as i64,
                    count,
                ),
            ),
            PhysAddress::fits(
                *platform,
                wrapping_offset_target(
                    self@,
                    Platform::spec_page_size(platform.spec_lv2_page_mask()) as i64,
                    count,
                ),
            ),
        ensures
            address@ == wrapping_offset_target(
                self@,
                Platform::spec_page_size(platform.spec_lv2_page_mask()) as i64,
                count,
            ),
            address.wf(*platform),
    {
        let step: i64 = platform.lv2_page_size() as i64;
        Self::new_unchecked(
            platform,
            self.get_address().get_u64().wrapping_add_signed(step.wrapping_mul(count)),
        )
    }
}

/// A physical address aligned to the platform's third page size.
#[derive(Clone, Copy, Debug, Hash, PartialEq, Eq, Structural, PartialOrd, Ord)]
pub struct PhysLv3PageAddress {
    address: PhysAddress,
}

impl View for PhysLv3PageAddress {
    type V = u64;

    closed spec fn view(&self) -> u64 {
        self.address@
    }
}

impl PhysLv3PageAddress {
    /// Whether `value` is a multiple of the third page size.
    pub open spec fn aligned(platform: Platform, value: u64) -> bool {
        page_aligned(platform.spec_lv3_page_mask(), value)
    }

    /// What `new` returns for `value`, by the address it holds.
    pub open spec fn checked(platform: Platform, value: u64) -> Result<u64, MemoryAddressErrors> {
        if !Self::aligned(platform, value) {
            Err(MemoryAddressErrors::InvalidBits)
        } else {
            PhysAddress::checked(platform, value)
        }
    }

    /// `value` rounded down to a page and cut to the physical address width.
    pub open spec fn masked(platform: Platform, value: u64) -> u64 {
        PhysAddress::masked(platform, value & platform.spec_lv3_page_mask())
    }

    /// Validity of an address on `platform`.
    pub open spec fn wf(&self, platform: Platform) -> bool {
        Self::aligned(platform, self@) && PhysAddress::fits(platform, self@)
    }

    /// Two addresses with the same value are the same address.
    pub proof fn lemma_view_injective(a: PhysLv3PageAddress, b: PhysLv3PageAddress)
        ensures
            a@ == b@ <==> a == b,
    {
        PhysAddress::lemma_view_injective(a.address, b.address);
    }

    pub fn new(platform: &Platform, value: u64) -> (address: Result<Self, MemoryAddressErrors>)
        ensures
            match address {
                Ok(a) => Self::checked(*platform, value) == Ok::<u64, MemoryAddressErrors>(a@)
                    && a.wf(*platform),
                Err(e) => Self::checked(*platform, value) == Err::<u64, MemoryAddressErrors>(e),
            },
    {
        if value & (!platform.lv3_page_mask()) != 0 {
            return Err(MemoryAddressErrors::InvalidBits);
        }
        match PhysAddress::new(platform, value) {
            Ok(address) => Ok(Self { address }),
            Err(e) => Err(e),
        }
    }

    /// Rounds `value` down to a page and clears the bits that the platform
    /// does not support.
    pub fn new_maskoff(platform: &Platform, value: u64) -> (address: Self)
        ensures
            address@ == Self::masked(*platform, value),
            address.wf(*platform),
    {
        proof {
            lemma_page_mask(platform.spec_lv3_page_mask(), platform.spec_phys_mask(), value);
        }
        Self { address: PhysAddress::new_maskoff(platform, value & platform.lv3_page_mask()) }
    }

    /// Keeps `value` without looking at it: the caller has checked it.
    pub fn new_unchecked(platform: &Platform, value: u64) -> (address: Self)
        requires
            Self::aligned(*platform, value),
            PhysAddress::fits(*platform, value),
        ensures
            address@ == value,
            address.wf(*platform),
    {
        Self { address: PhysAddress::new_unchecked(platform, value) }
    }

    pub fn get_address(&self) -> (address: PhysAddress)
        ensures
            address@ == self@,
    {
        self.address
    }

    /// Moves the address by `count` pages.
    pub fn offset(&self, platform: &Platform, count: i64) -> (address: Result<
        Self,
        MemoryAddressErrors,
    >)
        ensures
            ({
                let size = Platform::spec_page_size(platform.spec_lv3_page_mask());
                let target = offset_target(self@, size as nat, count);
                let expected = if 0 <= target <= u64::MAX {
                    Self::checked(*platform, target as u64)
                } else {
                    Err(MemoryAddressErrors::OutOfBounds)
                };
                match address {
                    Ok(a) => expected == Ok::<u64, MemoryAddressErrors>(a@) && a.wf(*platform),
                    Err(e) => expected == Err::<u64, MemoryAddressErrors>(e),
                }
            }),
    {
        match checked_offset(self.get_address().get_u64(), platform.lv3_page_size(), count) {
            Some(target) => Self::new(platform, target),
            None => Err(MemoryAddressErrors::OutOfBounds),
        }
    }

    /// Moves the address by `count` pages, then rounds down to a page and
    /// clears the bits that the platform does not support.
    pub fn offset_maskoff(&self, platform: &Platform, count: i64) -> (address: Result<
        Self,
        MemoryAddressErrors,
    >)
        ensures
            ({
                let size = Platform::spec_page_size(platform.spec_lv3_page_mask());
                let target = offset_target(self@, size as nat, count);
                match address {
                    Ok(a) => 0 <= target <= u64::MAX && a@ == Self::masked(
                        *platform,
                        target as u64,
                    ) && a.wf(*platform),
                    Err(e) => !(0 <= target <= u64::MAX) && e == MemoryAddressErrors::OutOfBounds,
                }
            }),
    {
        match checked_offset(self.get_address().get_u64(), platform.lv3_page_size(), count) {
            Some(target) => Ok(Self::new_maskoff(platform, target)),
            None => Err(MemoryAddressErrors::OutOfBounds),
        }
    }

    /// Moves the address by `count` pages, wrapping around the 64-bit range.
    /// The caller has checked that the target is an aligned physical address.
    pub fn offset_unchecked(&self, platform: &Platform, count: i64) -> (address: Self)
        requires
            Platform::spec_page_size(platform.spec_lv3_page_mask()) <= i64::MAX,
            Self::aligned(
                *platform,
                wrapping_offset_target(
                    self@,
                    Platform::spec_page_size(platform.spec_lv3_page_mask()) as i64,
                    count,
                ),
            ),
            PhysAddress::fits(
                *platform,
                wrapping_offset_target(
                    self@,
                    Platform::spec_page_size(platform.spec_lv3_page_mask()) as i64,
                    count,
                ),
            ),
        ensures
            address@ == wrapping_offset_target(
                self@,
                Platform::spec_page_size(platform.spec_lv3_page_mask()) as i64,
                count,
            ),
            address.wf(*platform),
    {
        let step: i64 = platform.lv3_page_size() as i64;
        Self::new_unchecked(
            platform,
            self.get_address().get_u64().wrapping_add_signed(step.wrapping_mul(count)),
        )
    }
}

/// A virtual address aligned to the platform's first (base) page size.
#[derive(Clone, Copy, Debug, Hash, PartialEq, Eq, Structural, PartialOrd, Ord)]
pub struct VirtLv1PageAddress {
    address: VirtAddress,
}

impl View for VirtLv1PageAddress {
    type V = u64;

    closed spec fn view(&self) -> u64 {
        self.address@
    }
}

impl VirtLv1PageAddress {
    /// Whether `value` is a multiple of the first (base) page size.
    pub open spec fn aligned(platform: Platform, value: u64) -> bool {
        page_aligned(platform.spec_lv1_page_mask(), value)
    }

    /// What `new` returns for `value`, by the address it holds.
    pub open spec fn checked(platform: Platform, value: u64) -> Result<u64, MemoryAddressErrors> {
        if !Self::aligned(platform, value) {
            Err(MemoryAddressErrors::InvalidBits)
        } else {
            VirtAddress::checked(platform, value)
        }
    }

    /// What `new_maskoff` returns for `value`, by the address it holds:
    /// `value` rounded down to a page and then made canonical.
    pub open spec fn checked_masked(platform: Platform, value: u64) -> Result<
        u64,
        MemoryAddressErrors,
    > {
        VirtAddress::checked_masked(platform, value & platform.spec_lv1_page_mask())
    }

    /// Validity of an address on `platform`.
    pub open spec fn wf(&self, platform: Platform) -> bool {
        Self::aligned(platform, self@) && VirtAddress::verdict(platform, self@).is_none()
    }

    /// Two addresses with the same value are the same address.
    pub proof fn lemma_view_injective(a: VirtLv1PageAddress, b: VirtLv1PageAddress)
        ensures
            a@ == b@ <==> a == b,
    {
        VirtAddress::lemma_view_injective(a.address, b.address);
    }

    pub fn new(platform: &Platform, value: u64) -> (address: Result<Self, MemoryAddressErrors>)
        requires
            platform.wf(),
        ensures
            match address {
                Ok(a) => Self::checked(*platform, value) == Ok::<u64, MemoryAddressErrors>(a@)
                    && a.wf(*platform),
                Err(e) => Self::checked(*platform, value) == Err::<u64, MemoryAddressErrors>(e),
            },
    {
        if value & (!platform.lv1_page_mask()) != 0 {
            return Err(MemoryAddressErrors::InvalidBits);
        }
        match VirtAddress::new(platform, value) {
            Ok(address) => Ok(Self { address }),
            Err(e) => Err(e),
        }
    }

    /// Rounds `value` down to a page and makes it canonical. Zero is refused.
    /// The result is canonical; it is a valid page address wherever the page
    /// fits into the address width.
    pub fn new_maskoff(platform: &Platform, value: u64) -> (address: Result<
        Self,
        MemoryAddressErrors,
    >)
        requires
            platform.wf(),
        ensures
            match address {
                Ok(a) => Self::checked_masked(*platform, value) == Ok::<u64, MemoryAddressErrors>(
                    a@,
                ) && a.get_address().wf(*platform) && (page_within_width(
                    platform.spec_virt_mask(),
                    platform.spec_lv1_page_mask(),
                ) ==> a.wf(*platform)),
                Err(e) => Self::checked_masked(*platform, value) == Err::<
                    u64,
                    MemoryAddressErrors,
                >(e),
            },
    {
        proof {
            if page_within_width(platform.spec_virt_mask(), platform.spec_lv1_page_mask()) {
                lemma_canonical_page(
                    platform.spec_virt_mask(),
                    platform.spec_lv1_page_mask(),
                    value,
                );
            }
        }
        match VirtAddress::new_maskoff(platform, value & platform.lv1_page_mask()) {
            Ok(address) => Ok(Self { address }),
            Err(e) => Err(e),
        }
    }

    /// Keeps `value` without looking at it: the caller has checked it.
    pub fn new_unchecked(platform: &Platform, value: u64) -> (address: Self)
        requires
            Self::aligned(*platform, value),
            VirtAddress::verdict(*platform, value).is_none(),
        ensures
            address@ == value,
            address.wf(*platform),
    {
        Self { address: VirtAddress::new_unchecked(platform, value) }
    }

    #[verifier::when_used_as_spec(spec_get_address)]
    pub fn get_address(&self) -> (address: VirtAddress)
        ensures
            address == self.spec_get_address(),
            address@ == self@,
    {
        self.address
    }

    /// The address without its alignment.
    pub closed spec fn spec_get_address(&self) -> VirtAddress {
        self.address
    }

    /// Moves the address by `count` pages.
    pub fn offset(&self, platform: &Platform, count: i64) -> (address: Result<
        Self,
        MemoryAddressErrors,
    >)
        requires
            platform.wf(),
        ensures
            ({
                let size = Platform::spec_page_size(platform.spec_lv1_page_mask());
                let target = offset_target(self@, size as nat, count);
                let expected = if 0 <= target <= u64::MAX {
                    Self::checked(*platform, target as u64)
                } else {
                    Err(MemoryAddressErrors::OutOfBounds)
                };
                match address {
                    Ok(a) => expected == Ok::<u64, MemoryAddressErrors>(a@) && a.wf(*platform),
                    Err(e) => expected == Err::<u64, MemoryAddressErrors>(e),
                }
            }),
    {
        match checked_offset(self.get_address().get_u64(), platform.lv1_page_size(), count) {
            Some(target) => Self::new(platform, target),
            None => Err(MemoryAddressErrors::OutOfBounds),
        }
    }

    /// Moves the address by `count` pages, then rounds down to a page and
    /// makes the target canonical.
    pub fn offset_maskoff(&self, platform: &Platform, count: i64) -> (address: Result<
        Self,
        MemoryAddressErrors,
    >)
        requires
            platform.wf(),
        ensures
            ({
                let size = Platform::spec_page_size(platform.spec_lv1_page_mask());
                let target = offset_target(self@, size as nat, count);
                let expected = if 0 <= target <= u64::MAX {
                    Self::checked_masked(*platform, target as u64)
                } else {
                    Err(MemoryAddressErrors::OutOfBounds)
                };
                match address {
                    Ok(a) => expected == Ok::<u64, MemoryAddressErrors>(a@)
                        && a.get_address().wf(*platform) && (page_within_width(
                        platform.spec_virt_mask(),
                        platform.spec_lv1_page_mask(),
                    ) ==> a.wf(*platform)),
                    Err(e) => expected == Err::<u64, MemoryAddressErrors>(e),
                }
            }),
    {
        match checked_offset(self.get_address().get_u64(), platform.lv1_page_size(), count) {
            Some(target) => Self::new_maskoff(platform, target),
            None => Err(MemoryAddressErrors::OutOfBounds),
        }
    }

    /// Moves the address by `count` pages, wrapping around the 64-bit range.
    /// The caller has checked that the target is an aligned virtual address.
    pub fn offset_unchecked(&self, platform: &Platform, count: i64) -> (address: Self)
        requires
            Platform::spec_page_size(platform.spec_lv1_page_mask()) <= i64::MAX,
            Self::aligned(
                *platform,
                wrapping_offset_target(
                    self@,
                    Platform::spec_page_size(platform.spec_lv1_page_mask()) as i64,
                    count,
                ),
            ),
            VirtAddress::verdict(
                *platform,
                wrapping_offset_target(
                    self@,
                    Platform::spec_page_size(platform.spec_lv1_page_mask()) as i64,
                    count,
                ),
            ).is_none(),
        ensures
            address@ == wrapping_offset_target(
                self@,
                Platform::spec_page_size(platform.spec_lv1_page_mask()) as i64,
                count,
            ),
            address.wf(*platform),
    {
        let step: i64 = platform.lv1_page_size() as i64;
        Self::new_unchecked(
            platform,
            self.get_address().get_u64().wrapping_add_signed(step.wrapping_mul(count)),
        )
    }
}

/// A virtual address aligned to the platform's second page size.
#[derive(Clone, Copy, Debug, Hash, PartialEq, Eq, Structural, PartialOrd, Ord)]
pub struct VirtLv2PageAddress {
    address: VirtAddress,
}

impl View for VirtLv2PageAddress {
    type V = u64;

    closed spec fn view(&self) -> u64 {
        self.address@
    }
}

impl VirtLv2PageAddress {
    /// Whether `value` is a multiple of the second page size.
    pub open spec fn aligned(platform: Platform, value: u64) -> bool {
        page_aligned(platform.spec_lv2_page_mask(), value)
    }

    /// What `new` returns for `value`, by the address it holds.
    pub open spec fn checked(platform: Platform, value: u64) -> Result<u64, MemoryAddressErrors> {
        if !Self::aligned(platform, value) {
            Err(MemoryAddressErrors::InvalidBits)
        } else {
            VirtAddress::checked(platform, value)
        }
    }

    /// What `new_maskoff` returns for `value`, by the address it holds:
    /// `value` rounded down to a page and then made canonical.
    pub open spec fn checked_masked(platform: Platform, value: u64) -> Result<
        u64,
        MemoryAddressErrors,
    > {
        VirtAddress::checked_masked(platform, value & platform.spec_lv2_page_mask())
    }

    /// Validity of an address on `platform`.
    pub open spec fn wf(&self, platform: Platform) -> bool {
        Self::aligned(platform, self@) && VirtAddress::verdict(platform, self@).is_none()
    }

    /// Two addresses with the same value are the same address.
    pub proof fn lemma_view_injective(a: VirtLv2PageAddress, b: VirtLv2PageAddress)
        ensures
            a@ == b@ <==> a == b,
    {
        VirtAddress::lemma_view_injective(a.address, b.address);
    }

    pub fn new(platform: &Platform, value: u64) -> (address: Result<Self, MemoryAddressErrors>)
        requires
            platform.wf(),
        ensures
            match address {
                Ok(a) => Self::checked(*platform, value) == Ok::<u64, MemoryAddressErrors>(a@)
                    && a.wf(*platform),
                Err(e) => Self::checked(*platform, value) == Err::<u64, MemoryAddressErrors>(e),
            },
    {
        if value & (!platform.lv2_page_mask()) != 0 {
            return Err(MemoryAddressErrors::InvalidBits);
        }
        match VirtAddress::new(platform, value) {
            Ok(address) => Ok(Self { address }),
            Err(e) => Err(e),
        }
    }

    /// Rounds `value` down to a page and makes it canonical. Zero is refused.
    /// The result is canonical; it is a valid page address wherever the page
    /// fits into the address width.
    pub fn new_maskoff(platform: &Platform, value: u64) -> (address: Result<
        Self,
        MemoryAddressErrors,
    >)
        requires
            platform.wf(),
        ensures
            match address {
                Ok(a) => Self::checked_masked(*platform, value) == Ok::<u64, MemoryAddressErrors>(
                    a@,
                ) && a.get_address().wf(*platform) && (page_within_width(
                    platform.spec_virt_mask(),
                    platform.spec_lv2_page_mask(),
                ) ==> a.wf(*platform)),
                Err(e) => Self::checked_masked(*platform, value) == Err::<
                    u64,
                    MemoryAddressErrors,
                >(e),
            },
    {
        proof {
            if page_within_width(platform.spec_virt_mask(), platform.spec_lv2_page_mask()) {
                lemma_canonical_page(
                    platform.spec_virt_mask(),
                    platform.spec_lv2_page_mask(),
                    value,
                );
            }
        }
        match VirtAddress::new_maskoff(platform, value & platform.lv2_page_mask()) {
            Ok(address) => Ok(Self { address }),
            Err(e) => Err(e),
        }
    }

    /// Keeps `value` without looking at it: the caller has checked it.
    pub fn new_unchecked(platform: &Platform, value: u64) -> (address: Self)
        requires
            Self::aligned(*platform, value),
            VirtAddress::verdict(*platform, value).is_none(),
        ensures
            address@ == value,
            address.wf(*platform),
    {
        Self { address: VirtAddress::new_unchecked(platform, value) }
    }

    #[verifier::when_used_as_spec(spec_get_address)]
    pub fn get_address(&self) -> (address: VirtAddress)
        ensures
            address == self.spec_get_address(),
            address@ == self@,
    {
        self.address
    }

    /// The address without its alignment.
    pub closed spec fn spec_get_address(&self) -> VirtAddress {
        self.address
    }

    /// Moves the address by `count` pages.
    pub fn offset(&self, platform: &Platform, count: i64) -> (address: Result<
        Self,
        MemoryAddressErrors,
    >)
        requires
            platform.wf(),
        ensures
            ({
                let size = Platform::spec_page_size(platform.spec_lv2_page_mask());
                let target = offset_target(self@, size as nat, count);
                let expected = if 0 <= target <= u64::MAX {
                    Self::checked(*platform, target as u64)
                } else {
                    Err(MemoryAddressErrors::OutOfBounds)
                };
                match address {
                    Ok(a) => expected == Ok::<u64, MemoryAddressErrors>(a@) && a.wf(*platform),
                    Err(e) => expected == Err::<u64, MemoryAddressErrors>(e),
                }
            }),
    {
        match checked_offset(self.get_address().get_u64(), platform.lv2_page_size(), count) {
            Some(target) => Self::new(platform, target),
            None => Err(MemoryAddressErrors::OutOfBounds),
        }
    }

    /// Moves the address by `count` pages, then rounds down to a page and
    /// makes the target canonical.
    pub fn offset_maskoff(&self, platform: &Platform, count: i64) -> (address: Result<
        Self,
        MemoryAddressErrors,
    >)
        requires
            platform.wf(),
        ensures
            ({
                let size = Platform::spec_page_size(platform.spec_lv2_page_mask());
                let target = offset_target(self@, size as nat, count);
                let expected = if 0 <= target <= u64::MAX {
                    Self::checked_masked(*platform, target as u64)
                } else {
                    Err(MemoryAddressErrors::OutOfBounds)
                };
                match address {
                    Ok(a) => expected == Ok::<u64, MemoryAddressErrors>(a@)
                        && a.get_address().wf(*platform) && (page_within_width(
                        platform.spec_virt_mask(),
                        platform.spec_lv2_page_mask(),
                    ) ==> a.wf(*platform)),
                    Err(e) => expected == Err::<u64, MemoryAddressErrors>(e),
                }
            }),
    {
        match checked_offset(self.get_address().get_u64(), platform.lv2_page_size(), count) {
            Some(target) => Self::new_maskoff(platform, target),
            None => Err(MemoryAddressErrors::OutOfBounds),
        }
    }

    /// Moves the address by `count` pages, wrapping around the 64-bit range.
    /// The caller has checked that the target is an aligned virtual address.
    pub fn offset_unchecked(&self, platform: &Platform, count: i64) -> (address: Self)
        requires
            Platform::spec_page_size(platform.spec_lv2_page_mask()) <= i64::MAX,
            Self::aligned(
                *platform,
                wrapping_offset_target(
                    self@,
                    Platform::spec_page_size(platform.spec_lv2_page_mask()) as i64,
                    count,
                ),
            ),
            VirtAddress::verdict(
                *platform,
                wrapping_offset_target(
                    self@,
                    Platform::spec_page_size(platform.spec_lv2_page_mask()) as i64,
                    count,
                ),
            ).is_none(),
        ensures
            address@ == wrapping_offset_target(
                self@,
                Platform::spec_page_size(platform.spec_lv2_page_mask()) as i64,
                count,
            ),
            address.wf(*platform),
    {
        let step: i64 = platform.lv2_page_size() as i64;
        Self::new_unchecked(
            platform,
            self.get_address().get_u64().wrapping_add_signed(step.wrapping_mul(count)),
        )
    }
}

/// A virtual address aligned to the platform's third page size.
#[derive(Clone, Copy, Debug, Hash, PartialEq, Eq, Structural, PartialOrd, Ord)]
pub struct VirtLv3PageAddress {
    address: VirtAddress,
}

impl View for VirtLv3PageAddress {
    type V = u64;

    closed spec fn view(&self) -> u64 {
        self.address@
    }
}

impl VirtLv3PageAddress {
    /// Whether `value` is a multiple of the third page size.
    pub open spec fn aligned(platform: Platform, value: u64) -> bool {
        page_aligned(platform.spec_lv3_page_mask(), value)
    }

    /// What `new` returns for `value`, by the address it holds.
    pub open spec fn checked(platform: Platform, value: u64) -> Result<u64, MemoryAddressErrors> {
        if !Self::aligned(platform, value) {
            Err(MemoryAddressErrors::InvalidBits)
        } else {
            VirtAddress::checked(platform, value)
        }
    }

    /// What `new_maskoff` returns for `value`, by the address it holds:
    /// `value` rounded down to a page and then made canonical.
    pub open spec fn checked_masked(platform: Platform, value: u64) -> Result<
        u64,
        MemoryAddressErrors,
    > {
        VirtAddress::checked_masked(platform, value & platform.spec_lv3_page_mask())
    }

    /// Validity of an address on `platform`.
    pub open spec fn wf(&self, platform: Platform) -> bool {
        Self::aligned(platform, self@) && VirtAddress::verdict(platform, self@).is_none()
    }

    /// Two addresses with the same value are the same address.
    pub proof fn lemma_view_injective(a: VirtLv3PageAddress, b: VirtLv3PageAddress)
        ensures
            a@ == b@ <==> a == b,
    {
        VirtAddress::lemma_view_injective(a.address, b.address);
    }

    pub fn new(platform: &Platform, value: u64) -> (address: Result<Self, MemoryAddressErrors>)
        requires
            platform.wf(),
        ensures
            match address {
                Ok(a) => Self::checked(*platform, value) == Ok::<u64, MemoryAddressErrors>(a@)
                    && a.wf(*platform),
                Err(e) => Self::checked(*platform, value) == Err::<u64, MemoryAddressErrors>(e),
            },
    {
        if value & (!platform.lv3_page_mask()) != 0 {
            return Err(MemoryAddressErrors::InvalidBits);
        }
        match VirtAddress::new(platform, value) {
            Ok(address) => Ok(Self { address }),
            Err(e) => Err(e),
        }
    }

    /// Rounds `value` down to a page and makes it canonical. Zero is refused.
    /// The result is canonical; it is a valid page address wherever the page
    /// fits into the address width.
    pub fn new_maskoff(platform: &Platform, value: u64) -> (address: Result<
        Self,
        MemoryAddressErrors,
    >)
        requires
            platform.wf(),
        ensures
            match address {
                Ok(a) => Self::checked_masked(*platform, value) == Ok::<u64, MemoryAddressErrors>(
                    a@,
                ) && a.get_address().wf(*platform) && (page_within_width(
                    platform.spec_virt_mask(),
                    platform.spec_lv3_page_mask(),
                ) ==> a.wf(*platform)),
                Err(e) => Self::checked_masked(*platform, value) == Err::<
                    u64,
                    MemoryAddressErrors,
                >(e),
            },
    {
        proof {
            if page_within_width(platform.spec_virt_mask(), platform.spec_lv3_page_mask()) {
                lemma_canonical_page(
                    platform.spec_virt_mask(),
                    platform.spec_lv3_page_mask(),
                    value,
                );
            }
        }
        match VirtAddress::new_maskoff(platform, value & platform.lv3_page_mask()) {
            Ok(address) => Ok(Self { address }),
            Err(e) => Err(e),
        }
    }

    /// Keeps `value` without looking at it: the caller has checked it.
    pub fn new_unchecked(platform: &Platform, value: u64) -> (address: Self)
        requires
            Self::aligned(*platform, value),
            VirtAddress::verdict(*platform, value).is_none(),
        ensures
            address@ == value,
            address.wf(*platform),
    {
        Self { address: VirtAddress::new_unchecked(platform, value) }
    }

    #[verifier::when_used_as_spec(spec_get_address)]
    pub fn get_address(&self) -> (address: VirtAddress)
        ensures
            address == self.spec_get_address(),
            address@ == self@,
    {
        self.address
    }

    /// The address without its alignment.
    pub closed spec fn spec_get_address(&self) -> VirtAddress {
        self.address
    }

    /// Moves the address by `count` pages.
    pub fn offset(&self, platform: &Platform, count: i64) -> (address: Result<
        Self,
        MemoryAddressErrors,
    >)
        requires
            platform.wf(),
        ensures
            ({
                let size = Platform::spec_page_size(platform.spec_lv3_page_mask());
                let target = offset_target(self@, size as nat, count);
                let expected = if 0 <= target <= u64::MAX {
                    Self::checked(*platform, target as u64)
                } else {
                    Err(MemoryAddressErrors::OutOfBounds)
                };
                match address {
                    Ok(a) => expected == Ok::<u64, MemoryAddressErrors>(a@) && a.wf(*platform),
                    Err(e) => expected == Err::<u64, MemoryAddressErrors>(e),
                }
            }),
    {
        match checked_offset(self.get_address().get_u64(), platform.lv3_page_size(), count) {
            Some(target) => Self::new(platform, target),
            None => Err(MemoryAddressErrors::OutOfBounds),
        }
    }

    /// Moves the address by `count` pages, then rounds down to a page and
    /// makes the target canonical.
    pub fn offset_maskoff(&self, platform: &Platform, count: i64) -> (address: Result<
        Self,
        MemoryAddressErrors,
    >)
        requires
            platform.wf(),
        ensures
            ({
                let size = Platform::spec_page_size(platform.spec_lv3_page_mask());
                let target = offset_target(self@, size as nat, count);
                let expected = if 0 <= target <= u64::MAX {
                    Self::checked_masked(*platform, target as u64)
                } else {
                    Err(MemoryAddressErrors::OutOfBounds)
                };
                match address {
                    Ok(a) => expected == Ok::<u64, MemoryAddressErrors>(a@)
                        && a.get_address().wf(*platform) && (page_within_width(
                        platform.spec_virt_mask(),
                        platform.spec_lv3_page_mask(),
                    ) ==> a.wf(*platform)),
                    Err(e) => expected == Err::<u64, MemoryAddressErrors>(e),
                }
            }),
    {
        match checked_offset(self.get_address().get_u64(), platform.lv3_page_size(), count) {
            Some(target) => Self::new_maskoff(platform, target),
            None => Err(MemoryAddressErrors::OutOfBounds),
        }
    }

    /// Moves the address by `count` pages, wrapping around the 64-bit range.
    /// The caller has checked that the target is an aligned virtual address.
    pub fn offset_unchecked(&self, platform: &Platform, count: i64) -> (address: Self)
        requires
            Platform::spec_page_size(platform.spec_lv3_page_mask()) <= i64::MAX,
            Self::aligned(
                *platform,
                wrapping_offset_target(
                    self@,
                    Platform::spec_page_size(platform.spec_lv3_page_mask()) as i64,
                    count,
                ),
            ),
            VirtAddress::verdict(
                *platform,
                wrapping_offset_target(
                    self@,
                    Platform::spec_page_size(platform.spec_lv3_page_mask()) as i64,
                    count,
                ),
            ).is_none(),
        ensures
            address@ == wrapping_offset_target(
                self@,
                Platform::spec_page_size(platform.spec_lv3_page_mask()) as i64,
                count,
            ),
            address.wf(*platform),
    {
        let step: i64 = platform.lv3_page_size() as i64;
        Self::new_unchecked(
            platform,
            self.get_address().get_u64().wrapping_add_signed(step.wrapping_mul(count)),
        )
    }
}

} // verus!
