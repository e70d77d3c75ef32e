//! Physical and virtual addresses that are checked against the platform's
//! limits when they are made.

use crate::bits::{bit_is_set, get_bit};
use crate::platform::Platform;
use vstd::prelude::*;

verus! {

/// Why an address could not be made.
#[derive(Clone, Copy, Debug, PartialEq, Eq, Structural)]
pub enum MemoryAddressErrors {
    /// The bits above the canonical bit do not all repeat it.
    NonCannonical,
    /// A bit is set that the platform or the page size does not allow.
    InvalidBits,
    /// The virtual address is zero.
    NULLPTR,
    /// The virtual address lies below the direct map.
    Invalid,
    /// Moving the address left the 64-bit range.
    OutOfBounds,
}

/// Where `count` steps of `step` bytes from `base` lead, as a mathematical
/// integer.
pub open spec fn offset_target(base: u64, step: nat, count: i64) -> int {
    base + step * count
}

/// Where `count` steps of `step` bytes from `base` lead when both the product
/// and the sum wrap around.
pub open spec fn wrapping_offset_target(base: u64, step: i64, count: i64) -> u64 {
    vstd::wrapping::u64_specs::wrapping_add_signed(
        base,
        vstd::wrapping::i64_specs::wrapping_mul(step, count),
    )
}

/// Moves `base` by `count` steps of `step` bytes, or reports that the target
/// is no 64-bit address.
pub(crate) fn checked_offset(base: u64, step: u64, count: i64) -> (target: Option<u64>)
    ensures
        target == if 0 <= offset_target(base, step as nat, count) <= u64::MAX {
            Some(offset_target(base, step as nat, count) as u64)
        } else {
            None::<u64>
        },
{
    let wide_step: i128 = step as i128;
    let wide_count: i128 = count as i128;
    assert(-0x8000_0000_0000_0000_0000_0000_0000_0000 < wide_step * wide_count
        < 0x8000_0000_0000_0000_0000_0000_0000_0000) by (nonlinear_arith)
        requires
            0 <= wide_step <= 0xFFFF_FFFF_FFFF_FFFF,
            -0x8000_0000_0000_0000 <= wide_count <= 0x7FFF_FFFF_FFFF_FFFF,
    ;
    let delta: i128 = wide_step * wide_count;
    if delta > 0xFFFF_FFFF_FFFF_FFFF || delta < -0xFFFF_FFFF_FFFF_FFFF {
        return None;
    }
    let sum: i128 = base as i128 + delta;
    if sum < 0 || sum > 0xFFFF_FFFF_FFFF_FFFF {
        return None;
    }
    Some(sum as u64)
}

/// The number of bytes that a value of `T` takes, as a step for an offset.
pub(crate) fn step_of<T>() -> (step: u64)
    ensures
        step as nat == vstd::layout::size_of::<T>(),
{
    core::mem::size_of::<T>() as u64
}

/// A physical address within the platform's physical address width. Zero is
/// an address like any other.
#[derive(Clone, Copy, Debug, Hash, PartialEq, Eq, Structural, PartialOrd, Ord)]
pub struct PhysAddress {
    address: u64,
}

impl View for PhysAddress {
    type V = u64;

    closed spec fn view(&self) -> u64 {
        self.address
    }
}

impl PhysAddress {
    /// Whether `value` has no bit outside the physical address width.
    pub open spec fn fits(platform: Platform, value: u64) -> bool {
        value & !platform.spec_phys_mask() == 0
    }

    /// `value` with the bits outside the physical address width cleared.
    pub open spec fn masked(platform: Platform, value: u64) -> u64 {
        value & platform.spec_phys_mask()
    }

    /// Validity of an address on `platform`.
    pub open spec fn wf(&self, platform: Platform) -> bool {
        Self::fits(platform, self@)
    }

    /// What `new` returns for `value`, by the address it holds.
    pub open spec fn checked(platform: Platform, value: u64) -> Result<u64, MemoryAddressErrors> {
        if Self::fits(platform, value) {
            Ok(value)
        } else {
            Err(MemoryAddressErrors::InvalidBits)
        }
    }

    /// Two addresses with the same value are the same address.
    pub proof fn lemma_view_injective(a: PhysAddress, b: PhysAddress)
        ensures
            a@ == b@ <==> a == b,
    {
    }

    /// A masked value always fits.
    pub proof fn lemma_masked_fits(platform: Platform, value: u64)
        ensures
            Self::fits(platform, Self::masked(platform, value)),
            Self::fits(platform, value) ==> Self::masked(platform, value) == value,
    {
        let mask = platform.spec_phys_mask();
        assert((value & mask) & !mask == 0 && (value & !mask == 0 ==> value & mask == value))
            by (bit_vector);
    }

    pub fn new(platform: &Platform, value: u64) -> (address: Result<Self, MemoryAddressErrors>)
        ensures
            match address {
                Ok(a) => Self::checked(*platform, value) == Ok::<u64, MemoryAddressErrors>(a@)
                    && a.wf(*platform),
                Err(e) => Self::checked(*platform, value) == Err::<u64, MemoryAddressErrors>(e),
            },
    {
        if value & (!platform.phys_mask()) != 0 {
            return Err(MemoryAddressErrors::InvalidBits);
        }
        Ok(Self { address: value })
    }

    /// Clears the bits that the platform does not support.
    pub fn new_maskoff(platform: &Platform, value: u64) -> (address: Self)
        ensures
            address@ == Self::masked(*platform, value),
            address.wf(*platform),
    {
        proof {
            Self::lemma_masked_fits(*platform, value);
        }
        Self { address: value & platform.phys_mask() }
    }

    /// Keeps `value` without looking at it: the caller has checked it.
    pub fn new_unchecked(platform: &Platform, value: u64) -> (address: Self)
        requires
            Self::fits(*platform, value),
        ensures
            address@ == value,
            address.wf(*platform),
    {
        Self { address: value }
    }

    pub fn get_u64(&self) -> (value: u64)
        ensures
            value == self@,
    {
        self.address
    }

    /// Moves the address by `count` values of `T`.
    pub fn offset<T>(&self, platform: &Platform, count: i64) -> (address: Result<
        Self,
        MemoryAddressErrors,
    >)
        ensures
            ({
                let target = offset_target(self@, vstd::layout::size_of::<T>(), count);
                let expected = if 0 <= target <= u64::MAX {
                    Self::checked(*platform, target as u64)
                } else {
                    Err(MemoryAddressErrors::OutOfBounds)
                };
                match address {
                    Ok(a) => expected == Ok::<u64, MemoryAddressErrors>(a@) && a.wf(*platform),
                    Err(e) => expected == Err::<u64, MemoryAddressErrors>(e),
                }
            }),
    {
        match checked_offset(self.get_u64(), step_of::<T>(), count) {
            Some(target) => Self::new(platform, target),
            None => Err(MemoryAddressErrors::OutOfBounds),
        }
    }

    /// Moves the address by `count` values of `T` and clears the bits that
    /// the platform does not support.
    pub fn offset_maskoff<T>(&self, platform: &Platform, count: i64) -> (address: Result<
        Self,
        MemoryAddressErrors,
    >)
        ensures
            ({
                let target = offset_target(self@, vstd::layout::size_of::<T>(), count);
                match address {
                    Ok(a) => 0 <= target <= u64::MAX && a@ == Self::masked(
                        *platform,
                        target as u64,
                    ) && a.wf(*platform),
                    Err(e) => !(0 <= target <= u64::MAX) && e == MemoryAddressErrors::OutOfBounds,
                }
            }),
    {
        match checked_offset(self.get_u64(), step_of::<T>(), count) {
            Some(target) => Ok(Self::new_maskoff(platform, target)),
            None => Err(MemoryAddressErrors::OutOfBounds),
        }
    }

    /// Moves the address by `count` values of `T`, wrapping around the 64-bit
    /// range. The caller has checked that the target is a physical address.
    pub fn offset_unchecked<T>(&self, platform: &Platform, count: i64) -> (address: Self)
        requires
            vstd::layout::size_of::<T>() <= i64::MAX,
            Self::fits(
                *platform,
                wrapping_offset_target(self@, vstd::layout::size_of::<T>() as i64, count),
            ),
        ensures
            address@ == wrapping_offset_target(
                self@,
                vstd::layout::size_of::<T>() as i64,
                count,
            ),
            address.wf(*platform),
    {
        let step: i64 = step_of::<T>() as i64;
        Self::new_unchecked(
            platform,
            self.get_u64().wrapping_add_signed(step.wrapping_mul(count)),
        )
    }
}

/// A virtual address: never zero, and canonical on the platform it was made
/// for.
#[derive(Clone, Copy, Debug, Hash, PartialEq, Eq, Structural, PartialOrd, Ord)]
pub struct VirtAddress {
    address: u64,
}

impl View for VirtAddress {
    type V = u64;

    closed spec fn view(&self) -> u64 {
        self.address
    }
}

impl VirtAddress {
    /// Whether the platform has a canonical bit and `value` has it set.
    pub open spec fn extends_sign(platform: Platform, value: u64) -> bool {
        match platform.spec_canonical_bit() {
            Some(bit) => bit_is_set(value, bit as u64),
            None => false,
        }
    }

    /// The error that a strict check of `value` gives, if any. With the
    /// canonical bit set, every bit outside the address width must be set;
    /// otherwise every one of them must be clear. Zero is refused last.
    pub open spec fn verdict(platform: Platform, value: u64) -> Option<MemoryAddressErrors> {
        let outside = value & !platform.spec_virt_mask();
        if Self::extends_sign(platform, value) {
            if outside != !platform.spec_virt_mask() {
                Some(MemoryAddressErrors::NonCannonical)
            } else if value == 0 {
                Some(MemoryAddressErrors::NULLPTR)
            } else {
                None
            }
        } else if outside != 0 {
            if platform.spec_canonical_bit().is_none() {
                Some(MemoryAddressErrors::InvalidBits)
            } else {
                Some(MemoryAddressErrors::NonCannonical)
            }
        } else if value == 0 {
            Some(MemoryAddressErrors::NULLPTR)
        } else {
            None
        }
    }

    /// What `new` returns for `value`, by the address it holds.
    pub open spec fn checked(platform: Platform, value: u64) -> Result<u64, MemoryAddressErrors> {
        match Self::verdict(platform, value) {
            Some(e) => Err(e),
            None => Ok(value),
        }
    }

    /// `value` made canonical: the bits outside the address width are set
    /// where the canonical bit is set, and cleared otherwise.
    pub open spec fn masked(platform: Platform, value: u64) -> u64 {
        if Self::extends_sign(platform, value) {
            (value & platform.spec_virt_mask()) | !platform.spec_virt_mask()
        } else {
            value & platform.spec_virt_mask()
        }
    }

    /// What `new_maskoff` returns for `value`, by the address it holds.
    pub open spec fn checked_masked(platform: Platform, value: u64) -> Result<
        u64,
        MemoryAddressErrors,
    > {
        if Self::masked(platform, value) == 0 {
            Err(MemoryAddressErrors::NULLPTR)
        } else {
            Ok(Self::masked(platform, value))
        }
    }

    /// Validity of an address on `platform`.
    pub open spec fn wf(&self, platform: Platform) -> bool {
        Self::verdict(platform, self@).is_none()
    }

    /// Two addresses with the same value are the same address.
    pub proof fn lemma_view_injective(a: VirtAddress, b: VirtAddress)
        ensures
            a@ == b@ <==> a == b,
    {
    }

    /// A value made canonical passes the strict check unless it is zero, and
    /// a value that passes the strict check is left as it is.
    pub proof fn lemma_masked_is_canonical(platform: Platform, value: u64)
        requires
            platform.wf(),
        ensures
            Self::masked(platform, value) != 0 ==> Self::verdict(
                platform,
                Self::masked(platform, value),
            ).is_none(),
            Self::verdict(platform, value).is_none() ==> Self::masked(platform, value) == value,
    {
        let mask = platform.spec_virt_mask();
        match platform.spec_canonical_bit() {
            Some(bit) => {
                let b: u64 = bit as u64;
                let shift: u64 = (63 - b) as u64;
                assert(mask == 0xFFFF_FFFF_FFFF_FFFFu64 >> shift);
                assert({
                    &&& ((value & mask) | !mask) & !mask == !mask
                    &&& (value & mask) & !mask == 0
                    &&& (value & (1u64 << b) != 0) ==> ((value & mask) | !mask) & (1u64 << b) != 0
                    &&& (value & (1u64 << b) == 0) ==> (value & mask) & (1u64 << b) == 0
                    &&& value & !mask == !mask ==> (value & mask) | !mask == value
                    &&& value & !mask == 0 ==> value & mask == value
                }) by (bit_vector)
                    requires
                        b < 64,
                        shift == 63 - b,
                        mask == 0xFFFF_FFFF_FFFF_FFFFu64 >> shift,
                ;
            },
            None => {
                assert((value & mask) & !mask == 0 && (value & !mask == 0 ==> value & mask
                    == value)) by (bit_vector);
            },
        }
    }

    pub fn new(platform: &Platform, value: u64) -> (address: Result<Self, MemoryAddressErrors>)
        requires
            platform.wf(),
        ensures
            match address {
                Ok(a) => Self::checked(*platform, value) == Ok::<u64, MemoryAddressErrors>(a@)
                    && a.wf(*platform),
                Err(e) => Self::checked(*platform, value) == Err::<u64, MemoryAddressErrors>(e),
            },
    {
        let outside: u64 = value & (!platform.virt_mask());
        let mut sign_extended = false;
        if let Some(bit) = platform.canonical_bit() {
            sign_extended = get_bit(value, bit as usize);
        }
        if sign_extended {
            if outside != !platform.virt_mask() {
                return Err(MemoryAddressErrors::NonCannonical);
            }
        } else {
            if outside != 0 {
                if platform.canonical_bit().is_none() {
                    return Err(MemoryAddressErrors::InvalidBits);
                }
                return Err(MemoryAddressErrors::NonCannonical);
            }
        }
        if value == 0 {
            return Err(MemoryAddressErrors::NULLPTR);
        }
        Ok(Self { address: value })
    }

    /// Makes `value` canonical in place of refusing it. Zero is still
    /// refused.
    pub fn new_maskoff(platform: &Platform, value: u64) -> (address: Result<
        Self,
        MemoryAddressErrors,
    >)
        requires
            platform.wf(),
        ensures
            match address {
                Ok(a) => Self::checked_masked(*platform, value) == Ok::<u64, MemoryAddressErrors>(
                    a@,
                ) && a.wf(*platform),
                Err(e) => Self::checked_masked(*platform, value) == Err::<
                    u64,
                    MemoryAddressErrors,
                >(e),
            },
    {
        proof {
            Self::lemma_masked_is_canonical(*platform, value);
        }
        let mut sign_extended = false;
        if let Some(bit) = platform.canonical_bit() {
            sign_extended = get_bit(value, bit as usize);
        }
        let canonical: u64 = if sign_extended {
            (value & platform.virt_mask()) | !platform.virt_mask()
        } else {
            value & platform.virt_mask()
        };
        if canonical == 0 {
            return Err(MemoryAddressErrors::NULLPTR);
        }
        Ok(Self { address: canonical })
    }

    /// Keeps `value` without looking at it: the caller has checked it.
    pub fn new_unchecked(platform: &Platform, value: u64) -> (address: Self)
        requires
            Self::verdict(*platform, value).is_none(),
        ensures
            address@ == value,
            address.wf(*platform),
    {
        Self { address: value }
    }

    pub fn get_u64(&self) -> (value: u64)
        ensures
            value == self@,
    {
        self.address
    }

    /// Moves the address by `count` values of `T`.
    pub fn offset<T>(&self, platform: &Platform, count: i64) -> (address: Result<
        Self,
        MemoryAddressErrors,
    >)
        requires
            platform.wf(),
        ensures
            ({
                let target = offset_target(self@, vstd::layout::size_of::<T>(), count);
                let expected = if 0 <= target <= u64::MAX {
                    Self::checked(*platform, target as u64)
                } else {
                    Err(MemoryAddressErrors::OutOfBounds)
                };
                match address {
                    Ok(a) => expected == Ok::<u64, MemoryAddressErrors>(a@) && a.wf(*platform),
                    Err(e) => expected == Err::<u64, MemoryAddressErrors>(e),
                }
            }),
    {
        match checked_offset(self.get_u64(), step_of::<T>(), count) {
            Some(target) => Self::new(platform, target),
            None => Err(MemoryAddressErrors::OutOfBounds),
        }
    }

    /// Moves the address by `count` values of `T` and makes the target
    /// canonical.
    pub fn offset_maskoff<T>(&self, platform: &Platform, count: i64) -> (address: Result<
        Self,
        MemoryAddressErrors,
    >)
        requires
            platform.wf(),
        ensures
            ({
                let target = offset_target(self@, vstd::layout::size_of::<T>(), count);
                let expected = if 0 <= target <= u64::MAX {
                    Self::checked_masked(*platform, target as u64)
                } else {
                    Err(MemoryAddressErrors::OutOfBounds)
                };
                match address {
                    Ok(a) => expected == Ok::<u64, MemoryAddressErrors>(a@) && a.wf(*platform),
                    Err(e) => expected == Err::<u64, MemoryAddressErrors>(e),
                }
            }),
    {
        match checked_offset(self.get_u64(), step_of::<T>(), count) {
            Some(target) => Self::new_maskoff(platform, target),
            None => Err(MemoryAddressErrors::OutOfBounds),
        }
    }

    /// Moves the address by `count` values of `T`, wrapping around the 64-bit
    /// range. The caller has checked that the target is a virtual address.
    pub fn offset_unchecked<T>(&self, platform: &Platform, count: i64) -> (address: Self)
        requires
            vstd::layout::size_of::<T>() <= i64::MAX,
            Self::verdict(
                *platform,
                wrapping_offset_target(self@, vstd::layout::size_of::<T>() as i64, count),
            ).is_none(),
        ensures
            address@ == wrapping_offset_target(
                self@,
                vstd::layout::size_of::<T>() as i64,
                count,
            ),
            address.wf(*platform),
    {
        let step: i64 = step_of::<T>() as i64;
        Self::new_unchecked(
            platform,
            self.get_u64().wrapping_add_signed(step.wrapping_mul(count)),
        )
    }
}

/// A value with a bit outside the physical address width is refused as
/// `InvalidBits`, and masking it gives an address inside the width.
pub proof fn lemma_phys_outside_width(platform: Platform, value: u64)
    requires
        value & !platform.spec_phys_mask() != 0,
    ensures
        PhysAddress::checked(platform, value) == Err::<u64, MemoryAddressErrors>(
            MemoryAddressErrors::InvalidBits,
        ),
        PhysAddress::fits(platform, PhysAddress::masked(platform, value)),
{
    PhysAddress::lemma_masked_fits(platform, value);
}

/// A virtual address that was accepted holds the value it was made from, and
/// checking that value again accepts it again.
pub proof fn lemma_virt_new_round_trip(platform: Platform, value: u64)
    requires
        platform.wf(),
        VirtAddress::checked(platform, value).is_ok(),
    ensures
        VirtAddress::checked(platform, value) == Ok::<u64, MemoryAddressErrors>(value),
        VirtAddress::checked(platform, VirtAddress::checked(platform, value).unwrap())
            == VirtAddress::checked(platform, value),
{
}

/// Where the canonical bit and the bits above it disagree, the value is
/// refused as `NonCannonical`: the bit is set and some higher bit is clear,
/// or the bit is clear and some higher bit is set.
pub proof fn lemma_virt_non_canonical(platform: Platform, value: u64)
    requires
        platform.wf(),
        platform.spec_canonical_bit().is_some(),
        ({
            let bit = platform.spec_canonical_bit().unwrap() as u64;
            let above = !crate::platform::low_mask((bit + 1) as u64);
            if bit_is_set(value, bit) {
                value & above != above
            } else {
                value & above != 0
            }
        }),
    ensures
        VirtAddress::checked(platform, value) == Err::<u64, MemoryAddressErrors>(
            MemoryAddressErrors::NonCannonical,
        ),
{
}

/// Zero is refused as `NULLPTR` on every platform.
pub proof fn lemma_virt_zero_is_null(platform: Platform)
    requires
        platform.wf(),
    ensures
        VirtAddress::checked(platform, 0) == Err::<u64, MemoryAddressErrors>(
            MemoryAddressErrors::NULLPTR,
        ),
        VirtAddress::checked_masked(platform, 0) == Err::<u64, MemoryAddressErrors>(
            MemoryAddressErrors::NULLPTR,
        ),
{
    let mask = platform.spec_virt_mask();
    assert(0u64 & !mask == 0 && 0u64 & mask == 0) by (bit_vector);
    if let Some(bit) = platform.spec_canonical_bit() {
        let b: u64 = bit as u64;
        assert(0u64 & (1u64 << b) == 0) by (bit_vector);
    }
}

} // verus!
