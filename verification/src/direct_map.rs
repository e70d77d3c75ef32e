//! Translation between physical and virtual addresses through the direct
//! map: one fixed offset at which all of physical memory is mapped.

use crate::memory::{MemoryAddressErrors, PhysAddress, VirtAddress};
use crate::page_address::{
    page_within_width, PhysLv1PageAddress, PhysLv2PageAddress, PhysLv3PageAddress,
    VirtLv1PageAddress, VirtLv2PageAddress, VirtLv3PageAddress,
};
use crate::platform::Platform;
use vstd::prelude::*;

verus! {

/// The direct map, known by the virtual address at which physical address 0
/// is mapped. It is set up once, before the first translation.
#[derive(Clone, Copy, Debug)]
pub struct DirectMap {
    offset: VirtLv1PageAddress,
}

impl DirectMap {
    /// The virtual address of physical address 0.
    pub closed spec fn spec_base(&self) -> u64 {
        self.offset@
    }

    pub fn new(offset: VirtLv1PageAddress) -> (map: Self)
        ensures
            map.spec_base() == offset@,
    {
        Self { offset }
    }

    #[verifier::when_used_as_spec(spec_base)]
    pub fn base(&self) -> (base: u64)
        ensures
            base == self.spec_base(),
    {
        self.offset.get_address().get_u64()
    }

    /// The virtual address of physical address `physical`, if it is a 64-bit
    /// value.
    pub open spec fn virtual_of(&self, physical: u64) -> Option<u64> {
        if physical + self.spec_base() <= u64::MAX {
            Some((physical + self.spec_base()) as u64)
        } else {
            None
        }
    }

    /// The physical address mapped at `address`, if `address` lies in the
    /// direct map.
    pub open spec fn physical_of(&self, address: u64) -> Option<u64> {
        if address >= self.spec_base() {
            Some((address - self.spec_base()) as u64)
        } else {
            None
        }
    }

    /// Adds the offset of the direct map.
    pub fn physical_to_virtual(&self, physical: u64) -> (address: Option<u64>)
        ensures
            address == self.virtual_of(physical),
    {
        physical.checked_add(self.base())
    }

    /// Takes the offset of the direct map away.
    pub fn virtual_to_physical(&self, address: u64) -> (physical: Option<u64>)
        ensures
            physical == self.physical_of(address),
    {
        address.checked_sub(self.base())
    }
}

impl PhysAddress {
    /// What `to_virt` returns, by the address it holds.
    pub open spec fn spec_to_virt(&self, platform: Platform, hhdm: DirectMap) -> Result<
        u64,
        MemoryAddressErrors,
    > {
        match hhdm.virtual_of(self@) {
            Some(address) => VirtAddress::checked(platform, address),
            None => Err(MemoryAddressErrors::OutOfBounds),
        }
    }

    /// What `to_virt_maskoff` returns, by the address it holds.
    pub open spec fn spec_to_virt_maskoff(&self, platform: Platform, hhdm: DirectMap) -> Result<
        u64,
        MemoryAddressErrors,
    > {
        match hhdm.virtual_of(self@) {
            Some(address) => VirtAddress::checked_masked(platform, address),
            None => Err(MemoryAddressErrors::OutOfBounds),
        }
    }

    /// The virtual address at which the direct map shows this address.
    pub fn to_virt(&self, platform: &Platform, hhdm: &DirectMap) -> (address: Result<
        VirtAddress,
        MemoryAddressErrors,
    >)
        requires
            platform.wf(),
        ensures
            match address {
                Ok(a) => self.spec_to_virt(*platform, *hhdm) == Ok::<u64, MemoryAddressErrors>(a@)
                    && a.wf(*platform),
                Err(e) => self.spec_to_virt(*platform, *hhdm) == Err::<u64, MemoryAddressErrors>(
                    e,
                ),
            },
    {
        match hhdm.physical_to_virtual(self.get_u64()) {
            Some(address) => VirtAddress::new(platform, address),
            None => Err(MemoryAddressErrors::OutOfBounds),
        }
    }

    /// The virtual address at which the direct map shows this address, made
    /// canonical in place of being refused.
    pub fn to_virt_maskoff(&self, platform: &Platform, hhdm: &DirectMap) -> (address: Result<
        VirtAddress,
        MemoryAddressErrors,
    >)
        requires
            platform.wf(),
        ensures
            match address {
                Ok(a) => self.spec_to_virt_maskoff(*platform, *hhdm) == Ok::<
                    u64,
                    MemoryAddressErrors,
                >(a@) && a.wf(*platform),
                Err(e) => self.spec_to_virt_maskoff(*platform, *hhdm) == Err::<
                    u64,
                    MemoryAddressErrors,
                >(e),
            },
    {
        match hhdm.physical_to_virtual(self.get_u64()) {
            Some(address) => VirtAddress::new_maskoff(platform, address),
            None => Err(MemoryAddressErrors::OutOfBounds),
        }
    }

    /// The virtual address at which the direct map shows this address. The
    /// caller has checked that the sum is a valid virtual address.
    pub fn to_virt_unchecked(&self, platform: &Platform, hhdm: &DirectMap) -> (address: VirtAddress)
        requires
            self.spec_to_virt(*platform, *hhdm).is_ok(),
        ensures
            Ok::<u64, MemoryAddressErrors>(address@) == self.spec_to_virt(*platform, *hhdm),
            address.wf(*platform),
    {
        VirtAddress::new_unchecked(platform, self.get_u64() + hhdm.base())
    }
}

impl PhysLv1PageAddress {
    /// What `to_virt` returns, by the address it holds.
    pub open spec fn spec_to_virt(&self, platform: Platform, hhdm: DirectMap) -> Result<
        u64,
        MemoryAddressErrors,
    > {
        match hhdm.virtual_of(self@) {
            Some(address) => VirtLv1PageAddress::checked(platform, address),
            None => Err(MemoryAddressErrors::OutOfBounds),
        }
    }

    /// What `to_virt_maskoff` returns, by the address it holds.
    pub open spec fn spec_to_virt_maskoff(&self, platform: Platform, hhdm: DirectMap) -> Result<
        u64,
        MemoryAddressErrors,
    > {
        match hhdm.virtual_of(self@) {
            Some(address) => VirtLv1PageAddress::checked_masked(platform, address),
            None => Err(MemoryAddressErrors::OutOfBounds),
        }
    }

    /// The virtual address at which the direct map shows this address.
    pub fn to_virt(&self, platform: &Platform, hhdm: &DirectMap) -> (address: Result<
        VirtLv1PageAddress,
        MemoryAddressErrors,
    >)
        requires
            platform.wf(),
        ensures
            match address {
                Ok(a) => self.spec_to_virt(*platform, *hhdm) == Ok::<u64, MemoryAddressErrors>(a@)
                    && a.wf(*platform),
                Err(e) => self.spec_to_virt(*platform, *hhdm) == Err::<u64, MemoryAddressErrors>(
                    e,
                ),
            },
    {
        match hhdm.physical_to_virtual(self.get_address().get_u64()) {
            Some(address) => VirtLv1PageAddress::new(platform, address),
            None => Err(MemoryAddressErrors::OutOfBounds),
        }
    }

    /// The virtual address at which the direct map shows this address, made
    /// canonical in place of being refused.
    /// The result is canonical; it is a valid page address wherever the page
    /// fits into the address width.
    pub fn to_virt_maskoff(&self, platform: &Platform, hhdm: &DirectMap) -> (address: Result<
        VirtLv1PageAddress,
        MemoryAddressErrors,
    >)
        requires
            platform.wf(),
        ensures
            match address {
                Ok(a) => self.spec_to_virt_maskoff(*platform, *hhdm) == Ok::<
                    u64,
                    MemoryAddressErrors,
                >(a@) && a.get_address().wf(*platform) && (page_within_width(
                    platform.spec_virt_mask(),
                    platform.spec_lv1_page_mask(),
                ) ==> a.wf(*platform)),
                Err(e) => self.spec_to_virt_maskoff(*platform, *hhdm) == Err::<
                    u64,
                    MemoryAddressErrors,
                >(e),
            },
    {
        match hhdm.physical_to_virtual(self.get_address().get_u64()) {
            Some(address) => VirtLv1PageAddress::new_maskoff(platform, address),
            None => Err(MemoryAddressErrors::OutOfBounds),
        }
    }

    /// The virtual address at which the direct map shows this address. The
    /// caller has checked that the sum is a valid virtual address.
    pub fn to_virt_unchecked(&self, platform: &Platform, hhdm: &DirectMap) -> (address: VirtLv1PageAddress)
        requires
            self.spec_to_virt(*platform, *hhdm).is_ok(),
        ensures
            Ok::<u64, MemoryAddressErrors>(address@) == self.spec_to_virt(*platform, *hhdm),
            address.wf(*platform),
    {
        VirtLv1PageAddress::new_unchecked(platform, self.get_address().get_u64() + hhdm.base())
    }
}

impl PhysLv2PageAddress {
    /// What `to_virt` returns, by the address it holds.
    pub open spec fn spec_to_virt(&self, platform: Platform, hhdm: DirectMap) -> Result<
        u64,
        MemoryAddressErrors,
    > {
        match hhdm.virtual_of(self@) {
            Some(address) => VirtLv2PageAddress::checked(platform, address),
            None => Err(MemoryAddressErrors::OutOfBounds),
        }
    }

    /// What `to_virt_maskoff` returns, by the address it holds.
    pub open spec fn spec_to_virt_maskoff(&self, platform: Platform, hhdm: DirectMap) -> Result<
        u64,
        MemoryAddressErrors,
    > {
        match hhdm.virtual_of(self@) {
            Some(address) => VirtLv2PageAddress::checked_masked(platform, address),
            None => Err(MemoryAddressErrors::OutOfBounds),
        }
    }

    /// The virtual address at which the direct map shows this address.
    pub fn to_virt(&self, platform: &Platform, hhdm: &DirectMap) -> (address: Result<
        VirtLv2PageAddress,
        MemoryAddressErrors,
    >)
        requires
            platform.wf(),
        ensures
            match address {
                Ok(a) => self.spec_to_virt(*platform, *hhdm) == Ok::<u64, MemoryAddressErrors>(a@)
                    && a.wf(*platform),
                Err(e) => self.spec_to_virt(*platform, *hhdm) == Err::<u64, MemoryAddressErrors>(
                    e,
                ),
            },
    {
        match hhdm.physical_to_virtual(self.get_address().get_u64()) {
            Some(address) => VirtLv2PageAddress::new(platform, address),
            None => Err(MemoryAddressErrors::OutOfBounds),
        }
    }

    /// The virtual address at which the direct map shows this address, made
    /// canonical in place of being refused.
    /// The result is canonical; it is a valid page address wherever the page
    /// fits into the address width.
    pub fn to_virt_maskoff(&self, platform: &Platform, hhdm: &DirectMap) -> (address: Result<
        VirtLv2PageAddress,
        MemoryAddressErrors,
    >)
        requires
            platform.wf(),
        ensures
            match address {
                Ok(a) => self.spec_to_virt_maskoff(*platform, *hhdm) == Ok::<
                    u64,
                    MemoryAddressErrors,
                >(a@) && a.get_address().wf(*platform) && (page_within_width(
                    platform.spec_virt_mask(),
                    platform.spec_lv2_page_mask(),
                ) ==> a.wf(*platform)),
                Err(e) => self.spec_to_virt_maskoff(*platform, *hhdm) == Err::<
                    u64,
                    MemoryAddressErrors,
                >(e),
            },
    {
        match hhdm.physical_to_virtual(self.get_address().get_u64()) {
            Some(address) => VirtLv2PageAddress::new_maskoff(platform, address),
            None => Err(MemoryAddressErrors::OutOfBounds),
        }
    }

    /// The virtual address at which the direct map shows this address. The
    /// caller has checked that the sum is a valid virtual address.
    pub fn to_virt_unchecked(&self, platform: &Platform, hhdm: &DirectMap) -> (address: VirtLv2PageAddress)
        requires
            self.spec_to_virt(*platform, *hhdm).is_ok(),
        ensures
            Ok::<u64, MemoryAddressErrors>(address@) == self.spec_to_virt(*platform, *hhdm),
            address.wf(*platform),
    {
        VirtLv2PageAddress::new_unchecked(platform, self.get_address().get_u64() + hhdm.base())
    }
}

impl PhysLv3PageAddress {
    /// What `to_virt` returns, by the address it holds.
    pub open spec fn spec_to_virt(&self, platform: Platform, hhdm: DirectMap) -> Result<
        u64,
        MemoryAddressErrors,
    > {
        match hhdm.virtual_of(self@) {
            Some(address) => VirtLv3PageAddress::checked(platform, address),
            None => Err(MemoryAddressErrors::OutOfBounds),
        }
    }

    /// What `to_virt_maskoff` returns, by the address it holds.
    pub open spec fn spec_to_virt_maskoff(&self, platform: Platform, hhdm: DirectMap) -> Result<
        u64,
        MemoryAddressErrors,
    > {
        match hhdm.virtual_of(self@) {
            Some(address) => VirtLv3PageAddress::checked_masked(platform, address),
            None => Err(MemoryAddressErrors::OutOfBounds),
        }
    }

    /// The virtual address at which the direct map shows this address.
    pub fn to_virt(&self, platform: &Platform, hhdm: &DirectMap) -> (address: Result<
        VirtLv3PageAddress,
        MemoryAddressErrors,
    >)
        requires
            platform.wf(),
        ensures
            match address {
                Ok(a) => self.spec_to_virt(*platform, *hhdm) == Ok::<u64, MemoryAddressErrors>(a@)
                    && a.wf(*platform),
                Err(e) => self.spec_to_virt(*platform, *hhdm) == Err::<u64, MemoryAddressErrors>(
                    e,
                ),
            },
    {
        match hhdm.physical_to_virtual(self.get_address().get_u64()) {
            Some(address) => VirtLv3PageAddress::new(platform, address),
            None => Err(MemoryAddressErrors::OutOfBounds),
        }
    }

    /// The virtual address at which the direct map shows this address, made
    /// canonical in place of being refused.
    /// The result is canonical; it is a valid page address wherever the page
    /// fits into the address width.
    pub fn to_virt_maskoff(&self, platform: &Platform, hhdm: &DirectMap) -> (address: Result<
        VirtLv3PageAddress,
        MemoryAddressErrors,
    >)
        requires
            platform.wf(),
        ensures
            match address {
                Ok(a) => self.spec_to_virt_maskoff(*platform, *hhdm) == Ok::<
                    u64,
                    MemoryAddressErrors,
                >(a@) && a.get_address().wf(*platform) && (page_within_width(
                    platform.spec_virt_mask(),
                    platform.spec_lv3_page_mask(),
                ) ==> a.wf(*platform)),
                Err(e) => self.spec_to_virt_maskoff(*platform, *hhdm) == Err::<
                    u64,
                    MemoryAddressErrors,
                >(e),
            },
    {
        match hhdm.physical_to_virtual(self.get_address().get_u64()) {
            Some(address) => VirtLv3PageAddress::new_maskoff(platform, address),
            None => Err(MemoryAddressErrors::OutOfBounds),
        }
    }

    /// The virtual address at which the direct map shows this address. The
    /// caller has checked that the sum is a valid virtual address.
    pub fn to_virt_unchecked(&self, platform: &Platform, hhdm: &DirectMap) -> (address: VirtLv3PageAddress)
        requires
            self.spec_to_virt(*platform, *hhdm).is_ok(),
        ensures
            Ok::<u64, MemoryAddressErrors>(address@) == self.spec_to_virt(*platform, *hhdm),
            address.wf(*platform),
    {
        VirtLv3PageAddress::new_unchecked(platform, self.get_address().get_u64() + hhdm.base())
    }
}

impl VirtAddress {
    /// What `to_phys` returns, by the address it holds.
    pub open spec fn spec_to_phys(&self, platform: Platform, hhdm: DirectMap) -> Result<
        u64,
        MemoryAddressErrors,
    > {
        match hhdm.physical_of(self@) {
            Some(physical) => PhysAddress::checked(platform, physical),
            None => Err(MemoryAddressErrors::Invalid),
        }
    }

    /// The address that `to_phys_maskoff` returns: physical address 0 for an
    /// address below the direct map.
    pub open spec fn spec_to_phys_maskoff(&self, platform: Platform, hhdm: DirectMap) -> u64 {
        match hhdm.physical_of(self@) {
            Some(physical) => PhysAddress::masked(platform, physical),
            None => PhysAddress::masked(platform, 0),
        }
    }

    /// The physical address that the direct map shows at this address.
    pub fn to_phys(&self, platform: &Platform, hhdm: &DirectMap) -> (physical: Result<
        PhysAddress,
        MemoryAddressErrors,
    >)
        ensures
            match physical {
                Ok(p) => self.spec_to_phys(*platform, *hhdm) == Ok::<u64, MemoryAddressErrors>(p@)
                    && p.wf(*platform),
                Err(e) => self.spec_to_phys(*platform, *hhdm) == Err::<u64, MemoryAddressErrors>(
                    e,
                ),
            },
    {
        match hhdm.virtual_to_physical(self.get_u64()) {
            Some(physical) => PhysAddress::new(platform, physical),
            None => Err(MemoryAddressErrors::Invalid),
        }
    }

    /// The physical address that the direct map shows at this address, with
    /// unsupported bits cleared in place of being refused.
    pub fn to_phys_maskoff(&self, platform: &Platform, hhdm: &DirectMap) -> (physical: PhysAddress)
        ensures
            physical@ == self.spec_to_phys_maskoff(*platform, *hhdm),
            physical.wf(*platform),
    {
        match hhdm.virtual_to_physical(self.get_u64()) {
            Some(physical) => PhysAddress::new_maskoff(platform, physical),
            None => PhysAddress::new_maskoff(platform, 0),
        }
    }

    /// The physical address that the direct map shows at this address. The
    /// caller has checked that the difference is a valid physical address.
    pub fn to_phys_unchecked(&self, platform: &Platform, hhdm: &DirectMap) -> (physical: PhysAddress)
        requires
            self.spec_to_phys(*platform, *hhdm).is_ok(),
        ensures
            Ok::<u64, MemoryAddressErrors>(physical@) == self.spec_to_phys(*platform, *hhdm),
            physical.wf(*platform),
    {
        PhysAddress::new_unchecked(platform, self.get_u64() - hhdm.base())
    }
}

impl VirtLv1PageAddress {
    /// What `to_phys` returns, by the address it holds.
    pub open spec fn spec_to_phys(&self, platform: Platform, hhdm: DirectMap) -> Result<
        u64,
        MemoryAddressErrors,
    > {
        match hhdm.physical_of(self@) {
            Some(physical) => PhysLv1PageAddress::checked(platform, physical),
            None => Err(MemoryAddressErrors::Invalid),
        }
    }

    /// The address that `to_phys_maskoff` returns: physical address 0 for an
    /// address below the direct map.
    pub open spec fn spec_to_phys_maskoff(&self, platform: Platform, hhdm: DirectMap) -> u64 {
        match hhdm.physical_of(self@) {
            Some(physical) => PhysLv1PageAddress::masked(platform, physical),
            None => PhysLv1PageAddress::masked(platform, 0),
        }
    }

    /// The physical address that the direct map shows at this address.
    pub fn to_phys(&self, platform: &Platform, hhdm: &DirectMap) -> (physical: Result<
        PhysLv1PageAddress,
        MemoryAddressErrors,
    >)
        ensures
            match physical {
                Ok(p) => self.spec_to_phys(*platform, *hhdm) == Ok::<u64, MemoryAddressErrors>(p@)
                    && p.wf(*platform),
                Err(e) => self.spec_to_phys(*platform, *hhdm) == Err::<u64, MemoryAddressErrors>(
                    e,
                ),
            },
    {
        match hhdm.virtual_to_physical(self.get_address().get_u64()) {
            Some(physical) => PhysLv1PageAddress::new(platform, physical),
            None => Err(MemoryAddressErrors::Invalid),
        }
    }

    /// The physical address that the direct map shows at this address, with
    /// unsupported bits cleared in place of being refused.
    pub fn to_phys_maskoff(&self, platform: &Platform, hhdm: &DirectMap) -> (physical: PhysLv1PageAddress)
        ensures
            physical@ == self.spec_to_phys_maskoff(*platform, *hhdm),
            physical.wf(*platform),
    {
        match hhdm.virtual_to_physical(self.get_address().get_u64()) {
            Some(physical) => PhysLv1PageAddress::new_maskoff(platform, physical),
            None => PhysLv1PageAddress::new_maskoff(platform, 0),
        }
    }

    /// The physical address that the direct map shows at this address. The
    /// caller has checked that the difference is a valid physical address.
    pub fn to_phys_unchecked(&self, platform: &Platform, hhdm: &DirectMap) -> (physical: PhysLv1PageAddress)
        requires
            self.spec_to_phys(*platform, *hhdm).is_ok(),
        ensures
            Ok::<u64, MemoryAddressErrors>(physical@) == self.spec_to_phys(*platform, *hhdm),
            physical.wf(*platform),
    {
        PhysLv1PageAddress::new_unchecked(platform, self.get_address().get_u64() - hhdm.base())
    }
}

impl VirtLv2PageAddress {
    /// What `to_phys` returns, by the address it holds.
    pub open spec fn spec_to_phys(&self, platform: Platform, hhdm: DirectMap) -> Result<
        u64,
        MemoryAddressErrors,
    > {
        match hhdm.physical_of(self@) {
            Some(physical) => PhysLv2PageAddress::checked(platform, physical),
            None => Err(MemoryAddressErrors::Invalid),
        }
    }

    /// The address that `to_phys_maskoff` returns: physical address 0 for an
    /// address below the direct map.
    pub open spec fn spec_to_phys_maskoff(&self, platform: Platform, hhdm: DirectMap) -> u64 {
        match hhdm.physical_of(self@) {
            Some(physical) => PhysLv2PageAddress::masked(platform, physical),
            None => PhysLv2PageAddress::masked(platform, 0),
        }
    }

    /// The physical address that the direct map shows at this address.
    pub fn to_phys(&self, platform: &Platform, hhdm: &DirectMap) -> (physical: Result<
        PhysLv2PageAddress,
        MemoryAddressErrors,
    >)
        ensures
            match physical {
                Ok(p) => self.spec_to_phys(*platform, *hhdm) == Ok::<u64, MemoryAddressErrors>(p@)
                    && p.wf(*platform),
                Err(e) => self.spec_to_phys(*platform, *hhdm) == Err::<u64, MemoryAddressErrors>(
                    e,
                ),
            },
    {
        match hhdm.virtual_to_physical(self.get_address().get_u64()) {
            Some(physical) => PhysLv2PageAddress::new(platform, physical),
            None => Err(MemoryAddressErrors::Invalid),
        }
    }

    /// The physical address that the direct map shows at this address, with
    /// unsupported bits cleared in place of being refused.
    pub fn to_phys_maskoff(&self, platform: &Platform, hhdm: &DirectMap) -> (physical: PhysLv2PageAddress)
        ensures
            physical@ == self.spec_to_phys_maskoff(*platform, *hhdm),
            physical.wf(*platform),
    {
        match hhdm.virtual_to_physical(self.get_address().get_u64()) {
            Some(physical) => PhysLv2PageAddress::new_maskoff(platform, physical),
            None => PhysLv2PageAddress::new_maskoff(platform, 0),
        }
    }

    /// The physical address that the direct map shows at this address. The
    /// caller has checked that the difference is a valid physical address.
    pub fn to_phys_unchecked(&self, platform: &Platform, hhdm: &DirectMap) -> (physical: PhysLv2PageAddress)
        requires
            self.spec_to_phys(*platform, *hhdm).is_ok(),
        ensures
            Ok::<u64, MemoryAddressErrors>(physical@) == self.spec_to_phys(*platform, *hhdm),
            physical.wf(*platform),
    {
        PhysLv2PageAddress::new_unchecked(platform, self.get_address().get_u64() - hhdm.base())
    }
}

impl VirtLv3PageAddress {
    /// What `to_phys` returns, by the address it holds.
    pub open spec fn spec_to_phys(&self, platform: Platform, hhdm: DirectMap) -> Result<
        u64,
        MemoryAddressErrors,
    > {
        match hhdm.physical_of(self@) {
            Some(physical) => PhysLv3PageAddress::checked(platform, physical),
            None => Err(MemoryAddressErrors::Invalid),
        }
    }

    /// The address that `to_phys_maskoff` returns: physical address 0 for an
    /// address below the direct map.
    pub open spec fn spec_to_phys_maskoff(&self, platform: Platform, hhdm: DirectMap) -> u64 {
        match hhdm.physical_of(self@) {
            Some(physical) => PhysLv3PageAddress::masked(platform, physical),
            None => PhysLv3PageAddress::masked(platform, 0),
        }
    }

    /// The physical address that the direct map shows at this address.
    pub fn to_phys(&self, platform: &Platform, hhdm: &DirectMap) -> (physical: Result<
        PhysLv3PageAddress,
        MemoryAddressErrors,
    >)
        ensures
            match physical {
                Ok(p) => self.spec_to_phys(*platform, *hhdm) == Ok::<u64, MemoryAddressErrors>(p@)
                    && p.wf(*platform),
                Err(e) => self.spec_to_phys(*platform, *hhdm) == Err::<u64, MemoryAddressErrors>(
                    e,
                ),
            },
    {
        match hhdm.virtual_to_physical(self.get_address().get_u64()) {
            Some(physical) => PhysLv3PageAddress::new(platform, physical),
            None => Err(MemoryAddressErrors::Invalid),
        }
    }

    /// The physical address that the direct map shows at this address, with
    /// unsupported bits cleared in place of being refused.
    pub fn to_phys_maskoff(&self, platform: &Platform, hhdm: &DirectMap) -> (physical: PhysLv3PageAddress)
        ensures
            physical@ == self.spec_to_phys_maskoff(*platform, *hhdm),
            physical.wf(*platform),
    {
        match hhdm.virtual_to_physical(self.get_address().get_u64()) {
            Some(physical) => PhysLv3PageAddress::new_maskoff(platform, physical),
            None => PhysLv3PageAddress::new_maskoff(platform, 0),
        }
    }

    /// The physical address that the direct map shows at this address. The
    /// caller has checked that the difference is a valid physical address.
    pub fn to_phys_unchecked(&self, platform: &Platform, hhdm: &DirectMap) -> (physical: PhysLv3PageAddress)
        requires
            self.spec_to_phys(*platform, *hhdm).is_ok(),
        ensures
            Ok::<u64, MemoryAddressErrors>(physical@) == self.spec_to_phys(*platform, *hhdm),
            physical.wf(*platform),
    {
        PhysLv3PageAddress::new_unchecked(platform, self.get_address().get_u64() - hhdm.base())
    }
}

/// Round trip through the direct map: where a valid physical address has a virtual
/// address, translating that address back gives the physical address again.
pub proof fn lemma_direct_map_round_trip(platform: Platform, hhdm: DirectMap, physical: PhysAddress, address: VirtAddress)
    requires
        platform.wf(),
        physical.wf(platform),
        physical.spec_to_virt(platform, hhdm) == Ok::<u64, MemoryAddressErrors>(address@),
    ensures
        address.spec_to_phys(platform, hhdm) == Ok::<u64, MemoryAddressErrors>(physical@),
{
}

/// Round trip through the direct map: where a valid first-level page address has a virtual
/// address, translating that address back gives the physical address again.
pub proof fn lemma_direct_map_round_trip_lv1(platform: Platform, hhdm: DirectMap, physical: PhysLv1PageAddress, address: VirtLv1PageAddress)
    requires
        platform.wf(),
        physical.wf(platform),
        physical.spec_to_virt(platform, hhdm) == Ok::<u64, MemoryAddressErrors>(address@),
    ensures
        address.spec_to_phys(platform, hhdm) == Ok::<u64, MemoryAddressErrors>(physical@),
{
}

/// Round trip through the direct map: where a valid second-level page address has a virtual
/// address, translating that address back gives the physical address again.
pub proof fn lemma_direct_map_round_trip_lv2(platform: Platform, hhdm: DirectMap, physical: PhysLv2PageAddress, address: VirtLv2PageAddress)
    requires
        platform.wf(),
        physical.wf(platform),
        physical.spec_to_virt(platform, hhdm) == Ok::<u64, MemoryAddressErrors>(address@),
    ensures
        address.spec_to_phys(platform, hhdm) == Ok::<u64, MemoryAddressErrors>(physical@),
{
}

/// Round trip through the direct map: where a valid third-level page address has a virtual
/// address, translating that address back gives the physical address again.
pub proof fn lemma_direct_map_round_trip_lv3(platform: Platform, hhdm: DirectMap, physical: PhysLv3PageAddress, address: VirtLv3PageAddress)
    requires
        platform.wf(),
        physical.wf(platform),
        physical.spec_to_virt(platform, hhdm) == Ok::<u64, MemoryAddressErrors>(address@),
    ensures
        address.spec_to_phys(platform, hhdm) == Ok::<u64, MemoryAddressErrors>(physical@),
{
}

/// The lowest address of the higher half, as a number: the canonical bit
/// and every bit above it, or the highest bit of the address width where
/// the platform has no canonical bit.
pub open spec fn spec_lowest_higher_half(platform: Platform) -> u64 {
    if platform.spec_canonical_bit().is_some() {
        !(platform.spec_virt_mask() >> 1)
    } else {
        platform.spec_virt_mask() & !(platform.spec_virt_mask() >> 1)
    }
}

/// The lowest address of the higher half of the virtual address space: the
/// base of the direct map where the kernel is not placed at random.
pub fn get_lowest_higher_half_address(platform: &Platform) -> (address: Result<
    VirtLv1PageAddress,
    MemoryAddressErrors,
>)
    requires
        platform.wf(),
    ensures
        match address {
            Ok(a) => VirtLv1PageAddress::checked(*platform, spec_lowest_higher_half(*platform))
                == Ok::<u64, MemoryAddressErrors>(a@) && a.wf(*platform),
            Err(e) => VirtLv1PageAddress::checked(*platform, spec_lowest_higher_half(*platform))
                == Err::<u64, MemoryAddressErrors>(e),
        },
{
    let lower: u64 = platform.virt_mask() >> 1;
    if platform.canonical_bit().is_some() {
        VirtLv1PageAddress::new(platform, !lower)
    } else {
        VirtLv1PageAddress::new(platform, platform.virt_mask() & !lower)
    }
}

} // verus!
