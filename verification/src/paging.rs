//! The vocabulary of the mapping protocol: what a mapping is asked to be,
//! what a query reports and how a request can fail.

use crate::page_address::{
    PhysLv1PageAddress, PhysLv2PageAddress, PhysLv3PageAddress, VirtLv1PageAddress,
    VirtLv2PageAddress, VirtLv3PageAddress,
};
use vstd::prelude::*;

verus! {

/// How a mapped page may be used, independent of the table format.
#[derive(Clone, Copy, Debug, PartialEq, Eq, Structural)]
pub struct PageAttributes {
    /// The translation hardware may use the page.
    pub present: bool,
    pub readonly: bool,
    pub executable: bool,
    /// Only privileged code may touch the page.
    pub supervisor: bool,
    pub global: bool,
    pub caching_mode: CachingMode,
}

/// How accesses to a page are cached.
#[derive(Clone, Copy, Debug, PartialEq, Eq, Structural)]
pub enum CachingMode {
    Default,
    Framebuffer,
    MMIO,
    /// Memory-mapped I/O whose reads have no side effects.
    MmioPrefetch,
    DMA,
}

/// Why a mapping request was refused.
#[derive(Clone, Copy, Debug, PartialEq, Eq, Structural)]
pub enum PagingErros {
    PageAlreadyPresent,
    PageAlreadyNotPresent,
    NumberOfPagesOutOfBounds,
    InsufficientPagesForPageTable,
}

/// What a query found at a virtual address.
#[derive(Clone, Copy, Debug, PartialEq, Eq, Structural)]
pub enum Page {
    /// Nothing is mapped at the address.
    Unmapped,
    Lv1Page(Lv1Page),
    Lv2Page(Lv2Page),
    Lv3Page(Lv3Page),
}

/// A mapped page of the first (base) size.
#[derive(Clone, Copy, Debug, PartialEq, Eq, Structural)]
pub struct Lv1Page {
    pub attributes: PageAttributes,
    pub phys_address: PhysLv1PageAddress,
    pub virt_address: VirtLv1PageAddress,
}

/// A mapped page of the second size.
#[derive(Clone, Copy, Debug, PartialEq, Eq, Structural)]
pub struct Lv2Page {
    pub attributes: PageAttributes,
    pub phys_address: PhysLv2PageAddress,
    pub virt_address: VirtLv2PageAddress,
}

/// A mapped page of the third size.
#[derive(Clone, Copy, Debug, PartialEq, Eq, Structural)]
pub struct Lv3Page {
    pub attributes: PageAttributes,
    pub phys_address: PhysLv3PageAddress,
    pub virt_address: VirtLv3PageAddress,
}

} // verus!
