//! Named regions of an address space, above the paging protocol: what kind
//! of region one is, where it starts and how much of it is in use.

use crate::memory::VirtAddress;
use crate::page_address::VirtLv1PageAddress;
use crate::paging::Page;
use crate::query::{answers, get_single_page, PageRoot};
use crate::table::TableMemory;
use vstd::prelude::*;

verus! {

/// The kinds of segment.
#[derive(Clone, Copy, Debug, PartialEq, Eq, Structural)]
pub enum SegmentsTypes {
    CodeSegment,
    DataSegment,
    DataROSegment,
    StackSegment,
    DeviceMMIOSegment,
    DeviceMMIOROSegment,
    DMASegment,
    IPCSegment,
    IPCROSegment,
    HHDMSegment,
}

/// Why a segment could not be made or asked.
#[derive(Clone, Copy, Debug, PartialEq, Eq, Structural)]
pub enum SegmentError {
    FixedSizeSegmentCantHaveReservedSpace,
    InvalidBaseAddress,
    OutOfBounds,
    InvalidSegmentTypeForConstructor,
}

/// One region of an address space.
#[derive(Clone, Copy, Debug)]
pub struct Segment {
    segment_type: SegmentsTypes,
    kernel_mode: bool,
    global: bool,
    base_address: VirtLv1PageAddress,
    allocated_size: u64,
    reserved_size: u64,
}

impl Segment {
    pub closed spec fn spec_segment_type(&self) -> SegmentsTypes {
        self.segment_type
    }

    pub closed spec fn spec_is_kernel(&self) -> bool {
        self.kernel_mode
    }

    pub closed spec fn spec_is_global(&self) -> bool {
        self.global
    }

    pub closed spec fn spec_base_address(&self) -> VirtLv1PageAddress {
        self.base_address
    }

    /// The size in bytes of the part that is in use.
    pub closed spec fn spec_allocated_size(&self) -> u64 {
        self.allocated_size
    }

    /// The size in bytes of the part behind the part in use that no other
    /// segment may take.
    pub closed spec fn spec_reserved_size(&self) -> u64 {
        self.reserved_size
    }

    /// Whether a segment of this kind is made without memory behind it:
    /// data, stack and DMA segments are.
    pub open spec fn made_empty(segment_type: SegmentsTypes) -> bool {
        segment_type == SegmentsTypes::DataSegment || segment_type == SegmentsTypes::StackSegment
            || segment_type == SegmentsTypes::DMASegment
    }

    /// Whether a segment of this kind has a fixed size: of those that are
    /// made empty, stack and DMA segments have.
    pub open spec fn fixed_size(segment_type: SegmentsTypes) -> bool {
        segment_type == SegmentsTypes::StackSegment || segment_type == SegmentsTypes::DMASegment
    }

    /// The error that making a segment meets, if any. The base address is
    /// looked at first, then the kind, then the reserved space.
    pub open spec fn verdict(
        segment_type: SegmentsTypes,
        base_address: u64,
        reserved_size: u64,
    ) -> Option<SegmentError> {
        if base_address == 0 {
            Some(SegmentError::InvalidBaseAddress)
        } else if !Self::made_empty(segment_type) {
            Some(SegmentError::InvalidSegmentTypeForConstructor)
        } else if reserved_size > 0 && Self::fixed_size(segment_type) {
            Some(SegmentError::FixedSizeSegmentCantHaveReservedSpace)
        } else {
            None
        }
    }

    /// A data, stack or DMA segment. Only a data segment may reserve space
    /// to grow into.
    pub fn new(
        p_segment_type: SegmentsTypes,
        p_kernel: bool,
        p_global: bool,
        p_base_address: VirtLv1PageAddress,
        p_allocated_size: u64,
        p_reserved_size: u64,
    ) -> (segment: Result<Segment, SegmentError>)
        ensures
            match segment {
                Ok(s) => {
                    &&& Self::verdict(p_segment_type, p_base_address@, p_reserved_size).is_none()
                    &&& s.spec_segment_type() == p_segment_type
                    &&& s.spec_is_kernel() == p_kernel
                    &&& s.spec_is_global() == p_global
                    &&& s.spec_base_address() == p_base_address
                    &&& s.spec_allocated_size() == p_allocated_size
                    &&& s.spec_reserved_size() == p_reserved_size
                },
                Err(e) => Self::verdict(p_segment_type, p_base_address@, p_reserved_size) == Some(
                    e,
                ),
            },
    {
        if p_base_address.get_address().get_u64() == 0 {
            return Err(SegmentError::InvalidBaseAddress);
        }
        match p_segment_type {
            SegmentsTypes::DataSegment
            | SegmentsTypes::StackSegment
            | SegmentsTypes::DMASegment => {},
            _ => {
                return Err(SegmentError::InvalidSegmentTypeForConstructor);
            },
        }
        if p_reserved_size > 0 {
            match p_segment_type {
                SegmentsTypes::StackSegment | SegmentsTypes::DMASegment => {
                    return Err(SegmentError::FixedSizeSegmentCantHaveReservedSpace);
                },
                _ => {},
            }
        }
        Ok(
            Segment {
                segment_type: p_segment_type,
                kernel_mode: p_kernel,
                global: p_global,
                base_address: p_base_address,
                allocated_size: p_allocated_size,
                reserved_size: p_reserved_size,
            },
        )
    }

    #[verifier::when_used_as_spec(spec_segment_type)]
    pub fn get_segment_type(&self) -> (segment_type: SegmentsTypes)
        ensures
            segment_type == self.spec_segment_type(),
    {
        self.segment_type
    }

    #[verifier::when_used_as_spec(spec_is_kernel)]
    pub fn is_kernel(&self) -> (kernel: bool)
        ensures
            kernel == self.spec_is_kernel(),
    {
        self.kernel_mode
    }

    #[verifier::when_used_as_spec(spec_is_global)]
    pub fn is_global(&self) -> (global: bool)
        ensures
            global == self.spec_is_global(),
    {
        self.global
    }

    #[verifier::when_used_as_spec(spec_base_address)]
    pub fn get_segment_base_address(&self) -> (base_address: VirtLv1PageAddress)
        ensures
            base_address == self.spec_base_address(),
    {
        self.base_address
    }

    /// Whether `address` lies in the part of the segment that is in use:
    /// not below the base address and not above the base address plus the
    /// allocated size.
    pub open spec fn in_bounds(&self, address: u64) -> bool {
        self.spec_base_address()@ <= address <= self.spec_base_address()@
            + self.spec_allocated_size()
    }

    /// What `address` translates to in the address space of `root`, for an
    /// address in the part of the segment that is in use; `OutOfBounds` for
    /// every other address.
    pub fn virt_to_phys_translation(
        &self,
        memory: &TableMemory,
        root: PageRoot,
        address: VirtAddress,
    ) -> (page: Result<Option<Page>, SegmentError>)
        requires
            memory.wf(),
            memory.has_root(root@),
        ensures
            match page {
                Ok(found) => self.in_bounds(address@) && answers(*memory, root@, address@, found),
                Err(e) => !self.in_bounds(address@) && e == SegmentError::OutOfBounds,
            },
    {
        let base: u64 = self.base_address.get_address().get_u64();
        if address.get_u64() < base {
            return Err(SegmentError::OutOfBounds);
        }
        if address.get_u64() - base > self.allocated_size {
            return Err(SegmentError::OutOfBounds);
        }
        Ok(get_single_page(memory, root, address))
    }
}

} // verus!
