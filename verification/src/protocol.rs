//! The mapping protocol: mapping and unmapping ranges of pages of each
//! size, sizing the supply of spare frames beforehand, and updating
//! attributes. The caller holds the lock of the address space and performs
//! the invalidation of cached translations that the hardware asks for.

use crate::attributes::{update_range, updated};
use crate::mapping::{
    any_mapped, check_range, map_checked, map_verdict, mapped, needed_tables, plan,
    spares_fresh,
};
use crate::memory::VirtAddress;
use crate::page_address::{
    PhysLv1PageAddress, PhysLv2PageAddress, PhysLv3PageAddress, VirtLv1PageAddress,
    VirtLv2PageAddress, VirtLv3PageAddress,
};
use crate::paging::{PageAttributes, PagingErros};
use crate::platform::LV1_PAGE_MASK_4K;
use crate::query::{pages_between, PageRoot};
use crate::range::range_fits;
use crate::table::TableMemory;
use crate::unmapping::{reclaimed, unmap_range, unmapped};
use vstd::prelude::*;

verus! {

/// The frame addresses of a sequence of page addresses.
pub open spec fn frames_of<A: View<V = u64>>(pages: Seq<A>) -> Seq<u64> {
    Seq::new(pages.len(), |j: int| pages[j]@)
}

/// The frame addresses of `pages`, in order.
fn frames_lv1(pages: &[PhysLv1PageAddress]) -> (frames: Vec<u64>)
    ensures
        frames@ == frames_of(pages@),
{
    let mut frames: Vec<u64> = Vec::new();
    let mut done: usize = 0;
    while done < pages.len()
        invariant
            done <= pages@.len(),
            frames@.len() == done,
            forall|j: int| 0 <= j < done ==> #[trigger] frames@[j] == pages@[j]@,
        decreases pages@.len() - done,
    {
        frames.push(pages[done].get_address().get_u64());
        done = done + 1;
    }
    assert(frames@ =~= frames_of(pages@));
    frames
}

/// Maps the 4 KiB pages from `virt_start_addr` on to the frames of
/// `phys_pages`, in their order, with `attributes`. Tables that are missing
/// are made from the frames of `phys_pages_for_pt`, taken from the front.
/// Everything is checked before anything is changed: a failed call leaves
/// the tables as they were. The range is checked first, then whether a page
/// is in use, then the number of spare frames; so a range with a page that
/// is mapped already fails with `PageAlreadyPresent`.
pub fn map_slice_lv1_page(
    memory: &mut TableMemory,
    root: PageRoot,
    phys_pages_for_pt: &[PhysLv1PageAddress],
    phys_pages: &[PhysLv1PageAddress],
    virt_start_addr: VirtLv1PageAddress,
    attributes: PageAttributes,
) -> (result: Result<(), PagingErros>)
    requires
        old(memory).wf(),
        old(memory).has_root(root@),
        virt_start_addr.wf(old(memory).spec_platform()),
        forall|j: int|
            0 <= j < phys_pages@.len() ==> (#[trigger] phys_pages@[j]).wf(
                old(memory).spec_platform(),
            ),
        spares_fresh(*old(memory), phys_pages_for_pt@, 0),
    ensures
        match result {
            Ok(_) => map_verdict(
                *old(memory),
                root@,
                virt_start_addr@,
                1,
                phys_pages@.len() as int,
                phys_pages_for_pt@.len() as int,
            ).is_none() && mapped(
                *old(memory),
                *final(memory),
                root@,
                virt_start_addr@,
                1,
                attributes,
                frames_of(phys_pages@),
                phys_pages_for_pt@,
            ),
            Err(e) => map_verdict(
                *old(memory),
                root@,
                virt_start_addr@,
                1,
                phys_pages@.len() as int,
                phys_pages_for_pt@.len() as int,
            ) == Some(e) && *final(memory) == *old(memory),
        },
        range_fits(old(memory).spec_platform(), virt_start_addr@, 1, phys_pages@.len() as int)
            && any_mapped(*old(memory), root@, virt_start_addr@, 1, phys_pages@.len() as int)
            ==> result == Err::<(), PagingErros>(PagingErros::PageAlreadyPresent)
            && *final(memory) == *old(memory),
{
    let frames = frames_lv1(phys_pages);
    map_checked(
        memory,
        root.address().get_address().get_u64(),
        virt_start_addr.get_address().get_u64(),
        1,
        &frames,
        attributes,
        phys_pages_for_pt,
    )
}

/// Maps the 4 KiB pages from `virt_start_addr` on to the frames of
/// `phys_pages`, as `map_slice_lv1_page` does.
pub fn map_vec_lv1_page(
    memory: &mut TableMemory,
    root: PageRoot,
    phys_pages_for_pt: Vec<PhysLv1PageAddress>,
    phys_pages: Vec<PhysLv1PageAddress>,
    virt_start_addr: VirtLv1PageAddress,
    attributes: PageAttributes,
) -> (result: Result<(), PagingErros>)
    requires
        old(memory).wf(),
        old(memory).has_root(root@),
        virt_start_addr.wf(old(memory).spec_platform()),
        forall|j: int|
            0 <= j < phys_pages@.len() ==> (#[trigger] phys_pages@[j]).wf(
                old(memory).spec_platform(),
            ),
        spares_fresh(*old(memory), phys_pages_for_pt@, 0),
    ensures
        match result {
            Ok(_) => map_verdict(
                *old(memory),
                root@,
                virt_start_addr@,
                1,
                phys_pages@.len() as int,
                phys_pages_for_pt@.len() as int,
            ).is_none() && mapped(
                *old(memory),
                *final(memory),
                root@,
                virt_start_addr@,
                1,
                attributes,
                frames_of(phys_pages@),
                phys_pages_for_pt@,
            ),
            Err(e) => map_verdict(
                *old(memory),
                root@,
                virt_start_addr@,
                1,
                phys_pages@.len() as int,
                phys_pages_for_pt@.len() as int,
            ) == Some(e) && *final(memory) == *old(memory),
        },
        range_fits(old(memory).spec_platform(), virt_start_addr@, 1, phys_pages@.len() as int)
            && any_mapped(*old(memory), root@, virt_start_addr@, 1, phys_pages@.len() as int)
            ==> result == Err::<(), PagingErros>(PagingErros::PageAlreadyPresent)
            && *final(memory) == *old(memory),
{
    map_slice_lv1_page(
        memory,
        root,
        phys_pages_for_pt.as_slice(),
        phys_pages.as_slice(),
        virt_start_addr,
        attributes,
    )
}

/// Unmaps the pages of the range that are mapped as 4 KiB pages and
/// returns the frames of the tables that this leaves without an entry in
/// use. A page of the range that is not mapped, or that a page of another
/// size covers, stays as it is. `NumberOfPagesOutOfBounds` exactly when the
/// pages are no range; nothing is changed then.
pub fn unmap_lv1_page(
    memory: &mut TableMemory,
    root: PageRoot,
    start: VirtLv1PageAddress,
    number_of_pages: u64,
) -> (result: Result<Vec<PhysLv1PageAddress>, PagingErros>)
    requires
        old(memory).wf(),
        old(memory).has_root(root@),
        start.wf(old(memory).spec_platform()),
    ensures
        result.is_ok() == range_fits(
            old(memory).spec_platform(),
            start@,
            1,
            number_of_pages as int,
        ),
        match result {
            Ok(freed) => {
                &&& reclaimed(*old(memory), *final(memory), Seq::empty(), freed@)
                &&& unmapped(
                    *old(memory),
                    *final(memory),
                    root@,
                    start@,
                    1,
                    number_of_pages as int,
                )
            },
            Err(e) => e == PagingErros::NumberOfPagesOutOfBounds && *final(memory) == *old(
                memory,
            ),
        },
{
    let first: u64 = start.get_address().get_u64();
    if !check_range(memory.platform(), first, 1, number_of_pages) {
        return Err(PagingErros::NumberOfPagesOutOfBounds);
    }
    Ok(unmap_range(memory, root.address().get_address().get_u64(), first, 1, number_of_pages))
}

/// The number of spare frames that mapping `number_of_pages` 4 KiB pages
/// from `start` on takes: one for each table that is missing on the way to
/// one of the pages. Nothing is changed. `NumberOfPagesOutOfBounds` exactly
/// when the pages are no range.
pub fn needed_pt_pages_lv1(
    memory: &TableMemory,
    root: PageRoot,
    start: VirtLv1PageAddress,
    number_of_pages: u64,
) -> (needed: Result<u64, PagingErros>)
    requires
        memory.wf(),
        memory.has_root(root@),
        start.wf(memory.spec_platform()),
    ensures
        match needed {
            Ok(count) => range_fits(memory.spec_platform(), start@, 1, number_of_pages as int)
                && count == needed_tables(*memory, root@, start@, 1, number_of_pages as int),
            Err(e) => !range_fits(memory.spec_platform(), start@, 1, number_of_pages as int)
                && e == PagingErros::NumberOfPagesOutOfBounds,
        },
{
    let first: u64 = start.get_address().get_u64();
    if !check_range(memory.platform(), first, 1, number_of_pages) {
        return Err(PagingErros::NumberOfPagesOutOfBounds);
    }
    let (_, needed) = plan(
        memory,
        root.address().get_address().get_u64(),
        first,
        1,
        number_of_pages,
    );
    Ok(needed)
}

/// The frame addresses of `pages`, in order.
fn frames_lv2(pages: &[PhysLv2PageAddress]) -> (frames: Vec<u64>)
    ensures
        frames@ == frames_of(pages@),
{
    let mut frames: Vec<u64> = Vec::new();
    let mut done: usize = 0;
    while done < pages.len()
        invariant
            done <= pages@.len(),
            frames@.len() == done,
            forall|j: int| 0 <= j < done ==> #[trigger] frames@[j] == pages@[j]@,
        decreases pages@.len() - done,
    {
        frames.push(pages[done].get_address().get_u64());
        done = done + 1;
    }
    assert(frames@ =~= frames_of(pages@));
    frames
}

/// Maps the 2 MiB pages from `virt_start_addr` on to the frames of
/// `phys_pages`, in their order, with `attributes`. Tables that are missing
/// are made from the frames of `phys_pages_for_pt`, taken from the front.
/// Everything is checked before anything is changed: a failed call leaves
/// the tables as they were. The range is checked first, then whether a page
/// is in use, then the number of spare frames; so a range with a page that
/// is mapped already fails with `PageAlreadyPresent`.
pub fn map_slice_lv2_page(
    memory: &mut TableMemory,
    root: PageRoot,
    phys_pages_for_pt: &[PhysLv1PageAddress],
    phys_pages: &[PhysLv2PageAddress],
    virt_start_addr: VirtLv2PageAddress,
    attributes: PageAttributes,
) -> (result: Result<(), PagingErros>)
    requires
        old(memory).wf(),
        old(memory).has_root(root@),
        virt_start_addr.wf(old(memory).spec_platform()),
        forall|j: int|
            0 <= j < phys_pages@.len() ==> (#[trigger] phys_pages@[j]).wf(
                old(memory).spec_platform(),
            ),
        spares_fresh(*old(memory), phys_pages_for_pt@, 0),
    ensures
        match result {
            Ok(_) => map_verdict(
                *old(memory),
                root@,
                virt_start_addr@,
                2,
                phys_pages@.len() as int,
                phys_pages_for_pt@.len() as int,
            ).is_none() && mapped(
                *old(memory),
                *final(memory),
                root@,
                virt_start_addr@,
                2,
                attributes,
                frames_of(phys_pages@),
                phys_pages_for_pt@,
            ),
            Err(e) => map_verdict(
                *old(memory),
                root@,
                virt_start_addr@,
                2,
                phys_pages@.len() as int,
                phys_pages_for_pt@.len() as int,
            ) == Some(e) && *final(memory) == *old(memory),
        },
        range_fits(old(memory).spec_platform(), virt_start_addr@, 2, phys_pages@.len() as int)
            && any_mapped(*old(memory), root@, virt_start_addr@, 2, phys_pages@.len() as int)
            ==> result == Err::<(), PagingErros>(PagingErros::PageAlreadyPresent)
            && *final(memory) == *old(memory),
{
    let frames = frames_lv2(phys_pages);
    map_checked(
        memory,
        root.address().get_address().get_u64(),
        virt_start_addr.get_address().get_u64(),
        2,
        &frames,
        attributes,
        phys_pages_for_pt,
    )
}

/// Maps the 2 MiB pages from `virt_start_addr` on to the frames of
/// `phys_pages`, as `map_slice_lv2_page` does.
pub fn map_vec_lv2_page(
    memory: &mut TableMemory,
    root: PageRoot,
    phys_pages_for_pt: Vec<PhysLv1PageAddress>,
    phys_pages: Vec<PhysLv2PageAddress>,
    virt_start_addr: VirtLv2PageAddress,
    attributes: PageAttributes,
) -> (result: Result<(), PagingErros>)
    requires
        old(memory).wf(),
        old(memory).has_root(root@),
        virt_start_addr.wf(old(memory).spec_platform()),
        forall|j: int|
            0 <= j < phys_pages@.len() ==> (#[trigger] phys_pages@[j]).wf(
                old(memory).spec_platform(),
            ),
        spares_fresh(*old(memory), phys_pages_for_pt@, 0),
    ensures
        match result {
            Ok(_) => map_verdict(
                *old(memory),
                root@,
                virt_start_addr@,
                2,
                phys_pages@.len() as int,
                phys_pages_for_pt@.len() as int,
            ).is_none() && mapped(
                *old(memory),
                *final(memory),
                root@,
                virt_start_addr@,
                2,
                attributes,
                frames_of(phys_pages@),
                phys_pages_for_pt@,
            ),
            Err(e) => map_verdict(
                *old(memory),
                root@,
                virt_start_addr@,
                2,
                phys_pages@.len() as int,
                phys_pages_for_pt@.len() as int,
            ) == Some(e) && *final(memory) == *old(memory),
        },
        range_fits(old(memory).spec_platform(), virt_start_addr@, 2, phys_pages@.len() as int)
            && any_mapped(*old(memory), root@, virt_start_addr@, 2, phys_pages@.len() as int)
            ==> result == Err::<(), PagingErros>(PagingErros::PageAlreadyPresent)
            && *final(memory) == *old(memory),
{
    map_slice_lv2_page(
        memory,
        root,
        phys_pages_for_pt.as_slice(),
        phys_pages.as_slice(),
        virt_start_addr,
        attributes,
    )
}

/// Unmaps the pages of the range that are mapped as 2 MiB pages and
/// returns the frames of the tables that this leaves without an entry in
/// use. A page of the range that is not mapped, or that a page of another
/// size covers, stays as it is. `NumberOfPagesOutOfBounds` exactly when the
/// pages are no range; nothing is changed then.
pub fn unmap_lv2_page(
    memory: &mut TableMemory,
    root: PageRoot,
    start: VirtLv2PageAddress,
    number_of_pages: u64,
) -> (result: Result<Vec<PhysLv1PageAddress>, PagingErros>)
    requires
        old(memory).wf(),
        old(memory).has_root(root@),
        start.wf(old(memory).spec_platform()),
    ensures
        result.is_ok() == range_fits(
            old(memory).spec_platform(),
            start@,
            2,
            number_of_pages as int,
        ),
        match result {
            Ok(freed) => {
                &&& reclaimed(*old(memory), *final(memory), Seq::empty(), freed@)
                &&& unmapped(
                    *old(memory),
                    *final(memory),
                    root@,
                    start@,
                    2,
                    number_of_pages as int,
                )
            },
            Err(e) => e == PagingErros::NumberOfPagesOutOfBounds && *final(memory) == *old(
                memory,
            ),
        },
{
    let first: u64 = start.get_address().get_u64();
    if !check_range(memory.platform(), first, 2, number_of_pages) {
        return Err(PagingErros::NumberOfPagesOutOfBounds);
    }
    Ok(unmap_range(memory, root.address().get_address().get_u64(), first, 2, number_of_pages))
}

/// The number of spare frames that mapping `number_of_pages` 2 MiB pages
/// from `start` on takes: one for each table that is missing on the way to
/// one of the pages. Nothing is changed. `NumberOfPagesOutOfBounds` exactly
/// when the pages are no range.
pub fn needed_pt_pages_lv2(
    memory: &TableMemory,
    root: PageRoot,
    start: VirtLv2PageAddress,
    number_of_pages: u64,
) -> (needed: Result<u64, PagingErros>)
    requires
        memory.wf(),
        memory.has_root(root@),
        start.wf(memory.spec_platform()),
    ensures
        match needed {
            Ok(count) => range_fits(memory.spec_platform(), start@, 2, number_of_pages as int)
                && count == needed_tables(*memory, root@, start@, 2, number_of_pages as int),
            Err(e) => !range_fits(memory.spec_platform(), start@, 2, number_of_pages as int)
                && e == PagingErros::NumberOfPagesOutOfBounds,
        },
{
    let first: u64 = start.get_address().get_u64();
    if !check_range(memory.platform(), first, 2, number_of_pages) {
        return Err(PagingErros::NumberOfPagesOutOfBounds);
    }
    let (_, needed) = plan(
        memory,
        root.address().get_address().get_u64(),
        first,
        2,
        number_of_pages,
    );
    Ok(needed)
}

/// The frame addresses of `pages`, in order.
fn frames_lv3(pages: &[PhysLv3PageAddress]) -> (frames: Vec<u64>)
    ensures
        frames@ == frames_of(pages@),
{
    let mut frames: Vec<u64> = Vec::new();
    let mut done: usize = 0;
    while done < pages.len()
        invariant
            done <= pages@.len(),
            frames@.len() == done,
            forall|j: int| 0 <= j < done ==> #[trigger] frames@[j] == pages@[j]@,
        decreases pages@.len() - done,
    {
        frames.push(pages[done].get_address().get_u64());
        done = done + 1;
    }
    assert(frames@ =~= frames_of(pages@));
    frames
}

/// Maps the 1 GiB pages from `virt_start_addr` on to the frames of
/// `phys_pages`, in their order, with `attributes`. Tables that are missing
/// are made from the frames of `phys_pages_for_pt`, taken from the front.
/// Everything is checked before anything is changed: a failed call leaves
/// the tables as they were. The range is checked first, then whether a page
/// is in use, then the number of spare frames; so a range with a page that
/// is mapped already fails with `PageAlreadyPresent`.
pub fn map_slice_lv3_page(
    memory: &mut TableMemory,
    root: PageRoot,
    phys_pages_for_pt: &[PhysLv1PageAddress],
    phys_pages: &[PhysLv3PageAddress],
    virt_start_addr: VirtLv3PageAddress,
    attributes: PageAttributes,
) -> (result: Result<(), PagingErros>)
    requires
        old(memory).wf(),
        old(memory).has_root(root@),
        virt_start_addr.wf(old(memory).spec_platform()),
        forall|j: int|
            0 <= j < phys_pages@.len() ==> (#[trigger] phys_pages@[j]).wf(
                old(memory).spec_platform(),
            ),
        spares_fresh(*old(memory), phys_pages_for_pt@, 0),
    ensures
        match result {
            Ok(_) => map_verdict(
                *old(memory),
                root@,
                virt_start_addr@,
                3,
                phys_pages@.len() as int,
                phys_pages_for_pt@.len() as int,
            ).is_none() && mapped(
                *old(memory),
                *final(memory),
                root@,
                virt_start_addr@,
                3,
                attributes,
                frames_of(phys_pages@),
                phys_pages_for_pt@,
            ),
            Err(e) => map_verdict(
                *old(memory),
                root@,
                virt_start_addr@,
                3,
                phys_pages@.len() as int,
                phys_pages_for_pt@.len() as int,
            ) == Some(e) && *final(memory) == *old(memory),
        },
        range_fits(old(memory).spec_platform(), virt_start_addr@, 3, phys_pages@.len() as int)
            && any_mapped(*old(memory), root@, virt_start_addr@, 3, phys_pages@.len() as int)
            ==> result == Err::<(), PagingErros>(PagingErros::PageAlreadyPresent)
            && *final(memory) == *old(memory),
{
    let frames = frames_lv3(phys_pages);
    map_checked(
        memory,
        root.address().get_address().get_u64(),
        virt_start_addr.get_address().get_u64(),
        3,
        &frames,
        attributes,
        phys_pages_for_pt,
    )
}

/// Maps the 1 GiB pages from `virt_start_addr` on to the frames of
/// `phys_pages`, as `map_slice_lv3_page` does.
pub fn map_vec_lv3_page(
    memory: &mut TableMemory,
    root: PageRoot,
    phys_pages_for_pt: Vec<PhysLv1PageAddress>,
    phys_pages: Vec<PhysLv3PageAddress>,
    virt_start_addr: VirtLv3PageAddress,
    attributes: PageAttributes,
) -> (result: Result<(), PagingErros>)
    requires
        old(memory).wf(),
        old(memory).has_root(root@),
        virt_start_addr.wf(old(memory).spec_platform()),
        forall|j: int|
            0 <= j < phys_pages@.len() ==> (#[trigger] phys_pages@[j]).wf(
                old(memory).spec_platform(),
            ),
        spares_fresh(*old(memory), phys_pages_for_pt@, 0),
    ensures
        match result {
            Ok(_) => map_verdict(
                *old(memory),
                root@,
                virt_start_addr@,
                3,
                phys_pages@.len() as int,
                phys_pages_for_pt@.len() as int,
            ).is_none() && mapped(
                *old(memory),
                *final(memory),
                root@,
                virt_start_addr@,
                3,
                attributes,
                frames_of(phys_pages@),
                phys_pages_for_pt@,
            ),
            Err(e) => map_verdict(
                *old(memory),
                root@,
                virt_start_addr@,
                3,
                phys_pages@.len() as int,
                phys_pages_for_pt@.len() as int,
            ) == Some(e) && *final(memory) == *old(memory),
        },
        range_fits(old(memory).spec_platform(), virt_start_addr@, 3, phys_pages@.len() as int)
            && any_mapped(*old(memory), root@, virt_start_addr@, 3, phys_pages@.len() as int)
            ==> result == Err::<(), PagingErros>(PagingErros::PageAlreadyPresent)
            && *final(memory) == *old(memory),
{
    map_slice_lv3_page(
        memory,
        root,
        phys_pages_for_pt.as_slice(),
        phys_pages.as_slice(),
        virt_start_addr,
        attributes,
    )
}

/// Unmaps the pages of the range that are mapped as 1 GiB pages and
/// returns the frames of the tables that this leaves without an entry in
/// use. A page of the range that is not mapped, or that a page of another
/// size covers, stays as it is. `NumberOfPagesOutOfBounds` exactly when the
/// pages are no range; nothing is changed then.
pub fn unmap_lv3_page(
    memory: &mut TableMemory,
    root: PageRoot,
    start: VirtLv3PageAddress,
    number_of_pages: u64,
) -> (result: Result<Vec<PhysLv1PageAddress>, PagingErros>)
    requires
        old(memory).wf(),
        old(memory).has_root(root@),
        start.wf(old(memory).spec_platform()),
    ensures
        result.is_ok() == range_fits(
            old(memory).spec_platform(),
            start@,
            3,
            number_of_pages as int,
        ),
        match result {
            Ok(freed) => {
                &&& reclaimed(*old(memory), *final(memory), Seq::empty(), freed@)
                &&& unmapped(
                    *old(memory),
                    *final(memory),
                    root@,
                    start@,
                    3,
                    number_of_pages as int,
                )
            },
            Err(e) => e == PagingErros::NumberOfPagesOutOfBounds && *final(memory) == *old(
                memory,
            ),
        },
{
    let first: u64 = start.get_address().get_u64();
    if !check_range(memory.platform(), first, 3, number_of_pages) {
        return Err(PagingErros::NumberOfPagesOutOfBounds);
    }
    Ok(unmap_range(memory, root.address().get_address().get_u64(), first, 3, number_of_pages))
}

/// The number of spare frames that mapping `number_of_pages` 1 GiB pages
/// from `start` on takes: one for each table that is missing on the way to
/// one of the pages. Nothing is changed. `NumberOfPagesOutOfBounds` exactly
/// when the pages are no range.
pub fn needed_pt_pages_lv3(
    memory: &TableMemory,
    root: PageRoot,
    start: VirtLv3PageAddress,
    number_of_pages: u64,
) -> (needed: Result<u64, PagingErros>)
    requires
        memory.wf(),
        memory.has_root(root@),
        start.wf(memory.spec_platform()),
    ensures
        match needed {
            Ok(count) => range_fits(memory.spec_platform(), start@, 3, number_of_pages as int)
                && count == needed_tables(*memory, root@, start@, 3, number_of_pages as int),
            Err(e) => !range_fits(memory.spec_platform(), start@, 3, number_of_pages as int)
                && e == PagingErros::NumberOfPagesOutOfBounds,
        },
{
    let first: u64 = start.get_address().get_u64();
    if !check_range(memory.platform(), first, 3, number_of_pages) {
        return Err(PagingErros::NumberOfPagesOutOfBounds);
    }
    let (_, needed) = plan(
        memory,
        root.address().get_address().get_u64(),
        first,
        3,
        number_of_pages,
    );
    Ok(needed)
}

/// Gives every page that is mapped at an address from the page of
/// `virt_start_addr` up to, but without, `virt_end_addr` the attributes
/// `attributes`. A large page is updated as a whole; none is split.
pub fn update_page_attributes(
    memory: &mut TableMemory,
    root: PageRoot,
    virt_start_addr: VirtAddress,
    virt_end_addr: VirtAddress,
    attributes: PageAttributes,
)
    requires
        old(memory).wf(),
        old(memory).has_root(root@),
    ensures
        final(memory).wf(),
        final(memory).spec_platform() == old(memory).spec_platform(),
        forall|r: u64| #[trigger] final(memory).has_root(r) == old(memory).has_root(r),
        forall|x: u64| #[trigger] final(memory).has_table(x) == old(memory).has_table(x),
        forall|r: u64, va: u64|
            old(memory).has_root(r) ==> #[trigger] final(memory).resolve(r, va) == updated(
                old(memory).resolve(r, va),
                r == root@,
                virt_start_addr@ & LV1_PAGE_MASK_4K,
                pages_between(virt_start_addr@, virt_end_addr@),
                attributes,
                va,
            ),
{
    update_range(
        memory,
        root.address().get_address().get_u64(),
        virt_start_addr.get_u64(),
        virt_end_addr.get_u64(),
        attributes,
    );
}

} // verus!
