//! Queries on a tree of tables: what an address translates to.

use crate::memory::VirtAddress;
use crate::page_address::{VirtLv1PageAddress, VirtLv2PageAddress, VirtLv3PageAddress};
use crate::paging::{Lv1Page, Lv2Page, Lv3Page, Page};
use crate::platform::{Platform, LV1_PAGE_MASK_4K, LV2_PAGE_MASK_2M, LV3_PAGE_MASK_1G};
use crate::pml2::Pml1Or2M;
use crate::pml3::Pml2Or1G;
use crate::table::{ArchPageRoot, TableMemory};
use vstd::prelude::*;

verus! {

/// The handle of an address space.
pub type PageRoot = ArchPageRoot;

/// The mask of the page size that a leaf of `level` maps.
pub open spec fn page_mask_of(level: int) -> u64 {
    if level == 3 {
        LV3_PAGE_MASK_1G
    } else if level == 2 {
        LV2_PAGE_MASK_2M
    } else {
        LV1_PAGE_MASK_4K
    }
}

/// Whether `page` is the report for a walk that ended as `found` says: the
/// level of the leaf decides the variant, the leaf gives the attributes and
/// the frame, and the virtual address is `address` rounded down to the page.
pub open spec fn reports(
    platform: Platform,
    page: Page,
    found: (int, crate::paging::PageAttributes, u64),
    address: u64,
) -> bool {
    match page {
        Page::Unmapped => false,
        Page::Lv1Page(p) => found == (1int, p.attributes, p.phys_address@) && p.virt_address@
            == address & LV1_PAGE_MASK_4K && p.phys_address.wf(platform) && p.virt_address.wf(
            platform,
        ),
        Page::Lv2Page(p) => found == (2int, p.attributes, p.phys_address@) && p.virt_address@
            == address & LV2_PAGE_MASK_2M && p.phys_address.wf(platform) && p.virt_address.wf(
            platform,
        ),
        Page::Lv3Page(p) => found == (3int, p.attributes, p.phys_address@) && p.virt_address@
            == address & LV3_PAGE_MASK_1G && p.phys_address.wf(platform) && p.virt_address.wf(
            platform,
        ),
    }
}

/// Whether a page that starts at `base` can be named: `base` is a valid
/// virtual address. It is for every valid address but those of the page at
/// address zero.
pub open spec fn nameable(platform: Platform, base: u64) -> bool {
    VirtAddress::verdict(platform, base).is_none()
}

/// Whether `page` is what a query for `address` in the tree of `root` owes:
/// the page that the walk ends at, where it ends at a leaf whose page can be
/// named, and nothing otherwise.
pub open spec fn answers(
    memory: TableMemory,
    root: u64,
    address: u64,
    page: Option<Page>,
) -> bool {
    match memory.resolve(root, address) {
        Some(found) => {
            if nameable(memory.spec_platform(), address & page_mask_of(found.0)) {
                page matches Some(p) && reports(memory.spec_platform(), p, found, address)
            } else {
                page.is_none()
            }
        },
        None => page.is_none(),
    }
}

/// What `virt_start_addr` translates to in the address space of `root`.
pub fn get_single_page(memory: &TableMemory, root: PageRoot, virt_start_addr: VirtAddress) -> (page:
    Option<Page>)
    requires
        memory.wf(),
        memory.has_root(root@),
    ensures
        answers(*memory, root@, virt_start_addr@, page),
{
    resolve_address(memory, root, virt_start_addr.get_u64())
}

/// What the 64-bit value `address` translates to in the address space of
/// `root`.
pub fn resolve_address(memory: &TableMemory, root: PageRoot, address: u64) -> (page: Option<Page>)
    requires
        memory.wf(),
        memory.has_root(root@),
    ensures
        answers(*memory, root@, address, page),
{
    let platform = memory.platform();
    let (pml5, pml4, pml3, pml2, pml1) = crate::entry::decode_address(address);
    let ghost r = root@;
    assert(memory.table_on_path(r, address, 5) == Some(r));
    let table4 = match crate::pml4_5::read_page(memory, root.address(), pml5) {
        Some(table) => table,
        None => {
            assert(memory.table_on_path(r, address, 4).is_none());
            assert(memory.table_on_path(r, address, 3).is_none());
            assert(memory.table_on_path(r, address, 2).is_none());
            assert(memory.table_on_path(r, address, 1).is_none());
            return None;
        },
    };
    assert(memory.edge_ok(r, pml5 as int));
    assert(memory.table_on_path(r, address, 4) == Some(table4@));
    let table3 = match crate::pml4_5::read_page(memory, table4, pml4) {
        Some(table) => table,
        None => {
            assert(memory.table_on_path(r, address, 3).is_none());
            assert(memory.table_on_path(r, address, 2).is_none());
            assert(memory.table_on_path(r, address, 1).is_none());
            return None;
        },
    };
    assert(memory.edge_ok(table4@, pml4 as int));
    assert(memory.table_on_path(r, address, 3) == Some(table3@));
    let table2 = match crate::pml3::read_page(memory, table3, pml3) {
        Some(Pml2Or1G::Pml2(table)) => table,
        Some(Pml2Or1G::G1(attributes, phys_address)) => {
            return match VirtLv3PageAddress::new(platform, address & platform.lv3_page_mask()) {
                Ok(virt_address) => Some(
                    Page::Lv3Page(Lv3Page { attributes, phys_address, virt_address }),
                ),
                Err(_) => {
                    proof {
                        crate::page_address::lemma_page_mask(LV3_PAGE_MASK_1G, 0, address);
                    }
                    None
                },
            };
        },
        None => {
            assert(memory.table_on_path(r, address, 2).is_none());
            assert(memory.table_on_path(r, address, 1).is_none());
            return None;
        },
    };
    assert(memory.edge_ok(table3@, pml3 as int));
    assert(memory.table_on_path(r, address, 2) == Some(table2@));
    let table1 = match crate::pml2::read_page(memory, table2, pml2) {
        Some(Pml1Or2M::Pml1(table)) => table,
        Some(Pml1Or2M::MB2(attributes, phys_address)) => {
            return match VirtLv2PageAddress::new(platform, address & platform.lv2_page_mask()) {
                Ok(virt_address) => Some(
                    Page::Lv2Page(Lv2Page { attributes, phys_address, virt_address }),
                ),
                Err(_) => {
                    proof {
                        crate::page_address::lemma_page_mask(LV2_PAGE_MASK_2M, 0, address);
                    }
                    None
                },
            };
        },
        None => {
            assert(memory.table_on_path(r, address, 1).is_none());
            return None;
        },
    };
    assert(memory.edge_ok(table2@, pml2 as int));
    assert(memory.table_on_path(r, address, 1) == Some(table1@));
    match crate::pml1::read_page(memory, table1, pml1) {
        Some((attributes, phys_address)) => {
            match VirtLv1PageAddress::new(platform, address & platform.lv1_page_mask()) {
                Ok(virt_address) => Some(
                    Page::Lv1Page(Lv1Page { attributes, phys_address, virt_address }),
                ),
                Err(_) => {
                    proof {
                        crate::page_address::lemma_page_mask(LV1_PAGE_MASK_4K, 0, address);
                    }
                    None
                },
            }
        },
        None => None,
    }
}

/// The number of 4 KiB pages from the page of `start` up to, but without,
/// the address `end`.
pub open spec fn pages_between(start: u64, end: u64) -> int {
    let base = start & LV1_PAGE_MASK_4K;
    if end <= base {
        0
    } else {
        (end - base - 1) / 4096 + 1
    }
}

/// What each 4 KiB page from the page of `virt_start_addr` up to, but
/// without, `virt_end_addr` translates to, in ascending order.
pub fn get_vec_page(
    memory: &TableMemory,
    root: PageRoot,
    virt_start_addr: VirtAddress,
    virt_end_addr: VirtAddress,
) -> (pages: Vec<Option<Page>>)
    requires
        memory.wf(),
        memory.has_root(root@),
        pages_between(virt_start_addr@, virt_end_addr@) <= usize::MAX,
    ensures
        pages@.len() == pages_between(virt_start_addr@, virt_end_addr@),
        forall|i: int|
            0 <= i < pages@.len() ==> answers(
                *memory,
                root@,
                ((virt_start_addr@ & LV1_PAGE_MASK_4K) + i * 4096) as u64,
                #[trigger] pages@[i],
            ),
{
    let end: u64 = virt_end_addr.get_u64();
    let base: u64 = virt_start_addr.get_u64() & LV1_PAGE_MASK_4K;
    let count: u64 = if end <= base {
        0
    } else {
        (end - base - 1) / 4096 + 1
    };
    let mut pages: Vec<Option<Page>> = Vec::new();
    let mut done: u64 = 0;
    while done < count
        invariant
            memory.wf(),
            memory.has_root(root@),
            base == virt_start_addr@ & LV1_PAGE_MASK_4K,
            count == pages_between(virt_start_addr@, virt_end_addr@),
            count <= usize::MAX,
            count > 0 ==> base + (count - 1) * 4096 <= u64::MAX,
            done <= count,
            pages@.len() == done,
            forall|i: int|
                0 <= i < pages@.len() ==> answers(
                    *memory,
                    root@,
                    (base + i * 4096) as u64,
                    #[trigger] pages@[i],
                ),
        decreases count - done,
    {
        let address: u64 = base + done * 4096;
        let page = resolve_address(memory, root, address);
        pages.push(page);
        done = done + 1;
    }
    pages
}

} // verus!
