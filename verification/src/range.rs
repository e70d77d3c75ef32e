//! Ranges of consecutive pages: which are valid, and how the entries that
//! their addresses select relate.

use crate::memory::VirtAddress;
use crate::platform::Platform;
use crate::query::page_mask_of;
use crate::table::spec_index_at;
use crate::walk::same_indices_from;
use vstd::prelude::*;

verus! {

/// The size in bytes of the page that a leaf of `level` maps.
pub open spec fn page_bytes(level: int) -> int {
    if level == 3 {
        0x4000_0000
    } else if level == 2 {
        0x20_0000
    } else {
        0x1000
    }
}

/// The address of page number `i` of a range of pages of `level` that starts
/// at `start`.
pub open spec fn page_at(start: u64, level: int, i: int) -> u64 {
    (start + i * page_bytes(level)) as u64
}

/// Whether `count` pages of `level` from `start` on are a range: the last
/// page starts at a valid address, in the same half of the address space as
/// the first, so that the range neither wraps around nor crosses the
/// non-canonical hole.
pub open spec fn range_fits(platform: Platform, start: u64, level: int, count: int) -> bool {
    count <= 0 || {
        let last = start + (count - 1) * page_bytes(level);
        &&& last <= u64::MAX
        &&& VirtAddress::verdict(platform, last as u64).is_none()
        &&& VirtAddress::extends_sign(platform, start) == VirtAddress::extends_sign(
            platform,
            last as u64,
        )
    }
}

/// The bits of an address that select entries at `level` and above, as a
/// number: the address without what lies above bit 56, shifted down to the
/// index of `level`.
pub open spec fn prefix(level: int, address: u64) -> u64 {
    if level >= 6 {
        0
    } else if level == 5 {
        (address & 0x1FF_FFFF_FFFF_FFFF) >> 48
    } else if level == 4 {
        (address & 0x1FF_FFFF_FFFF_FFFF) >> 39
    } else if level == 3 {
        (address & 0x1FF_FFFF_FFFF_FFFF) >> 30
    } else if level == 2 {
        (address & 0x1FF_FFFF_FFFF_FFFF) >> 21
    } else {
        (address & 0x1FF_FFFF_FFFF_FFFF) >> 12
    }
}

/// Two addresses select the same entries at `level` and above exactly when
/// their prefixes at `level` are equal.
pub proof fn lemma_prefix_indices(level: int, a: u64, b: u64)
    requires
        1 <= level <= 6,
    ensures
        same_indices_from(level, a, b) <==> prefix(level, a) == prefix(level, b),
{
    let m: u64 = 0x1FF_FFFF_FFFF_FFFF;
    let e5 = (a >> 48) & 0x1FF == (b >> 48) & 0x1FF;
    let e4 = (a >> 39) & 0x1FF == (b >> 39) & 0x1FF;
    let e3 = (a >> 30) & 0x1FF == (b >> 30) & 0x1FF;
    let e2 = (a >> 21) & 0x1FF == (b >> 21) & 0x1FF;
    let e1 = (a >> 12) & 0x1FF == (b >> 12) & 0x1FF;
    assert({
        &&& e5 <==> (a & m) >> 48 == (b & m) >> 48
        &&& (e5 && e4) <==> (a & m) >> 39 == (b & m) >> 39
        &&& (e5 && e4 && e3) <==> (a & m) >> 30 == (b & m) >> 30
        &&& (e5 && e4 && e3 && e2) <==> (a & m) >> 21 == (b & m) >> 21
        &&& (e5 && e4 && e3 && e2 && e1) <==> (a & m) >> 12 == (b & m) >> 12
    }) by (bit_vector)
        requires
            m == 0x1FF_FFFF_FFFF_FFFFu64,
            e5 == ((a >> 48) & 0x1FF == (b >> 48) & 0x1FF),
            e4 == ((a >> 39) & 0x1FF == (b >> 39) & 0x1FF),
            e3 == ((a >> 30) & 0x1FF == (b >> 30) & 0x1FF),
            e2 == ((a >> 21) & 0x1FF == (b >> 21) & 0x1FF),
            e1 == ((a >> 12) & 0x1FF == (b >> 12) & 0x1FF),
    ;
    if same_indices_from(level, a, b) {
        assert(level <= 5 ==> spec_index_at(5, a) == spec_index_at(5, b));
        assert(level <= 4 ==> spec_index_at(4, a) == spec_index_at(4, b));
        assert(level <= 3 ==> spec_index_at(3, a) == spec_index_at(3, b));
        assert(level <= 2 ==> spec_index_at(2, a) == spec_index_at(2, b));
        assert(level <= 1 ==> spec_index_at(1, a) == spec_index_at(1, b));
    }
}

/// Among addresses that agree above bit 56, the prefix grows with the
/// address, and strictly between two different page addresses of `level`.
pub proof fn lemma_prefix_monotone(level: int, a: u64, b: u64)
    requires
        1 <= level <= 6,
        a <= b,
        a >> 57 == b >> 57,
    ensures
        prefix(level, a) <= prefix(level, b),
        level <= 3 && a < b && a & !page_mask_of(level) == 0 && b & !page_mask_of(level) == 0
            ==> prefix(level, a) < prefix(level, b),
{
    let m: u64 = 0x1FF_FFFF_FFFF_FFFF;
    assert({
        &&& (a & m) >> 48 <= (b & m) >> 48
        &&& (a & m) >> 39 <= (b & m) >> 39
        &&& (a & m) >> 30 <= (b & m) >> 30
        &&& (a & m) >> 21 <= (b & m) >> 21
        &&& (a & m) >> 12 <= (b & m) >> 12
        &&& (a < b && a & !0xFFFF_FFFF_C000_0000u64 == 0 && b & !0xFFFF_FFFF_C000_0000u64 == 0)
            ==> (a & m) >> 30 < (b & m) >> 30
        &&& (a < b && a & !0xFFFF_FFFF_FFE0_0000u64 == 0 && b & !0xFFFF_FFFF_FFE0_0000u64 == 0)
            ==> (a & m) >> 21 < (b & m) >> 21
        &&& (a < b && a & !0xFFFF_FFFF_FFFF_F000u64 == 0 && b & !0xFFFF_FFFF_FFFF_F000u64 == 0)
            ==> (a & m) >> 12 < (b & m) >> 12
    }) by (bit_vector)
        requires
            m == 0x1FF_FFFF_FFFF_FFFFu64,
            a <= b,
            a >> 57 == b >> 57,
    ;
}

/// What a platform with the x86-64 page table asks of a virtual address, in
/// bits: it is not zero, and the bits above the canonical bit repeat it.
pub proof fn lemma_valid_bits(platform: Platform, address: u64)
    requires
        platform.wf(),
        platform.has_x86_64_paging(),
    ensures
        VirtAddress::verdict(platform, address).is_none() <==> (address != 0 && {
            let high: u64 = if platform.spec_canonical_bit() == Some(47u8) {
                0xFFFF_8000_0000_0000
            } else {
                0xFF00_0000_0000_0000
            };
            address & high == 0 || address & high == high
        }),
        VirtAddress::verdict(platform, address).is_none() ==> (VirtAddress::extends_sign(
            platform,
            address,
        ) <==> address & (if platform.spec_canonical_bit() == Some(47u8) {
            0xFFFF_8000_0000_0000u64
        } else {
            0xFF00_0000_0000_0000u64
        }) != 0),
{
    let mask = platform.spec_virt_mask();
    assert(crate::platform::low_mask(48) == 0xFFFF_FFFF_FFFFu64 && crate::platform::low_mask(57)
        == 0x1FF_FFFF_FFFF_FFFFu64) by (bit_vector);
    if platform.spec_canonical_bit() == Some(47u8) {
        assert(mask == 0xFFFF_FFFF_FFFFu64);
        assert({
            &&& (address & (1u64 << 47) != 0 && address & !mask == !mask) <==> address
                & 0xFFFF_8000_0000_0000u64 == 0xFFFF_8000_0000_0000u64
            &&& (address & (1u64 << 47) == 0 && address & !mask == 0) <==> address
                & 0xFFFF_8000_0000_0000u64 == 0
        }) by (bit_vector)
            requires
                mask == 0xFFFF_FFFF_FFFFu64,
        ;
    } else {
        assert(mask == 0x1FF_FFFF_FFFF_FFFFu64);
        assert({
            &&& (address & (1u64 << 56) != 0 && address & !mask == !mask) <==> address
                & 0xFF00_0000_0000_0000u64 == 0xFF00_0000_0000_0000u64
            &&& (address & (1u64 << 56) == 0 && address & !mask == 0) <==> address
                & 0xFF00_0000_0000_0000u64 == 0
        }) by (bit_vector)
            requires
                mask == 0x1FF_FFFF_FFFF_FFFFu64,
        ;
    }
}

/// An address between two valid addresses of the same half is valid, lies
/// in that half and agrees with both above bit 56.
pub proof fn lemma_between_valid(platform: Platform, low: u64, middle: u64, high: u64)
    requires
        platform.wf(),
        platform.has_x86_64_paging(),
        low <= middle <= high,
        VirtAddress::verdict(platform, low).is_none(),
        VirtAddress::verdict(platform, high).is_none(),
        VirtAddress::extends_sign(platform, low) == VirtAddress::extends_sign(platform, high),
    ensures
        VirtAddress::verdict(platform, middle).is_none(),
        VirtAddress::extends_sign(platform, middle) == VirtAddress::extends_sign(platform, low),
        low >> 57 == middle >> 57,
        middle >> 57 == high >> 57,
{
    lemma_valid_bits(platform, low);
    lemma_valid_bits(platform, middle);
    lemma_valid_bits(platform, high);
    let top: u64 = if platform.spec_canonical_bit() == Some(47u8) {
        0xFFFF_8000_0000_0000
    } else {
        0xFF00_0000_0000_0000
    };
    assert({
        &&& middle != 0
        &&& middle & top == low & top
        &&& low >> 57 == middle >> 57
        &&& middle >> 57 == high >> 57
    }) by (bit_vector)
        requires
            top == 0xFFFF_8000_0000_0000u64 || top == 0xFF00_0000_0000_0000u64,
            low <= middle,
            middle <= high,
            low != 0,
            (low & top == 0 && high & top == 0) || (low & top == top && high & top == top),
    ;
}

/// A page address stays a page address when whole pages are added.
pub proof fn lemma_page_step_aligned(level: int, start: u64, i: int)
    requires
        1 <= level <= 3,
        start & !page_mask_of(level) == 0,
        0 <= i,
        start + i * page_bytes(level) <= u64::MAX,
    ensures
        page_at(start, level, i) & !page_mask_of(level) == 0,
{
    let target = page_at(start, level, i);
    assert({
        &&& start & !0xFFFF_FFFF_FFFF_F000u64 == 0 <==> start % 0x1000 == 0
        &&& start & !0xFFFF_FFFF_FFE0_0000u64 == 0 <==> start % 0x20_0000 == 0
        &&& start & !0xFFFF_FFFF_C000_0000u64 == 0 <==> start % 0x4000_0000 == 0
        &&& target & !0xFFFF_FFFF_FFFF_F000u64 == 0 <==> target % 0x1000 == 0
        &&& target & !0xFFFF_FFFF_FFE0_0000u64 == 0 <==> target % 0x20_0000 == 0
        &&& target & !0xFFFF_FFFF_C000_0000u64 == 0 <==> target % 0x4000_0000 == 0
    }) by (bit_vector);
    if level == 1 {
        assert((start + i * 0x1000) % 0x1000 == start % 0x1000) by (nonlinear_arith)
            requires
                0 <= i,
        ;
    } else if level == 2 {
        assert((start + i * 0x20_0000) % 0x20_0000 == start % 0x20_0000) by (nonlinear_arith)
            requires
                0 <= i,
        ;
    } else {
        assert((start + i * 0x4000_0000) % 0x4000_0000 == start % 0x4000_0000)
            by (nonlinear_arith)
            requires
                0 <= i,
        ;
    }
}

/// Every page of a range is a valid page address in the half of the first,
/// and the pages come in ascending order.
pub proof fn lemma_range_page(platform: Platform, start: u64, level: int, count: int, i: int)
    requires
        platform.wf(),
        platform.has_x86_64_paging(),
        1 <= level <= 3,
        VirtAddress::verdict(platform, start).is_none(),
        start & !page_mask_of(level) == 0,
        range_fits(platform, start, level, count),
        0 <= i < count,
    ensures
        start + i * page_bytes(level) <= u64::MAX,
        VirtAddress::verdict(platform, page_at(start, level, i)).is_none(),
        page_at(start, level, i) & !page_mask_of(level) == 0,
        page_at(start, level, i) >> 57 == start >> 57,
        forall|j: int| 0 <= j < i ==> page_at(start, level, j) < page_at(start, level, i),
{
    let size = page_bytes(level);
    let last = page_at(start, level, count - 1);
    assert(i * size <= (count - 1) * size) by (nonlinear_arith)
        requires
            0 <= i <= count - 1,
            size > 0,
    ;
    lemma_between_valid(platform, start, page_at(start, level, i), last);
    lemma_page_step_aligned(level, start, i);
    assert forall|j: int| 0 <= j < i implies page_at(start, level, j) < page_at(
        start,
        level,
        i,
    ) by {
        assert(j * size < i * size) by (nonlinear_arith)
            requires
                0 <= j < i,
                size > 0,
        ;
    }
}

/// Two different pages of a range do not select the same entries down to
/// the level of their leaf.
pub proof fn lemma_pages_distinct(
    platform: Platform,
    start: u64,
    level: int,
    count: int,
    i: int,
    j: int,
)
    requires
        platform.wf(),
        platform.has_x86_64_paging(),
        1 <= level <= 3,
        VirtAddress::verdict(platform, start).is_none(),
        start & !page_mask_of(level) == 0,
        range_fits(platform, start, level, count),
        0 <= i < j < count,
    ensures
        !same_indices_from(level, page_at(start, level, i), page_at(start, level, j)),
        !same_indices_from(level, page_at(start, level, j), page_at(start, level, i)),
{
    let a = page_at(start, level, i);
    let b = page_at(start, level, j);
    lemma_range_page(platform, start, level, count, i);
    lemma_range_page(platform, start, level, count, j);
    lemma_prefix_monotone(level, a, b);
    lemma_prefix_indices(level, a, b);
    lemma_prefix_indices(level, b, a);
}

/// In a range, the pages that select the same entries above `table_level`
/// as page `i` lie next to each other: if an earlier page does, then so does
/// the page just before `i`.
pub proof fn lemma_pages_contiguous(
    platform: Platform,
    start: u64,
    level: int,
    count: int,
    table_level: int,
    j: int,
    i: int,
)
    requires
        platform.wf(),
        platform.has_x86_64_paging(),
        1 <= level <= 3,
        1 <= table_level <= 5,
        VirtAddress::verdict(platform, start).is_none(),
        start & !page_mask_of(level) == 0,
        range_fits(platform, start, level, count),
        0 <= j < i < count,
        same_indices_from(table_level + 1, page_at(start, level, j), page_at(start, level, i)),
    ensures
        same_indices_from(table_level + 1, page_at(start, level, i - 1), page_at(start, level, i)),
{
    let a = page_at(start, level, j);
    let m = page_at(start, level, i - 1);
    let b = page_at(start, level, i);
    lemma_range_page(platform, start, level, count, j);
    lemma_range_page(platform, start, level, count, i - 1);
    lemma_range_page(platform, start, level, count, i);
    if j < i - 1 {
        assert(a < m);
    }
    lemma_prefix_monotone(table_level + 1, a, m);
    lemma_prefix_monotone(table_level + 1, m, b);
    lemma_prefix_indices(table_level + 1, a, b);
    lemma_prefix_indices(table_level + 1, m, b);
}

/// `address` with the index that it selects at `level` replaced by `index`.
pub open spec fn with_index(level: int, address: u64, index: u64) -> u64 {
    if level == 5 {
        (address & !(0x1FFu64 << 48)) | (index << 48)
    } else if level == 4 {
        (address & !(0x1FFu64 << 39)) | (index << 39)
    } else if level == 3 {
        (address & !(0x1FFu64 << 30)) | (index << 30)
    } else if level == 2 {
        (address & !(0x1FFu64 << 21)) | (index << 21)
    } else {
        (address & !(0x1FFu64 << 12)) | (index << 12)
    }
}

/// Every entry of a table on the way to an address is selected by some
/// address that goes the same way: replacing the index of `level` changes
/// that index and none above it.
pub proof fn lemma_with_index(level: int, address: u64, index: u64)
    requires
        1 <= level <= 5,
        index < 512,
    ensures
        spec_index_at(level, with_index(level, address, index)) == index,
        same_indices_from(level + 1, address, with_index(level, address, index)),
{
    let a = address;
    let i = index;
    let v5: u64 = (a & !(0x1FFu64 << 48)) | (i << 48);
    let v4: u64 = (a & !(0x1FFu64 << 39)) | (i << 39);
    let v3: u64 = (a & !(0x1FFu64 << 30)) | (i << 30);
    let v2: u64 = (a & !(0x1FFu64 << 21)) | (i << 21);
    let v1: u64 = (a & !(0x1FFu64 << 12)) | (i << 12);
    assert({
        &&& (v5 >> 48) & 0x1FF == i
        &&& (v4 >> 39) & 0x1FF == i
        &&& (v4 >> 48) & 0x1FF == (a >> 48) & 0x1FF
        &&& (v3 >> 30) & 0x1FF == i
        &&& (v3 >> 39) & 0x1FF == (a >> 39) & 0x1FF
        &&& (v3 >> 48) & 0x1FF == (a >> 48) & 0x1FF
        &&& (v2 >> 21) & 0x1FF == i
        &&& (v2 >> 30) & 0x1FF == (a >> 30) & 0x1FF
        &&& (v2 >> 39) & 0x1FF == (a >> 39) & 0x1FF
        &&& (v2 >> 48) & 0x1FF == (a >> 48) & 0x1FF
        &&& (v1 >> 12) & 0x1FF == i
        &&& (v1 >> 21) & 0x1FF == (a >> 21) & 0x1FF
        &&& (v1 >> 30) & 0x1FF == (a >> 30) & 0x1FF
        &&& (v1 >> 39) & 0x1FF == (a >> 39) & 0x1FF
        &&& (v1 >> 48) & 0x1FF == (a >> 48) & 0x1FF
    }) by (bit_vector)
        requires
            i < 512,
            v5 == (a & !(0x1FFu64 << 48)) | (i << 48),
            v4 == (a & !(0x1FFu64 << 39)) | (i << 39),
            v3 == (a & !(0x1FFu64 << 30)) | (i << 30),
            v2 == (a & !(0x1FFu64 << 21)) | (i << 21),
            v1 == (a & !(0x1FFu64 << 12)) | (i << 12),
    ;
    let v = with_index(level, address, index);
    assert forall|j: int| level + 1 <= j <= 5 implies #[trigger] spec_index_at(j, address)
        == spec_index_at(j, v) by {}
}

} // verus!
