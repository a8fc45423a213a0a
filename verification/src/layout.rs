//! Page-granularity layout arithmetic for loadable segments.
//!
//! A segment asks to live at a virtual address that need not be page aligned.
//! Physical pages can only be requested at page-aligned addresses, so the
//! destination base is the address rounded down to a page boundary and the
//! page count is the least number of pages that covers the whole in-memory
//! extent of the segment.

use vstd::prelude::*;

use crate::LoadError;

verus! {

/// The page granularity of the firmware's physical-page allocator.
pub const PAGE_SIZE: u64 = 4096;

/// Ceiling division for non-negative dividends and positive divisors.
pub open spec fn ceil_div(a: int, b: int) -> int {
    (a + b - 1) / b
}

/// The offset of an address within its page.
pub open spec fn page_offset_spec(va: int) -> int {
    va % (PAGE_SIZE as int)
}

/// The address rounded down to its page boundary.
pub open spec fn dest_base_spec(va: int) -> int {
    va - va % (PAGE_SIZE as int)
}

/// The least number of pages covering `mem_size` bytes placed at an address
/// whose in-page offset is `va % PAGE_SIZE`.
pub open spec fn page_count_spec(va: int, mem_size: int) -> int {
    ceil_div(page_offset_spec(va) + mem_size, PAGE_SIZE as int)
}

/// A loadable segment, fully laid out: where its bytes sit in the image file,
/// where it asks to live, and the page-aligned physical range that will be
/// allocated for it.
#[derive(Clone, Copy, Debug, PartialEq, Eq, Structural)]
pub struct LoadableSegment {
    /// The address the segment must occupy once loaded.
    pub virtual_address: u64,
    /// Offset of the segment's file-backed bytes within the image.
    pub file_offset: u64,
    /// Number of file-backed bytes.
    pub file_size: u64,
    /// In-memory extent; the tail beyond `file_size` is the zero-filled BSS.
    pub mem_size: u64,
    /// Page-aligned base of the physical allocation.
    pub destination_physical_base: u64,
    /// Number of pages allocated at `destination_physical_base`.
    pub page_count: u64,
}

impl LoadableSegment {
    /// The segment's layout invariant: the file-backed part fits in memory,
    /// the destination base is the virtual address rounded down to a page
    /// boundary, the page count is exactly the ceiling of the covered extent,
    /// and the whole allocated range fits in the 64-bit address space.
    pub open spec fn wf(self) -> bool {
        &&& self.file_size <= self.mem_size
        &&& self.virtual_address + self.mem_size + (PAGE_SIZE - 1) <= u64::MAX
        &&& self.destination_physical_base == dest_base_spec(self.virtual_address as int)
        &&& self.page_count == page_count_spec(self.virtual_address as int, self.mem_size as int)
    }

    /// The in-page offset at which the segment's first byte lands inside its
    /// allocated range.
    pub open spec fn offset_in_page(self) -> int {
        page_offset_spec(self.virtual_address as int)
    }

    /// Lay out a segment: round the virtual address down to a page boundary
    /// and count the pages needed to cover the full in-memory extent.
    ///
    /// Fails with `MalformedImage` exactly when the segment claims more
    /// file-backed bytes than in-memory bytes, or when the covered range
    /// would run past the end of the address space.
    pub fn new(virtual_address: u64, file_offset: u64, file_size: u64, mem_size: u64) -> (r:
        Result<LoadableSegment, LoadError>)
        ensures
            match r {
                Ok(seg) => {
                    &&& seg.wf()
                    &&& seg.virtual_address == virtual_address
                    &&& seg.file_offset == file_offset
                    &&& seg.file_size == file_size
                    &&& seg.mem_size == mem_size
                },
                Err(e) => {
                    &&& e == LoadError::MalformedImage
                    &&& (mem_size < file_size || virtual_address + mem_size + (PAGE_SIZE - 1)
                        > u64::MAX)
                },
            },
    {
        if mem_size < file_size {
            return Err(LoadError::MalformedImage);
        }
        if mem_size > u64::MAX - (PAGE_SIZE - 1) || virtual_address > u64::MAX - (PAGE_SIZE - 1)
            - mem_size {
            return Err(LoadError::MalformedImage);
        }
        let offset_in_page: u64 = virtual_address % PAGE_SIZE;
        let destination_physical_base: u64 = virtual_address - offset_in_page;
        let page_count: u64 = (offset_in_page + mem_size + (PAGE_SIZE - 1)) / PAGE_SIZE;
        Ok(LoadableSegment {
            virtual_address,
            file_offset,
            file_size,
            mem_size,
            destination_physical_base,
            page_count,
        })
    }
}

/// The allocated range of a well-formed segment covers its whole in-memory
/// extent, and no smaller page count would: dropping the last page leaves the
/// tail of the segment uncovered.
pub proof fn lemma_page_count_tight(seg: LoadableSegment)
    requires
        seg.wf(),
    ensures
        seg.destination_physical_base + seg.page_count * (PAGE_SIZE as int) >= seg.virtual_address
            + seg.mem_size,
        seg.destination_physical_base + seg.page_count * (PAGE_SIZE as int) <= seg.virtual_address
            + seg.mem_size + (PAGE_SIZE - 1),
        seg.mem_size > 0 ==> seg.destination_physical_base + (seg.page_count - 1) * (
        PAGE_SIZE as int) < seg.virtual_address + seg.mem_size,
        (seg.destination_physical_base as int) % (PAGE_SIZE as int) == 0,
        seg.destination_physical_base <= seg.virtual_address,
{
    let va = seg.virtual_address as int;
    let ms = seg.mem_size as int;
    let p = PAGE_SIZE as int;
    let off = va % p;
    vstd::arithmetic::div_mod::lemma_fundamental_div_mod(va, p);
    vstd::arithmetic::div_mod::lemma_mod_bound(va, p);
    let e = off + ms + (p - 1);
    vstd::arithmetic::div_mod::lemma_fundamental_div_mod(e, p);
    vstd::arithmetic::div_mod::lemma_mod_bound(e, p);
    assert(seg.page_count * p == e - e % p) by (nonlinear_arith)
        requires
            seg.page_count == e / p,
            p * (e / p) == e - e % p,
    ;
    assert((va - off) % p == 0) by {
        vstd::arithmetic::div_mod::lemma_sub_mod_noop(va, off, p);
        vstd::arithmetic::div_mod::lemma_mod_self_0(p);
        vstd::arithmetic::div_mod::lemma_small_mod(0nat, p as nat);
        assert(off % p == off) by {
            vstd::arithmetic::div_mod::lemma_mod_twice(va, p);
        }
    }
}

} // verus!
