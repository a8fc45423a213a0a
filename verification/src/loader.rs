//! Placing loadable segments into physical memory.
//!
//! For each loadable segment the loader computes the page-aligned
//! destination range, requests exactly that range from the firmware, and
//! copies the file-backed bytes into place. The allocation arrives
//! zero-filled, so every byte of the range that the file does not cover —
//! in particular the BSS tail between `file_size` and `mem_size` — is zero.

use vstd::prelude::*;

use crate::LoadError;
use crate::layout::{LoadableSegment, PAGE_SIZE, lemma_page_count_tight};
use crate::memory::MemoryModel;

verus! {

/// Whether `a` lies in the page-aligned range allocated for `seg`.
pub open spec fn in_alloc_range(seg: LoadableSegment, a: int) -> bool {
    seg.destination_physical_base <= a < seg.destination_physical_base + seg.page_count * (
    PAGE_SIZE as int)
}

/// Whether `a` lies in some segment's allocated range.
pub open spec fn in_any_range(segs: Seq<LoadableSegment>, a: int) -> bool {
    exists|i: int| 0 <= i < segs.len() && #[trigger] in_alloc_range(segs[i], a)
}

/// Whether `a` lies in the file-backed part of `seg` once placed.
pub open spec fn in_file_range(seg: LoadableSegment, a: int) -> bool {
    seg.virtual_address <= a < seg.virtual_address + seg.file_size
}

/// What memory looks like after `seg` has been placed from `image`: the
/// file-backed bytes sit at the segment's virtual address, and every other
/// byte of its allocated range — the in-page lead, the BSS tail beyond
/// `file_size`, and the trailing page padding — is zero.
pub open spec fn seg_loaded(seg: LoadableSegment, image: Seq<u8>, mem: MemoryModel) -> bool {
    &&& forall|a: int|
        in_file_range(seg, a) ==> mem.byte_at(a) == image[seg.file_offset + (a
            - seg.virtual_address)]
    &&& forall|a: int|
        in_alloc_range(seg, a) && !in_file_range(seg, a) ==> mem.byte_at(a) == 0
}

/// The firmware can satisfy `seg`'s fixed-address page request on a machine
/// whose allocated addresses are `mapped`.
pub open spec fn alloc_possible(seg: LoadableSegment, mem: MemoryModel) -> bool {
    &&& 0 < seg.page_count
    &&& seg.page_count * (PAGE_SIZE as int) <= usize::MAX
    &&& seg.destination_physical_base + seg.page_count * (PAGE_SIZE as int) <= u64::MAX + 1
    &&& forall|a: int| in_alloc_range(seg, a) ==> !mem.mapped(a)
}

/// The segment's file-backed bytes lie within the image.
pub open spec fn seg_fits(seg: LoadableSegment, image_len: int) -> bool {
    seg.file_offset + seg.file_size <= image_len
}

/// The allocated ranges of two segments do not touch.
pub open spec fn ranges_disjoint(s1: LoadableSegment, s2: LoadableSegment) -> bool {
    ||| s1.destination_physical_base + s1.page_count * (PAGE_SIZE as int)
        <= s2.destination_physical_base
    ||| s2.destination_physical_base + s2.page_count * (PAGE_SIZE as int)
        <= s1.destination_physical_base
}

/// Segment `i` of the list can be placed once its predecessors have been:
/// the firmware can grant its range on the machine as it stood before the
/// load, and no earlier segment of the list claims any of that range.
pub open spec fn seg_placeable(segs: Seq<LoadableSegment>, i: int, mem: MemoryModel) -> bool {
    &&& alloc_possible(segs[i], mem)
    &&& forall|j: int| 0 <= j < i ==> ranges_disjoint(#[trigger] segs[j], segs[i])
}

/// The first `k` segments of the list all fit the image and can all be
/// placed in order.
pub open spec fn prefix_loadable(
    segs: Seq<LoadableSegment>,
    k: int,
    image_len: int,
    mem: MemoryModel,
) -> bool {
    forall|i: int|
        #![trigger seg_fits(segs[i], image_len)]
        #![trigger seg_placeable(segs, i, mem)]
        0 <= i < k ==> seg_fits(segs[i], image_len) && seg_placeable(segs, i, mem)
}

/// Every segment of the list fits the image and can be placed in order —
/// exactly when loading the whole list succeeds.
pub open spec fn segs_loadable(segs: Seq<LoadableSegment>, image_len: int, mem: MemoryModel) -> bool {
    prefix_loadable(segs, segs.len() as int, image_len, mem)
}

/// Two non-empty allocated ranges that are not disjoint share an address.
proof fn lemma_ranges_overlap(s1: LoadableSegment, s2: LoadableSegment)
    requires
        0 < s1.page_count,
        0 < s2.page_count,
        !ranges_disjoint(s1, s2),
    ensures
        exists|a: int| in_alloc_range(s1, a) && #[trigger] in_alloc_range(s2, a),
{
    vstd::arithmetic::mul::lemma_mul_inequality(1, s1.page_count as int, PAGE_SIZE as int);
    vstd::arithmetic::mul::lemma_mul_inequality(1, s2.page_count as int, PAGE_SIZE as int);
    let a = if s1.destination_physical_base >= s2.destination_physical_base {
        s1.destination_physical_base as int
    } else {
        s2.destination_physical_base as int
    };
    assert(in_alloc_range(s1, a) && in_alloc_range(s2, a));
}

/// Place one loadable segment: request its page-aligned destination range at
/// a fixed address, then copy the file-backed bytes over the zero-filled
/// allocation.
///
/// Fails with `TruncatedImage` exactly when the file-backed bytes reach past
/// the end of the image, and otherwise with `AllocationFailed` exactly when
/// the fixed-address request cannot be satisfied; in both cases memory is
/// untouched. On success the new range was previously free, everything
/// outside it is untouched, and the range holds the segment's bytes with a
/// zero BSS.
pub fn load_segment(seg: &LoadableSegment, image: &Vec<u8>, mem: &mut MemoryModel) -> (r: Result<
    (),
    LoadError,
>)
    requires
        old(mem).inv(),
        seg.wf(),
    ensures
        final(mem).inv(),
        match r {
            Ok(()) => {
                &&& seg.file_offset + seg.file_size <= image.len()
                &&& alloc_possible(*seg, *old(mem))
                &&& forall|a: int|
                    final(mem).mapped(a) <==> (old(mem).mapped(a) || in_alloc_range(*seg, a))
                &&& forall|a: int|
                    !in_alloc_range(*seg, a) ==> final(mem).byte_at(a) == old(mem).byte_at(a)
                &&& seg_loaded(*seg, image@, *final(mem))
            },
            Err(e) => {
                &&& *final(mem) == *old(mem)
                &&& (e == LoadError::TruncatedImage || e == LoadError::AllocationFailed)
                &&& (e == LoadError::TruncatedImage <==> seg.file_offset + seg.file_size
                    > image.len())
                &&& (e == LoadError::AllocationFailed ==> !alloc_possible(*seg, *old(mem)))
            },
        },
{
    let image_len = image.len() as u64;
    if seg.file_size > image_len || seg.file_offset > image_len - seg.file_size {
        return Err(LoadError::TruncatedImage);
    }
    proof {
        lemma_page_count_tight(*seg);
    }
    match mem.allocate_pages_at(seg.destination_physical_base, seg.page_count) {
        Ok(()) => {},
        Err(e) => {
            return Err(e);
        },
    }
    let span = seg.page_count * PAGE_SIZE;
    mem.zero_range(seg.destination_physical_base, span);
    mem.write_slice(
        seg.virtual_address,
        image,
        seg.file_offset as usize,
        seg.file_size as usize,
    );
    Ok(())
}

/// Place a list of segments in order, stopping at the first failure.
///
/// Succeeds exactly when every segment's file-backed bytes lie within the
/// image and every segment's page range is within bounds, free on the
/// original machine and disjoint from its predecessors' ranges. On success
/// every segment has been placed — each one's bytes and zero-filled
/// remainder are in memory — and every byte outside the placed ranges is
/// untouched. On failure the error names the first segment that cannot be
/// handled: `TruncatedImage` when its file bytes reach past the image, and
/// otherwise `AllocationFailed` for an unplaceable range.
pub fn load_segments(segs: &Vec<LoadableSegment>, image: &Vec<u8>, mem: &mut MemoryModel) -> (r:
    Result<(), LoadError>)
    requires
        old(mem).inv(),
        forall|i: int| 0 <= i < segs@.len() ==> (#[trigger] segs@[i]).wf(),
    ensures
        final(mem).inv(),
        r is Ok <==> segs_loadable(segs@, image.len() as int, *old(mem)),
        match r {
            Ok(()) => {
                &&& forall|i: int|
                    0 <= i < segs@.len() ==> seg_loaded(
                        #[trigger] segs@[i],
                        image@,
                        *final(mem),
                    )
                &&& forall|i: int|
                    0 <= i < segs@.len() ==> (#[trigger] segs@[i]).file_offset + segs@[i].file_size
                        <= image.len()
                &&& forall|a: int|
                    final(mem).mapped(a) <==> (old(mem).mapped(a) || in_any_range(segs@, a))
                &&& forall|i: int, a: int|
                    0 <= i < segs@.len() && #[trigger] in_alloc_range(segs@[i], a) ==> !old(
                        mem,
                    ).mapped(a)
                &&& forall|a: int|
                    !in_any_range(segs@, a) ==> final(mem).byte_at(a) == old(mem).byte_at(a)
            },
            Err(e) => {
                &&& (e == LoadError::TruncatedImage || e == LoadError::AllocationFailed)
                &&& exists|k: int|
                    {
                        &&& 0 <= k < segs@.len()
                        &&& #[trigger] prefix_loadable(segs@, k, image.len() as int, *old(mem))
                        &&& (e == LoadError::TruncatedImage <==> !seg_fits(
                            segs@[k],
                            image.len() as int,
                        ))
                        &&& (e == LoadError::AllocationFailed <==> seg_fits(
                            segs@[k],
                            image.len() as int,
                        ) && !seg_placeable(segs@, k, *old(mem)))
                    }
            },
        },
{
    let mut k: usize = 0;
    while k < segs.len()
        invariant
            mem.inv(),
            k <= segs@.len(),
            forall|i: int| 0 <= i < segs@.len() ==> (#[trigger] segs@[i]).wf(),
            forall|i: int| 0 <= i < k ==> seg_loaded(#[trigger] segs@[i], image@, *mem),
            forall|i: int|
                0 <= i < k ==> (#[trigger] segs@[i]).file_offset + segs@[i].file_size
                    <= image.len(),
            forall|a: int|
                mem.mapped(a) <==> (old(mem).mapped(a) || exists|i: int|
                    0 <= i < k && in_alloc_range(#[trigger] segs@[i], a)),
            forall|i: int, a: int|
                0 <= i < k && #[trigger] in_alloc_range(segs@[i], a) ==> !old(mem).mapped(a),
            forall|a: int| !in_any_range(segs@, a) ==> mem.byte_at(a) == old(mem).byte_at(a),
            prefix_loadable(segs@, k as int, image.len() as int, *old(mem)),
        decreases segs@.len() - k,
    {
        let ghost mem_before = *mem;
        let ghost image_len = image.len() as int;
        match load_segment(&segs[k], image, mem) {
            Ok(()) => {},
            Err(e) => {
                proof {
                    let ki = k as int;
                    if e == LoadError::AllocationFailed {
                        assert(!seg_placeable(segs@, ki, *old(mem))) by {
                            if seg_placeable(segs@, ki, *old(mem)) {
                                assert forall|a: int| in_alloc_range(segs@[ki], a) implies
                                !mem_before.mapped(a) by {
                                    if mem_before.mapped(a) {
                                        if old(mem).mapped(a) {
                                            assert(!old(mem).mapped(a));
                                        } else {
                                            let i = choose|i: int|
                                                0 <= i < k && in_alloc_range(
                                                    #[trigger] segs@[i],
                                                    a,
                                                );
                                            assert(ranges_disjoint(segs@[i], segs@[ki]));
                                        }
                                    }
                                }
                                assert(alloc_possible(segs@[ki], mem_before));
                            }
                        }
                    }
                    assert(!segs_loadable(segs@, image_len, *old(mem))) by {
                        if segs_loadable(segs@, image_len, *old(mem)) {
                            assert(seg_fits(segs@[ki], image_len) && seg_placeable(
                                segs@,
                                ki,
                                *old(mem),
                            ));
                        }
                    }
                }
                return Err(e);
            },
        }
        proof {
            let ki = k as int;
            assert(alloc_possible(segs@[ki], *old(mem))) by {
                assert forall|a: int| in_alloc_range(segs@[ki], a) implies !old(mem).mapped(
                    a,
                ) by {
                    if old(mem).mapped(a) {
                        assert(mem_before.mapped(a));
                    }
                }
            }
            assert forall|j: int| 0 <= j < ki implies ranges_disjoint(
                #[trigger] segs@[j],
                segs@[ki],
            ) by {
                assert(seg_placeable(segs@, j, *old(mem)));
                if !ranges_disjoint(segs@[j], segs@[ki]) {
                    lemma_ranges_overlap(segs@[j], segs@[ki]);
                    let a = choose|a: int|
                        in_alloc_range(segs@[j], a) && #[trigger] in_alloc_range(segs@[ki], a);
                    assert(mem_before.mapped(a));
                }
            }
            assert(prefix_loadable(segs@, ki + 1, image_len, *old(mem))) by {
                assert(seg_fits(segs@[ki], image_len) && seg_placeable(segs@, ki, *old(mem)));
                assert forall|i: int|
                    0 <= i < ki + 1 implies #[trigger] seg_fits(segs@[i], image_len)
                    && seg_placeable(segs@, i, *old(mem)) by {
                    if i < ki {
                        assert(seg_fits(segs@[i], image_len) && seg_placeable(
                            segs@,
                            i,
                            *old(mem),
                        ));
                    }
                }
            }
        }
        proof {
            assert forall|a: int| !in_any_range(segs@, a) implies mem.byte_at(a) == old(
                mem,
            ).byte_at(a) by {
                assert(!in_alloc_range(segs@[k as int], a));
                assert(mem_before.byte_at(a) == old(mem).byte_at(a));
            }
            assert forall|i: int| 0 <= i < k + 1 implies seg_loaded(
                #[trigger] segs@[i],
                image@,
                *mem,
            ) by {
                if i < k {
                    assert forall|a: int| in_file_range(segs@[i], a) implies mem.byte_at(a)
                        == image@[segs@[i].file_offset + (a - segs@[i].virtual_address)] by {
                        assert(mem_before.mapped(a));
                        assert(!in_alloc_range(segs@[k as int], a));
                    }
                    assert forall|a: int|
                        in_alloc_range(segs@[i], a) && !in_file_range(segs@[i], a) implies
                        mem.byte_at(a) == 0 by {
                        assert(mem_before.mapped(a));
                        assert(!in_alloc_range(segs@[k as int], a));
                    }
                }
            }
        }
        k = k + 1;
    }
    proof {
        assert forall|a: int|
            mem.mapped(a) <==> (old(mem).mapped(a) || in_any_range(segs@, a)) by {
            if in_any_range(segs@, a) {
                let i = choose|i: int| 0 <= i < segs@.len() && #[trigger] in_alloc_range(
                    segs@[i],
                    a,
                );
                assert(0 <= i < segs@.len() && in_alloc_range(segs@[i], a));
            }
        }
    }
    Ok(())
}

/// Placement is deterministic: two segments cut from the same bytes of the
/// same image — differing only in where they were told to live — hold
/// byte-identical contents over their whole in-memory extent, wherever and
/// into whichever machine each was loaded.
pub proof fn lemma_load_deterministic(
    seg1: LoadableSegment,
    seg2: LoadableSegment,
    image: Seq<u8>,
    mem1: MemoryModel,
    mem2: MemoryModel,
)
    requires
        seg1.wf(),
        seg2.wf(),
        seg1.file_offset == seg2.file_offset,
        seg1.file_size == seg2.file_size,
        seg1.mem_size == seg2.mem_size,
        seg_loaded(seg1, image, mem1),
        seg_loaded(seg2, image, mem2),
    ensures
        forall|k: int|
            0 <= k < seg1.mem_size ==> #[trigger] mem1.byte_at(seg1.virtual_address + k)
                == mem2.byte_at(seg2.virtual_address + k),
{
    lemma_page_count_tight(seg1);
    lemma_page_count_tight(seg2);
    assert forall|k: int| 0 <= k < seg1.mem_size implies #[trigger] mem1.byte_at(
        seg1.virtual_address + k,
    ) == mem2.byte_at(seg2.virtual_address + k) by {
        if k < seg1.file_size {
            assert(in_file_range(seg1, seg1.virtual_address + k));
            assert(in_file_range(seg2, seg2.virtual_address + k));
        } else {
            assert(in_alloc_range(seg1, seg1.virtual_address + k));
            assert(in_alloc_range(seg2, seg2.virtual_address + k));
            assert(!in_file_range(seg1, seg1.virtual_address + k));
            assert(!in_file_range(seg2, seg2.virtual_address + k));
        }
    }
}

} // verus!
