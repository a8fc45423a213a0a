//! The end-to-end image load: parse, place, relocate.
//!
//! `load_image` runs the whole loading pipeline against a memory model:
//! validate the header, collect the loadable segments, lay each out at page
//! granularity and place it (applying the chosen base when the image is
//! position independent), then find, parse and apply the relative
//! relocations. It succeeds exactly when the image and the machine allow
//! all of that — `image_loadable` spells the condition out. Control-transfer
//! preparation — the memory map and the exit call — is the hand-off
//! sequencer's affair, not this module's.

use vstd::prelude::*;

use crate::LoadError;
use crate::image::{ImageKind, ProgramHeaderInfo, find_rela_section, header_ok, loadable_list,
    loadable_segments, parse_header, ph_table_ok, spec_entry_point, spec_find_rela, spec_is_pie,
    spec_ph_count, spec_sh_file_offset, spec_sh_size, sh_table_ok};
use crate::layout::{LoadableSegment, PAGE_SIZE, dest_base_spec, lemma_page_count_tight,
    page_count_spec};
use crate::loader::{in_alloc_range, in_any_range, in_file_range, load_segments, seg_loaded,
    segs_loadable};
use crate::memory::MemoryModel;
use crate::relocation::{Elf64Rela, RELATIVE_RELOCATION_KIND, apply_relocations, later_disjoint,
    outside_all_windows, parse_rela_records, spec_rela_at, spec_rela_count,
    spec_rela_records_match};

verus! {

/// What the loader hands on once an image is in memory: where to enter it,
/// what was placed where, and which words were patched.
pub struct LoadedKernel {
    /// The kernel's entry address, relocation base already applied.
    pub entry_point: u64,
    /// Whether the image was fixed-address or position independent.
    pub kind: ImageKind,
    /// The placed segments, in program-header order.
    pub segments: Vec<LoadableSegment>,
    /// The relocation records that were applied; empty for a fixed-address
    /// image.
    pub relocations: Vec<Elf64Rela>,
}

/// The laid-out segment `seg` realises program header `ph` at load base
/// `base`.
pub open spec fn seg_matches(ph: ProgramHeaderInfo, base: int, seg: LoadableSegment) -> bool {
    &&& seg.virtual_address == ph.virtual_address + base
    &&& seg.file_offset == ph.file_offset
    &&& seg.file_size == ph.file_size
    &&& seg.mem_size == ph.mem_size
    &&& seg.wf()
}

/// The program header can be laid out at this base: its file-backed part
/// fits its in-memory extent, and the shifted extent stays inside the
/// address space.
pub open spec fn ph_layoutable(ph: ProgramHeaderInfo, base: int) -> bool {
    &&& ph.file_size <= ph.mem_size
    &&& ph.virtual_address + base + ph.mem_size + (PAGE_SIZE - 1) <= u64::MAX
}

/// The segment that laying out `ph` at `base` yields.
pub open spec fn layout_ph(ph: ProgramHeaderInfo, base: int) -> LoadableSegment {
    let va = ph.virtual_address + base;
    LoadableSegment {
        virtual_address: va as u64,
        file_offset: ph.file_offset,
        file_size: ph.file_size,
        mem_size: ph.mem_size,
        destination_physical_base: dest_base_spec(va) as u64,
        page_count: page_count_spec(va, ph.mem_size as int) as u64,
    }
}

/// The whole program-header list, laid out at `base`.
pub open spec fn layout_list(phs: Seq<ProgramHeaderInfo>, base: int) -> Seq<LoadableSegment> {
    phs.map_values(|ph: ProgramHeaderInfo| layout_ph(ph, base))
}

/// A well-formed segment realising `ph` is exactly the one `layout_ph`
/// yields, and such a `ph` is layoutable.
proof fn lemma_layout_matches(ph: ProgramHeaderInfo, base: int, seg: LoadableSegment)
    requires
        0 <= base,
        seg_matches(ph, base, seg),
    ensures
        ph_layoutable(ph, base),
        seg == layout_ph(ph, base),
{
}

/// Whether the whole eight-byte window at `target` lies inside the placed
/// segments' allocated ranges.
pub open spec fn window_in_ranges(segs: Seq<LoadableSegment>, target: int) -> bool {
    forall|t: int| 0 <= t < 8 ==> #[trigger] in_any_range(segs, target + t)
}

/// The relocation record can be applied at this base into these segments:
/// it is of the supported kind, its patched value and window stay inside
/// the address space, and the window lies inside the placed segments.
pub open spec fn record_applies(rec: Elf64Rela, base: int, segs: Seq<LoadableSegment>) -> bool {
    &&& rec.supported_kind()
    &&& rec.r_addend >= 0
    &&& base + rec.r_addend <= u64::MAX
    &&& base + rec.r_offset + 8 <= u64::MAX + 1
    &&& window_in_ranges(segs, base + rec.r_offset)
}

/// A position-independent image's relocations go through: the
/// section-header table is sound, a relocation section exists, its table
/// lies within the image, and every record of the table can be applied.
pub open spec fn relocations_apply(s: Seq<u8>, base: int, segs: Seq<LoadableSegment>) -> bool {
    &&& sh_table_ok(s)
    &&& spec_find_rela(s) is Some
    &&& {
        let si = spec_find_rela(s)->0;
        &&& spec_sh_file_offset(s, si) + spec_sh_size(s, si) <= s.len()
        &&& forall|t: int|
            0 <= t < spec_rela_count(s, si) ==> record_applies(
                #[trigger] spec_rela_at(s, spec_sh_file_offset(s, si), t),
                base,
                segs,
            )
    }
}

/// The whole load goes through: the header and the program-header table
/// are well formed, every loadable header lays out within the address
/// space, the laid-out segments fit the image and can be placed on this
/// machine, the shifted entry point stays in the address space, and — for
/// a position-independent image — the relocations go through.
pub open spec fn image_loadable(s: Seq<u8>, pie_base: u64, mem: MemoryModel) -> bool {
    let base: int = if spec_is_pie(s) {
        pie_base as int
    } else {
        0
    };
    let phs = loadable_list(s, spec_ph_count(s));
    let segs = layout_list(phs, base);
    &&& header_ok(s)
    &&& ph_table_ok(s)
    &&& forall|i: int| 0 <= i < phs.len() ==> ph_layoutable(#[trigger] phs[i], base)
    &&& segs_loadable(segs, s.len() as int, mem)
    &&& spec_entry_point(s) + base <= u64::MAX
    &&& (spec_is_pie(s) ==> relocations_apply(s, base, segs))
}

/// Lay out one segment per loadable program header, shifting each by the
/// load base.
///
/// Fails with `MalformedImage` exactly when some header claims more
/// file-backed than in-memory bytes or its shifted extent leaves the
/// address space.
fn segments_for(phs: &Vec<ProgramHeaderInfo>, base: u64) -> (r: Result<
    Vec<LoadableSegment>,
    LoadError,
>)
    ensures
        match r {
            Ok(v) => {
                &&& v@.len() == phs@.len()
                &&& forall|i: int|
                    0 <= i < phs@.len() ==> seg_matches(
                        #[trigger] phs@[i],
                        base as int,
                        v@[i],
                    )
            },
            Err(e) => {
                &&& e == LoadError::MalformedImage
                &&& exists|i: int|
                    0 <= i < phs@.len() && !ph_layoutable(#[trigger] phs@[i], base as int)
            },
        },
{
    let mut v: Vec<LoadableSegment> = Vec::new();
    let mut i: usize = 0;
    while i < phs.len()
        invariant
            i <= phs@.len(),
            v@.len() == i,
            forall|j: int| 0 <= j < i ==> seg_matches(#[trigger] phs@[j], base as int, v@[j]),
        decreases phs@.len() - i,
    {
        let ph = phs[i];
        if ph.virtual_address > u64::MAX - base {
            proof {
                assert(!ph_layoutable(phs@[i as int], base as int));
            }
            return Err(LoadError::MalformedImage);
        }
        let shifted = ph.virtual_address + base;
        match LoadableSegment::new(shifted, ph.file_offset, ph.file_size, ph.mem_size) {
            Ok(seg) => {
                v.push(seg);
            },
            Err(e) => {
                proof {
                    assert(!ph_layoutable(phs@[i as int], base as int));
                }
                return Err(e);
            },
        }
        i = i + 1;
    }
    Ok(v)
}

/// Whether every byte of the window at `target` lies in some placed
/// segment's allocated range — the defensive check that a relocation only
/// ever patches memory this image was loaded into.
fn check_window(segs: &Vec<LoadableSegment>, target: u64) -> (b: bool)
    requires
        target + 8 <= u64::MAX + 1,
        forall|i: int| 0 <= i < segs@.len() ==> (#[trigger] segs@[i]).wf(),
    ensures
        b == window_in_ranges(segs@, target as int),
{
    let mut t: u64 = 0;
    while t < 8
        invariant
            t <= 8,
            target + 8 <= u64::MAX + 1,
            forall|i: int| 0 <= i < segs@.len() ==> (#[trigger] segs@[i]).wf(),
            forall|u: int| 0 <= u < t ==> #[trigger] in_any_range(segs@, target + u),
        decreases 8 - t,
    {
        let a = target + t;
        let mut found = false;
        let mut i: usize = 0;
        while i < segs.len()
            invariant
                i <= segs@.len(),
                forall|j: int| 0 <= j < segs@.len() ==> (#[trigger] segs@[j]).wf(),
                found ==> in_any_range(segs@, a as int),
                !found ==> forall|j: int|
                    0 <= j < i ==> !(#[trigger] in_alloc_range(segs@[j], a as int)),
            decreases segs@.len() - i,
        {
            let seg = segs[i];
            proof {
                lemma_page_count_tight(seg);
            }
            let span = seg.page_count * PAGE_SIZE;
            if a >= seg.destination_physical_base && a - seg.destination_physical_base < span {
                found = true;
                proof {
                    assert(in_alloc_range(segs@[i as int], a as int));
                }
            }
            i = i + 1;
        }
        if !found {
            proof {
                assert(!in_any_range(segs@, target + t));
            }
            return false;
        }
        t = t + 1;
    }
    true
}

/// Whether every relocation record of the table can be applied at this
/// base into these segments.
fn records_apply(records: &Vec<Elf64Rela>, segs: &Vec<LoadableSegment>, base: u64) -> (b: bool)
    requires
        forall|j: int| 0 <= j < segs@.len() ==> (#[trigger] segs@[j]).wf(),
    ensures
        b == forall|t: int|
            0 <= t < records@.len() ==> record_applies(#[trigger] records@[t], base as int, segs@),
{
    let mut t: usize = 0;
    while t < records.len()
        invariant
            t <= records@.len(),
            forall|j: int| 0 <= j < segs@.len() ==> (#[trigger] segs@[j]).wf(),
            forall|u: int|
                0 <= u < t ==> record_applies(#[trigger] records@[u], base as int, segs@),
        decreases records@.len() - t,
    {
        let rec = records[t];
        if rec.r_info & 0xffff_ffff != RELATIVE_RELOCATION_KIND {
            return false;
        }
        if rec.r_addend < 0 {
            return false;
        }
        if rec.r_addend as u64 > u64::MAX - base {
            return false;
        }
        if rec.r_offset > u64::MAX - base {
            return false;
        }
        let target = base + rec.r_offset;
        if target > u64::MAX - 7 {
            return false;
        }
        if !check_window(segs, target) {
            return false;
        }
        t = t + 1;
    }
    true
}

/// Load a complete image into memory: validate and parse it, place every
/// loadable segment (shifted by `pie_base` when the image is position
/// independent, placed exactly where recorded otherwise), and apply the
/// relative relocations of a position-independent image.
///
/// Succeeds exactly when `image_loadable` holds of the image bytes, the
/// chosen base and the machine as given. On success: the entry point is the
/// header's entry shifted by the applied base; the placed segments are
/// exactly the laid-out loadable headers; every segment holds its file
/// bytes with a zero BSS, except where a relocation window overlaps them;
/// every relocated word whose window no later record overwrites equals
/// `base + addend`; every relocation window lies inside the placed
/// segments; and every byte outside the placed segments' ranges — in
/// particular all previously allocated memory — is untouched.
pub fn load_image(image: &Vec<u8>, pie_base: u64, mem: &mut MemoryModel) -> (r: Result<
    LoadedKernel,
    LoadError,
>)
    requires
        old(mem).inv(),
    ensures
        final(mem).inv(),
        r is Ok <==> image_loadable(image@, pie_base, *old(mem)),
        match r {
            Ok(k) => {
                let s = image@;
                let base: int = if spec_is_pie(s) {
                    pie_base as int
                } else {
                    0
                };
                let phs = loadable_list(s, spec_ph_count(s));
                &&& header_ok(s)
                &&& ph_table_ok(s)
                &&& (k.kind == ImageKind::PositionIndependent <==> spec_is_pie(s))
                &&& k.entry_point == spec_entry_point(s) + base
                &&& k.segments@ == layout_list(phs, base)
                &&& forall|i: int|
                    0 <= i < phs.len() ==> seg_matches(#[trigger] phs[i], base, k.segments@[i])
                &&& (k.kind == ImageKind::FixedAddress ==> k.relocations@.len() == 0)
                &&& (k.kind == ImageKind::PositionIndependent ==> {
                    &&& spec_find_rela(s) is Some
                    &&& k.relocations@.len() == spec_rela_count(s, spec_find_rela(s)->0)
                    &&& spec_rela_records_match(s, spec_find_rela(s)->0, k.relocations@)
                })
                &&& forall|i: int, a: int|
                    0 <= i < k.segments@.len() && #[trigger] in_file_range(k.segments@[i], a)
                        && outside_all_windows(k.relocations@, base, a) ==> final(mem).byte_at(a)
                        == s[k.segments@[i].file_offset + (a - k.segments@[i].virtual_address)]
                &&& forall|i: int, a: int|
                    0 <= i < k.segments@.len() && #[trigger] in_alloc_range(k.segments@[i], a)
                        && !in_file_range(k.segments@[i], a) && outside_all_windows(
                        k.relocations@,
                        base,
                        a,
                    ) ==> final(mem).byte_at(a) == 0
                &&& forall|i: int|
                    0 <= i < k.relocations@.len() && later_disjoint(
                        k.relocations@,
                        i,
                        k.relocations@.len() as int,
                    ) ==> final(mem).word_at((#[trigger] k.relocations@[i]).target(base))
                        == k.relocations@[i].value(base)
                &&& forall|i: int|
                    0 <= i < k.relocations@.len() ==> window_in_ranges(
                        k.segments@,
                        (#[trigger] k.relocations@[i]).target(base),
                    )
                &&& forall|a: int|
                    final(mem).mapped(a) <==> (old(mem).mapped(a) || in_any_range(k.segments@, a))
                &&& forall|a: int|
                    in_any_range(k.segments@, a) ==> !old(mem).mapped(a)
                &&& forall|a: int|
                    !in_any_range(k.segments@, a) ==> final(mem).byte_at(a) == old(mem).byte_at(a)
            },
            Err(e) => {
                &&& (e == LoadError::MalformedImage || e == LoadError::TruncatedImage || e
                    == LoadError::AllocationFailed || e == LoadError::UnsupportedRelocation)
                &&& (!header_ok(image@) ==> e == LoadError::MalformedImage)
            },
        },
{
    let ghost s = image@;
    let header = match parse_header(image) {
        Ok(h) => h,
        Err(e) => {
            return Err(e);
        },
    };
    let is_pie = match header.kind {
        ImageKind::PositionIndependent => true,
        ImageKind::FixedAddress => false,
    };
    let base: u64 = if is_pie {
        pie_base
    } else {
        0
    };
    proof {
        assert(base as int == if spec_is_pie(s) {
            pie_base as int
        } else {
            0int
        });
    }
    let phs = match loadable_segments(image) {
        Ok(v) => v,
        Err(e) => {
            return Err(e);
        },
    };
    let segs = match segments_for(&phs, base) {
        Ok(v) => v,
        Err(e) => {
            proof {
                let i = choose|i: int|
                    0 <= i < phs@.len() && !ph_layoutable(#[trigger] phs@[i], base as int);
                assert(!image_loadable(s, pie_base, *old(mem)));
            }
            return Err(e);
        },
    };
    proof {
        assert forall|i: int| 0 <= i < phs@.len() implies #[trigger] ph_layoutable(
            phs@[i],
            base as int,
        ) && segs@[i] == layout_ph(phs@[i], base as int) by {
            assert(seg_matches(phs@[i], base as int, segs@[i]));
            lemma_layout_matches(phs@[i], base as int, segs@[i]);
        }
        assert(segs@ =~= layout_list(phs@, base as int));
        assert forall|i: int| 0 <= i < segs@.len() implies (#[trigger] segs@[i]).wf() by {
            assert(seg_matches(phs@[i], base as int, segs@[i]));
        }
    }
    let ghost mem_start = *mem;
    match load_segments(&segs, image, mem) {
        Ok(()) => {},
        Err(e) => {
            proof {
                assert(!segs_loadable(segs@, image.len() as int, *old(mem)));
            }
            return Err(e);
        },
    }
    let mut relocations: Vec<Elf64Rela> = Vec::new();
    if is_pie {
        let (rela_off, rela_size) = match find_rela_section(image) {
            Ok(Some(pair)) => pair,
            Ok(None) => {
                return Err(LoadError::MalformedImage);
            },
            Err(e) => {
                return Err(e);
            },
        };
        relocations = match parse_rela_records(image, rela_off, rela_size) {
            Ok(v) => v,
            Err(e) => {
                return Err(e);
            },
        };
        if !records_apply(&relocations, &segs, base) {
            proof {
                let u = choose|u: int|
                    0 <= u < relocations@.len() && !record_applies(
                        #[trigger] relocations@[u],
                        base as int,
                        segs@,
                    );
                let si = spec_find_rela(s)->0;
                assert(relocations@[u] == spec_rela_at(s, spec_sh_file_offset(s, si), u));
                assert(!image_loadable(s, pie_base, *old(mem)));
            }
            return Err(LoadError::UnsupportedRelocation);
        }
        let ghost mem_loaded = *mem;
        match apply_relocations(&relocations, base, mem) {
            Ok(()) => {},
            Err(e) => {
                proof {
                    assert forall|t: int| 0 <= t < relocations@.len() implies (
                    #[trigger] relocations@[t]).applicable(base as int, mem_loaded) by {
                        assert(record_applies(relocations@[t], base as int, segs@));
                        let target = base as int + relocations@[t].r_offset;
                        assert forall|a: int| target <= a < target + 8 implies mem_loaded.mapped(
                            a,
                        ) by {
                            assert(in_any_range(segs@, target + (a - target)));
                        }
                    }
                    assert(false);
                }
                return Err(e);
            },
        }
        proof {
            lemma_reloc_preserves_loads(segs@, relocations@, base as int, s, mem_loaded, *mem);
        }
    }
    if header.entry_point > u64::MAX - base {
        return Err(LoadError::MalformedImage);
    }
    let entry_point = header.entry_point + base;
    proof {
        assert forall|a: int| !in_any_range(segs@, a) implies mem.byte_at(a) == mem_start.byte_at(
            a,
        ) by {
            assert(outside_all_windows(relocations@, base as int, a)) by {
                assert forall|j: int| 0 <= j < relocations@.len() implies !(
                #[trigger] relocations@[j]).in_window(base as int, a) by {
                    if relocations@[j].in_window(base as int, a) {
                        let t = a - relocations@[j].target(base as int);
                        assert(window_in_ranges(segs@, relocations@[j].target(base as int)));
                        assert(in_any_range(segs@, relocations@[j].target(base as int) + t));
                    }
                }
            }
        }
        let basei = base as int;
        let phs_l = loadable_list(s, spec_ph_count(s));
        let segs_l = layout_list(phs_l, basei);
        assert(phs@ == phs_l);
        assert(segs@ == segs_l);
        assert(segs_loadable(segs_l, s.len() as int, *old(mem)));
        if is_pie {
            let si = spec_find_rela(s)->0;
            let off = spec_sh_file_offset(s, si);
            assert forall|t: int| 0 <= t < spec_rela_count(s, si) implies record_applies(
                #[trigger] spec_rela_at(s, off, t),
                basei,
                segs_l,
            ) by {
                assert(relocations@[t] == spec_rela_at(s, off, t));
                assert(record_applies(relocations@[t], basei, segs@));
            }
            assert(relocations_apply(s, basei, segs_l));
        }
        assert(image_loadable(s, pie_base, *old(mem)));
    }
    Ok(LoadedKernel { entry_point, kind: header.kind, segments: segs, relocations })
}

/// Loading is deterministic at the byte level: the same image placed twice,
/// at any two bases and into any two machines, yields byte-identical
/// segment contents over each segment's whole in-memory extent — before
/// relocation, whose patches are the one base-dependent exception.
pub proof fn lemma_image_load_deterministic(
    phs: Seq<ProgramHeaderInfo>,
    base1: int,
    base2: int,
    segs1: Seq<LoadableSegment>,
    segs2: Seq<LoadableSegment>,
    image: Seq<u8>,
    mem1: MemoryModel,
    mem2: MemoryModel,
)
    requires
        segs1.len() == phs.len(),
        segs2.len() == phs.len(),
        forall|i: int| 0 <= i < phs.len() ==> seg_matches(#[trigger] phs[i], base1, segs1[i]),
        forall|i: int| 0 <= i < phs.len() ==> seg_matches(#[trigger] phs[i], base2, segs2[i]),
        forall|i: int| 0 <= i < segs1.len() ==> seg_loaded(#[trigger] segs1[i], image, mem1),
        forall|i: int| 0 <= i < segs2.len() ==> seg_loaded(#[trigger] segs2[i], image, mem2),
    ensures
        forall|i: int, k: int|
            0 <= i < phs.len() && 0 <= k < phs[i].mem_size ==> #[trigger] mem1.byte_at(
                phs[i].virtual_address + base1 + k,
            ) == mem2.byte_at(phs[i].virtual_address + base2 + k),
{
    assert forall|i: int, k: int|
        0 <= i < phs.len() && 0 <= k < phs[i].mem_size implies #[trigger] mem1.byte_at(
        phs[i].virtual_address + base1 + k,
    ) == mem2.byte_at(phs[i].virtual_address + base2 + k) by {
        assert(seg_matches(phs[i], base1, segs1[i]));
        assert(seg_matches(phs[i], base2, segs2[i]));
        crate::loader::lemma_load_deterministic(segs1[i], segs2[i], image, mem1, mem2);
        assert(mem1.byte_at(segs1[i].virtual_address + k) == mem2.byte_at(
            segs2[i].virtual_address + k,
        ));
    }
}

/// Relocation only writes inside the placed segments' ranges, so segment
/// contents outside the patched windows survive it.
proof fn lemma_reloc_preserves_loads(
    segs: Seq<LoadableSegment>,
    records: Seq<Elf64Rela>,
    base: int,
    image: Seq<u8>,
    before: MemoryModel,
    after: MemoryModel,
)
    requires
        forall|a: int|
            outside_all_windows(records, base, a) ==> after.byte_at(a) == before.byte_at(a),
        forall|i: int| 0 <= i < segs.len() ==> seg_loaded(#[trigger] segs[i], image, before),
    ensures
        forall|i: int, a: int|
            0 <= i < segs.len() && #[trigger] in_file_range(segs[i], a) && outside_all_windows(
                records,
                base,
                a,
            ) ==> after.byte_at(a) == image[segs[i].file_offset + (a - segs[i].virtual_address)],
        forall|i: int, a: int|
            0 <= i < segs.len() && #[trigger] in_alloc_range(segs[i], a) && !in_file_range(
                segs[i],
                a,
            ) && outside_all_windows(records, base, a) ==> after.byte_at(a) == 0,
{
}

} // verus!
