//! Relative relocations for position-independent images.
//!
//! A position-independent image carries a table of relocation records. The
//! only kind this loader supports is the base-relative fixup: the machine
//! word at `base + r_offset` is overwritten with `base + r_addend`. Any
//! other kind aborts the load — a partially relocated kernel must never be
//! handed control.

use vstd::prelude::*;

use crate::LoadError;
use crate::memory::MemoryModel;
use crate::image::{spec_sh_file_offset, spec_sh_size};
use crate::words::{le_bytes_of, le_field, lemma_le_round_trip, lemma_pow256_widths, pow256,
    read_u64};

verus! {

/// The kind tag of the one supported, base-relative relocation.
pub const RELATIVE_RELOCATION_KIND: u64 = 8;

/// One relocation record of the image's relocation table.
#[derive(Clone, Copy, Debug, PartialEq, Eq, Structural)]
pub struct Elf64Rela {
    /// Where to patch, relative to the chosen load base.
    pub r_offset: u64,
    /// Symbol and kind; the low half is the kind tag.
    pub r_info: u64,
    /// What to add to the load base to form the patched value.
    pub r_addend: i64,
}

impl Elf64Rela {
    /// The record is of the one supported, base-relative kind.
    pub open spec fn supported_kind(self) -> bool {
        self.r_info & 0xffff_ffff == RELATIVE_RELOCATION_KIND
    }

    /// The first address of the patched machine word.
    pub open spec fn target(self, base_address: int) -> int {
        base_address + self.r_offset
    }

    /// The value the patched word receives.
    pub open spec fn value(self, base_address: int) -> int {
        base_address + self.r_addend
    }

    /// Whether `a` lies in the patched eight-byte window.
    pub open spec fn in_window(self, base_address: int, a: int) -> bool {
        self.target(base_address) <= a < self.target(base_address) + 8
    }

    /// The record can be applied on a machine whose allocated addresses are
    /// `mem`'s: it is of the supported kind, its value and its window stay
    /// within the address space, and the whole window is allocated.
    pub open spec fn applicable(self, base_address: int, mem: MemoryModel) -> bool {
        &&& self.supported_kind()
        &&& self.r_addend >= 0
        &&& base_address + self.r_addend <= u64::MAX
        &&& base_address + self.r_offset + 8 <= u64::MAX + 1
        &&& mem.range_mapped_spec(base_address + self.r_offset, 8)
    }

    /// Apply the record: overwrite the machine word at `base + r_offset`
    /// with `base + r_addend`, little-endian.
    ///
    /// Fails with `UnsupportedRelocation`, leaving memory untouched, exactly
    /// when the record is of another kind, its addend is negative, the
    /// patched value or window would leave the address space, or the window
    /// is not fully inside allocated memory.
    pub fn relocate(&self, base_address: u64, mem: &mut MemoryModel) -> (r: Result<(), LoadError>)
        requires
            old(mem).inv(),
        ensures
            final(mem).inv(),
            forall|a: int| final(mem).mapped(a) == old(mem).mapped(a),
            match r {
                Ok(()) => {
                    &&& self.applicable(base_address as int, *old(mem))
                    &&& final(mem).word_at(self.target(base_address as int)) == self.value(
                        base_address as int,
                    )
                    &&& forall|a: int|
                        self.in_window(base_address as int, a) ==> final(mem).byte_at(a)
                            == le_bytes_of(self.value(base_address as int), 8)[a - self.target(
                            base_address as int,
                        )]
                    &&& forall|a: int|
                        !self.in_window(base_address as int, a) ==> final(mem).byte_at(a) == old(
                            mem,
                        ).byte_at(a)
                },
                Err(e) => {
                    &&& e == LoadError::UnsupportedRelocation
                    &&& *final(mem) == *old(mem)
                    &&& !self.applicable(base_address as int, *old(mem))
                },
            },
    {
        if self.r_info & 0xffff_ffff != RELATIVE_RELOCATION_KIND {
            return Err(LoadError::UnsupportedRelocation);
        }
        if self.r_addend < 0 {
            return Err(LoadError::UnsupportedRelocation);
        }
        let addend = self.r_addend as u64;
        if addend > u64::MAX - base_address {
            return Err(LoadError::UnsupportedRelocation);
        }
        let value = base_address + addend;
        if self.r_offset > u64::MAX - base_address {
            return Err(LoadError::UnsupportedRelocation);
        }
        let target = base_address + self.r_offset;
        if target > u64::MAX - 7 {
            return Err(LoadError::UnsupportedRelocation);
        }
        if !mem.range_mapped(target, 8) {
            return Err(LoadError::UnsupportedRelocation);
        }
        mem.write_word(target, value);
        Ok(())
    }
}

/// The relocation record at index `i` of a table starting at `off`.
pub open spec fn spec_rela_at(s: Seq<u8>, off: int, i: int) -> Elf64Rela {
    Elf64Rela {
        r_offset: le_field(s, off + 24 * i, 8) as u64,
        r_info: le_field(s, off + 24 * i + 8, 8) as u64,
        r_addend: le_field(s, off + 24 * i + 16, 8) as u64 as i64,
    }
}

/// Parse the relocation table in `bytes[off .. off + size]`: one record per
/// full 24-byte entry, in table order.
///
/// Fails with `TruncatedImage` exactly when the table reaches past the end
/// of the image.
pub fn parse_rela_records(bytes: &Vec<u8>, off: u64, size: u64) -> (r: Result<
    Vec<Elf64Rela>,
    LoadError,
>)
    ensures
        match r {
            Ok(v) => {
                &&& off + size <= bytes.len()
                &&& v@.len() == size as int / 24
                &&& forall|i: int|
                    0 <= i < v@.len() ==> v@[i] == spec_rela_at(bytes@, off as int, i)
            },
            Err(e) => {
                &&& e == LoadError::TruncatedImage
                &&& off + size > bytes.len()
            },
        },
{
    let len = bytes.len() as u64;
    if off > len || size > len - off {
        return Err(LoadError::TruncatedImage);
    }
    let n = size / 24;
    let mut v: Vec<Elf64Rela> = Vec::new();
    let mut i: u64 = 0;
    proof {
        assert(n * 24 <= size) by (nonlinear_arith)
            requires
                n == size / 24,
                size >= 0,
        ;
    }
    while i < n
        invariant
            i <= n,
            n == size / 24,
            n * 24 <= size,
            off + size <= len,
            len == bytes.len(),
            v@.len() == i,
            forall|j: int| 0 <= j < i ==> v@[j] == spec_rela_at(bytes@, off as int, j),
        decreases n - i,
    {
        proof {
            assert((i + 1) * 24 <= n * 24) by (nonlinear_arith)
                requires
                    i < n,
            ;
        }
        let entry = off + i * 24;
        let r_offset = read_u64(bytes, entry as usize);
        let r_info = read_u64(bytes, entry as usize + 8);
        #[verifier::truncate]
        let r_addend = read_u64(bytes, entry as usize + 16) as i64;
        let rec = Elf64Rela { r_offset, r_info, r_addend };
        proof {
            assert(rec == spec_rela_at(bytes@, off as int, i as int));
        }
        v.push(rec);
        i = i + 1;
    }
    Ok(v)
}

/// The number of full records in the relocation table of section `si`.
pub open spec fn spec_rela_count(s: Seq<u8>, si: int) -> int {
    spec_sh_size(s, si) / 24
}

/// `records` is exactly the parsed relocation table of section `si`.
pub open spec fn spec_rela_records_match(s: Seq<u8>, si: int, records: Seq<Elf64Rela>) -> bool {
    forall|t: int|
        0 <= t < records.len() ==> records[t] == spec_rela_at(s, spec_sh_file_offset(s, si), t)
}

/// The windows of records `i` and `j` do not touch: their patch targets are
/// at least a machine word apart.
pub open spec fn window_disjoint(r1: Elf64Rela, r2: Elf64Rela) -> bool {
    r1.r_offset + 8 <= r2.r_offset || r2.r_offset + 8 <= r1.r_offset
}

/// No record after index `i` (and before `k`) overlaps record `i`'s window.
pub open spec fn later_disjoint(records: Seq<Elf64Rela>, i: int, k: int) -> bool {
    forall|j: int| i < j < k ==> window_disjoint(records[i], #[trigger] records[j])
}

/// The round-trip law for a whole table at once: when the records' windows
/// are pairwise disjoint, no later record can overwrite an earlier one, so
/// — by `apply_relocations`' contract — after a successful application
/// every record of the table has left its target word equal to
/// `base + addend`.
pub proof fn lemma_pairwise_disjoint_round_trip(records: Seq<Elf64Rela>)
    requires
        forall|i: int, j: int|
            0 <= i < j < records.len() ==> window_disjoint(
                #[trigger] records[i],
                #[trigger] records[j],
            ),
    ensures
        forall|i: int|
            0 <= i < records.len() ==> later_disjoint(records, i, records.len() as int),
{
    assert forall|i: int| 0 <= i < records.len() implies later_disjoint(
        records,
        i,
        records.len() as int,
    ) by {
        assert forall|j: int| i < j < records.len() implies window_disjoint(
            records[i],
            #[trigger] records[j],
        ) by {
            assert(window_disjoint(records[i], records[j]));
        }
    }
}

/// Whether `a` lies in no record's window.
pub open spec fn outside_all_windows(
    records: Seq<Elf64Rela>,
    base_address: int,
    a: int,
) -> bool {
    forall|i: int| 0 <= i < records.len() ==> !(#[trigger] records[i]).in_window(base_address, a)
}

/// Apply a whole relocation table in order, stopping at the first record
/// that cannot be applied.
///
/// Succeeds exactly when every record is applicable. On success every byte
/// outside the patched windows is untouched, and every record whose window
/// no later record overwrites has left its target word equal to
/// `base + addend` — in particular, with pairwise disjoint windows, every
/// record has.
pub fn apply_relocations(records: &Vec<Elf64Rela>, base_address: u64, mem: &mut MemoryModel) -> (r:
    Result<(), LoadError>)
    requires
        old(mem).inv(),
    ensures
        final(mem).inv(),
        forall|a: int| final(mem).mapped(a) == old(mem).mapped(a),
        r is Ok <==> forall|i: int|
            0 <= i < records@.len() ==> (#[trigger] records@[i]).applicable(
                base_address as int,
                *old(mem),
            ),
        match r {
            Ok(()) => {
                &&& forall|a: int|
                    outside_all_windows(records@, base_address as int, a)
                        ==> final(mem).byte_at(a) == old(mem).byte_at(a)
                &&& forall|i: int|
                    0 <= i < records@.len() && later_disjoint(records@, i, records@.len() as int)
                        ==> final(mem).word_at((#[trigger] records@[i]).target(base_address as int))
                        == records@[i].value(base_address as int)
            },
            Err(e) => e == LoadError::UnsupportedRelocation,
        },
{
    let ghost base = base_address as int;
    let mut k: usize = 0;
    while k < records.len()
        invariant
            mem.inv(),
            k <= records@.len(),
            forall|a: int| mem.mapped(a) == old(mem).mapped(a),
            forall|i: int|
                0 <= i < k ==> (#[trigger] records@[i]).applicable(base, *old(mem)),
            forall|a: int|
                outside_all_windows(records@, base, a) ==> mem.byte_at(a) == old(mem).byte_at(a),
            forall|i: int|
                0 <= i < k && later_disjoint(records@, i, k as int) ==> (forall|a: int|
                    (#[trigger] records@[i]).in_window(base, a) ==> mem.byte_at(a) == le_bytes_of(
                        records@[i].value(base),
                        8,
                    )[a - records@[i].target(base)]),
            base == base_address as int,
        decreases records@.len() - k,
    {
        let ghost mem_before = *mem;
        let rec = records[k];
        match rec.relocate(base_address, mem) {
            Ok(()) => {},
            Err(e) => {
                proof {
                    assert(!records@[k as int].applicable(base, *old(mem))) by {
                        if records@[k as int].applicable(base, *old(mem)) {
                            assert(mem_before.range_mapped_spec(
                                base + records@[k as int].r_offset,
                                8,
                            )) by {
                                assert forall|a: int|
                                    base + records@[k as int].r_offset <= a < base
                                        + records@[k as int].r_offset + 8 implies
                                    mem_before.mapped(a) by {
                                    assert(old(mem).mapped(a));
                                }
                            }
                        }
                    }
                }
                return Err(e);
            },
        }
        proof {
            assert(records@[k as int].applicable(base, *old(mem))) by {
                assert forall|a: int|
                    base + records@[k as int].r_offset <= a < base + records@[k as int].r_offset
                        + 8 implies old(mem).mapped(a) by {
                    assert(mem_before.mapped(a));
                }
            }
            assert forall|a: int|
                outside_all_windows(records@, base, a) implies mem.byte_at(a) == old(
                mem,
            ).byte_at(a) by {
                assert(!records@[k as int].in_window(base, a));
                assert(!rec.in_window(base, a));
            }
            assert forall|i: int|
                0 <= i < k + 1 && later_disjoint(records@, i, k + 1) implies (forall|a: int|
                (#[trigger] records@[i]).in_window(base, a) ==> mem.byte_at(a) == le_bytes_of(
                    records@[i].value(base),
                    8,
                )[a - records@[i].target(base)]) by {
                if i < k {
                    assert(later_disjoint(records@, i, k as int)) by {
                        assert(forall|j: int|
                            i < j < k ==> window_disjoint(records@[i], #[trigger] records@[j]));
                    }
                    assert(window_disjoint(records@[i], records@[k as int]));
                    assert forall|a: int| (#[trigger] records@[i]).in_window(base, a) implies
                    mem.byte_at(a) == le_bytes_of(records@[i].value(base), 8)[a - records@[i].target(
                        base,
                    )] by {
                        assert(!rec.in_window(base, a));
                        assert(mem_before.byte_at(a) == le_bytes_of(records@[i].value(base), 8)[a
                            - records@[i].target(base)]);
                    }
                }
            }
        }
        k = k + 1;
    }
    proof {
        assert forall|i: int|
            0 <= i < records@.len() && later_disjoint(records@, i, records@.len() as int) implies
        mem.word_at((#[trigger] records@[i]).target(base)) == records@[i].value(base) by {
            let v = records@[i].value(base);
            assert(Seq::new(8, |t: int| mem.byte_at(records@[i].target(base) + t))
                =~= le_bytes_of(v, 8)) by {
                crate::words::lemma_le_bytes_of_len(v, 8);
                assert forall|t: int| 0 <= t < 8 implies mem.byte_at(records@[i].target(base) + t)
                    == le_bytes_of(v, 8)[t] by {
                    assert(records@[i].in_window(base, records@[i].target(base) + t));
                }
            }
            lemma_le_round_trip(v, 8);
            lemma_pow256_widths();
            vstd::arithmetic::div_mod::lemma_small_mod(v as nat, pow256(8) as nat);
        }
    }
    Ok(())
}

} // verus!
