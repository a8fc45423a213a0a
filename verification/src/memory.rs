//! An explicit model of the machine's physical memory at boot time.
//!
//! The firmware hands out page-aligned, pairwise-disjoint ranges of physical
//! memory; the loader fills them. This module models exactly that: a set of
//! allocated regions, observed through two spec functions — which addresses
//! are mapped, and what byte each mapped address holds. Every operation's
//! contract is stated in terms of those two observations alone.

use vstd::prelude::*;

use crate::LoadError;
use crate::layout::PAGE_SIZE;
use crate::words::{le_bytes_of, le_bytes_to_int, lemma_le_round_trip, lemma_pow256_widths, pow256,
    read_le, word_to_le_bytes};
use vstd::pervasive::VecAdditionalExecFns;

verus! {

/// One allocated range of physical memory and its current contents.
struct Region {
    base: u64,
    bytes: Vec<u8>,
}

impl Region {
    /// One past the last address of the region.
    spec fn end(self) -> int {
        self.base + self.bytes.len()
    }

    /// Whether `addr` lies inside the region.
    spec fn contains(self, addr: int) -> bool {
        self.base <= addr < self.end()
    }

    /// A region starts on a page boundary, is never empty, and ends within
    /// the 64-bit address space.
    spec fn wf(self) -> bool {
        &&& self.base as int % (PAGE_SIZE as int) == 0
        &&& self.bytes.len() > 0
        &&& self.base + self.bytes.len() <= u64::MAX + 1
    }
}

/// Allocated regions never overlap.
spec fn regions_disjoint(rs: Seq<Region>) -> bool {
    forall|i: int, j: int|
        0 <= i < rs.len() && 0 <= j < rs.len() && i != j ==> (#[trigger] rs[i]).end() <= (
        #[trigger] rs[j]).base || rs[j].end() <= rs[i].base
}

/// Whether some region at index `>= i` contains `addr`.
spec fn mapped_from(rs: Seq<Region>, addr: int) -> bool {
    exists|i: int| 0 <= i < rs.len() && (#[trigger] rs[i]).contains(addr)
}

/// The byte of the first region at index `>= i` that contains `addr`; zero
/// when none does.
spec fn byte_at_from(rs: Seq<Region>, i: int, addr: int) -> u8
    decreases rs.len() - i when 0 <= i <= rs.len()
{
    if i >= rs.len() {
        0
    } else if rs[i].contains(addr) {
        rs[i].bytes@[addr - rs[i].base]
    } else {
        byte_at_from(rs, i + 1, addr)
    }
}

/// When region `k` contains `addr` and the regions are disjoint, scanning
/// from any index at or before `k` finds exactly region `k`'s byte.
proof fn lemma_byte_at_containing(rs: Seq<Region>, i: int, k: int, addr: int)
    requires
        regions_disjoint(rs),
        0 <= i <= k < rs.len(),
        rs[k].contains(addr),
    ensures
        byte_at_from(rs, i, addr) == rs[k].bytes@[addr - rs[k].base],
    decreases k - i,
{
    if i < k {
        lemma_byte_at_containing(rs, i + 1, k, addr);
    }
}

/// An address no region from index `i` on contains reads as zero.
proof fn lemma_byte_at_unmapped(rs: Seq<Region>, i: int, addr: int)
    requires
        0 <= i <= rs.len(),
        forall|j: int| i <= j < rs.len() ==> !(#[trigger] rs[j]).contains(addr),
    ensures
        byte_at_from(rs, i, addr) == 0,
    decreases rs.len() - i,
{
    if i < rs.len() {
        lemma_byte_at_unmapped(rs, i + 1, addr);
    }
}

/// Replacing region `k` by one with the same base and length leaves the
/// bytes of every address outside region `k` unchanged.
proof fn lemma_byte_at_update_frame(rs: Seq<Region>, k: int, r2: Region, i: int, addr: int)
    requires
        0 <= k < rs.len(),
        r2.base == rs[k].base,
        r2.bytes.len() == rs[k].bytes.len(),
        0 <= i <= rs.len(),
        !rs[k].contains(addr),
    ensures
        byte_at_from(rs.update(k, r2), i, addr) == byte_at_from(rs, i, addr),
    decreases rs.len() - i,
{
    if i < rs.len() {
        lemma_byte_at_update_frame(rs, k, r2, i + 1, addr);
    }
}

/// The machine's physical memory as the loader sees it: the regions the
/// firmware has granted, each with its bytes.
pub struct MemoryModel {
    regions: Vec<Region>,
}

impl MemoryModel {
    /// Regions are well formed and pairwise disjoint.
    pub closed spec fn inv(self) -> bool {
        &&& forall|i: int| 0 <= i < self.regions@.len() ==> (#[trigger] self.regions@[i]).wf()
        &&& regions_disjoint(self.regions@)
    }

    /// Whether `addr` lies in some allocated region.
    pub closed spec fn mapped(self, addr: int) -> bool {
        mapped_from(self.regions@, addr)
    }

    /// The byte stored at `addr`; zero off the allocated regions.
    pub closed spec fn byte_at(self, addr: int) -> u8 {
        byte_at_from(self.regions@, 0, addr)
    }

    /// Every address of `[addr, addr + len)` is allocated.
    pub open spec fn range_mapped_spec(self, addr: int, len: int) -> bool {
        forall|a: int| addr <= a < addr + len ==> self.mapped(a)
    }

    /// The machine word stored little-endian at `addr`.
    pub open spec fn word_at(self, addr: int) -> int {
        le_bytes_to_int(Seq::new(8, |k: int| self.byte_at(addr + k)))
    }

    /// A machine with nothing allocated.
    pub fn new() -> (m: MemoryModel)
        ensures
            m.inv(),
            forall|a: int| !m.mapped(a),
    {
        MemoryModel { regions: Vec::new() }
    }

    /// The index of the region containing `addr`, if any.
    fn find_region(&self, addr: u64) -> (r: Option<usize>)
        ensures
            match r {
                Some(i) => i < self.regions@.len() && self.regions@[i as int].contains(addr as int),
                None => !self.mapped(addr as int),
            },
    {
        let mut i: usize = 0;
        while i < self.regions.len()
            invariant
                i <= self.regions@.len(),
                forall|j: int| 0 <= j < i ==> !(#[trigger] self.regions@[j]).contains(addr as int),
            decreases self.regions@.len() - i,
        {
            let base = self.regions[i].base;
            let len = self.regions[i].bytes.len() as u64;
            if addr >= base && addr - base < len {
                return Some(i);
            }
            i = i + 1;
        }
        None
    }

    /// Whether every address of `[addr, addr + len)` is allocated.
    pub fn range_mapped(&self, addr: u64, len: u64) -> (b: bool)
        requires
            self.inv(),
            addr + len <= u64::MAX + 1,
        ensures
            b == self.range_mapped_spec(addr as int, len as int),
    {
        let mut k: u64 = 0;
        while k < len
            invariant
                k <= len,
                addr + len <= u64::MAX + 1,
                forall|a: int| addr <= a < addr + k ==> self.mapped(a),
            decreases len - k,
        {
            match self.find_region(addr + k) {
                Some(i) => {
                    proof {
                        assert(self.mapped(addr + k));
                    }
                },
                None => {
                    return false;
                },
            }
            k = k + 1;
        }
        true
    }

    /// Request `page_count` pages at the fixed, page-aligned address `base`,
    /// exactly as the firmware's fixed-address page allocation behaves. The
    /// contents of the granted range are whatever the physical memory
    /// previously held — nothing is promised about them, and the model
    /// hands back deliberately dirty bytes, so a caller that needs zeros
    /// has to clear the range itself.
    ///
    /// Fails with `AllocationFailed`, leaving the machine untouched, exactly
    /// when the request is malformed (unaligned base, zero length, or a range
    /// that overflows the address space or the host's buffer limit) or some
    /// address of the requested range is already allocated.
    pub fn allocate_pages_at(&mut self, base: u64, page_count: u64) -> (r: Result<(), LoadError>)
        requires
            old(self).inv(),
        ensures
            final(self).inv(),
            match r {
                Ok(()) => {
                    &&& base as int % (PAGE_SIZE as int) == 0
                    &&& 0 < page_count
                    &&& page_count * PAGE_SIZE <= usize::MAX
                    &&& base + page_count * PAGE_SIZE <= u64::MAX + 1
                    &&& forall|a: int|
                        base <= a < base + page_count * PAGE_SIZE ==> !old(self).mapped(a)
                    &&& forall|a: int|
                        final(self).mapped(a) <==> (old(self).mapped(a) || base <= a < base
                            + page_count * PAGE_SIZE)
                    &&& forall|a: int|
                        !(base <= a < base + page_count * PAGE_SIZE) ==> final(self).byte_at(a)
                            == old(self).byte_at(a)
                },
                Err(e) => {
                    &&& e == LoadError::AllocationFailed
                    &&& *final(self) == *old(self)
                    &&& !{
                        &&& base as int % (PAGE_SIZE as int) == 0
                        &&& 0 < page_count
                        &&& page_count * PAGE_SIZE <= usize::MAX
                        &&& base + page_count * PAGE_SIZE <= u64::MAX + 1
                        &&& forall|a: int|
                            base <= a < base + page_count * PAGE_SIZE ==> !old(self).mapped(a)
                    }
                },
            },
    {
        if base % PAGE_SIZE != 0 || page_count == 0 {
            return Err(LoadError::AllocationFailed);
        }
        let size = match page_count.checked_mul(PAGE_SIZE) {
            Some(s) => s,
            None => {
                return Err(LoadError::AllocationFailed);
            },
        };
        if size > usize::MAX as u64 {
            return Err(LoadError::AllocationFailed);
        }
        if base > (u64::MAX - size) + 1 {
            return Err(LoadError::AllocationFailed);
        }
        let last = base + (size - 1);
        let mut i: usize = 0;
        while i < self.regions.len()
            invariant
                self.inv(),
                i <= self.regions@.len(),
                last == base + size - 1,
                size > 0,
                size == page_count * PAGE_SIZE,
                forall|j: int|
                    0 <= j < i ==> ((#[trigger] self.regions@[j]).end() <= base || base + size
                        <= self.regions@[j].base),
            decreases self.regions@.len() - i,
        {
            let reg_base = self.regions[i].base;
            let reg_last = reg_base + (self.regions[i].bytes.len() as u64 - 1);
            if reg_base <= last && base <= reg_last {
                proof {
                    let a = if base >= reg_base {
                        base as int
                    } else {
                        reg_base as int
                    };
                    assert(self.regions@[i as int].contains(a));
                    assert(self.mapped(a));
                    assert(base <= a < base + page_count * PAGE_SIZE);
                }
                return Err(LoadError::AllocationFailed);
            }
            i = i + 1;
        }
        let bytes = dirty(size as usize);
        let region = Region { base, bytes };
        let ghost old_rs = self.regions@;
        let ghost n = old_rs.len() as int;
        self.regions.push(region);
        proof {
            let rs = self.regions@;
            assert(rs[n].wf());
            assert forall|i2: int| 0 <= i2 < rs.len() implies (#[trigger] rs[i2]).wf() by {
                if i2 < n {
                    assert(old_rs[i2].wf());
                }
            }
            assert(regions_disjoint(rs)) by {
                assert forall|i2: int, j2: int|
                    0 <= i2 < rs.len() && 0 <= j2 < rs.len() && i2 != j2 implies (
                #[trigger] rs[i2]).end() <= (#[trigger] rs[j2]).base || rs[j2].end()
                    <= rs[i2].base by {
                    if i2 < n && j2 < n {
                        assert(old_rs[i2].end() <= old_rs[j2].base || old_rs[j2].end()
                            <= old_rs[i2].base);
                    } else if i2 == n {
                        assert(old_rs[j2].end() <= base || base + size <= old_rs[j2].base);
                    } else {
                        assert(old_rs[i2].end() <= base || base + size <= old_rs[i2].base);
                    }
                }
            }
            assert(rs[n].contains(base as int));
            assert forall|a: int| base <= a < base + page_count * PAGE_SIZE implies !old(
                self,
            ).mapped(a) by {
                assert forall|j: int| 0 <= j < n implies !(#[trigger] old_rs[j]).contains(a) by {
                    assert(old_rs[j].end() <= base || base + size <= old_rs[j].base);
                }
            }
            assert forall|a: int|
                self.mapped(a) <==> (old(self).mapped(a) || base <= a < base + page_count
                    * PAGE_SIZE) by {
                if self.mapped(a) {
                    let i = choose|i: int| 0 <= i < rs.len() && (#[trigger] rs[i]).contains(a);
                    if i < n {
                        assert(old_rs[i].contains(a));
                    }
                }
                if old(self).mapped(a) {
                    let i = choose|i: int|
                        0 <= i < old_rs.len() && (#[trigger] old_rs[i]).contains(a);
                    assert(rs[i].contains(a));
                }
                if base <= a < base + page_count * PAGE_SIZE {
                    assert(rs[n].contains(a));
                }
            }
            assert forall|a: int| !(base <= a < base + page_count * PAGE_SIZE) implies
            self.byte_at(a) == old(self).byte_at(a) by {
                if old(self).mapped(a) {
                    let i = choose|i: int|
                        0 <= i < old_rs.len() && (#[trigger] old_rs[i]).contains(a);
                    lemma_byte_at_containing(old_rs, 0, i, a);
                    lemma_byte_at_containing(rs, 0, i, a);
                } else {
                    assert(forall|j: int| 0 <= j < n ==> !(#[trigger] old_rs[j]).contains(a));
                    assert forall|j: int| 0 <= j < rs.len() implies !(#[trigger] rs[j]).contains(
                        a,
                    ) by {
                        if j < n {
                            assert(!old_rs[j].contains(a));
                        }
                    }
                    lemma_byte_at_unmapped(old_rs, 0, a);
                    lemma_byte_at_unmapped(rs, 0, a);
                }
            }
        }
        Ok(())
    }

    /// Store one byte at an allocated address.
    fn write_byte_at(&mut self, addr: u64, value: u8)
        requires
            old(self).inv(),
            old(self).mapped(addr as int),
        ensures
            final(self).inv(),
            forall|a: int| final(self).mapped(a) == old(self).mapped(a),
            final(self).byte_at(addr as int) == value,
            forall|a: int| a != addr ==> final(self).byte_at(a) == old(self).byte_at(a),
    {
        let i = match self.find_region(addr) {
            Some(i) => i,
            None => {
                return ;
            },
        };
        let ghost old_rs = self.regions@;
        let mut reg = self.regions.remove(i);
        let off = (addr - reg.base) as usize;
        reg.bytes.set(off, value);
        self.regions.insert(i, reg);
        proof {
            let rs = self.regions@;
            let k = i as int;
            assert(rs =~= old_rs.update(k, rs[k]));
            assert(rs[k].base == old_rs[k].base && rs[k].bytes.len() == old_rs[k].bytes.len());
            assert forall|a: int| self.mapped(a) == old(self).mapped(a) by {
                if mapped_from(old_rs, a) {
                    let j = choose|j: int|
                        0 <= j < old_rs.len() && (#[trigger] old_rs[j]).contains(a);
                    assert(rs[j].contains(a));
                }
                if mapped_from(rs, a) {
                    let j = choose|j: int| 0 <= j < rs.len() && (#[trigger] rs[j]).contains(a);
                    assert(old_rs[j].contains(a));
                }
            }
            assert(rs[k].contains(addr as int));
            lemma_byte_at_containing(rs, 0, k, addr as int);
            assert forall|a: int| a != addr implies self.byte_at(a) == old(self).byte_at(a) by {
                if old_rs[k].contains(a) {
                    lemma_byte_at_containing(old_rs, 0, k, a);
                    lemma_byte_at_containing(rs, 0, k, a);
                } else {
                    lemma_byte_at_update_frame(old_rs, k, rs[k], 0, a);
                }
            }
        }
    }

    /// Copy `data[src_off .. src_off + len]` to the allocated range starting
    /// at `addr`. Every other byte of the machine is untouched.
    pub fn write_slice(&mut self, addr: u64, data: &Vec<u8>, src_off: usize, len: usize)
        requires
            old(self).inv(),
            src_off + len <= data.len(),
            addr + len <= u64::MAX + 1,
            old(self).range_mapped_spec(addr as int, len as int),
        ensures
            final(self).inv(),
            forall|a: int| final(self).mapped(a) == old(self).mapped(a),
            forall|a: int|
                addr <= a < addr + len ==> final(self).byte_at(a) == data@[src_off + (a - addr)],
            forall|a: int|
                !(addr <= a < addr + len) ==> final(self).byte_at(a) == old(self).byte_at(a),
    {
        let mut k: usize = 0;
        while k < len
            invariant
                k <= len,
                self.inv(),
                src_off + len <= data.len(),
                addr + len <= u64::MAX + 1,
                forall|a: int| self.mapped(a) == old(self).mapped(a),
                old(self).range_mapped_spec(addr as int, len as int),
                forall|a: int|
                    addr <= a < addr + k ==> self.byte_at(a) == data@[src_off + (a - addr)],
                forall|a: int| !(addr <= a < addr + k) ==> self.byte_at(a) == old(self).byte_at(a),
            decreases len - k,
        {
            self.write_byte_at(addr + k as u64, data[src_off + k]);
            k = k + 1;
        }
    }

    /// Clear an allocated range to zero. Every other byte of the machine is
    /// untouched.
    pub fn zero_range(&mut self, addr: u64, len: u64)
        requires
            old(self).inv(),
            addr + len <= u64::MAX + 1,
            old(self).range_mapped_spec(addr as int, len as int),
        ensures
            final(self).inv(),
            forall|a: int| final(self).mapped(a) == old(self).mapped(a),
            forall|a: int| addr <= a < addr + len ==> final(self).byte_at(a) == 0,
            forall|a: int| !(addr <= a < addr + len) ==> final(self).byte_at(a) == old(self).byte_at(a),
    {
        let mut k: u64 = 0;
        while k < len
            invariant
                k <= len,
                self.inv(),
                addr + len <= u64::MAX + 1,
                forall|a: int| self.mapped(a) == old(self).mapped(a),
                old(self).range_mapped_spec(addr as int, len as int),
                forall|a: int| addr <= a < addr + k ==> self.byte_at(a) == 0,
                forall|a: int| !(addr <= a < addr + k) ==> self.byte_at(a) == old(self).byte_at(a),
            decreases len - k,
        {
            self.write_byte_at(addr + k, 0);
            k = k + 1;
        }
    }

    /// Store a machine word little-endian at an allocated range.
    pub fn write_word(&mut self, addr: u64, value: u64)
        requires
            old(self).inv(),
            addr + 8 <= u64::MAX + 1,
            old(self).range_mapped_spec(addr as int, 8),
        ensures
            final(self).inv(),
            forall|a: int| final(self).mapped(a) == old(self).mapped(a),
            final(self).word_at(addr as int) == value,
            forall|a: int|
                addr <= a < addr + 8 ==> final(self).byte_at(a) == le_bytes_of(value as int, 8)[a
                    - addr],
            forall|a: int|
                !(addr <= a < addr + 8) ==> final(self).byte_at(a) == old(self).byte_at(a),
    {
        let bytes = word_to_le_bytes(value);
        self.write_slice(addr, &bytes, 0, 8);
        proof {
            lemma_le_round_trip(value as int, 8);
            lemma_pow256_widths();
            vstd::arithmetic::div_mod::lemma_small_mod(value as nat, pow256(8) as nat);
            assert(Seq::new(8, |k: int| self.byte_at(addr + k)) =~= le_bytes_of(value as int, 8));
        }
    }

    /// The byte at `addr`, when `addr` is allocated.
    pub fn read_byte(&self, addr: u64) -> (r: Option<u8>)
        requires
            self.inv(),
        ensures
            match r {
                Some(b) => self.mapped(addr as int) && b == self.byte_at(addr as int),
                None => !self.mapped(addr as int),
            },
    {
        match self.find_region(addr) {
            Some(i) => {
                let reg_base = self.regions[i].base;
                let b = self.regions[i].bytes[(addr - reg_base) as usize];
                proof {
                    assert(self.mapped(addr as int));
                    lemma_byte_at_containing(self.regions@, 0, i as int, addr as int);
                }
                Some(b)
            },
            None => None,
        }
    }

    /// The machine word stored little-endian at `addr`, when the whole
    /// eight-byte window is allocated.
    pub fn read_word(&self, addr: u64) -> (r: Option<u64>)
        requires
            self.inv(),
            addr + 8 <= u64::MAX + 1,
        ensures
            match r {
                Some(w) => self.range_mapped_spec(addr as int, 8) && w == self.word_at(addr as int),
                None => !self.range_mapped_spec(addr as int, 8),
            },
    {
        if !self.range_mapped(addr, 8) {
            return None;
        }
        let mut v: Vec<u8> = Vec::new();
        let mut k: u64 = 0;
        while k < 8
            invariant
                k <= 8,
                self.inv(),
                addr + 8 <= u64::MAX + 1,
                self.range_mapped_spec(addr as int, 8),
                v@.len() == k,
                forall|j: int| 0 <= j < k ==> v@[j] == self.byte_at(addr + j),
            decreases 8 - k,
        {
            match self.read_byte(addr + k) {
                Some(b) => {
                    v.push(b);
                },
                None => {
                    proof {
                        assert(self.mapped(addr + k));
                    }
                    return None;
                },
            }
            k = k + 1;
        }
        let w = read_le(&v, 0, 8);
        proof {
            assert(v@.subrange(0, 8) =~= Seq::new(8, |k: int| self.byte_at(addr + k)));
        }
        Some(w)
    }
}

/// A buffer of the given length standing in for whatever a freshly granted
/// physical range happens to hold: recognisably non-zero garbage.
fn dirty(len: usize) -> (v: Vec<u8>)
    ensures
        v.len() == len,
{
    let mut v: Vec<u8> = Vec::new();
    while v.len() < len
        invariant
            v.len() <= len,
        decreases len - v.len(),
    {
        v.push(0xa5u8);
    }
    v
}

} // verus!
