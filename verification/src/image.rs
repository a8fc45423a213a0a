//! The executable-image parser.
//!
//! The loader understands just enough of the 64-bit little-endian executable
//! format to boot a kernel: the identification and entry fields of the file
//! header, the program-header table (to find the loadable segments), and the
//! section-header table together with its name-string table (to find the
//! relative-relocation section of a position-independent image).
//!
//! Every parsing function is specified against the raw bytes: what it
//! returns is a function of the byte string alone, spelled out field by
//! field with little-endian field readers.

use vstd::prelude::*;

use crate::LoadError;
use crate::words::{le_field, read_u16, read_u32, read_u64};

verus! {

/// Whether the image must sit at its linked addresses or may be placed
/// anywhere and then relocated.
#[derive(Clone, Copy, Debug, PartialEq, Eq, Structural)]
pub enum ImageKind {
    /// Segments are placed exactly at their recorded addresses.
    FixedAddress,
    /// Segments are placed at a chosen base and the image is relocated.
    PositionIndependent,
}

/// The validated facts the loader needs from the image's file header.
#[derive(Clone, Copy, Debug, PartialEq, Eq, Structural)]
pub struct ImageHeader {
    /// The virtual address of the kernel's entry point, before any
    /// relocation base is applied.
    pub entry_point: u64,
    /// Fixed-address or position-independent.
    pub kind: ImageKind,
}

/// One program-header entry, with the fields the loader reads.
#[derive(Clone, Copy, Debug, PartialEq, Eq, Structural)]
pub struct ProgramHeaderInfo {
    /// The entry's type tag; loadable segments carry type 1.
    pub p_type: u32,
    /// Offset of the segment's bytes within the image file.
    pub file_offset: u64,
    /// The address the segment asks to occupy.
    pub virtual_address: u64,
    /// Number of file-backed bytes.
    pub file_size: u64,
    /// In-memory extent, at least `file_size`; the tail is the BSS.
    pub mem_size: u64,
}

/// The file header is present, carries the format's magic number, and
/// declares the 64-bit class and little-endian data layout this loader
/// targets.
pub open spec fn header_ok(s: Seq<u8>) -> bool {
    &&& s.len() >= 64
    &&& s[0] == 0x7f
    &&& s[1] == 0x45
    &&& s[2] == 0x4c
    &&& s[3] == 0x46
    &&& s[4] == 2
    &&& s[5] == 1
}

/// The entry-point field of the file header.
pub open spec fn spec_entry_point(s: Seq<u8>) -> int {
    le_field(s, 24, 8)
}

/// A type tag of 3 marks a position-independent (shared-object) image.
pub open spec fn spec_is_pie(s: Seq<u8>) -> bool {
    le_field(s, 16, 2) == 3
}

/// Offset of the program-header table.
pub open spec fn spec_ph_offset(s: Seq<u8>) -> int {
    le_field(s, 32, 8)
}

/// Size of one program-header entry.
pub open spec fn spec_ph_entry_size(s: Seq<u8>) -> int {
    le_field(s, 54, 2)
}

/// Number of program-header entries.
pub open spec fn spec_ph_count(s: Seq<u8>) -> int {
    le_field(s, 56, 2)
}

/// Offset of the section-header table.
pub open spec fn spec_sh_offset(s: Seq<u8>) -> int {
    le_field(s, 40, 8)
}

/// Size of one section-header entry.
pub open spec fn spec_sh_entry_size(s: Seq<u8>) -> int {
    le_field(s, 58, 2)
}

/// Number of section-header entries.
pub open spec fn spec_sh_count(s: Seq<u8>) -> int {
    le_field(s, 60, 2)
}

/// Index of the section holding the section names.
pub open spec fn spec_sh_strtab_index(s: Seq<u8>) -> int {
    le_field(s, 62, 2)
}

/// Validate the file header and read the entry point and image kind.
///
/// Fails with `MalformedImage` exactly when the header is truncated or its
/// identification fields do not declare the 64-bit little-endian format.
pub fn parse_header(bytes: &Vec<u8>) -> (r: Result<ImageHeader, LoadError>)
    ensures
        match r {
            Ok(h) => {
                &&& header_ok(bytes@)
                &&& h.entry_point == spec_entry_point(bytes@)
                &&& (h.kind == ImageKind::PositionIndependent <==> spec_is_pie(bytes@))
            },
            Err(e) => {
                &&& e == LoadError::MalformedImage
                &&& !header_ok(bytes@)
            },
        },
{
    if bytes.len() < 64 {
        return Err(LoadError::MalformedImage);
    }
    if bytes[0] != 0x7f || bytes[1] != 0x45 || bytes[2] != 0x4c || bytes[3] != 0x46 {
        return Err(LoadError::MalformedImage);
    }
    if bytes[4] != 2 || bytes[5] != 1 {
        return Err(LoadError::MalformedImage);
    }
    let image_type = read_u16(bytes, 16);
    let entry_point = read_u64(bytes, 24);
    let kind = if image_type == 3 {
        ImageKind::PositionIndependent
    } else {
        ImageKind::FixedAddress
    };
    Ok(ImageHeader { entry_point, kind })
}

/// The program-header table is declared with full-size entries and lies
/// entirely within the image.
pub open spec fn ph_table_ok(s: Seq<u8>) -> bool {
    &&& header_ok(s)
    &&& spec_ph_entry_size(s) >= 56
    &&& spec_ph_offset(s) + spec_ph_count(s) * spec_ph_entry_size(s) <= s.len()
}

/// The program-header entry at index `i`.
pub open spec fn spec_ph_at(s: Seq<u8>, i: int) -> ProgramHeaderInfo {
    let off = spec_ph_offset(s) + i * spec_ph_entry_size(s);
    ProgramHeaderInfo {
        p_type: le_field(s, off, 4) as u32,
        file_offset: le_field(s, off + 8, 8) as u64,
        virtual_address: le_field(s, off + 16, 8) as u64,
        file_size: le_field(s, off + 32, 8) as u64,
        mem_size: le_field(s, off + 40, 8) as u64,
    }
}

/// The loadable entries among the first `n` program headers, in table
/// order. Entries of any other type are skipped, not rejected.
pub open spec fn loadable_list(s: Seq<u8>, n: int) -> Seq<ProgramHeaderInfo>
    decreases n,
{
    if n <= 0 {
        Seq::empty()
    } else if spec_ph_at(s, n - 1).p_type == 1 {
        loadable_list(s, n - 1).push(spec_ph_at(s, n - 1))
    } else {
        loadable_list(s, n - 1)
    }
}

/// Walk the program-header table and collect the loadable entries in order.
///
/// Fails with `MalformedImage` exactly when the file header is invalid or
/// the declared entry size is shorter than an entry's fields, and with
/// `TruncatedImage` exactly when the header is sound but the table reaches
/// past the end of the image.
pub fn loadable_segments(bytes: &Vec<u8>) -> (r: Result<Vec<ProgramHeaderInfo>, LoadError>)
    ensures
        match r {
            Ok(v) => {
                &&& ph_table_ok(bytes@)
                &&& v@ == loadable_list(bytes@, spec_ph_count(bytes@))
            },
            Err(e) => {
                &&& !ph_table_ok(bytes@)
                &&& (e == LoadError::MalformedImage || e == LoadError::TruncatedImage)
                &&& (e == LoadError::MalformedImage <==> (!header_ok(bytes@) || spec_ph_entry_size(
                    bytes@,
                ) < 56))
            },
        },
{
    match parse_header(bytes) {
        Ok(_) => {},
        Err(e) => {
            return Err(e);
        },
    }
    let ph_off = read_u64(bytes, 32);
    let ent = read_u16(bytes, 54);
    let count = read_u16(bytes, 56);
    if ent < 56 {
        return Err(LoadError::MalformedImage);
    }
    let len = bytes.len() as u64;
    proof {
        vstd::arithmetic::mul::lemma_mul_upper_bound(count as int, 0xffff, ent as int, 0xffff);
    }
    let table: u64 = (count as u64) * (ent as u64);
    if ph_off > len || table > len - ph_off {
        return Err(LoadError::TruncatedImage);
    }
    let mut v: Vec<ProgramHeaderInfo> = Vec::new();
    let mut i: usize = 0;
    while i < count as usize
        invariant
            i <= count,
            ph_table_ok(bytes@),
            ph_off == spec_ph_offset(bytes@),
            ent == spec_ph_entry_size(bytes@),
            count == spec_ph_count(bytes@),
            len == bytes.len(),
            ent >= 56,
            v@ == loadable_list(bytes@, i as int),
        decreases count - i,
    {
        proof {
            vstd::arithmetic::mul::lemma_mul_inequality(i as int, count as int, ent as int);
            vstd::arithmetic::mul::lemma_mul_upper_bound(i as int, 0xffff, ent as int, 0xffff);
        }
        let off = ph_off + (i as u64) * (ent as u64);
        proof {
            vstd::arithmetic::mul::lemma_mul_inequality(i + 1, count as int, ent as int);
            vstd::arithmetic::mul::lemma_mul_is_distributive_add_other_way(
                ent as int,
                i as int,
                1,
            );
            assert(off + ent <= len);
        }
        let off_us = off as usize;
        let p_type = read_u32(bytes, off_us);
        let file_offset = read_u64(bytes, off_us + 8);
        let virtual_address = read_u64(bytes, off_us + 16);
        let file_size = read_u64(bytes, off_us + 32);
        let mem_size = read_u64(bytes, off_us + 40);
        let rec = ProgramHeaderInfo { p_type, file_offset, virtual_address, file_size, mem_size };
        proof {
            assert(rec == spec_ph_at(bytes@, i as int));
        }
        if p_type == 1 {
            v.push(rec);
        }
        i = i + 1;
    }
    Ok(v)
}

/// The name, nul terminator included, that marks the relative-relocation
/// section.
pub open spec fn rela_dyn_name() -> Seq<u8> {
    seq![0x2eu8, 0x72u8, 0x65u8, 0x6cu8, 0x61u8, 0x2eu8, 0x64u8, 0x79u8, 0x6eu8, 0u8]
}

/// The section-header table is declared with full-size entries, lies within
/// the image, and names a string-table section.
pub open spec fn sh_table_ok(s: Seq<u8>) -> bool {
    &&& header_ok(s)
    &&& spec_sh_entry_size(s) >= 64
    &&& spec_sh_offset(s) + spec_sh_count(s) * spec_sh_entry_size(s) <= s.len()
    &&& spec_sh_strtab_index(s) < spec_sh_count(s)
}

/// The name-offset field of section `i`.
pub open spec fn spec_sh_name_offset(s: Seq<u8>, i: int) -> int {
    le_field(s, spec_sh_offset(s) + i * spec_sh_entry_size(s), 4)
}

/// The file-offset field of section `i`.
pub open spec fn spec_sh_file_offset(s: Seq<u8>, i: int) -> int {
    le_field(s, spec_sh_offset(s) + i * spec_sh_entry_size(s) + 24, 8)
}

/// The size field of section `i`.
pub open spec fn spec_sh_size(s: Seq<u8>, i: int) -> int {
    le_field(s, spec_sh_offset(s) + i * spec_sh_entry_size(s) + 32, 8)
}

/// The string at offset `name_off` of a string table at `[st_off, st_off +
/// st_size)` is exactly the relocation section's name.
pub open spec fn name_matches_spec(s: Seq<u8>, st_off: int, st_size: int, name_off: int) -> bool {
    &&& name_off + 10 <= st_size
    &&& st_off + name_off + 10 <= s.len()
    &&& s.subrange(st_off + name_off, st_off + name_off + 10) == rela_dyn_name()
}

/// Section `i`'s name, looked up in the name-string table, is the
/// relocation section's name.
pub open spec fn section_is_rela_dyn(s: Seq<u8>, i: int) -> bool {
    name_matches_spec(
        s,
        spec_sh_file_offset(s, spec_sh_strtab_index(s)),
        spec_sh_size(s, spec_sh_strtab_index(s)),
        spec_sh_name_offset(s, i),
    )
}

/// The first section at index `>= i` whose name is the relocation
/// section's name, if any.
pub open spec fn find_rela_from(s: Seq<u8>, i: int) -> Option<int>
    decreases spec_sh_count(s) - i when 0 <= i
{
    if i >= spec_sh_count(s) {
        None
    } else if section_is_rela_dyn(s, i) {
        Some(i)
    } else {
        find_rela_from(s, i + 1)
    }
}

/// The index of the relocation section: the first section carrying its
/// name, if any.
pub open spec fn spec_find_rela(s: Seq<u8>) -> Option<int> {
    find_rela_from(s, 0)
}

/// The relocation section's name as bytes.
fn rela_dyn_bytes() -> (v: Vec<u8>)
    ensures
        v@ == rela_dyn_name(),
{
    let mut v: Vec<u8> = Vec::new();
    v.push(0x2e);
    v.push(0x72);
    v.push(0x65);
    v.push(0x6c);
    v.push(0x61);
    v.push(0x2e);
    v.push(0x64);
    v.push(0x79);
    v.push(0x6e);
    v.push(0);
    proof {
        assert(v@ =~= rela_dyn_name());
    }
    v
}

/// Whether the string-table entry at `name_off` is the relocation section's
/// name.
fn name_is_rela_dyn(bytes: &Vec<u8>, st_off: u64, st_size: u64, name_off: u32) -> (b: bool)
    ensures
        b == name_matches_spec(bytes@, st_off as int, st_size as int, name_off as int),
{
    if st_size < 10 || name_off as u64 > st_size - 10 {
        return false;
    }
    let len = bytes.len() as u64;
    if st_off > len || name_off as u64 > len - st_off {
        return false;
    }
    let pos = st_off + name_off as u64;
    if len - pos < 10 {
        return false;
    }
    let expected = rela_dyn_bytes();
    let mut j: usize = 0;
    while j < 10
        invariant
            j <= 10,
            pos == st_off + name_off,
            pos + 10 <= bytes.len(),
            expected@ == rela_dyn_name(),
            forall|t: int| 0 <= t < j ==> bytes@[pos + t] == rela_dyn_name()[t],
        decreases 10 - j,
    {
        if bytes[pos as usize + j] != expected[j] {
            proof {
                let a = st_off + name_off as int;
                assert(pos <= usize::MAX);
                assert(bytes@.subrange(a, a + 10)[j as int] == bytes@[a + j]);
            }
            return false;
        }
        j = j + 1;
    }
    proof {
        assert(bytes@.subrange(st_off + name_off as int, st_off + name_off + 10)
            =~= rela_dyn_name());
    }
    true
}

/// Find the relative-relocation section: the first section whose name is
/// the relocation section's name. Returns its file offset and size, or
/// `None` when no section carries that name.
///
/// Fails with `MalformedImage` exactly when the file header is invalid, the
/// declared entry size is shorter than an entry, or the name-table index is
/// out of range; and with `TruncatedImage` exactly when those are sound but
/// the table reaches past the end of the image.
pub fn find_rela_section(bytes: &Vec<u8>) -> (r: Result<Option<(u64, u64)>, LoadError>)
    ensures
        match r {
            Ok(opt) => {
                &&& sh_table_ok(bytes@)
                &&& match opt {
                    Some(pair) => {
                        &&& spec_find_rela(bytes@) is Some
                        &&& 0 <= spec_find_rela(bytes@)->0 < spec_sh_count(bytes@)
                        &&& section_is_rela_dyn(bytes@, spec_find_rela(bytes@)->0)
                        &&& pair.0 == spec_sh_file_offset(bytes@, spec_find_rela(bytes@)->0)
                        &&& pair.1 == spec_sh_size(bytes@, spec_find_rela(bytes@)->0)
                    },
                    None => spec_find_rela(bytes@) is None,
                }
            },
            Err(e) => {
                &&& !sh_table_ok(bytes@)
                &&& (e == LoadError::MalformedImage || e == LoadError::TruncatedImage)
                &&& (e == LoadError::MalformedImage <==> (!header_ok(bytes@) || spec_sh_entry_size(
                    bytes@,
                ) < 64 || spec_sh_strtab_index(bytes@) >= spec_sh_count(bytes@)))
            },
        },
{
    match parse_header(bytes) {
        Ok(_) => {},
        Err(e) => {
            return Err(e);
        },
    }
    let sh_off = read_u64(bytes, 40);
    let ent = read_u16(bytes, 58);
    let count = read_u16(bytes, 60);
    let strtab = read_u16(bytes, 62);
    if ent < 64 || strtab >= count {
        return Err(LoadError::MalformedImage);
    }
    let len = bytes.len() as u64;
    proof {
        vstd::arithmetic::mul::lemma_mul_upper_bound(count as int, 0xffff, ent as int, 0xffff);
    }
    let table: u64 = (count as u64) * (ent as u64);
    if sh_off > len || table > len - sh_off {
        return Err(LoadError::TruncatedImage);
    }
    proof {
        vstd::arithmetic::mul::lemma_mul_inequality(strtab as int, count as int, ent as int);
    }
    let st_entry = sh_off + (strtab as u64) * (ent as u64);
    proof {
        vstd::arithmetic::mul::lemma_mul_inequality(strtab as int + 1, count as int, ent as int);
        vstd::arithmetic::mul::lemma_mul_is_distributive_add_other_way(
            ent as int,
            strtab as int,
            1,
        );
        assert(st_entry + ent <= len);
    }
    let st_off = read_u64(bytes, st_entry as usize + 24);
    let st_size = read_u64(bytes, st_entry as usize + 32);
    let mut i: usize = 0;
    while i < count as usize
        invariant
            i <= count,
            sh_table_ok(bytes@),
            sh_off == spec_sh_offset(bytes@),
            ent == spec_sh_entry_size(bytes@),
            count == spec_sh_count(bytes@),
            strtab == spec_sh_strtab_index(bytes@),
            st_off == spec_sh_file_offset(bytes@, strtab as int),
            st_size == spec_sh_size(bytes@, strtab as int),
            len == bytes.len(),
            ent >= 64,
            spec_find_rela(bytes@) == find_rela_from(bytes@, i as int),
        decreases count - i,
    {
        proof {
            vstd::arithmetic::mul::lemma_mul_inequality(i as int, count as int, ent as int);
            vstd::arithmetic::mul::lemma_mul_upper_bound(i as int, 0xffff, ent as int, 0xffff);
        }
        let off = sh_off + (i as u64) * (ent as u64);
        proof {
            vstd::arithmetic::mul::lemma_mul_inequality(i + 1, count as int, ent as int);
            vstd::arithmetic::mul::lemma_mul_is_distributive_add_other_way(
                ent as int,
                i as int,
                1,
            );
            assert(off + ent <= len);
        }
        let name_off = read_u32(bytes, off as usize);
        let sec_off = read_u64(bytes, off as usize + 24);
        let sec_size = read_u64(bytes, off as usize + 32);
        if name_is_rela_dyn(bytes, st_off, st_size, name_off) {
            proof {
                assert(section_is_rela_dyn(bytes@, i as int));
                assert(find_rela_from(bytes@, i as int) == Some(i as int));
            }
            return Ok(Some((sec_off, sec_size)));
        }
        proof {
            assert(find_rela_from(bytes@, i as int) == find_rela_from(bytes@, i + 1));
        }
        i = i + 1;
    }
    proof {
        assert(find_rela_from(bytes@, count as int) is None);
    }
    Ok(None)
}

} // verus!
