use kernel_loader::LoadError;
use kernel_loader::boot::load_image;
use kernel_loader::image::ImageKind;
use kernel_loader::memory::MemoryModel;
use kernel_loader::relocation::{Elf64Rela, apply_relocations};

fn le_bytes(v: u64, n: usize) -> Vec<u8> {
    let mut out = Vec::new();
    let mut x = v;
    for _ in 0..n {
        out.push((x & 0xff) as u8);
        x >>= 8;
    }
    out
}

fn put(buf: &mut Vec<u8>, off: usize, bytes: &[u8]) {
    for (i, b) in bytes.iter().enumerate() {
        buf[off + i] = *b;
    }
}

/// A position-independent image: one loadable segment covering offsets
/// `[0, 0x1000)` of the chosen base, and the given relocation records.
fn pie_image(records: &[(u64, u64, u64)]) -> Vec<u8> {
    let rela_size = 24 * records.len();
    let rela_off = 168usize;
    let strtab_off = rela_off + rela_size;
    let shoff = strtab_off + 11;
    let mut buf = vec![0u8; shoff + 128];
    // Header: position independent, entry 0x40, one program header,
    // two sections, names in section 1.
    buf[0] = 0x7f;
    buf[1] = b'E';
    buf[2] = b'L';
    buf[3] = b'F';
    buf[4] = 2;
    buf[5] = 1;
    put(&mut buf, 16, &le_bytes(3, 2));
    put(&mut buf, 24, &le_bytes(0x40, 8));
    put(&mut buf, 32, &le_bytes(64, 8));
    put(&mut buf, 40, &le_bytes(shoff as u64, 8));
    put(&mut buf, 54, &le_bytes(56, 2));
    put(&mut buf, 56, &le_bytes(1, 2));
    put(&mut buf, 58, &le_bytes(64, 2));
    put(&mut buf, 60, &le_bytes(2, 2));
    put(&mut buf, 62, &le_bytes(1, 2));
    // Program header: loadable, 48 file bytes at offset 120, 0x1000 in
    // memory at virtual address 0.
    put(&mut buf, 64, &le_bytes(1, 4));
    put(&mut buf, 64 + 8, &le_bytes(120, 8));
    put(&mut buf, 64 + 16, &le_bytes(0, 8));
    put(&mut buf, 64 + 32, &le_bytes(48, 8));
    put(&mut buf, 64 + 40, &le_bytes(0x1000, 8));
    for k in 0..48 {
        buf[120 + k] = k as u8;
    }
    // The relocation records.
    for (i, (r_offset, r_info, r_addend)) in records.iter().enumerate() {
        put(&mut buf, rela_off + 24 * i, &le_bytes(*r_offset, 8));
        put(&mut buf, rela_off + 24 * i + 8, &le_bytes(*r_info, 8));
        put(&mut buf, rela_off + 24 * i + 16, &le_bytes(*r_addend, 8));
    }
    // Name table: "\0.rela.dyn\0".
    put(&mut buf, strtab_off + 1, b".rela.dyn\0");
    // Section 0: the relocation table.
    put(&mut buf, shoff, &le_bytes(1, 4));
    put(&mut buf, shoff + 24, &le_bytes(rela_off as u64, 8));
    put(&mut buf, shoff + 32, &le_bytes(rela_size as u64, 8));
    // Section 1: the name table.
    put(&mut buf, shoff + 64, &le_bytes(0, 4));
    put(&mut buf, shoff + 64 + 24, &le_bytes(strtab_off as u64, 8));
    put(&mut buf, shoff + 64 + 32, &le_bytes(11, 8));
    buf
}

#[test]
fn scenario_b_single_relocation_at_chosen_base() {
    let image = pie_image(&[(0x20, 8, 0x1000)]);
    let mut mem = MemoryModel::new();
    let loaded = load_image(&image, 0x200000, &mut mem).expect("image must load");
    assert!(matches!(loaded.kind, ImageKind::PositionIndependent));
    assert_eq!(loaded.entry_point, 0x200040);
    assert_eq!(mem.read_word(0x200020), Some(0x201000));
}

#[test]
fn relocation_round_trip_every_record() {
    // Several records with disjoint windows: afterwards every target word
    // equals base + addend.
    let records = [(0x20u64, 8u64, 0x1000u64), (0x30, 8, 0x2345), (0x100, 8, 0), (0x108, 8, 0xf00)];
    let image = pie_image(&records);
    let base = 0x300000u64;
    let mut mem = MemoryModel::new();
    load_image(&image, base, &mut mem).expect("image must load");
    for (r_offset, _, r_addend) in records.iter() {
        assert_eq!(mem.read_word(base + r_offset), Some(base + r_addend));
    }
}

#[test]
fn unsupported_relocation_kind_aborts() {
    let image = pie_image(&[(0x20, 7, 0x1000)]);
    let mut mem = MemoryModel::new();
    let r = load_image(&image, 0x200000, &mut mem);
    assert_eq!(r.err(), Some(LoadError::UnsupportedRelocation));
}

#[test]
fn relocation_outside_loaded_segments_aborts() {
    // The record points past the segment's single page.
    let image = pie_image(&[(0x2000, 8, 0x1000)]);
    let mut mem = MemoryModel::new();
    let r = load_image(&image, 0x200000, &mut mem);
    assert_eq!(r.err(), Some(LoadError::UnsupportedRelocation));
}

#[test]
fn missing_relocation_section_in_pie_aborts() {
    // Cut the image off right after the program headers: the header still
    // declares sections, which now lie outside the file.
    let image = pie_image(&[(0x20, 8, 0x1000)]);
    let truncated = image[..120].to_vec();
    let mut mem = MemoryModel::new();
    let r = load_image(&truncated, 0x200000, &mut mem);
    assert!(matches!(
        r,
        Err(LoadError::TruncatedImage) | Err(LoadError::MalformedImage)
    ));
}

#[test]
fn negative_addend_is_rejected() {
    let mut mem = MemoryModel::new();
    mem.allocate_pages_at(0x7000, 1).expect("page");
    mem.zero_range(0x7000, 4096);
    let rec = Elf64Rela { r_offset: 0x10, r_info: 8, r_addend: -5 };
    let r = rec.relocate(0x7000, &mut mem);
    assert_eq!(r.err(), Some(LoadError::UnsupportedRelocation));
}

#[test]
fn apply_relocations_stops_at_first_bad_record() {
    let mut mem = MemoryModel::new();
    mem.allocate_pages_at(0x7000, 1).expect("page");
    mem.zero_range(0x7000, 4096);
    let records = vec![
        Elf64Rela { r_offset: 0x10, r_info: 8, r_addend: 0x100 },
        Elf64Rela { r_offset: 0x20, r_info: 1, r_addend: 0 },
        Elf64Rela { r_offset: 0x30, r_info: 8, r_addend: 0x300 },
    ];
    let r = apply_relocations(&records, 0x7000, &mut mem);
    assert_eq!(r.err(), Some(LoadError::UnsupportedRelocation));
    // The first record was applied, the third was never reached.
    assert_eq!(mem.read_word(0x7010), Some(0x7100));
    assert_eq!(mem.read_word(0x7030), Some(0));
}
