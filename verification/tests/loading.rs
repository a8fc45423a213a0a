use kernel_loader::LoadError;
use kernel_loader::boot::load_image;
use kernel_loader::image::ImageKind;
use kernel_loader::layout::LoadableSegment;
use kernel_loader::loader::load_segment;
use kernel_loader::memory::MemoryModel;

fn le_bytes(v: u64, n: usize) -> Vec<u8> {
    let mut out = Vec::new();
    let mut x = v;
    for _ in 0..n {
        out.push((x & 0xff) as u8);
        x >>= 8;
    }
    out
}

fn put(buf: &mut Vec<u8>, off: usize, bytes: &[u8]) {
    for (i, b) in bytes.iter().enumerate() {
        buf[off + i] = *b;
    }
}

fn write_header(
    buf: &mut Vec<u8>,
    pie: bool,
    entry: u64,
    phoff: u64,
    phnum: u16,
    shoff: u64,
    shnum: u16,
    shstrndx: u16,
) {
    buf[0] = 0x7f;
    buf[1] = b'E';
    buf[2] = b'L';
    buf[3] = b'F';
    buf[4] = 2;
    buf[5] = 1;
    buf[6] = 1;
    put(buf, 16, &le_bytes(if pie { 3 } else { 2 }, 2));
    put(buf, 18, &le_bytes(0x3e, 2));
    put(buf, 24, &le_bytes(entry, 8));
    put(buf, 32, &le_bytes(phoff, 8));
    put(buf, 40, &le_bytes(shoff, 8));
    put(buf, 54, &le_bytes(56, 2));
    put(buf, 56, &le_bytes(phnum as u64, 2));
    put(buf, 58, &le_bytes(64, 2));
    put(buf, 60, &le_bytes(shnum as u64, 2));
    put(buf, 62, &le_bytes(shstrndx as u64, 2));
}

fn write_program_header(
    buf: &mut Vec<u8>,
    off: usize,
    p_type: u32,
    file_off: u64,
    vaddr: u64,
    filesz: u64,
    memsz: u64,
) {
    put(buf, off, &le_bytes(p_type as u64, 4));
    put(buf, off + 8, &le_bytes(file_off, 8));
    put(buf, off + 16, &le_bytes(vaddr, 8));
    put(buf, off + 32, &le_bytes(filesz, 8));
    put(buf, off + 40, &le_bytes(memsz, 8));
}

/// A fixed-address image with one loadable segment of 100 file-backed bytes
/// and a 4096-byte in-memory extent at virtual address 0x10000.
fn scenario_a_image() -> Vec<u8> {
    let mut buf = vec![0u8; 220];
    write_header(&mut buf, false, 0x10000, 64, 1, 0, 0, 0);
    write_program_header(&mut buf, 64, 1, 120, 0x10000, 100, 4096);
    for k in 0..100 {
        buf[120 + k] = (k as u8).wrapping_mul(3).wrapping_add(7);
    }
    buf
}

#[test]
fn scenario_a_single_page_at_fixed_address() {
    let image = scenario_a_image();
    let mut mem = MemoryModel::new();
    let loaded = load_image(&image, 0, &mut mem).expect("fixed image must load");
    assert_eq!(loaded.entry_point, 0x10000);
    assert!(matches!(loaded.kind, ImageKind::FixedAddress));
    assert_eq!(loaded.segments.len(), 1);
    assert_eq!(loaded.segments[0].destination_physical_base, 0x10000);
    assert_eq!(loaded.segments[0].page_count, 1);
    // The file-backed bytes match the source.
    for k in 0..100u64 {
        let expected = ((k as u8).wrapping_mul(3)).wrapping_add(7);
        assert_eq!(mem.read_byte(0x10000 + k), Some(expected));
    }
    // The tail up to the page end is zero (the BSS invariant).
    for k in 100..4096u64 {
        assert_eq!(mem.read_byte(0x10000 + k), Some(0));
    }
    // Exactly one page: the neighbours are unallocated.
    assert_eq!(mem.read_byte(0xffff), None);
    assert_eq!(mem.read_byte(0x11000), None);
}

#[test]
fn scenario_c_reserved_address_fails_allocation() {
    let image = scenario_a_image();
    let mut mem = MemoryModel::new();
    // The firmware already owns the page the image demands.
    mem.allocate_pages_at(0x10000, 1).expect("reserving must work");
    let before = mem.read_byte(0x10000);
    let r = load_image(&image, 0, &mut mem);
    assert_eq!(r.err(), Some(LoadError::AllocationFailed));
    // The reserved page is untouched and nothing else appeared: the load
    // never reached the copy, let alone relocation or hand-off.
    assert_eq!(mem.read_byte(0x10000), before);
    assert_eq!(mem.read_byte(0x11000), None);
}

#[test]
fn bss_zeroed_even_over_dirty_memory() {
    // Load a segment by hand over a model, checking the zero-fill is not an
    // accident of fresh memory: bytes beyond file_size up to the page end
    // read as zero right after loading.
    let mut image = vec![0u8; 64];
    for k in 0..64 {
        image[k] = 0xaa;
    }
    let seg = LoadableSegment::new(0x5123, 0, 64, 200).expect("layout must work");
    let mut mem = MemoryModel::new();
    load_segment(&seg, &image, &mut mem).expect("segment must load");
    for k in 0..64u64 {
        assert_eq!(mem.read_byte(0x5123 + k), Some(0xaa));
    }
    for k in 64..200u64 {
        assert_eq!(mem.read_byte(0x5123 + k), Some(0));
    }
    // The in-page lead below the virtual address is zero as well.
    assert_eq!(mem.read_byte(0x5000), Some(0));
    assert_eq!(mem.read_byte(0x5122), Some(0));
}

#[test]
fn truncated_segment_is_rejected() {
    let mut image = scenario_a_image();
    // Claim more file-backed bytes than the image holds.
    write_program_header(&mut image, 64, 1, 120, 0x10000, 4096, 4096);
    let mut mem = MemoryModel::new();
    let r = load_image(&image, 0, &mut mem);
    assert_eq!(r.err(), Some(LoadError::TruncatedImage));
}

#[test]
fn mem_size_smaller_than_file_size_is_rejected() {
    let mut image = scenario_a_image();
    write_program_header(&mut image, 64, 1, 120, 0x10000, 100, 50);
    let mut mem = MemoryModel::new();
    let r = load_image(&image, 0, &mut mem);
    assert_eq!(r.err(), Some(LoadError::MalformedImage));
}

#[test]
fn non_loadable_segments_are_skipped() {
    let mut buf = vec![0u8; 240];
    write_header(&mut buf, false, 0x10000, 64, 2, 0, 0, 0);
    // A note-like entry first, then the loadable one.
    write_program_header(&mut buf, 64, 4, 0, 0, 0, 0);
    write_program_header(&mut buf, 120, 1, 180, 0x10000, 32, 32);
    for k in 0..32 {
        buf[180 + k] = k as u8;
    }
    let mut mem = MemoryModel::new();
    let loaded = load_image(&buf, 0, &mut mem).expect("image must load");
    assert_eq!(loaded.segments.len(), 1);
    assert_eq!(mem.read_byte(0x10000 + 31), Some(31));
}

#[test]
fn loading_twice_at_disjoint_bases_is_byte_identical() {
    // A position-independent image without relocations, loaded at two
    // different bases into one machine: the segment contents must be
    // byte-identical.
    let mut buf = vec![0u8; 336];
    // Header with sections so the position-independent path finds its
    // (empty) relocation table.
    write_header(&mut buf, true, 0x40, 64, 1, 208, 2, 1);
    write_program_header(&mut buf, 64, 1, 120, 0, 48, 256);
    for k in 0..48 {
        buf[120 + k] = (k as u8) ^ 0x5c;
    }
    // Section 0: the relocation table, empty (offset 168, size 0).
    put(&mut buf, 208, &le_bytes(1, 4));
    put(&mut buf, 208 + 24, &le_bytes(168, 8));
    put(&mut buf, 208 + 32, &le_bytes(0, 8));
    // Section 1: the name table itself.
    put(&mut buf, 272, &le_bytes(0, 4));
    put(&mut buf, 272 + 24, &le_bytes(192, 8));
    put(&mut buf, 272 + 32, &le_bytes(11, 8));
    // Name table: "\0.rela.dyn\0" at offset 192.
    put(&mut buf, 193, b".rela.dyn\0");
    let mut mem = MemoryModel::new();
    let first = load_image(&buf, 0x200000, &mut mem).expect("first load");
    let second = load_image(&buf, 0x400000, &mut mem).expect("second load");
    assert_eq!(first.entry_point, 0x200040);
    assert_eq!(second.entry_point, 0x400040);
    for k in 0..256u64 {
        let a = mem.read_byte(0x200000 + k).expect("first copy mapped");
        let b = mem.read_byte(0x400000 + k).expect("second copy mapped");
        assert_eq!(a, b);
    }
}

#[test]
fn allocation_rejects_overlap_unalignment_and_zero_pages() {
    let mut mem = MemoryModel::new();
    assert!(mem.allocate_pages_at(0x3000, 2).is_ok());
    // Overlapping the existing region fails, leaving it intact.
    assert_eq!(mem.allocate_pages_at(0x4000, 1).err(), Some(LoadError::AllocationFailed));
    // Unaligned and empty requests fail.
    assert_eq!(mem.allocate_pages_at(0x3001, 1).err(), Some(LoadError::AllocationFailed));
    assert_eq!(mem.allocate_pages_at(0x8000, 0).err(), Some(LoadError::AllocationFailed));
    // An adjacent, non-overlapping request succeeds.
    assert!(mem.allocate_pages_at(0x5000, 1).is_ok());
    assert!(mem.read_byte(0x3000).is_some());
    assert!(mem.read_byte(0x5fff).is_some());
    assert_eq!(mem.read_byte(0x6000), None);
}

#[test]
fn word_write_and_read_round_trip() {
    let mut mem = MemoryModel::new();
    mem.allocate_pages_at(0x2000, 1).expect("page");
    mem.write_word(0x2010, 0x1122_3344_5566_7788);
    assert_eq!(mem.read_word(0x2010), Some(0x1122_3344_5566_7788));
    // Little-endian byte order in memory.
    assert_eq!(mem.read_byte(0x2010), Some(0x88));
    assert_eq!(mem.read_byte(0x2017), Some(0x11));
    // A word read straddling unallocated memory fails.
    assert_eq!(mem.read_word(0x2ffc), None);
}
