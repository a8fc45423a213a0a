use kernel_loader::LoadError;
use kernel_loader::firmware::{FramebufferInfo, ModeInfo, choose_framebuffer,
    pick_highest_resolution};
use kernel_loader::image::{ImageKind, loadable_segments, parse_header};
use kernel_loader::layout::{LoadableSegment, PAGE_SIZE};
use kernel_loader::words::{read_le, read_u16, read_u32, read_u64, word_to_le_bytes};

fn le_bytes(v: u64, n: usize) -> Vec<u8> {
    let mut out = Vec::new();
    let mut x = v;
    for _ in 0..n {
        out.push((x & 0xff) as u8);
        x >>= 8;
    }
    out
}

fn put(buf: &mut Vec<u8>, off: usize, bytes: &[u8]) {
    for (i, b) in bytes.iter().enumerate() {
        buf[off + i] = *b;
    }
}

fn minimal_header(pie: bool, entry: u64) -> Vec<u8> {
    let mut buf = vec![0u8; 64];
    buf[0] = 0x7f;
    buf[1] = b'E';
    buf[2] = b'L';
    buf[3] = b'F';
    buf[4] = 2;
    buf[5] = 1;
    put(&mut buf, 16, &le_bytes(if pie { 3 } else { 2 }, 2));
    put(&mut buf, 24, &le_bytes(entry, 8));
    buf
}

#[test]
fn page_count_is_the_ceiling_of_the_covered_extent() {
    // offset 0x234 within the page, 0x2000 bytes: ceil(0x2234 / 0x1000) = 3.
    let seg = LoadableSegment::new(0x10234, 0, 0, 0x2000).expect("layout");
    assert_eq!(seg.destination_physical_base, 0x10000);
    assert_eq!(seg.destination_physical_base % PAGE_SIZE, 0);
    assert_eq!(seg.page_count, 3);
    // An aligned, exactly page-sized segment needs exactly one page.
    let aligned = LoadableSegment::new(0x10000, 0, 0, 4096).expect("layout");
    assert_eq!(aligned.destination_physical_base, 0x10000);
    assert_eq!(aligned.page_count, 1);
    // One byte more crosses into a second page.
    let spill = LoadableSegment::new(0x10000, 0, 0, 4097).expect("layout");
    assert_eq!(spill.page_count, 2);
    // An unaligned single byte still takes its one page.
    let tiny = LoadableSegment::new(0xfff, 0, 0, 1).expect("layout");
    assert_eq!(tiny.destination_physical_base, 0);
    assert_eq!(tiny.page_count, 1);
}

#[test]
fn layout_rejects_impossible_segments() {
    assert_eq!(
        LoadableSegment::new(0, 0, 10, 5).err(),
        Some(LoadError::MalformedImage)
    );
    assert_eq!(
        LoadableSegment::new(u64::MAX - 100, 0, 0, 200).err(),
        Some(LoadError::MalformedImage)
    );
}

#[test]
fn header_parsing_reads_entry_and_kind() {
    let fixed = minimal_header(false, 0xdead_beef);
    let h = parse_header(&fixed).expect("valid header");
    assert_eq!(h.entry_point, 0xdead_beef);
    assert!(matches!(h.kind, ImageKind::FixedAddress));
    let pie = minimal_header(true, 0x40);
    let h2 = parse_header(&pie).expect("valid header");
    assert!(matches!(h2.kind, ImageKind::PositionIndependent));
}

#[test]
fn header_parsing_rejects_malformed_images() {
    // Too short.
    assert_eq!(
        parse_header(&vec![0u8; 40]).err(),
        Some(LoadError::MalformedImage)
    );
    // Wrong magic.
    let mut bad_magic = minimal_header(false, 0);
    bad_magic[1] = b'F';
    assert_eq!(parse_header(&bad_magic).err(), Some(LoadError::MalformedImage));
    // 32-bit class.
    let mut bad_class = minimal_header(false, 0);
    bad_class[4] = 1;
    assert_eq!(parse_header(&bad_class).err(), Some(LoadError::MalformedImage));
    // Big-endian data.
    let mut bad_data = minimal_header(false, 0);
    bad_data[5] = 2;
    assert_eq!(parse_header(&bad_data).err(), Some(LoadError::MalformedImage));
}

#[test]
fn program_header_table_bounds_are_checked() {
    let mut buf = minimal_header(false, 0);
    // Two entries at offset 64, but the file ends at 64.
    put(&mut buf, 32, &le_bytes(64, 8));
    put(&mut buf, 54, &le_bytes(56, 2));
    put(&mut buf, 56, &le_bytes(2, 2));
    assert_eq!(loadable_segments(&buf).err(), Some(LoadError::TruncatedImage));
    // An undersized entry stride is malformed.
    put(&mut buf, 54, &le_bytes(40, 2));
    assert_eq!(loadable_segments(&buf).err(), Some(LoadError::MalformedImage));
}

#[test]
fn little_endian_fields_read_exact_values() {
    let buf = vec![0x01u8, 0x02, 0x03, 0x04, 0x05, 0x06, 0x07, 0x08, 0xff];
    assert_eq!(read_u16(&buf, 0), 0x0201);
    assert_eq!(read_u32(&buf, 0), 0x0403_0201);
    assert_eq!(read_u64(&buf, 0), 0x0807_0605_0403_0201);
    assert_eq!(read_le(&buf, 5, 3), 0x0807_06);
    assert_eq!(read_le(&buf, 0, 0), 0);
}

#[test]
fn word_encoding_is_little_endian() {
    let bytes = word_to_le_bytes(0x1122_3344_5566_7788);
    assert_eq!(bytes, vec![0x88, 0x77, 0x66, 0x55, 0x44, 0x33, 0x22, 0x11]);
    assert_eq!(read_u64(&bytes, 0), 0x1122_3344_5566_7788);
}

#[test]
fn highest_resolution_wins_and_ties_take_the_lowest_index() {
    let modes = vec![
        ModeInfo { width: 640, height: 480, stride: 640, pixel_format: 0 },
        ModeInfo { width: 1024, height: 768, stride: 1024, pixel_format: 0 },
        ModeInfo { width: 768, height: 1024, stride: 768, pixel_format: 0 },
        ModeInfo { width: 800, height: 600, stride: 800, pixel_format: 0 },
    ];
    assert_eq!(pick_highest_resolution(&modes), Some(1));
    assert_eq!(pick_highest_resolution(&Vec::new()), None);
    // A tie on the pixel count goes to the lowest index, through
    // choose_framebuffer as well: the two largest modes here show the same
    // number of pixels but differ in stride and pixel layout.
    let tied = vec![
        ModeInfo { width: 100, height: 100, stride: 100, pixel_format: 0 },
        ModeInfo { width: 200, height: 300, stride: 224, pixel_format: 2 },
        ModeInfo { width: 300, height: 200, stride: 320, pixel_format: 3 },
    ];
    assert_eq!(pick_highest_resolution(&tied), Some(1));
    let fb = choose_framebuffer(&tied, 0, true, 0x1000, 64).expect("modes exist");
    assert_eq!(fb.stride, 224);
    assert_eq!(fb.pixel_format, 2);
}

#[test]
fn framebuffer_selection_honours_the_configuration() {
    let modes = vec![
        ModeInfo { width: 640, height: 480, stride: 640, pixel_format: 0 },
        ModeInfo { width: 1024, height: 768, stride: 1056, pixel_format: 1 },
    ];
    let picked = choose_framebuffer(&modes, 0, true, 0xc000_0000, 0x40_0000).expect("modes exist");
    assert_eq!(
        picked,
        FramebufferInfo {
            framebuffer_addr: 0xc000_0000,
            framebuffer_size: 0x40_0000,
            framebuffer_width: 1024,
            framebuffer_height: 768,
            stride: 1056,
            pixel_format: 1,
        }
    );
    let current = choose_framebuffer(&modes, 0, false, 0xc000_0000, 0x40_0000).expect("current");
    assert_eq!(current.framebuffer_width, 640);
    // No modes, or a current mode out of range, is a missing graphics
    // device.
    assert_eq!(
        choose_framebuffer(&Vec::new(), 0, true, 0, 0).err(),
        Some(LoadError::NoGraphicsDevice)
    );
    assert_eq!(
        choose_framebuffer(&modes, 7, false, 0, 0).err(),
        Some(LoadError::NoGraphicsDevice)
    );
}
