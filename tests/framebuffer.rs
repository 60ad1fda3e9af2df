use tros::font::{FontError, PsfFont, PSF_MAGIC};
use tros::framebuffer::{FbError, FrameBufferStream, PixelWrite, FB_SENTINEL};
use tros::mbox::MailBox;

fn apply(mem: &mut Vec<u8>, ws: &[PixelWrite]) {
    for w in ws {
        let at = w.offset as usize;
        if at < mem.len() {
            mem[at] = w.value;
        }
    }
}

fn push_u32(v: &mut Vec<u8>, w: u32) {
    v.extend_from_slice(&w.to_le_bytes());
}

/// A font of 128 glyphs, 8 by 8, one byte per row; glyph `A` is solid and
/// glyph `B` has only its top-left pixel set.
fn font_bytes() -> Vec<u8> {
    let mut v = Vec::new();
    for w in [PSF_MAGIC, 0, 32, 0, 128, 8, 8, 8] {
        push_u32(&mut v, w);
    }
    for g in 0..128u32 {
        for row in 0..8 {
            let b = if g == 'A' as u32 {
                0xFF
            } else if g == 'B' as u32 && row == 0 {
                0x80
            } else {
                0
            };
            v.push(b);
        }
    }
    v
}

fn font() -> PsfFont {
    PsfFont::parse(&font_bytes()).unwrap()
}

/// A 4 by 3 surface with a 16-byte pitch, as if the GPU had answered.
fn small_surface() -> FrameBufferStream {
    let mut fb = FrameBufferStream::new(4, 3);
    let mut m = MailBox::new();
    fb.request_init(&mut m);
    m.mbox[20] = 32;
    m.mbox[28] = 0xC010_0000;
    m.mbox[33] = 16;
    assert_eq!(fb.init(&m, true), Ok(()));
    fb
}

/// A surface large enough for a few 9 by 8 glyph cells.
fn text_surface() -> FrameBufferStream {
    let mut fb = FrameBufferStream::new(40, 20);
    let mut m = MailBox::new();
    fb.request_init(&mut m);
    m.mbox[20] = 32;
    m.mbox[28] = 0x4000_1000;
    m.mbox[33] = 160;
    fb.init(&m, true).unwrap();
    fb
}

#[test]
fn new_surface_is_uninitialized() {
    let fb = FrameBufferStream::new(640, 480);
    assert_eq!((fb.width, fb.height, fb.pitch, fb.x, fb.y), (640, 480, 0, 0, 0));
    assert_eq!(fb.base, FB_SENTINEL);
    assert_eq!(FrameBufferStream::default(), FrameBufferStream::new(1920, 1080));
}

#[test]
fn init_request_lists_the_tags_in_order() {
    let fb = FrameBufferStream::new(1920, 1080);
    let mut m = MailBox::new();
    m.mbox[35] = 7;
    fb.request_init(&mut m);
    let want: [u32; 36] = [
        140, 0, 0x48003, 8, 8, 1920, 1080, 0x48004, 8, 8, 1920, 1080, 0x48009, 8, 8, 0, 0,
        0x48005, 4, 4, 32, 0x48006, 4, 4, 1, 0x40001, 8, 8, 4096, 0, 0x40008, 4, 4, 0, 0, 0,
    ];
    assert_eq!(m.mbox, want);
}

#[test]
fn init_keeps_pitch_and_masked_address() {
    let fb = small_surface();
    assert_eq!(fb.pitch, 16);
    assert_eq!(fb.base, 0x0010_0000);
    assert_ne!(fb.base, FB_SENTINEL);
}

#[test]
fn init_fails_when_rejected_or_mismatched() {
    let mut m = MailBox::new();
    let start = FrameBufferStream::new(4, 3);
    start.request_init(&mut m);
    m.mbox[28] = 0x4010_0000;
    m.mbox[33] = 16;
    let mut fb = start;
    assert_eq!(fb.init(&m, false), Err(FbError::InitFailed));
    assert_eq!(fb, start);
    m.mbox[20] = 16;
    assert_eq!(fb.init(&m, true), Err(FbError::InitFailed));
    m.mbox[20] = 32;
    m.mbox[28] = 0;
    assert_eq!(fb.init(&m, true), Err(FbError::InitFailed));
    m.mbox[28] = 0x4010_0000;
    m.mbox[33] = 0;
    assert_eq!(fb.init(&m, true), Err(FbError::InitFailed));
    assert_eq!(fb, start);
    m.mbox[33] = 16;
    assert_eq!(fb.init(&m, true), Ok(()));
    assert_eq!(fb.pitch, 16);
}

#[test]
fn pixel_write_is_bounds_checked() {
    let fb = small_surface();
    let mut out = Vec::new();
    fb.write_pixel_channel(47, 9, &mut out);
    assert_eq!(out, vec![PixelWrite { offset: 47, value: 9 }]);
    assert!(fb.in_bounds(47));
    assert!(!fb.in_bounds(48));
    fb.write_pixel_channel(48, 9, &mut out);
    fb.write_pixel_channel(u32::MAX, 9, &mut out);
    assert_eq!(out.len(), 1);
}

#[test]
fn uninitialized_surface_writes_nothing() {
    let fb = FrameBufferStream::new(4, 3);
    let mut out = Vec::new();
    fb.write_pixel_channel(0, 1, &mut out);
    fb.clear(1, 2, 3, &mut out);
    assert!(out.is_empty());
}

#[test]
fn clear_reads_back_the_colour() {
    let fb = small_surface();
    let mut out = Vec::new();
    fb.clear(10, 20, 30, &mut out);
    assert_eq!(out.len(), 4 * 3 * 3);
    assert_eq!(out[0], PixelWrite { offset: 0, value: 10 });
    assert_eq!(out[5], PixelWrite { offset: 6, value: 30 });
    let mut mem = vec![0xEEu8; 48];
    apply(&mut mem, &out);
    for y in 0..3usize {
        for x in 0..4usize {
            let o = y * 16 + 4 * x;
            assert_eq!((mem[o], mem[o + 1], mem[o + 2]), (10, 20, 30));
            assert_eq!(mem[o + 3], 0xEE);
        }
    }
}

#[test]
fn clear_drops_stores_past_memory() {
    let mut fb = small_surface();
    fb.pitch = 10;
    let mut out = Vec::new();
    fb.clear(1, 2, 3, &mut out);
    assert!(out.iter().all(|w| w.offset < 30));
    assert_eq!(out.last(), Some(&PixelWrite { offset: 29, value: 2 }));
}

#[test]
fn newline_moves_cursor_and_draws_nothing() {
    let mut fb = text_surface();
    fb.x = 3;
    fb.y = 1;
    let mut out = Vec::new();
    fb.write(&font(), "\n", &mut out);
    assert_eq!((fb.x, fb.y), (0, 2));
    assert!(out.is_empty());
}

#[test]
fn carriage_return_resets_column_only() {
    let mut fb = text_surface();
    fb.x = 3;
    fb.y = 1;
    let mut out = Vec::new();
    fb.write(&font(), "\r", &mut out);
    assert_eq!((fb.x, fb.y), (0, 1));
    assert!(out.is_empty());
}

#[test]
fn solid_glyph_paints_a_white_block() {
    let mut fb = text_surface();
    let mut out = Vec::new();
    fb.write(&font(), "A", &mut out);
    assert_eq!((fb.x, fb.y), (1, 0));
    assert_eq!(out.len(), 8 * 8 * 3);
    let mut mem = vec![7u8; 160 * 20];
    apply(&mut mem, &out);
    for row in 0..8usize {
        for col in 0..8usize {
            let o = row * 160 + col * 4;
            assert_eq!((mem[o], mem[o + 1], mem[o + 2], mem[o + 3]), (255, 255, 255, 7));
        }
        assert_eq!(mem[row * 160 + 32], 7);
    }
    assert_eq!(mem[8 * 160], 7);
}

#[test]
fn glyph_bits_go_most_significant_first() {
    let mut fb = text_surface();
    fb.x = 2;
    fb.y = 1;
    let mut out = Vec::new();
    fb.write(&font(), "B", &mut out);
    assert_eq!((fb.x, fb.y), (3, 1));
    // Cell (2, 1) starts at row 8 and pixel 18.
    let origin = 8 * 160 + 2 * 9 * 4;
    assert_eq!(out[0], PixelWrite { offset: origin, value: 255 });
    assert_eq!(out[3], PixelWrite { offset: origin + 4, value: 0 });
    assert!(out[3..].iter().all(|w| w.value == 0));
}

#[test]
fn text_advances_one_cell_per_glyph() {
    let mut fb = text_surface();
    let mut out = Vec::new();
    fb.write(&font(), "AB\nA", &mut out);
    assert_eq!((fb.x, fb.y), (1, 1));
    assert_eq!(out.len(), 3 * 8 * 8 * 3);
    assert_eq!(out[192].offset, 36);
    assert_eq!(out[384].offset, 8 * 160);
}

#[test]
fn character_without_glyph_is_skipped() {
    let mut fb = text_surface();
    let mut out = Vec::new();
    fb.write(&font(), "\u{e9}", &mut out);
    assert_eq!((fb.x, fb.y), (0, 0));
    assert!(out.is_empty());
}

#[test]
fn glyph_pixel_reads_rows() {
    let f = font();
    assert!(f.glyph_pixel('A' as u32, 7, 7));
    assert!(f.glyph_pixel('B' as u32, 0, 0));
    assert!(!f.glyph_pixel('B' as u32, 0, 1));
    assert!(!f.glyph_pixel('B' as u32, 1, 0));
}

#[test]
fn font_header_is_read_little_endian() {
    let f = font();
    assert_eq!(f.magic, PSF_MAGIC);
    assert_eq!((f.headersize, f.numglyph, f.bytes_per_glyph, f.height, f.width), (32, 128, 8, 8, 8));
    assert_eq!(f.data.len(), 32 + 128 * 8);
}

#[test]
fn font_errors() {
    let good = font_bytes();
    assert_eq!(PsfFont::parse(&good[..31]), Err(FontError::TooShort));
    let mut bad = good.clone();
    bad[0] = 0;
    assert_eq!(PsfFont::parse(&bad), Err(FontError::BadMagic));
    let mut bad = good.clone();
    bad[28] = 0;
    assert_eq!(PsfFont::parse(&bad), Err(FontError::BadGeometry));
    let mut bad = good.clone();
    bad[20] = 4;
    assert_eq!(PsfFont::parse(&bad), Err(FontError::BadGeometry));
    assert_eq!(PsfFont::parse(&good[..good.len() - 1]), Err(FontError::Truncated));
}

#[test]
fn wide_glyph_rows_span_bytes() {
    let mut v = Vec::new();
    for w in [PSF_MAGIC, 0, 32, 0, 1, 2, 1, 12] {
        push_u32(&mut v, w);
    }
    v.push(0x08);
    v.push(0x01);
    let f = PsfFont::parse(&v).unwrap();
    assert!(f.glyph_pixel(0, 0, 0));
    assert!(!f.glyph_pixel(0, 0, 1));
    assert!(f.glyph_pixel(0, 0, 11));
}

#[test]
fn clear_reads_back_with_padded_rows() {
    let mut fb = small_surface();
    fb.pitch = 18;
    let mut out = Vec::new();
    fb.clear(1, 2, 3, &mut out);
    let mut mem = vec![9u8; 18 * 3];
    apply(&mut mem, &out);
    for y in 0..3usize {
        for x in 0..4usize {
            let o = y * 18 + 4 * x;
            assert_eq!((mem[o], mem[o + 1], mem[o + 2], mem[o + 3]), (1, 2, 3, 9));
        }
        assert_eq!((mem[y * 18 + 16], mem[y * 18 + 17]), (9, 9));
    }
}
