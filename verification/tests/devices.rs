use littleos::driver::framebuffer::{
    framebuffer_from_response, framebuffer_request, Framebuffer, Pixel, PixelOrder,
};
use littleos::driver::mailbox::MailboxBuffer;
use littleos::error::OsError;
use littleos::fonts::psf::PsfFont;
use littleos::fonts::Font;
use littleos::mmu::layout::{get_memory_limits, memory_limits_request, MemLimits};
use littleos::sync::NullLock;

#[test]
fn memory_limits_request_words() {
    let mbox = memory_limits_request();
    let expected: Vec<u32> = vec![
        52, 0, // total size in bytes, request code
        0x0001_0006, 8, 0, 0, 0, // GPU memory tag
        0x0001_0005, 8, 0, 0, 0, // ARM memory tag
        0, // end tag
    ];
    assert_eq!(mbox.words_len(), expected.len());
    for (i, w) in expected.iter().enumerate() {
        assert_eq!(mbox.word_at(i), *w);
    }
}

fn respond(mbox: &mut MailboxBuffer, mut words: Vec<u32>) -> bool {
    words[1] = 0x8000_0000;
    mbox.accept_response(words)
}

#[test]
fn memory_limits_roundtrip() {
    let mut mbox = memory_limits_request();
    // What the firmware would write back: success codes and payloads.
    let mut resp: Vec<u32> = Vec::new();
    for i in 0..mbox.words_len() {
        resp.push(mbox.word_at(i));
    }
    resp[4] = 0x8000_0008; // GPU tag processed, 8 payload bytes
    resp[5] = 0x1E00_0000; // vc_base
    resp[6] = 0x0400_0000; // vc_size
    resp[9] = 0x8000_0008; // ARM tag processed
    resp[10] = 0;          // arm_base
    resp[11] = 0x2000_0000; // arm_size
    assert!(respond(&mut mbox, resp));
    let limits = get_memory_limits(&mbox).unwrap();
    assert_eq!(
        limits,
        MemLimits {
            arm_base: 0,
            arm_size: 0x2000_0000,
            vc_base: 0x1E00_0000,
            vc_size: 0x0400_0000,
        }
    );
}

#[test]
fn memory_limits_requires_processed_tags() {
    let mut mbox = memory_limits_request();
    let mut resp: Vec<u32> = Vec::new();
    for i in 0..mbox.words_len() {
        resp.push(mbox.word_at(i));
    }
    // Success code on the buffer, but the tags were never processed.
    assert!(respond(&mut mbox, resp));
    assert_eq!(get_memory_limits(&mbox), Err(OsError::MailboxResponse));
}

#[test]
fn rejected_response_leaves_no_result() {
    let mut mbox = memory_limits_request();
    let resp: Vec<u32> = vec![52, 0x8000_0001, 0];
    // Wrong length: the exchange is not accepted.
    assert!(!mbox.accept_response(resp));
    assert_eq!(get_memory_limits(&mbox), Err(OsError::MailboxResponse));
}

fn fb_response() -> (MailboxBuffer, Vec<u32>) {
    let mbox = framebuffer_request();
    let mut resp: Vec<u32> = Vec::new();
    for i in 0..mbox.words_len() {
        resp.push(mbox.word_at(i));
    }
    // Tag layout: 2: physical size, 7: virtual size, 12: offset,
    // 17: depth, 21: pixel order, 25: allocation, 30: pitch.
    resp[9] = 0x8000_0008;
    resp[10] = 1024;
    resp[11] = 768;
    resp[19] = 0x8000_0004;
    resp[20] = 32;
    resp[23] = 0x8000_0004;
    resp[24] = 1;
    resp[27] = 0x8000_0008;
    resp[28] = 0xCE10_0000;
    resp[29] = 1024 * 768 * 4;
    resp[32] = 0x8000_0004;
    resp[33] = 4096;
    (mbox, resp)
}

#[test]
fn framebuffer_request_and_response_roundtrip() {
    let (mut mbox, resp) = fb_response();
    assert_eq!(mbox.words_len(), 35);
    assert_eq!(mbox.word_at(0), 140);
    assert!(respond(&mut mbox, resp));
    let cfg = framebuffer_from_response(&mbox).unwrap();
    // The bus address folds into the physical window.
    assert_eq!(cfg.base, 0x0E10_0000);
    assert_eq!(cfg.size, 1024 * 768 * 4);
    assert_eq!(cfg.width, 1024);
    assert_eq!(cfg.height, 768);
    assert_eq!(cfg.pitch, 4096);
    assert_eq!(cfg.pixel_order, PixelOrder::Rgb);
}

#[test]
fn framebuffer_response_errors() {
    let (mut mbox, mut resp) = fb_response();
    resp[20] = 16; // wrong depth echo
    assert!(respond(&mut mbox, resp));
    assert_eq!(
        framebuffer_from_response(&mbox),
        Err(OsError::InvalidDepth(32))
    );

    let (mut mbox, mut resp) = fb_response();
    resp[28] = 0; // no surface allocated
    assert!(respond(&mut mbox, resp));
    assert_eq!(
        framebuffer_from_response(&mbox),
        Err(OsError::FramebufferNotAllocated)
    );

    let (mut mbox, mut resp) = fb_response();
    resp[27] = 0x8000_0004; // echoed length covers only the base word
    assert!(respond(&mut mbox, resp));
    assert_eq!(
        framebuffer_from_response(&mbox),
        Err(OsError::MailboxResponse)
    );
}

#[test]
fn pixel_orders_swap_red_and_blue() {
    let rgb = Pixel::new((1, 2, 3, 4), PixelOrder::Rgb);
    assert_eq!((rgb.first, rgb.green, rgb.third, rgb.alpha), (1, 2, 3, 4));
    let bgr = Pixel::new((1, 2, 3, 4), PixelOrder::Bgr);
    assert_eq!((bgr.first, bgr.green, bgr.third, bgr.alpha), (3, 2, 1, 4));
}

fn blank_surface(width: usize, height: usize, pitch: usize) -> Framebuffer {
    let mut buffer = Vec::new();
    for _ in 0..height * pitch {
        buffer.push(Pixel::new((0, 0, 0, 0), PixelOrder::Rgb));
    }
    Framebuffer::from_parts(buffer, width, height, pitch, PixelOrder::Rgb)
}

#[test]
fn framebuffer_set_and_read_pixels() {
    let mut fb = blank_surface(2, 2, 3);
    let red = Pixel::new((255, 0, 0, 255), PixelOrder::Rgb);
    fb.set_pixel(1, 1, red);
    assert_eq!(fb.pixel_at(1, 1), red);
    assert_eq!(fb.pixel_at(0, 0), Pixel::new((0, 0, 0, 0), PixelOrder::Rgb));
    assert_eq!(fb.width(), 2);
    assert_eq!(fb.height(), 2);
}

fn tiny_font() -> Vec<u8> {
    // Header: magic, version 0, size 32, flags 0, 2 glyphs of 16 bytes,
    // 16 rows of 8 pixels.
    let mut data = vec![
        0x72, 0xB5, 0x4A, 0x86, // magic, little-endian
        0, 0, 0, 0, // version
        32, 0, 0, 0, // header size
        0, 0, 0, 0, // flags
        2, 0, 0, 0, // glyphs
        16, 0, 0, 0, // bytes per glyph
        16, 0, 0, 0, // height
        8, 0, 0, 0, // width
    ];
    for _ in 0..16 {
        data.push(0xFF); // glyph 0: every pixel set
    }
    for _ in 0..16 {
        data.push(0x0F); // glyph 1: right half of each row
    }
    data
}

#[test]
fn psf_parses_and_reads_glyph_bits() {
    let font = PsfFont::new(tiny_font()).unwrap();
    let g0 = font.glyph('\u{0}').unwrap();
    assert!(g0.value(&font, 0, 0));
    assert!(g0.value(&font, 15, 7));
    let g1 = font.glyph('\u{1}').unwrap();
    assert!(!g1.value(&font, 0, 0));
    assert!(!g1.value(&font, 3, 3));
    assert!(g1.value(&font, 3, 4));
    assert!(g1.value(&font, 0, 7));
    assert!(font.glyph('\u{2}').is_none());
}

#[test]
fn psf_rejects_malformed_fonts() {
    assert!(PsfFont::new(vec![0u8; 8]).is_none());
    let mut bad_magic = tiny_font();
    bad_magic[0] = 0;
    assert!(PsfFont::new(bad_magic).is_none());
    let mut truncated = tiny_font();
    truncated.truncate(40); // storage for less than the two glyphs
    assert!(PsfFont::new(truncated).is_none());
}

#[test]
fn render_char_plots_the_glyph() {
    let font = PsfFont::new(tiny_font()).unwrap();
    let mut fb = blank_surface(16, 32, 16);
    font.render_char('\u{1}', &mut fb, 0, 16);
    let white = Pixel::new((255, 255, 255, 255), PixelOrder::Rgb);
    let black = Pixel::new((0, 0, 0, 255), PixelOrder::Rgb);
    // Left half of the cell is background, right half is set.
    assert_eq!(fb.pixel_at(0, 0), black);
    assert_eq!(fb.pixel_at(3, 5), black);
    assert_eq!(fb.pixel_at(4, 5), white);
    assert_eq!(fb.pixel_at(7, 15), white);
    // Outside the cell nothing was painted.
    assert_eq!(fb.pixel_at(8, 0), Pixel::new((0, 0, 0, 0), PixelOrder::Rgb));
    assert_eq!(fb.pixel_at(0, 16), Pixel::new((0, 0, 0, 0), PixelOrder::Rgb));
}

#[test]
fn render_str_advances_one_cell_plus_gap() {
    let font = PsfFont::new(tiny_font()).unwrap();
    let mut fb = blank_surface(32, 16, 32);
    let chars = vec!['\u{0}', '\u{1}'];
    font.render_str(&chars, &mut fb, 0, 16);
    let white = Pixel::new((255, 255, 255, 255), PixelOrder::Rgb);
    let black = Pixel::new((0, 0, 0, 255), PixelOrder::Rgb);
    assert_eq!(fb.pixel_at(0, 0), white); // glyph 0, all set
    assert_eq!(fb.pixel_at(8, 0), Pixel::new((0, 0, 0, 0), PixelOrder::Rgb)); // gap
    assert_eq!(fb.pixel_at(9, 0), black); // glyph 1, left half clear
    assert_eq!(fb.pixel_at(13, 0), white); // glyph 1, right half set
}

#[test]
fn null_lock_owns_its_data() {
    let lock = NullLock::new(42u32);
    assert_eq!(*lock.borrow(), 42);
    assert_eq!(lock.into_inner(), 42);
}

#[test]
fn os_error_messages() {
    assert!(OsError::MailboxResponse.describe().contains("mailbox"));
    assert!(OsError::FramebufferNotAllocated.describe().contains("framebuffer"));
}
