//! PC Screen Font parsing and rendering: a fixed 32-byte header of
//! little-endian words, followed by one bitmap per glyph, rows padded
//! to whole bytes.

use vstd::prelude::*;
use crate::driver::framebuffer::{Framebuffer, Pixel, PixelOrder};
use crate::fonts::Font;

verus! {

pub const PSF_MAGIC: u32 = 0x864A_B572;

/// Size of the version-2 header in bytes.
pub const PSF_HEADER_LEN: usize = 32;

/// The little-endian 32-bit word at byte offset `i`.
pub open spec fn le_u32_s(data: Seq<u8>, i: int) -> u32 {
    (data[i] as u32) | ((data[i + 1] as u32) << 8) | ((data[i + 2] as u32) << 16) | ((data[i + 3]
        as u32) << 24)
}

fn read_le_u32(data: &Vec<u8>, i: usize) -> (r: u32)
    requires
        i + 4 <= data@.len(),
    ensures
        r == le_u32_s(data@, i as int),
{
    let n = data.len();
    proof {
        assert(i + 4 <= n);
    }
    (data[i] as u32) | ((data[i + 1] as u32) << 8) | ((data[i + 2] as u32) << 16) | ((data[i + 3]
        as u32) << 24)
}

/// Whether the bytes open with a well-formed font this module can
/// render: the magic, a 32-byte header, glyph dimensions that fit
/// each glyph's storage, and storage for every glyph.
pub open spec fn psf_valid_s(data: Seq<u8>) -> bool {
    &&& data.len() >= PSF_HEADER_LEN
    &&& le_u32_s(data, 0) == PSF_MAGIC
    &&& le_u32_s(data, 8) == PSF_HEADER_LEN
    &&& 0 < le_u32_s(data, 28) <= 0xFFFF
    &&& 0 < le_u32_s(data, 24) <= 0xFFFF
    &&& le_u32_s(data, 20) >= le_u32_s(data, 24) * ((le_u32_s(data, 28) + 7) / 8)
    &&& le_u32_s(data, 16) * le_u32_s(data, 20) <= data.len() - PSF_HEADER_LEN
}

/// A parsed font: the glyph storage and the header fields that shape
/// it.
pub struct PsfFont {
    glyph_data: Vec<u8>,
    num_glyphs: u32,
    bytes_per_glyph: u32,
    height: u32,
    width: u32,
}

impl PsfFont {
    pub closed spec fn glyphs(&self) -> Seq<u8> {
        self.glyph_data@
    }

    pub closed spec fn num_glyphs_s(&self) -> int {
        self.num_glyphs as int
    }

    pub closed spec fn bytes_per_glyph_s(&self) -> int {
        self.bytes_per_glyph as int
    }

    pub closed spec fn height_s(&self) -> int {
        self.height as int
    }

    pub closed spec fn width_s(&self) -> int {
        self.width as int
    }

    pub closed spec fn wf(&self) -> bool {
        &&& 0 < self.width <= 0xFFFF
        &&& 0 < self.height <= 0xFFFF
        &&& self.bytes_per_glyph >= self.height * ((self.width + 7) / 8)
        &&& self.num_glyphs * self.bytes_per_glyph <= self.glyph_data@.len()
    }

    /// Parses a font out of `data`; `None` when the bytes do not open
    /// with a font this module can render.
    pub fn new(data: Vec<u8>) -> (r: Option<PsfFont>)
        ensures
            r is Some <==> psf_valid_s(data@),
            r matches Some(f) ==> {
                &&& f.wf()
                &&& f.glyphs() == data@.skip(PSF_HEADER_LEN as int)
                &&& f.num_glyphs_s() == le_u32_s(data@, 16)
                &&& f.bytes_per_glyph_s() == le_u32_s(data@, 20)
                &&& f.height_s() == le_u32_s(data@, 24)
                &&& f.width_s() == le_u32_s(data@, 28)
            },
    {
        if data.len() < PSF_HEADER_LEN {
            return None;
        }
        let magic = read_le_u32(&data, 0);
        let size = read_le_u32(&data, 8);
        let num_glyphs = read_le_u32(&data, 16);
        let bytes_per_glyph = read_le_u32(&data, 20);
        let height = read_le_u32(&data, 24);
        let width = read_le_u32(&data, 28);
        if magic != PSF_MAGIC || size != PSF_HEADER_LEN as u32 {
            return None;
        }
        if width == 0 || width > 0xFFFF || height == 0 || height > 0xFFFF {
            return None;
        }
        proof {
            assert((height as u64) * (((width as u64) + 7) / 8) <= 0xFFFFu64 * 0x2000u64)
                by (nonlinear_arith)
                requires
                    height as u64 <= 0xFFFF,
                    0 <= ((width as u64) + 7) / 8 <= 0x2000,
            ;
            assert(0 <= ((width as u64) + 7) / 8 <= 0x2000) by {
                vstd::arithmetic::div_mod::lemma_div_pos_is_pos((width as u64) + 7, 8);
                vstd::arithmetic::div_mod::lemma_div_is_ordered(
                    (width as u64) + 7,
                    0x10006,
                    8,
                );
            };
            assert((num_glyphs as u64) * (bytes_per_glyph as u64) <= 0xFFFF_FFFFu64
                * 0xFFFF_FFFFu64) by (nonlinear_arith)
                requires
                    num_glyphs as u64 <= 0xFFFF_FFFFu64,
                    bytes_per_glyph as u64 <= 0xFFFF_FFFFu64,
            ;
        }
        if (bytes_per_glyph as u64) < (height as u64) * (((width as u64) + 7) / 8) {
            return None;
        }
        if (num_glyphs as u64) * (bytes_per_glyph as u64) > (data.len() - PSF_HEADER_LEN) as u64 {
            return None;
        }
        let mut glyph_data: Vec<u8> = Vec::new();
        let mut i: usize = PSF_HEADER_LEN;
        while i < data.len()
            invariant
                PSF_HEADER_LEN <= i <= data@.len(),
                glyph_data@ == data@.subrange(PSF_HEADER_LEN as int, i as int),
            decreases data@.len() - i,
        {
            proof {
                assert(data@.subrange(PSF_HEADER_LEN as int, i as int).push(data@[i as int])
                    =~= data@.subrange(PSF_HEADER_LEN as int, i as int + 1));
            }
            glyph_data.push(data[i]);
            i += 1;
        }
        proof {
            assert(glyph_data@ =~= data@.skip(PSF_HEADER_LEN as int));
        }
        Some(PsfFont { glyph_data, num_glyphs, bytes_per_glyph, height, width })
    }

    /// The glyph of `ch`: its offset into the glyph storage and the
    /// cell dimensions.  `None` when the font has no glyph for it.
    pub fn glyph(&self, ch: char) -> (r: Option<Glyph>)
        requires
            self.wf(),
        ensures
            r is Some <==> (ch as int) < self.num_glyphs_s(),
            r matches Some(g) ==> {
                &&& g.wf(self)
                &&& g.off_s() == (ch as int) * self.bytes_per_glyph_s()
                &&& g.width_s() == self.width_s()
                &&& g.height_s() == self.height_s()
            },
    {
        let code = ch as u32;
        if code >= self.num_glyphs {
            return None;
        }
        proof {
            assert((code as int) * (self.bytes_per_glyph as int) + self.bytes_per_glyph as int <= (
            self.num_glyphs as int) * (self.bytes_per_glyph as int)) by (nonlinear_arith)
                requires (code as int) < (self.num_glyphs as int), 0 <= self.bytes_per_glyph as int,
            ;
            assert((code as int) * (self.bytes_per_glyph as int) >= 0) by (nonlinear_arith)
                requires 0 <= code as int, 0 <= self.bytes_per_glyph as int,
            ;
        }
        let gl = self.glyph_data.len();
        proof {
            assert(gl <= usize::MAX);
            assert((self.num_glyphs as int) * (self.bytes_per_glyph as int) >= 0)
                by (nonlinear_arith)
                requires 0 <= self.num_glyphs as int, 0 <= self.bytes_per_glyph as int,
            ;
        }
        let off = (code as usize) * (self.bytes_per_glyph as usize);
        Some(
            Glyph {
                off,
                width: self.width as usize,
                height: self.height as usize,
                bytes_per_glyph: self.bytes_per_glyph as usize,
            },
        )
    }
}

/// One glyph: a window into a font's glyph storage.
pub struct Glyph {
    off: usize,
    width: usize,
    height: usize,
    bytes_per_glyph: usize,
}

/// The glyph's pixel at `(row, col)`: bit `7 - col % 8` of the row's
/// `col / 8`-th byte, rows padded to whole bytes.
pub open spec fn glyph_bit_s(data: Seq<u8>, off: int, width: int, row: int, col: int) -> bool {
    let pitch = (width + 7) / 8;
    let byte = data[off + pitch * row + col / 8];
    (byte >> ((7 - (col % 8)) as u8)) & 1 == 1
}

impl Glyph {
    pub closed spec fn off_s(&self) -> int {
        self.off as int
    }

    pub closed spec fn width_s(&self) -> int {
        self.width as int
    }

    pub closed spec fn height_s(&self) -> int {
        self.height as int
    }

    pub closed spec fn bpg_s(&self) -> int {
        self.bytes_per_glyph as int
    }

    pub open spec fn wf(&self, font: &PsfFont) -> bool {
        &&& self.width_s() == font.width_s()
        &&& self.height_s() == font.height_s()
        &&& 0 <= self.off_s()
        &&& self.off_s() + font.bytes_per_glyph_s() <= font.glyphs().len()
        &&& font.bytes_per_glyph_s() >= self.height_s() * ((self.width_s() + 7) / 8)
        &&& 0 < self.width_s() <= 0xFFFF
        &&& 0 < self.height_s() <= 0xFFFF
        &&& self.bpg_s() == font.bytes_per_glyph_s()
    }

    /// Whether the glyph's pixel at `(row, col)` is set.
    pub fn value(&self, font: &PsfFont, row: usize, col: usize) -> (r: bool)
        requires
            font.wf(),
            self.wf(font),
            row < self.height_s(),
            col < self.width_s(),
        ensures
            r == glyph_bit_s(font.glyphs(), self.off_s(), self.width_s(), row as int, col as int),
    {
        let gl = font.glyph_data.len();
        proof {
            assert(gl <= usize::MAX);
        }
        let pitch = (self.width + 7) / 8;
        proof {
            lemma_glyph_byte_in_range(
                self.width as int,
                self.height as int,
                row as int,
                col as int,
                font.bytes_per_glyph_s(),
            );
        }
        let byte = font.glyph_data_at(self.off + (pitch * row + col / 8));
        (byte >> ((7 - (col % 8)) as u8)) & 1 == 1
    }
}

impl PsfFont {
    /// One byte of the glyph storage.
    pub fn glyph_data_at(&self, i: usize) -> (r: u8)
        requires
            i < self.glyphs().len(),
        ensures
            r == self.glyphs()[i as int],
    {
        self.glyph_data[i]
    }
}

/// A glyph pixel's byte lies inside the glyph's storage.
proof fn lemma_glyph_byte_in_range(width: int, height: int, row: int, col: int, bpg: int)
    requires
        0 < width,
        0 < height,
        0 <= row < height,
        0 <= col < width,
        bpg >= height * ((width + 7) / 8),
    ensures
        0 <= ((width + 7) / 8) * row + col / 8 < bpg,
{
    let pitch = (width + 7) / 8;
    assert(0 < pitch) by {
        vstd::arithmetic::div_mod::lemma_div_pos_is_pos(width + 7, 8);
        if pitch == 0 {
            vstd::arithmetic::div_mod::lemma_fundamental_div_mod(width + 7, 8);
            vstd::arithmetic::div_mod::lemma_mod_division_less_than_divisor(width + 7, 8);
        }
    };
    assert(col / 8 < pitch) by {
        vstd::arithmetic::div_mod::lemma_div_is_ordered(col, width + 7 - 8, 8);
        vstd::arithmetic::div_mod::lemma_div_plus_one(width - 1, 8);
        vstd::arithmetic::div_mod::lemma_div_is_ordered(col, width - 1, 8);
        assert(pitch == (width - 1) / 8 + 1) by {
            vstd::arithmetic::div_mod::lemma_div_plus_one(width - 1, 8);
            assert(width + 7 == (width - 1) + 8);
        };
    };
    assert(pitch * row + col / 8 < bpg) by (nonlinear_arith)
        requires
            0 <= row < height,
            0 <= col / 8 < pitch,
            bpg >= height * pitch,
            0 < pitch,
    ;
    assert(pitch * row >= 0) by (nonlinear_arith)
        requires 0 <= row, 0 < pitch,
    ;
    vstd::arithmetic::div_mod::lemma_div_pos_is_pos(col, 8);
}

impl Font for PsfFont {
    open spec fn font_wf(&self) -> bool {
        self.wf()
    }

    open spec fn cell_width(&self) -> int {
        self.width_s()
    }

    open spec fn cell_height(&self) -> int {
        self.height_s()
    }

    fn render_char(&self, ch: char, fb: &mut Framebuffer, x: usize, y: usize) {
        proof {
            fb.lemma_dims_bounded();
        }
        let glyph = self.glyph(ch);
        match glyph {
            Some(glyph) => {
                let white = Pixel::new((255, 255, 255, 255), PixelOrder::Rgb);
                let black = Pixel::new((0, 0, 0, 255), PixelOrder::Rgb);
                let height = self.height as usize;
                let width = self.width as usize;
                let mut i: usize = 0;
                while i < height
                    invariant
                        fb.wf(),
                        fb.width_s() == old(fb).width_s(),
                        fb.height_s() == old(fb).height_s(),
                        fb.pitch_px_s() == old(fb).pitch_px_s(),
                        fb.order_s() == old(fb).order_s(),
                        self.wf(),
                        glyph.wf(self),
                        width == self.width_s(),
                        height == self.height_s() <= y <= fb.height_s(),
                        x + width <= fb.width_s() <= usize::MAX,
                        i <= height,
                    decreases height - i,
                {
                    let mut j: usize = 0;
                    while j < width
                        invariant
                            fb.wf(),
                            fb.width_s() == old(fb).width_s(),
                            fb.height_s() == old(fb).height_s(),
                            fb.pitch_px_s() == old(fb).pitch_px_s(),
                            fb.order_s() == old(fb).order_s(),
                            self.wf(),
                            glyph.wf(self),
                            width == self.width_s(),
                            height == self.height_s() <= y <= fb.height_s(),
                            x + width <= fb.width_s() <= usize::MAX,
                            i < height,
                            j <= width,
                        decreases width - j,
                    {
                        let p = if glyph.value(self, i, j) {
                            white
                        } else {
                            black
                        };
                        fb.set_pixel(x + j, y - height + i, p);
                        j += 1;
                    }
                    i += 1;
                }
            },
            None => {},
        }
    }

    fn render_str(&self, chars: &Vec<char>, fb: &mut Framebuffer, x: usize, y: usize) {
        proof {
            fb.lemma_dims_bounded();
        }
        let mut curr_x = x;
        let mut k: usize = 0;
        while k < chars.len()
            invariant
                fb.wf(),
                fb.width_s() == old(fb).width_s(),
                fb.height_s() == old(fb).height_s(),
                fb.pitch_px_s() == old(fb).pitch_px_s(),
                fb.order_s() == old(fb).order_s(),
                self.wf(),
                0 < self.cell_width(),
                0 < self.cell_height() <= y <= fb.height_s(),
                k <= chars@.len(),
                curr_x == x + k * (self.cell_width() + 1),
                x + chars@.len() * (self.cell_width() + 1) <= fb.width_s() <= usize::MAX,
            decreases chars@.len() - k,
        {
            proof {
                assert((k + 1) * (self.cell_width() + 1) <= chars@.len() * (self.cell_width()
                    + 1)) by (nonlinear_arith)
                    requires
                        k + 1 <= chars@.len(),
                        0 < self.cell_width() + 1,
                ;
                assert((k + 1) * (self.cell_width() + 1) == k * (self.cell_width() + 1) + (
                self.cell_width() + 1)) by (nonlinear_arith);
                assert(k * (self.cell_width() + 1) >= 0) by (nonlinear_arith)
                    requires 0 <= k, 0 < self.cell_width() + 1,
                ;
            }
            self.render_char(chars[k], fb, curr_x, y);
            curr_x += (self.width as usize) + 1;
            k += 1;
        }
    }
}

} // verus!
