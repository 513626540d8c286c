//! Framebuffer model: pixels, the mailbox request that asks the GPU
//! for a display surface, and the decoding of its response into a
//! plain configuration.  The GPU memory itself is outside the library;
//! plotting logic here works on an owned pixel buffer with the same
//! geometry.

use vstd::prelude::*;
use crate::driver::mailbox::{tag_result_word_s, tag_words_s, MailboxBuffer};
use crate::error::OsError;

verus! {

/// Byte order of a pixel's color channels.
#[derive(Clone, Copy, Debug, PartialEq, Eq, Structural)]
pub enum PixelOrder {
    Bgr,
    Rgb,
}

/// One 32-bit pixel, stored in the display's channel order.
#[derive(Clone, Copy, Debug, PartialEq, Eq, Structural)]
pub struct Pixel {
    pub first: u8,
    pub green: u8,
    pub third: u8,
    pub alpha: u8,
}

impl Pixel {
    /// Packs an RGBA color into the display's channel order: the red
    /// and blue channels swap places for a blue-first display.
    pub fn new(rgba: (u8, u8, u8, u8), pixel_order: PixelOrder) -> (r: Self)
        ensures
            r.green == rgba.1,
            r.alpha == rgba.3,
            pixel_order == PixelOrder::Bgr ==> r.first == rgba.2 && r.third == rgba.0,
            pixel_order == PixelOrder::Rgb ==> r.first == rgba.0 && r.third == rgba.2,
    {
        let (red, green, blue, alpha) = rgba;
        let (first, third) = if pixel_order == PixelOrder::Bgr {
            (blue, red)
        } else {
            (red, blue)
        };
        Pixel { first, green, third, alpha }
    }
}

/// An owned pixel surface with the display's geometry: `width` visible
/// pixels per row, rows `pitch` pixels apart.
pub struct Framebuffer {
    buffer: Vec<Pixel>,
    width: usize,
    height: usize,
    pitch_px: usize,
    pixel_order: PixelOrder,
}

impl Framebuffer {
    pub closed spec fn pixels(&self) -> Seq<Pixel> {
        self.buffer@
    }

    pub closed spec fn width_s(&self) -> int {
        self.width as int
    }

    pub closed spec fn height_s(&self) -> int {
        self.height as int
    }

    pub closed spec fn pitch_px_s(&self) -> int {
        self.pitch_px as int
    }

    pub closed spec fn order_s(&self) -> PixelOrder {
        self.pixel_order
    }

    pub closed spec fn wf(&self) -> bool {
        &&& self.width <= self.pitch_px
        &&& self.buffer@.len() == self.height * self.pitch_px
        &&& self.height * self.pitch_px <= usize::MAX
    }

    /// Index of pixel `(x, y)` in the buffer.
    pub open spec fn index_s(&self, x: int, y: int) -> int {
        y * self.pitch_px_s() + x
    }

    /// The geometry fields are machine words.
    pub proof fn lemma_dims_bounded(&self)
        ensures
            0 <= self.width_s() <= usize::MAX,
            0 <= self.height_s() <= usize::MAX,
            0 <= self.pitch_px_s() <= usize::MAX,
    {
    }

    /// A surface over an owned buffer.
    pub fn from_parts(
        buffer: Vec<Pixel>,
        width: usize,
        height: usize,
        pitch_px: usize,
        pixel_order: PixelOrder,
    ) -> (r: Self)
        requires
            width <= pitch_px,
            buffer@.len() == height * pitch_px,
            height * pitch_px <= usize::MAX,
        ensures
            r.wf(),
            r.pixels() == buffer@,
            r.width_s() == width,
            r.height_s() == height,
            r.pitch_px_s() == pitch_px,
            r.order_s() == pixel_order,
    {
        Framebuffer { buffer, width, height, pitch_px, pixel_order }
    }

    pub fn width(&self) -> (r: usize)
        ensures
            r == self.width_s(),
    {
        self.width
    }

    pub fn height(&self) -> (r: usize)
        ensures
            r == self.height_s(),
    {
        self.height
    }

    /// The pixel at `(x, y)`.
    pub fn pixel_at(&self, x: usize, y: usize) -> (r: Pixel)
        requires
            self.wf(),
            x < self.width_s(),
            y < self.height_s(),
        ensures
            r == self.pixels()[self.index_s(x as int, y as int)],
    {
        proof {
            lemma_fb_index(
                x as int,
                y as int,
                self.width_s(),
                self.height_s(),
                self.pitch_px_s(),
            );
        }
        self.buffer[y * self.pitch_px + x]
    }

    /// Writes the pixel at `(x, y)`, leaving every other pixel and the
    /// geometry unchanged.
    pub fn set_pixel(&mut self, x: usize, y: usize, p: Pixel)
        requires
            old(self).wf(),
            x < old(self).width_s(),
            y < old(self).height_s(),
        ensures
            final(self).wf(),
            final(self).width_s() == old(self).width_s(),
            final(self).height_s() == old(self).height_s(),
            final(self).pitch_px_s() == old(self).pitch_px_s(),
            final(self).order_s() == old(self).order_s(),
            final(self).pixels() == old(self).pixels().update(
                old(self).index_s(x as int, y as int),
                p,
            ),
    {
        proof {
            lemma_fb_index(
                x as int,
                y as int,
                self.width_s(),
                self.height_s(),
                self.pitch_px_s(),
            );
        }
        self.buffer[y * self.pitch_px + x] = p;
    }
}

/// A pixel coordinate inside the surface indexes inside the buffer.
proof fn lemma_fb_index(x: int, y: int, width: int, height: int, pitch: int)
    requires
        0 <= x < width <= pitch,
        0 <= y < height,
    ensures
        0 <= y * pitch + x < height * pitch,
{
    assert(y * pitch + x < height * pitch) by (nonlinear_arith)
        requires
            0 <= x < pitch,
            0 <= y < height,
    ;
    assert(y * pitch >= 0) by (nonlinear_arith)
        requires 0 <= y, 0 <= pitch,
    ;
}

/// The display geometry the boot console asks for.
pub const FB_WIDTH: u32 = 1024;

pub const FB_HEIGHT: u32 = 768;

pub const FB_DEPTH: u32 = 32;

/// The finished framebuffer request: physical and virtual sizes, a
/// zero virtual offset, 32-bit depth, red-first pixel order, the
/// framebuffer allocation (4 KiB aligned) and the pitch query.
pub open spec fn framebuffer_request_s() -> Seq<u32> {
    (seq![0u32, 0u32] + tag_words_s(0x0004_8003u32, seq![FB_WIDTH, FB_HEIGHT], 2) + tag_words_s(
        0x0004_8004u32,
        seq![FB_WIDTH, FB_HEIGHT],
        2,
    ) + tag_words_s(0x0004_8009u32, seq![0u32, 0u32], 2) + tag_words_s(
        0x0004_8005u32,
        seq![FB_DEPTH],
        1,
    ) + tag_words_s(0x0004_8006u32, seq![1u32], 1) + tag_words_s(
        0x0004_0001u32,
        seq![4096u32],
        2,
    ) + tag_words_s(0x0004_0008u32, Seq::<u32>::empty(), 1)).push(0u32).update(0, 140u32)
}

/// Builds the mailbox request that configures and allocates the
/// framebuffer.
pub fn framebuffer_request() -> (r: MailboxBuffer)
    ensures
        r.wf(),
        r.words() == framebuffer_request_s(),
        r.tags() == seq![2usize, 7usize, 12usize, 17usize, 21usize, 25usize, 30usize],
        !r.has_result(),
{
    let mut mbox = MailboxBuffer::new();
    let mut size: Vec<u32> = Vec::new();
    size.push(FB_WIDTH);
    size.push(FB_HEIGHT);
    let mut zero2: Vec<u32> = Vec::new();
    zero2.push(0);
    zero2.push(0);
    let mut depth: Vec<u32> = Vec::new();
    depth.push(FB_DEPTH);
    let mut order: Vec<u32> = Vec::new();
    order.push(1);
    let mut align: Vec<u32> = Vec::new();
    align.push(4096);
    let empty: Vec<u32> = Vec::new();
    proof {
        assert(size@ =~= seq![FB_WIDTH, FB_HEIGHT]);
        assert(zero2@ =~= seq![0u32, 0u32]);
        assert(depth@ =~= seq![FB_DEPTH]);
        assert(order@ =~= seq![1u32]);
        assert(align@ =~= seq![4096u32]);
    }
    mbox.append_tag(0x0004_8003, &size, 2);
    mbox.append_tag(0x0004_8004, &size, 2);
    mbox.append_tag(0x0004_8009, &zero2, 2);
    mbox.append_tag(0x0004_8005, &depth, 1);
    mbox.append_tag(0x0004_8006, &order, 1);
    mbox.append_tag(0x0004_0001, &align, 2);
    mbox.append_tag(0x0004_0008, &empty, 1);
    mbox.finalize();
    proof {
        assert(mbox.words() =~= framebuffer_request_s());
        assert(mbox.tags() =~= seq![2usize, 7usize, 12usize, 17usize, 21usize, 25usize, 30usize]);
    }
    mbox
}

/// Plain values decoded from the GPU's framebuffer response.
#[derive(Clone, Copy, Debug, PartialEq, Eq, Structural)]
pub struct FramebufferConfig {
    /// Bus address of the surface, folded into the physical window.
    pub base: u32,
    /// Size of the surface in bytes.
    pub size: u32,
    pub width: u32,
    pub height: u32,
    /// Row stride in bytes.
    pub pitch: u32,
    pub pixel_order: PixelOrder,
}

/// What `framebuffer_from_response` decodes: the depth echo must be
/// the requested depth, the allocation must name a surface, and the
/// virtual size, pitch and pixel order are read back.
pub open spec fn framebuffer_config_s(words: Seq<u32>, tags: Seq<usize>, has: bool) -> Result<
    FramebufferConfig,
    OsError,
> {
    let depth = tag_result_word_s(words, tags, has, 3, 0);
    let base = tag_result_word_s(words, tags, has, 5, 0);
    let size = tag_result_word_s(words, tags, has, 5, 1);
    let width = tag_result_word_s(words, tags, has, 1, 0);
    let height = tag_result_word_s(words, tags, has, 1, 1);
    let pitch = tag_result_word_s(words, tags, has, 6, 0);
    let order = tag_result_word_s(words, tags, has, 4, 0);
    if !(depth is Some && base is Some && size is Some && width is Some && height is Some
        && pitch is Some && order is Some) {
        Err(OsError::MailboxResponse)
    } else if depth->Some_0 != FB_DEPTH {
        Err(OsError::InvalidDepth(FB_DEPTH))
    } else if base->Some_0 == 0 {
        Err(OsError::FramebufferNotAllocated)
    } else {
        Ok(
            FramebufferConfig {
                base: (base->Some_0 & 0x3FFF_FFFF) as u32,
                size: size->Some_0,
                width: width->Some_0,
                height: height->Some_0,
                pitch: pitch->Some_0,
                pixel_order: if order->Some_0 == 1 {
                    PixelOrder::Rgb
                } else {
                    PixelOrder::Bgr
                },
            },
        )
    }
}

/// Decodes the GPU's response to `framebuffer_request` into a plain
/// configuration.
pub fn framebuffer_from_response(mbox: &MailboxBuffer) -> (r: Result<FramebufferConfig, OsError>)
    requires
        mbox.wf(),
    ensures
        r == framebuffer_config_s(mbox.words(), mbox.tags(), mbox.has_result()),
{
    let depth = mbox.read_tag_result(3, 0);
    let base = mbox.read_tag_result(5, 0);
    let size = mbox.read_tag_result(5, 1);
    let width = mbox.read_tag_result(1, 0);
    let height = mbox.read_tag_result(1, 1);
    let pitch = mbox.read_tag_result(6, 0);
    let order = mbox.read_tag_result(4, 0);
    match (depth, base, size, width, height, pitch, order) {
        (Some(d), Some(b), Some(s), Some(w), Some(h), Some(p), Some(o)) => {
            if d != FB_DEPTH {
                Err(OsError::InvalidDepth(FB_DEPTH))
            } else if b == 0 {
                Err(OsError::FramebufferNotAllocated)
            } else {
                Ok(
                    FramebufferConfig {
                        base: b & 0x3FFF_FFFF,
                        size: s,
                        width: w,
                        height: h,
                        pitch: p,
                        pixel_order: if o == 1 {
                            PixelOrder::Rgb
                        } else {
                            PixelOrder::Bgr
                        },
                    },
                )
            }
        },
        _ => Err(OsError::MailboxResponse),
    }
}

} // verus!
