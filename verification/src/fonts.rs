//! Font rendering onto the framebuffer model.

pub mod psf;

use vstd::prelude::*;
use crate::driver::framebuffer::Framebuffer;

verus! {

/// A fixed-cell font that can plot characters onto a framebuffer.
pub trait Font {
    /// The font's own well-formedness.
    spec fn font_wf(&self) -> bool;

    /// Width of one glyph cell in pixels.
    spec fn cell_width(&self) -> int;

    /// Height of one glyph cell in pixels.
    spec fn cell_height(&self) -> int;

    /// Draws `ch` with its cell's bottom row at `y - 1`, left edge at
    /// `x`.  The geometry is unchanged; a character without a glyph
    /// leaves the surface unchanged.
    fn render_char(&self, ch: char, fb: &mut Framebuffer, x: usize, y: usize)
        requires
            self.font_wf(),
            old(fb).wf(),
            0 < self.cell_width(),
            0 < self.cell_height() <= y <= old(fb).height_s(),
            x + self.cell_width() <= old(fb).width_s(),
        ensures
            final(fb).wf(),
            final(fb).width_s() == old(fb).width_s(),
            final(fb).height_s() == old(fb).height_s(),
            final(fb).pitch_px_s() == old(fb).pitch_px_s(),
            final(fb).order_s() == old(fb).order_s(),
    ;

    /// Draws the characters left to right, advancing one cell width
    /// plus one pixel of spacing per character.
    fn render_str(&self, chars: &Vec<char>, fb: &mut Framebuffer, x: usize, y: usize)
        requires
            self.font_wf(),
            old(fb).wf(),
            0 < self.cell_width(),
            0 < self.cell_height() <= y <= old(fb).height_s(),
            x + chars@.len() * (self.cell_width() + 1) <= old(fb).width_s(),
        ensures
            final(fb).wf(),
            final(fb).width_s() == old(fb).width_s(),
            final(fb).height_s() == old(fb).height_s(),
            final(fb).pitch_px_s() == old(fb).pitch_px_s(),
            final(fb).order_s() == old(fb).order_s(),
    ;
}

} // verus!
