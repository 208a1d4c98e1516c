//! The buffer-writing half of the renderer loop.
//!
//! The front end computes one color per pixel (camera ray, nearest hit,
//! shading); this module owns the loop that writes those colors into the
//! raster buffer, each at its own coordinate.

use crate::ppm::{PPM, RGB};
use crate::ppm::lemma_offset_in_bounds;
use vstd::prelude::*;

verus! {

/// Index of pixel `(x, y)` in a row-major pixel sequence of the given width.
pub open spec fn row_major_index(width: int, x: int, y: int) -> int {
    y * width + x
}

/// Writes one color per pixel into a fresh canvas: pixel `(x, y)` receives
/// `colors[y * width + x]`.
pub fn render_pixels(height: u32, width: u32, colors: &Vec<RGB>) -> (p: PPM)
    requires
        (height as int) * (width as int) * 3 <= u32::MAX,
        colors@.len() == (height as int) * (width as int),
    ensures
        p.wf(),
        p.spec_height() == height,
        p.spec_width() == width,
        forall|x: int, y: int|
            p.in_bounds(x, y) ==> p.spec_pixel(x, y) == colors@[row_major_index(
                width as int,
                x,
                y,
            )],
{
    let mut img = PPM::new(height, width);
    let mut x: u32 = 0;
    while x < width
        invariant
            x <= width,
            img.wf(),
            img.spec_height() == height,
            img.spec_width() == width,
            colors@.len() == (height as int) * (width as int),
            forall|x2: int, y2: int|
                0 <= x2 < x && 0 <= y2 < height ==> img.spec_pixel(x2, y2) == colors@[
                    row_major_index(width as int, x2, y2)
                ],
        decreases width - x,
    {
        let mut y: u32 = 0;
        while y < height
            invariant
                x < width,
                y <= height,
                img.wf(),
                img.spec_height() == height,
                img.spec_width() == width,
                colors@.len() == (height as int) * (width as int),
                forall|x2: int, y2: int|
                    0 <= x2 < x && 0 <= y2 < height ==> img.spec_pixel(x2, y2) == colors@[
                        row_major_index(width as int, x2, y2)
                    ],
                forall|y2: int|
                    0 <= y2 < y ==> img.spec_pixel(x as int, y2) == colors@[row_major_index(
                        width as int,
                        x as int,
                        y2,
                    )],
            decreases height - y,
        {
            proof {
                lemma_offset_in_bounds(width as int, height as int, x as int, y as int);
            }
            let idx: u32 = y * width + x;
            let color = colors[idx as usize];
            img.set_pixel(x, y, color);
            y = y + 1;
        }
        x = x + 1;
    }
    img
}

/// Holding one color per pixel pins every pixel of a canvas, so rendering the
/// same row-major colors at the same dimensions twice, with no mutation in
/// between, serializes to byte-identical output.
pub proof fn lemma_render_deterministic(p1: PPM, p2: PPM, colors: Seq<RGB>)
    requires
        p1.wf(),
        p2.wf(),
        p1.spec_height() == p2.spec_height(),
        p1.spec_width() == p2.spec_width(),
        forall|x: int, y: int|
            p1.in_bounds(x, y) ==> p1.spec_pixel(x, y) == colors[row_major_index(
                p1.spec_width() as int,
                x,
                y,
            )],
        forall|x: int, y: int|
            p2.in_bounds(x, y) ==> p2.spec_pixel(x, y) == colors[row_major_index(
                p2.spec_width() as int,
                x,
                y,
            )],
    ensures
        p1.spec_bytes() == p2.spec_bytes(),
{
    PPM::lemma_bytes_depend_only_on_pixels(p1, p2);
}

} // verus!
