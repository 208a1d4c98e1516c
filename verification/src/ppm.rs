//! Raster image buffer in the style of a binary PPM (`P6`) file.
//!
//! The buffer stores `3 * height * width` bytes, row-major, one `RGB` triple
//! per pixel. Out-of-range pixel coordinates are rejected, never written.

use vstd::prelude::*;
use vstd::arithmetic::div_mod::{
    lemma_div_pos_is_pos, lemma_fundamental_div_mod, lemma_mod_division_less_than_divisor,
    lemma_multiply_divide_lt,
};
use vstd::arithmetic::mul::lemma_mul_is_commutative;

verus! {

/// One pixel: red, green and blue channel bytes.
#[derive(Clone, Copy, PartialEq, Eq, Structural, Debug)]
pub struct RGB {
    pub r: u8,
    pub g: u8,
    pub b: u8,
}

impl RGB {
    pub fn new(r: u8, g: u8, b: u8) -> (c: RGB)
        ensures
            c == (RGB { r, g, b }),
    {
        RGB { r, g, b }
    }
}

/// The shortest base-ten digit string of `n`, as ASCII bytes.
pub open spec fn spec_decimal(n: nat) -> Seq<u8>
    decreases n,
{
    if n < 10 {
        seq![(48 + n) as u8]
    } else {
        spec_decimal(n / 10).push((48 + n % 10) as u8)
    }
}

/// The `P6` header line: magic, width, height and the maximum channel value,
/// separated by single spaces and closed by a newline.
pub open spec fn spec_header(w: nat, h: nat) -> Seq<u8> {
    // ASCII: 80 'P', 54 '6', 32 ' ', 50 '2', 53 '5', 10 '\n'
    seq![80u8, 54u8, 32u8] + spec_decimal(w) + seq![32u8] + spec_decimal(h) + seq![
        32u8,
        50u8,
        53u8,
        53u8,
        10u8,
    ]
}

/// Appends the base-ten digits of `n` to `out`.
fn push_decimal(out: &mut Vec<u8>, n: u32)
    ensures
        final(out)@ == old(out)@ + spec_decimal(n as nat),
    decreases n,
{
    if n < 10 {
        out.push(48 + n as u8);
    } else {
        push_decimal(out, n / 10);
        out.push(48 + (n % 10) as u8);
    }
    proof {
        assert(out@ =~= old(out)@ + spec_decimal(n as nat));
    }
}

/// Raster buffer over a fixed `width x height` canvas.
pub struct PPM {
    height: u32,
    width: u32,
    data: Vec<u8>,
}

/// Both coordinate products stay below the byte-offset computations' range:
/// with `x < w` and `y < h`, pixel `(x, y)` starts at byte `(y * w + x) * 3`,
/// which leaves room for its three channel bytes inside a `(h * w) * 3` buffer.
pub proof fn lemma_offset_in_bounds(w: int, h: int, x: int, y: int)
    by (nonlinear_arith)
    requires
        0 <= x < w,
        0 <= y < h,
    ensures
        0 <= y * w + x,
        y * w + x < h * w,
{
}

/// Distinct in-range pixel coordinates occupy distinct row-major slots.
pub proof fn lemma_offset_injective(w: int, x1: int, y1: int, x2: int, y2: int)
    by (nonlinear_arith)
    requires
        0 <= x1 < w,
        0 <= x2 < w,
        0 <= y1,
        0 <= y2,
        !(x1 == x2 && y1 == y2),
    ensures
        y1 * w + x1 != y2 * w + x2,
{
}

/// A pixel area whose tripled value fits in `u32` is itself nonnegative and
/// fits in `u32`.
proof fn lemma_area_bound(h: int, w: int)
    by (nonlinear_arith)
    requires
        0 <= h,
        0 <= w,
        h * w * 3 <= u32::MAX,
    ensures
        0 <= h * w,
        h * w <= u32::MAX,
{
}

impl PPM {
    /// The canvas width in pixels.
    pub closed spec fn spec_width(self) -> u32 {
        self.width
    }

    /// The canvas height in pixels.
    pub closed spec fn spec_height(self) -> u32 {
        self.height
    }

    /// The raw channel bytes, row-major, three per pixel.
    pub closed spec fn spec_data(self) -> Seq<u8> {
        self.data@
    }

    /// Number of pixels on the canvas.
    pub open spec fn spec_area(self) -> int {
        self.spec_height() * self.spec_width()
    }

    /// Number of channel bytes the canvas holds.
    pub open spec fn buf_len(self) -> int {
        self.spec_area() * 3
    }

    /// The buffer always holds exactly one byte triple per pixel, and the
    /// byte count fits the `u32` offset arithmetic.
    pub open spec fn wf(self) -> bool {
        &&& self.spec_data().len() == self.buf_len()
        &&& self.buf_len() <= u32::MAX
    }

    /// Byte offset of pixel `(x, y)`: three bytes per pixel, row-major.
    pub open spec fn spec_offset(self, x: int, y: int) -> int {
        (y * self.spec_width() + x) * 3
    }

    /// Whether `(x, y)` lies on the canvas.
    pub open spec fn in_bounds(self, x: int, y: int) -> bool {
        0 <= x < self.spec_width() && 0 <= y < self.spec_height()
    }

    /// The full serialized image: `P6` header followed by the channel bytes.
    pub open spec fn spec_bytes(self) -> Seq<u8> {
        spec_header(self.spec_width() as nat, self.spec_height() as nat) + self.spec_data()
    }

    /// The pixel stored at in-range coordinates `(x, y)`.
    pub open spec fn spec_pixel(self, x: int, y: int) -> RGB {
        (RGB {
            r: self.spec_data()[self.spec_offset(x, y)],
            g: self.spec_data()[self.spec_offset(x, y) + 1],
            b: self.spec_data()[self.spec_offset(x, y) + 2],
        })
    }

    /// A fresh all-black (all-zero) canvas of the given dimensions.
    pub fn new(height: u32, width: u32) -> (p: PPM)
        requires
            (height as int) * (width as int) * 3 <= u32::MAX,
        ensures
            p.wf(),
            p.spec_height() == height,
            p.spec_width() == width,
            forall|i: int| 0 <= i < p.spec_data().len() ==> p.spec_data()[i] == 0u8,
    {
        proof {
            lemma_area_bound(height as int, width as int);
        }
        let area: u64 = (height as u64) * (width as u64);
        let size: u64 = area * 3;
        let size_us: usize = size as usize;
        let mut buffer: Vec<u8> = Vec::new();
        let mut i: usize = 0;
        while i < size_us
            invariant
                i <= size_us,
                buffer@.len() == i,
                forall|j: int| 0 <= j < i ==> buffer@[j] == 0u8,
            decreases size_us - i,
        {
            buffer.push(0);
            i = i + 1;
        }
        PPM { height, width, data: buffer }
    }

    /// Total number of channel bytes on the canvas.
    pub fn buffer_size(&self) -> (r: u32)
        requires
            self.wf(),
        ensures
            r == self.buf_len(),
    {
        proof {
            lemma_area_bound(self.height as int, self.width as int);
        }
        self.height * self.width * 3
    }

    /// Byte offset of pixel `(x, y)`, or `None` when the coordinates fall
    /// outside the canvas.
    fn get_offset(&self, x: u32, y: u32) -> (r: Option<usize>)
        requires
            self.wf(),
        ensures
            self.in_bounds(x as int, y as int) ==> r == Some(
                self.spec_offset(x as int, y as int) as usize,
            ),
            !self.in_bounds(x as int, y as int) ==> r is None,
    {
        if x < self.width && y < self.height {
            proof {
                lemma_offset_in_bounds(self.width as int, self.height as int, x as int, y as int);
            }
            let offset: u32 = (y * self.width + x) * 3;
            Some(offset as usize)
        } else {
            None
        }
    }

    /// The pixel at `(x, y)`, or `None` when the coordinates fall outside the
    /// canvas.
    pub fn get_pixel(&self, x: u32, y: u32) -> (r: Option<RGB>)
        requires
            self.wf(),
        ensures
            self.in_bounds(x as int, y as int) ==> r == Some(self.spec_pixel(x as int, y as int)),
            !self.in_bounds(x as int, y as int) ==> r is None,
    {
        match self.get_offset(x, y) {
            Some(offset) => {
                proof {
                    lemma_offset_in_bounds(
                        self.width as int,
                        self.height as int,
                        x as int,
                        y as int,
                    );
                }
                let r = self.data[offset];
                let g = self.data[offset + 1];
                let b = self.data[offset + 2];
                Some(RGB { r, g, b })
            },
            None => None,
        }
    }

    /// Writes `color` at `(x, y)` and reports whether the coordinates were on
    /// the canvas; out-of-range coordinates leave the buffer untouched.
    pub fn set_pixel(&mut self, x: u32, y: u32, color: RGB) -> (ok: bool)
        requires
            old(self).wf(),
        ensures
            final(self).wf(),
            final(self).spec_width() == old(self).spec_width(),
            final(self).spec_height() == old(self).spec_height(),
            ok <==> old(self).in_bounds(x as int, y as int),
            ok ==> final(self).spec_pixel(x as int, y as int) == color,
            forall|x2: int, y2: int|
                old(self).in_bounds(x2, y2) && !(x2 == x as int && y2 == y as int)
                    ==> final(self).spec_pixel(x2, y2) == old(self).spec_pixel(x2, y2),
            !ok ==> *final(self) == *old(self),
    {
        match self.get_offset(x, y) {
            Some(offset) => {
                proof {
                    lemma_offset_in_bounds(
                        self.width as int,
                        self.height as int,
                        x as int,
                        y as int,
                    );
                }
                self.data.set(offset, color.r);
                self.data.set(offset + 1, color.g);
                self.data.set(offset + 2, color.b);
                proof {
                    assert forall|x2: int, y2: int|
                        old(self).in_bounds(x2, y2) && !(x2 == x as int && y2 == y as int) implies
                        self.spec_pixel(x2, y2) == old(self).spec_pixel(x2, y2) by {
                        lemma_offset_injective(
                            self.width as int,
                            x2,
                            y2,
                            x as int,
                            y as int,
                        );
                        lemma_offset_in_bounds(self.width as int, self.height as int, x2, y2);
                    }
                }
                true
            },
            None => false,
        }
    }

    /// The canvas width in pixels.
    pub fn get_width(&self) -> (r: u32)
        ensures
            r == self.spec_width(),
    {
        self.width
    }

    /// The canvas height in pixels.
    pub fn get_height(&self) -> (r: u32)
        ensures
            r == self.spec_height(),
    {
        self.height
    }

    /// A copy of the raw channel bytes, without the header.
    pub fn get_raw_bytes(&self) -> (r: Vec<u8>)
        ensures
            r@ == self.spec_data(),
    {
        let mut out: Vec<u8> = Vec::new();
        let mut i: usize = 0;
        while i < self.data.len()
            invariant
                i <= self.data.len(),
                out@ == self.data@.subrange(0, i as int),
            decreases self.data.len() - i,
        {
            let byte = self.data[i];
            out.push(byte);
            i = i + 1;
            proof {
                assert(out@ =~= self.data@.subrange(0, i as int));
            }
        }
        proof {
            assert(out@ =~= self.data@);
        }
        out
    }

    /// Every byte index below `(h * w) * 3` addresses channel `i % 3` of the
    /// in-range pixel `(x, y)` with `x = (i / 3) % w` and `y = (i / 3) / w`.
    proof fn lemma_index_decompose(w: int, h: int, i: int)
        requires
            0 < w,
            0 <= i < (h * w) * 3,
        ensures
            ({
                let q = i / 3;
                let x = q % w;
                let y = q / w;
                &&& 0 <= i % 3 < 3
                &&& 0 <= x < w
                &&& 0 <= y < h
                &&& i == (y * w + x) * 3 + i % 3
            }),
    {
        let q = i / 3;
        let x = q % w;
        let y = q / w;
        lemma_fundamental_div_mod(i, 3);
        lemma_mod_division_less_than_divisor(i, 3);
        lemma_div_pos_is_pos(i, 3);
        lemma_fundamental_div_mod(q, w);
        lemma_mod_division_less_than_divisor(q, w);
        lemma_div_pos_is_pos(q, w);
        assert(q < h * w);
        lemma_mul_is_commutative(h, w);
        lemma_multiply_divide_lt(q, w, h);
        lemma_mul_is_commutative(w, y);
    }

    /// The serialized image is a function of the dimensions and the pixels
    /// alone: two well-formed buffers that agree on their dimensions and on
    /// every on-canvas pixel serialize to byte-identical output.
    pub proof fn lemma_bytes_depend_only_on_pixels(p1: PPM, p2: PPM)
        requires
            p1.wf(),
            p2.wf(),
            p1.spec_width() == p2.spec_width(),
            p1.spec_height() == p2.spec_height(),
            forall|x: int, y: int|
                p1.in_bounds(x, y) ==> p1.spec_pixel(x, y) == p2.spec_pixel(x, y),
        ensures
            p1.spec_bytes() == p2.spec_bytes(),
    {
        let w = p1.spec_width() as int;
        let h = p1.spec_height() as int;
        assert forall|i: int| 0 <= i < p1.spec_data().len() implies p1.spec_data()[i]
            == p2.spec_data()[i] by {
            assert(0 < w) by (nonlinear_arith)
                requires
                    0 <= w,
                    0 <= h,
                    0 <= i < (h * w) * 3,
            ;
            Self::lemma_index_decompose(w, h, i);
            let q = i / 3;
            let x = q % w;
            let y = q / w;
            assert(p1.spec_pixel(x, y) == p2.spec_pixel(x, y));
        }
        assert(p1.spec_data() =~= p2.spec_data());
        assert(p1.spec_bytes() =~= p2.spec_bytes());
    }

    /// The whole image file as bytes: header, then the channel bytes.
    pub fn get_bytes(&self) -> (r: Vec<u8>)
        ensures
            r@ == self.spec_bytes(),
    {
        let mut out: Vec<u8> = Vec::new();
        out.push(80);  // 'P'
        out.push(54);  // '6'
        out.push(32);  // ' '
        push_decimal(&mut out, self.width);
        out.push(32);  // ' '
        push_decimal(&mut out, self.height);
        out.push(32);  // ' '
        out.push(50);  // '2'
        out.push(53);  // '5'
        out.push(53);  // '5'
        out.push(10);  // '\n'
        proof {
            assert(out@ =~= spec_header(self.spec_width() as nat, self.spec_height() as nat));
        }
        let ghost header = out@;
        let mut i: usize = 0;
        while i < self.data.len()
            invariant
                i <= self.data.len(),
                out@ == header + self.data@.subrange(0, i as int),
            decreases self.data.len() - i,
        {
            let byte = self.data[i];
            out.push(byte);
            i = i + 1;
            proof {
                assert(out@ =~= header + self.data@.subrange(0, i as int));
            }
        }
        proof {
            assert(out@ =~= self.spec_bytes());
        }
        out
    }
}

} // verus!
