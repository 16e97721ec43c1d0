use vstd::prelude::*;

use crate::algorithms::dither;
use crate::algorithms::preset;
use crate::algorithms::Options;

pub mod algorithms;
pub mod laws;




verus! {

/// Why a grayscale raster could not be built from the samples given.
#[derive(Debug, Clone, Copy, PartialEq, Eq, Structural)]
pub enum ImageError {
    /// The number of samples is not the number of pixels of the stated size.
    ShapeMismatch,
}

/// An owned grayscale raster: `width * height` intensity samples in row-major order.
#[derive(Clone, Debug)]
pub struct Image {
    pub width: u32,
    pub height: u32,
    pub pixels: Vec<u8>,
}

/// Row-major position of the pixel at column `x`, row `y` in a raster `w` wide.
pub open spec fn pixel_index(w: int, x: int, y: int) -> int {
    y * w + x
}

/// Whether `(x, y)` lies on a `w` by `h` canvas.
pub open spec fn on_canvas(w: int, h: int, x: int, y: int) -> bool {
    0 <= x < w && 0 <= y < h
}

/// Luminance of one colour sample, truncated to a byte: 0.2126 R + 0.7152 G + 0.0722 B.
pub open spec fn luminance(r: u8, g: u8, b: u8) -> u8 {
    ((2126 * r + 7152 * g + 722 * b) / 10000) as u8
}

/// The luminance of each four-byte colour sample of `data`.
pub open spec fn luminance_of(data: Seq<u8>) -> Seq<u8> {
    Seq::new(
        data.len() / 4,
        |i: int| luminance(data[4 * i], data[4 * i + 1], data[4 * i + 2]),
    )
}

/// Each sample written out as an opaque gray colour: R, G and B equal to it, alpha 255.
pub open spec fn rgba_of(pixels: Seq<u8>) -> Seq<u8> {
    Seq::new(
        4 * pixels.len(),
        |i: int| if i % 4 == 3 { 255u8 } else { pixels[i / 4] },
    )
}

impl View for Image {
    type V = Seq<u8>;

    open spec fn view(&self) -> Seq<u8> {
        self.pixels@
    }
}

/// A position on a `w` by `h` canvas has a row-major index below `w * h`.
pub proof fn lemma_index_in_bounds(w: int, h: int, x: int, y: int)
    requires
        on_canvas(w, h, x, y),
    ensures
        0 <= pixel_index(w, x, y) < w * h,
{
    assert(0 <= y * w + x < w * h) by (nonlinear_arith)
        requires
            0 <= x < w,
            0 <= y < h,
    ;
}

proof fn lemma_u32_product(a: int, b: int)
    requires
        0 <= a <= u32::MAX,
        0 <= b <= u32::MAX,
    ensures
        0 <= a * b <= u32::MAX * u32::MAX,
{
    assert(0 <= a * b <= u32::MAX * u32::MAX) by (nonlinear_arith)
        requires
            0 <= a <= u32::MAX,
            0 <= b <= u32::MAX,
    ;
}

impl Image {
    /// The sample count matches the stated size.
    pub open spec fn wf(&self) -> bool {
        self@.len() == self.width * self.height
    }

    /// Builds a raster of the given size from its samples, in row-major order.
    pub fn new(width: u32, height: u32, pixels: Vec<u8>) -> (r: Result<Image, ImageError>)
        ensures
            pixels@.len() == width * height <==> r is Ok,
            r is Err ==> r == Err::<Image, ImageError>(ImageError::ShapeMismatch),
            r matches Ok(img) ==> img.width == width && img.height == height && img@ == pixels@
                && img.wf(),
    {
        proof {
            lemma_u32_product(width as int, height as int);
        }
        let n = pixels.len() as u128;
        if n != width as u128 * height as u128 {
            return Err(ImageError::ShapeMismatch);
        }
        Ok(Image { width, height, pixels })
    }

    /// Builds a raster from interleaved four-byte colour samples (R, G, B, A), each
    /// reduced to its luminance; the alpha byte is not read.
    pub fn from_rgb(width: u32, height: u32, data: Vec<u8>) -> (r: Result<Image, ImageError>)
        ensures
            data@.len() == 4 * (width * height) <==> r is Ok,
            r is Err ==> r == Err::<Image, ImageError>(ImageError::ShapeMismatch),
            r matches Ok(img) ==> img.width == width && img.height == height
                && img@ == luminance_of(data@) && img.wf(),
    {
        proof {
            lemma_u32_product(width as int, height as int);
        }
        if data.len() as u128 != 4 * (width as u128 * height as u128) {
            return Err(ImageError::ShapeMismatch);
        }
        let count = data.len() / 4;
        let mut pixels: Vec<u8> = Vec::with_capacity(count);
        let mut i: usize = 0;
        while i < count
            invariant
                count == data@.len() / 4,
                data@.len() <= usize::MAX,
                i <= count,
                pixels@ == luminance_of(data@).take(i as int),
            decreases count - i,
        {
            assert(4 * i + 3 < data@.len()) by (nonlinear_arith)
                requires
                    i < data@.len() / 4,
            ;
            let r = data[4 * i] as u32;
            let g = data[4 * i + 1] as u32;
            let b = data[4 * i + 2] as u32;
            let v = ((2126 * r + 7152 * g + 722 * b) / 10000) as u8;
            pixels.push(v);
            i += 1;
            assert(pixels@ =~= luminance_of(data@).take(i as int));
        }
        assert(pixels@ =~= luminance_of(data@));
        Image::new(width, height, pixels)
    }

    /// The samples as interleaved colour bytes: R, G and B equal to the sample, alpha 255.
    pub fn to_rgb(&self) -> (r: Vec<u8>)
        requires
            self.wf(),
            4 * self@.len() <= usize::MAX,
        ensures
            r@ == rgba_of(self@),
    {
        let n = self.pixels.len();
        let mut out: Vec<u8> = Vec::with_capacity(4 * n);
        let mut i: usize = 0;
        while i < n
            invariant
                n == self@.len(),
                4 * n <= usize::MAX,
                i <= n,
                out@ == rgba_of(self@).take(4 * i as int),
            decreases n - i,
        {
            let c = self.pixels[i];
            out.push(c);
            out.push(c);
            out.push(c);
            out.push(255);
            i += 1;
            assert(out@ =~= rgba_of(self@).take(4 * i as int));
        }
        assert(out@ =~= rgba_of(self@));
        out
    }

    /// The samples, in row-major order.
    pub fn pixels(&self) -> (r: &Vec<u8>)
        ensures
            r@ == self@,
    {
        &self.pixels
    }

    /// The sample at column `x`, row `y`, or `None` off the canvas.
    pub fn get_at(&self, x: u64, y: u64) -> (r: Option<u8>)
        requires
            self.wf(),
        ensures
            on_canvas(self.width as int, self.height as int, x as int, y as int) <==> r is Some,
            r matches Some(v) ==> v == self@[pixel_index(self.width as int, x as int, y as int)],
    {
        if x >= self.width as u64 || y >= self.height as u64 {
            return None;
        }
        let n = self.pixels.len();
        proof {
            lemma_index_in_bounds(self.width as int, self.height as int, x as int, y as int);
            assert(y * self.width <= y * self.width + x);
        }
        let i = y as usize * self.width as usize + x as usize;
        Some(self.pixels[i])
    }

    /// Writes `value` at column `x`, row `y`; a write off the canvas is dropped.
    pub fn set_at(&mut self, x: u64, y: u64, value: u8)
        requires
            old(self).wf(),
        ensures
            final(self).width == old(self).width,
            final(self).height == old(self).height,
            final(self)@ == if on_canvas(
                old(self).width as int,
                old(self).height as int,
                x as int,
                y as int,
            ) {
                old(self)@.update(pixel_index(old(self).width as int, x as int, y as int), value)
            } else {
                old(self)@
            },
            final(self).wf(),
    {
        if x >= self.width as u64 || y >= self.height as u64 {
            return;
        }
        let n = self.pixels.len();
        proof {
            lemma_index_in_bounds(self.width as int, self.height as int, x as int, y as int);
            assert(y * self.width <= y * self.width + x);
        }
        let i = y as usize * self.width as usize + x as usize;
        self.pixels.set(i, value);
    }

    /// The sample at signed column `x`, row `y`, or `None` off the canvas.
    pub fn get_pixel(&self, x: isize, y: isize) -> (r: Option<u8>)
        requires
            self.wf(),
        ensures
            on_canvas(self.width as int, self.height as int, x as int, y as int) <==> r is Some,
            r matches Some(v) ==> v == self@[pixel_index(self.width as int, x as int, y as int)],
    {
        if x < 0 || y < 0 {
            return None;
        }
        self.get_at(x as u64, y as u64)
    }

    /// Writes `value` at signed column `x`, row `y`; a write off the canvas is dropped.
    pub fn set_pixel(&mut self, x: isize, y: isize, value: u8)
        requires
            old(self).wf(),
        ensures
            final(self).width == old(self).width,
            final(self).height == old(self).height,
            final(self)@ == if on_canvas(
                old(self).width as int,
                old(self).height as int,
                x as int,
                y as int,
            ) {
                old(self)@.update(pixel_index(old(self).width as int, x as int, y as int), value)
            } else {
                old(self)@
            },
            final(self).wf(),
    {
        if x < 0 || y < 0 {
            return;
        }
        self.set_at(x as u64, y as u64, value);
    }
}

/// Dithers `img` to black and white with the named kernel.
pub fn transform(img: Image, alg: Options) -> (r: Image)
    requires
        img.wf(),
    ensures
        r.wf(),
        r.width == img.width,
        r.height == img.height,
        r@ == dither(img@, img.width as nat, img.height as nat, preset(alg)),
        forall|i: int| 0 <= i < r@.len() ==> #[trigger] r@[i] == 0 || r@[i] == 255,
{
    algorithms::process(img, alg.kernel())
}

} // verus!
