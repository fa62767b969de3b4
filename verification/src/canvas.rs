use crate::sa::Color;
use vstd::arithmetic::div_mod::lemma_fundamental_div_mod_converse;
use vstd::prelude::*;

verus! {

/// The mathematical content of a [`Canvas`]: its size and its pixels in
/// row-major order.
pub struct Raster {
    pub width: nat,
    pub height: nat,
    pub pixels: Seq<Color>,
}

/// The colour of an untouched pixel: all four channels zero.
pub open spec fn transparent() -> Color {
    Color { a: 0, r: 0, g: 0, b: 0 }
}

pub open spec fn min_nat(a: nat, b: nat) -> nat {
    if a <= b {
        a
    } else {
        b
    }
}

impl Raster {
    /// There is exactly one pixel for every position.
    pub open spec fn wf(self) -> bool {
        self.pixels.len() == self.width * self.height
    }

    /// The pixel in column `x` of row `y`.
    pub open spec fn at(self, x: int, y: int) -> Color {
        self.pixels[y * self.width + x]
    }

    /// A raster of the given size in which every pixel is transparent.
    pub open spec fn blank(width: nat, height: nat) -> Raster {
        Raster { width, height, pixels: Seq::new(width * height, |i: int| transparent()) }
    }

    /// The part of the raster that lies inside the rectangle with top-left
    /// corner `(x, y)` and the given size. A rectangle that reaches past the
    /// right or bottom edge is cut at the edge; one that starts past an edge
    /// gives an empty raster.
    pub open spec fn crop(self, x: nat, y: nat, width: nat, height: nat) -> Raster {
        let x0 = min_nat(x, self.width);
        let y0 = min_nat(y, self.height);
        let w = min_nat(width, (self.width - x0) as nat);
        let h = min_nat(height, (self.height - y0) as nat);
        Raster {
            width: w,
            height: h,
            pixels: Seq::new(w * h, |i: int| self.at(x0 + i % (w as int), y0 + i / (w as int))),
        }
    }
}

/// Row `y`, column `x` of a `w` wide raster is entry `y * w + x`, and every
/// entry is reached by exactly one such pair.
pub proof fn lemma_row_major(x: int, y: int, w: int)
    requires
        0 <= x < w,
        0 <= y,
    ensures
        (y * w + x) / w == y,
        (y * w + x) % w == x,
        0 <= y * w + x,
{
    lemma_fundamental_div_mod_converse(y * w + x, w, y, x);
    assert(0 <= y * w) by (nonlinear_arith)
        requires
            0 <= y,
            0 <= w,
    ;
}

/// A position inside a `w` by `h` raster has an index below `w * h`.
pub proof fn lemma_index_in_bounds(x: int, y: int, w: int, h: int)
    requires
        0 <= x < w,
        0 <= y < h,
    ensures
        0 <= y * w,
        0 <= y * w + x < w * h,
{
    assert(0 <= y * w && y * w + w <= w * h) by (nonlinear_arith)
        requires
            0 <= y,
            y + 1 <= h,
            0 <= w,
    ;
}

/// A rectangle that lies inside a raster is cropped whole, and its pixel at
/// `(x, y)` is the raster's pixel at that place counted from the rectangle's
/// corner.
pub proof fn lemma_crop_inside(r: Raster, x0: nat, y0: nat, w: nat, h: nat, x: int, y: int)
    requires
        r.wf(),
        x0 + w <= r.width,
        y0 + h <= r.height,
        0 <= x < w,
        0 <= y < h,
    ensures
        r.crop(x0, y0, w, h).width == w,
        r.crop(x0, y0, w, h).height == h,
        r.crop(x0, y0, w, h).at(x, y) == r.at(x0 + x, y0 + y),
{
    lemma_row_major(x, y, w as int);
    lemma_index_in_bounds(x, y, w as int, h as int);
}

/// An image of RGBA pixels, eight bits a channel, stored row by row.
#[derive(Debug, Clone, PartialEq, Eq)]
pub struct Canvas {
    pub width: u32,
    pub height: u32,
    pub pixels: Vec<Color>,
}

impl View for Canvas {
    type V = Raster;

    open spec fn view(&self) -> Raster {
        Raster { width: self.width as nat, height: self.height as nat, pixels: self.pixels@ }
    }
}

impl Canvas {
    pub open spec fn wf(&self) -> bool {
        self@.wf()
    }

    /// A fully transparent canvas of the given size.
    pub fn new(width: u32, height: u32) -> (c: Canvas)
        requires
            width * height <= usize::MAX,
        ensures
            c.wf(),
            c@ == Raster::blank(width as nat, height as nat),
    {
        let n: usize = (width as usize) * (height as usize);
        let mut pixels: Vec<Color> = Vec::with_capacity(n);
        let mut i: usize = 0;
        while i < n
            invariant
                i <= n,
                pixels@.len() == i,
                forall|k: int| 0 <= k < i ==> pixels@[k] == transparent(),
            decreases n - i,
        {
            pixels.push(Color { a: 0, r: 0, g: 0, b: 0 });
            i += 1;
        }
        assert(pixels@ =~= Raster::blank(width as nat, height as nat).pixels);
        Canvas { width, height, pixels }
    }

    pub fn width(&self) -> (w: u32)
        ensures
            w == self@.width,
    {
        self.width
    }

    pub fn height(&self) -> (h: u32)
        ensures
            h == self@.height,
    {
        self.height
    }

    /// Whether the canvas holds one pixel for every position.
    pub fn is_valid(&self) -> (ok: bool)
        ensures
            ok == self.wf(),
    {
        assert(self.width * self.height <= u64::MAX) by (nonlinear_arith)
            requires
                self.width <= u32::MAX,
                self.height <= u32::MAX,
        ;
        let n: u64 = (self.width as u64) * (self.height as u64);
        self.pixels.len() as u64 == n
    }

    /// The pixel in column `x` of row `y`.
    pub fn get_pixel(&self, x: u32, y: u32) -> (p: Color)
        requires
            self.wf(),
            x < self.width,
            y < self.height,
        ensures
            p == self@.at(x as int, y as int),
    {
        proof {
            lemma_index_in_bounds(x as int, y as int, self.width as int, self.height as int);
            assert(self.pixels@.len() == self.pixels.len());
        }
        self.pixels[(y as usize) * (self.width as usize) + (x as usize)]
    }

    /// Replaces the pixel in column `x` of row `y`.
    pub fn put_pixel(&mut self, x: u32, y: u32, p: Color)
        requires
            old(self).wf(),
            x < old(self).width,
            y < old(self).height,
        ensures
            final(self).wf(),
            final(self).width == old(self).width,
            final(self).height == old(self).height,
            final(self).pixels@ == old(self).pixels@.update(y * old(self).width + x, p),
    {
        proof {
            lemma_index_in_bounds(x as int, y as int, self.width as int, self.height as int);
            assert(self.pixels@.len() == self.pixels.len());
        }
        let i: usize = (y as usize) * (self.width as usize) + (x as usize);
        self.pixels.set(i, p);
    }

    /// A copy of the part of the canvas inside the given rectangle, cut at
    /// the canvas's edges.
    pub fn crop(&self, x: u32, y: u32, width: u32, height: u32) -> (c: Canvas)
        requires
            self.wf(),
        ensures
            c.wf(),
            c@ == self@.crop(x as nat, y as nat, width as nat, height as nat),
    {
        let x0: u32 = if x < self.width { x } else { self.width };
        let y0: u32 = if y < self.height { y } else { self.height };
        let w: u32 = if width < self.width - x0 { width } else { self.width - x0 };
        let h: u32 = if height < self.height - y0 { height } else { self.height - y0 };
        let ghost want = self@.crop(x as nat, y as nat, width as nat, height as nat);
        assert(want.width == w && want.height == h);
        let mut pixels: Vec<Color> = Vec::new();
        let mut row: u32 = 0;
        while row < h
            invariant
                self.wf(),
                row <= h,
                x0 + w <= self.width,
                y0 + h <= self.height,
                pixels@.len() == row * w,
                forall|k: int|
                    0 <= k < pixels@.len() ==> pixels@[k] == self@.at(
                        x0 + k % (w as int),
                        y0 + k / (w as int),
                    ),
            decreases h - row,
        {
            let mut col: u32 = 0;
            while col < w
                invariant
                    self.wf(),
                    row < h,
                    col <= w,
                    x0 + w <= self.width,
                    y0 + h <= self.height,
                    pixels@.len() == row * w + col,
                    forall|k: int|
                        0 <= k < pixels@.len() ==> pixels@[k] == self@.at(
                            x0 + k % (w as int),
                            y0 + k / (w as int),
                        ),
                decreases w - col,
            {
                proof {
                    lemma_index_in_bounds(
                        (x0 + col) as int,
                        (y0 + row) as int,
                        self.width as int,
                        self.height as int,
                    );
                    lemma_row_major(col as int, row as int, w as int);
                    assert(self.pixels@.len() == self.pixels.len());
                }
                let i: usize = ((y0 + row) as usize) * (self.width as usize) + ((x0 + col) as usize);
                pixels.push(self.pixels[i]);
                col += 1;
            }
            assert(row * w + w == (row + 1) * w) by (nonlinear_arith);
            row += 1;
        }
        assert(pixels@.len() == w * h) by (nonlinear_arith)
            requires
                pixels@.len() == row * w,
                row == h,
        ;
        assert(pixels@ =~= want.pixels);
        Canvas { width: w, height: h, pixels }
    }
}

/// What `image` makes of a partly transparent pixel `fg` laid over `bg`;
/// both and the result as red, green, blue, alpha.
pub uninterp spec fn blend_rgba(bg: Seq<u8>, fg: Seq<u8>) -> Seq<u8>;

/// The pixel that results from laying `fg` over `bg`: `bg` where `fg` is
/// fully transparent, `fg` where it is fully opaque, and a mix otherwise.
pub open spec fn over(bg: Color, fg: Color) -> Color {
    if fg.a == 0 {
        bg
    } else if fg.a == 255 {
        fg
    } else {
        let mix = blend_rgba(bg.rgba(), fg.rgba());
        Color { r: mix[0], g: mix[1], b: mix[2], a: mix[3] }
    }
}

/// `image::Pixel::blend` on `image::Rgba<u8>`: leaves the pixel alone when the
/// other one has alpha 0, replaces it when the other one has alpha 255, and
/// otherwise mixes the two by a formula in floating point, whose result
/// depends on the eight channel values only.
#[verifier::external_body]
fn blend_pixel(bg: Color, fg: Color) -> (out: Color)
    ensures
        fg.a == 0 ==> out == bg,
        fg.a == 255 ==> out == fg,
        0 < fg.a < 255 ==> out.rgba() == blend_rgba(bg.rgba(), fg.rgba()),
{
    let mut pixel = image::Rgba([bg.r, bg.g, bg.b, bg.a]);
    image::Pixel::blend(&mut pixel, &image::Rgba([fg.r, fg.g, fg.b, fg.a]));
    Color { r: pixel.0[0], g: pixel.0[1], b: pixel.0[2], a: pixel.0[3] }
}

/// Lays `fg` over `bg`.
pub fn blend(bg: Color, fg: Color) -> (out: Color)
    ensures
        out == over(bg, fg),
{
    let out = blend_pixel(bg, fg);
    proof {
        if 0 < fg.a < 255 {
            let mix = blend_rgba(bg.rgba(), fg.rgba());
            assert(out.rgba()[0] == out.r);
            assert(out.rgba()[1] == out.g);
            assert(out.rgba()[2] == out.b);
            assert(out.rgba()[3] == out.a);
        }
    }
    out
}

} // verus!
