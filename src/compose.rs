use vstd::prelude::*;

use crate::parse::FrameInfo;

verus! {

/// One pixel: red, green, blue and alpha, eight bits each.
#[derive(Clone, Copy, Debug, PartialEq, Eq, Structural)]
pub struct Rgba8 {
    pub r: u8,
    pub g: u8,
    pub b: u8,
    pub a: u8,
}

pub open spec fn transparent() -> Rgba8 {
    Rgba8 { r: 0, g: 0, b: 0, a: 0 }
}

/// The pixel that `image` makes of `over` laid on `under` where the alpha of
/// `over` is strictly between 0 and 255.
pub uninterp spec fn blended(under: Rgba8, over: Rgba8) -> Rgba8;

/// Source-over compositing of one pixel: a transparent source leaves the pixel
/// under it, an opaque one replaces it, any other is mixed with it.
pub open spec fn over_pixel(under: Rgba8, over: Rgba8) -> Rgba8 {
    if over.a == 0 {
        under
    } else if over.a == 255 {
        over
    } else {
        blended(under, over)
    }
}

/// Relies on `image::Pixel::blend` for `Rgba<u8>`: it returns early, keeping the
/// pixel, where the source alpha is zero; it copies the source where the source
/// alpha is 255; otherwise it computes the source-over mix of the two pixels.
#[verifier::external_body]
fn blend_pixel(under: Rgba8, over: Rgba8) -> (r: Rgba8)
    ensures
        r == (if over.a == 0 {
            under
        } else if over.a == 255 {
            over
        } else {
            blended(under, over)
        }),
{
    let mut p = image::Rgba([under.r, under.g, under.b, under.a]);
    image::Pixel::blend(&mut p, &image::Rgba([over.r, over.g, over.b, over.a]));
    Rgba8 { r: p.0[0], g: p.0[1], b: p.0[2], a: p.0[3] }
}

/// The pixel whose four bytes start at `4 * j`.
pub open spec fn px_bytes(b: Seq<u8>, j: int) -> Rgba8 {
    Rgba8 { r: b[4 * j], g: b[4 * j + 1], b: b[4 * j + 2], a: b[4 * j + 3] }
}

/// A raster image, row by row from the top left.
pub struct Raster {
    pub width: u32,
    pub height: u32,
    pub pixels: Vec<Rgba8>,
}

impl Raster {
    pub open spec fn wf(&self) -> bool {
        self.pixels@.len() == self.width * self.height
    }

    /// The pixel in column `x` of row `y`.
    pub open spec fn at(&self, x: int, y: int) -> Rgba8 {
        self.pixels@[y * self.width + x]
    }

    /// A raster of the given size with every pixel `fill`.
    pub fn filled(width: u32, height: u32, fill: Rgba8) -> (r: Raster)
        requires
            width * height <= usize::MAX,
        ensures
            r.wf(),
            r.width == width,
            r.height == height,
            forall|i: int| 0 <= i < r.pixels@.len() ==> r.pixels@[i] == fill,
    {
        let n = width as usize * height as usize;
        let mut pixels: Vec<Rgba8> = Vec::new();
        let mut i: usize = 0;
        while i < n
            invariant
                i <= n,
                pixels@.len() == i,
                forall|j: int| 0 <= j < i ==> pixels@[j] == fill,
            decreases n - i,
        {
            pixels.push(fill);
            i += 1;
        }
        Raster { width, height, pixels }
    }

    /// A raster from bytes laid out as four per pixel (red, green, blue, alpha),
    /// row by row; `None` where the byte count is not four per pixel.
    pub fn from_rgba_bytes(width: u32, height: u32, bytes: &Vec<u8>) -> (r: Option<Raster>)
        ensures
            r is Some <==> bytes@.len() == 4 * (width * height),
            r matches Some(ras) ==> ras.wf() && ras.width == width && ras.height == height
                && forall|i: int|
                0 <= i < ras.pixels@.len() ==> #[trigger] ras.pixels@[i] == px_bytes(bytes@, i),
    {
        assert(width as u128 * height as u128 <= u128::MAX) by (nonlinear_arith);
        let n: u128 = width as u128 * height as u128;
        if bytes.len() % 4 != 0 || (bytes.len() / 4) as u128 != n {
            return None;
        }
        let count = bytes.len() / 4;
        let mut pixels: Vec<Rgba8> = Vec::new();
        let mut i: usize = 0;
        while i < count
            invariant
                count * 4 == bytes@.len(),
                bytes@.len() <= usize::MAX,
                count == width * height,
                i <= count,
                pixels@.len() == i,
                forall|j: int| 0 <= j < i ==> #[trigger] pixels@[j] == px_bytes(bytes@, j),
            decreases count - i,
        {
            pixels.push(
                Rgba8 { r: bytes[4 * i], g: bytes[4 * i + 1], b: bytes[4 * i + 2], a: bytes[4 * i + 3] },
            );
            i += 1;
        }
        Some(Raster { width, height, pixels })
    }

    /// The pixels as bytes, four per pixel (red, green, blue, alpha), row by row.
    pub fn to_rgba_bytes(&self) -> (r: Vec<u8>)
        requires
            4 * self.pixels@.len() <= usize::MAX,
        ensures
            r@.len() == 4 * self.pixels@.len(),
            forall|i: int| 0 <= i < self.pixels@.len() ==> #[trigger] px_bytes(r@, i) == self.pixels@[i],
    {
        let mut out: Vec<u8> = Vec::new();
        let mut i: usize = 0;
        while i < self.pixels.len()
            invariant
                4 * self.pixels@.len() <= usize::MAX,
                i <= self.pixels@.len(),
                out@.len() == 4 * i,
                forall|j: int| 0 <= j < i ==> #[trigger] px_bytes(out@, j) == self.pixels@[j],
            decreases self.pixels@.len() - i,
        {
            let p = self.pixels[i];
            let ghost before = out@;
            out.push(p.r);
            out.push(p.g);
            out.push(p.b);
            out.push(p.a);
            assert(out@ == before + seq![p.r, p.g, p.b, p.a]);
            assert forall|j: int| 0 <= j < i + 1 implies #[trigger] px_bytes(out@, j) == self.pixels@[j] by {
                if j < i {
                    assert(px_bytes(before, j) == self.pixels@[j]);
                    assert(out@[4 * j] == before[4 * j]);
                    assert(out@[4 * j + 1] == before[4 * j + 1]);
                    assert(out@[4 * j + 2] == before[4 * j + 2]);
                    assert(out@[4 * j + 3] == before[4 * j + 3]);
                }
            }
            i += 1;
        }
        out
    }

    /// A pixel by position.
    pub fn pixel(&self, x: u32, y: u32) -> (r: Rgba8)
        requires
            self.wf(),
            x < self.width,
            y < self.height,
        ensures
            r == self.at(x as int, y as int),
    {
        proof {
            assert(self.pixels@.len() == self.pixels.len());
            lemma_index_in_bounds(self.width as int, self.height as int, x as int, y as int);
            assert(0 <= y * self.width) by (nonlinear_arith)
                requires
                    0 <= y,
                    0 <= self.width,
            ;
        }
        self.pixels[y as usize * self.width as usize + x as usize]
    }

    /// A copy of this raster.
    pub fn snapshot(&self) -> (r: Raster)
        ensures
            r.width == self.width,
            r.height == self.height,
            r.pixels@ == self.pixels@,
    {
        let mut pixels: Vec<Rgba8> = Vec::new();
        let mut i: usize = 0;
        while i < self.pixels.len()
            invariant
                i <= self.pixels@.len(),
                pixels@ == self.pixels@.subrange(0, i as int),
            decreases self.pixels@.len() - i,
        {
            pixels.push(self.pixels[i]);
            i += 1;
        }
        assert(self.pixels@.subrange(0, self.pixels@.len() as int) == self.pixels@);
        Raster { width: self.width, height: self.height, pixels }
    }
}

pub proof fn lemma_index_in_bounds(w: int, h: int, x: int, y: int)
    requires
        0 <= x < w,
        0 <= y < h,
    ensures
        0 <= y * w + x < w * h,
{
    assert(0 <= y * w) by (nonlinear_arith)
        requires
            0 <= y,
            0 <= w,
    ;
    assert(y * w + x < w * h) by (nonlinear_arith)
        requires
            0 <= x < w,
            0 <= y < h,
    ;
}

pub proof fn lemma_index_distinct(w: int, x1: int, y1: int, x2: int, y2: int)
    requires
        0 <= x1 < w,
        0 <= x2 < w,
        0 <= y1,
        0 <= y2,
        x1 != x2 || y1 != y2,
    ensures
        y1 * w + x1 != y2 * w + x2,
{
    if y1 == y2 {
    } else if y1 < y2 {
        assert(y1 * w + w <= y2 * w) by (nonlinear_arith)
            requires
                y1 < y2,
                0 <= w,
        ;
    } else {
        assert(y2 * w + w <= y1 * w) by (nonlinear_arith)
            requires
                y2 < y1,
                0 <= w,
        ;
    }
}


/// The animation's canvas: its logical size, and the raster it is drawn on,
/// whose size is the logical one rounded up to even numbers.
pub struct Canvas {
    pub width: u32,
    pub height: u32,
    pub image: Raster,
}

pub open spec fn even_up(n: int) -> int {
    if n % 2 == 0 {
        n
    } else {
        n + 1
    }
}

/// `n` rounded up to an even number.
pub fn even_up_exec(n: u32) -> (r: u64)
    ensures
        r == even_up(n as int),
{
    if n % 2 == 0 {
        n as u64
    } else {
        n as u64 + 1
    }
}

impl Canvas {
    pub open spec fn wf(&self) -> bool {
        &&& self.image.wf()
        &&& self.image.width == even_up(self.width as int)
        &&& self.image.height == even_up(self.height as int)
    }

    pub open spec fn at(&self, x: int, y: int) -> Rgba8 {
        self.image.at(x, y)
    }

    pub open spec fn same_shape(&self, other: &Canvas) -> bool {
        self.width == other.width && self.height == other.height && self.image.width
            == other.image.width && self.image.height == other.image.height
    }
}

/// `(x, y)` lies on the canvas of logical size `lw` by `lh` and in the rectangle
/// of size `w` by `h` placed at `(ox, oy)`.
pub open spec fn in_placed_rect(x: int, y: int, ox: int, oy: int, w: int, h: int, lw: int, lh: int) -> bool {
    0 <= x < lw && 0 <= y < lh && ox <= x < ox + w && oy <= y < oy + h
}

/// A canvas pixel after `frame` is composited at `(ox, oy)`.
pub open spec fn composite_px(
    under: Rgba8,
    frame: Raster,
    ox: int,
    oy: int,
    blend: bool,
    lw: int,
    lh: int,
    x: int,
    y: int,
) -> Rgba8 {
    if in_placed_rect(x, y, ox, oy, frame.width as int, frame.height as int, lw, lh) {
        let src = frame.at(x - ox, y - oy);
        if blend {
            over_pixel(under, src)
        } else {
            src
        }
    } else {
        under
    }
}

/// A canvas pixel after the `w` by `h` rectangle at `(ox, oy)` is cleared.
pub open spec fn cleared_px(under: Rgba8, ox: int, oy: int, w: int, h: int, lw: int, lh: int, x: int, y: int) -> Rgba8 {
    if in_placed_rect(x, y, ox, oy, w, h, lw, lh) {
        transparent()
    } else {
        under
    }
}

/// The first index at or after `start`, and below `limit`, from which `len`
/// places reach; the end of the span `[start, start + len)` clipped to `limit`.
fn clipped_end(start: usize, len: usize, limit: u32) -> (r: usize)
    ensures
        start >= limit ==> r == start,
        start < limit ==> r == if start + len <= limit {
            start + len
        } else {
            limit as int
        },
{
    if start >= limit as usize {
        start
    } else {
        let room = limit as usize - start;
        if len <= room {
            start + len
        } else {
            limit as usize
        }
    }
}

/// Draws `frame` on the canvas with its top left at `(offset_x, offset_y)`.
/// With `blend`, each pixel is laid over the canvas pixel by source-over
/// compositing; without, it replaces it, alpha included. Pixels that land
/// outside the canvas's logical size are dropped.
pub fn composite_frame(canvas: &mut Canvas, frame: &Raster, offset_x: usize, offset_y: usize, blend: bool)
    requires
        old(canvas).wf(),
        frame.wf(),
    ensures
        final(canvas).wf(),
        final(canvas).same_shape(old(canvas)),
        forall|x: int, y: int|
            0 <= x < final(canvas).image.width && 0 <= y < final(canvas).image.height
                ==> #[trigger] final(canvas).at(x, y) == composite_px(
                old(canvas).at(x, y),
                *frame,
                offset_x as int,
                offset_y as int,
                blend,
                old(canvas).width as int,
                old(canvas).height as int,
                x,
                y,
            ),
{
    let ghost before = *canvas;
    let cw = canvas.image.width;
    let ch = canvas.image.height;
    let lw = canvas.width;
    let lh = canvas.height;
    let x_end = clipped_end(offset_x, frame.width as usize, lw);
    let y_end = clipped_end(offset_y, frame.height as usize, lh);
    let mut y = offset_y;
    while y < y_end
        invariant
            canvas.wf(),
            canvas.same_shape(&before),
            cw == canvas.image.width,
            ch == canvas.image.height,
            lw == canvas.width,
            lh == canvas.height,
            frame.wf(),
            offset_y <= y,
            y_end >= offset_y ==> y <= y_end,
            offset_x >= lw ==> x_end == offset_x,
            offset_x < lw ==> x_end == if offset_x + frame.width <= lw {
                offset_x + frame.width
            } else {
                lw as int
            },
            offset_y >= lh ==> y_end == offset_y,
            offset_y < lh ==> y_end == if offset_y + frame.height <= lh {
                offset_y + frame.height
            } else {
                lh as int
            },
            forall|px: int, py: int|
                0 <= px < cw && 0 <= py < ch ==> #[trigger] canvas.at(px, py) == if py < y {
                    composite_px(
                        before.at(px, py),
                        *frame,
                        offset_x as int,
                        offset_y as int,
                        blend,
                        lw as int,
                        lh as int,
                        px,
                        py,
                    )
                } else {
                    before.at(px, py)
                },
        decreases y_end - y,
    {
        let mut x = offset_x;
        while x < x_end
            invariant
                canvas.wf(),
                canvas.same_shape(&before),
                cw == canvas.image.width,
                ch == canvas.image.height,
                lw == canvas.width,
                lh == canvas.height,
                frame.wf(),
                offset_y <= y < y_end,
                y_end <= lh,
                y_end <= offset_y + frame.height,
                offset_x <= x <= x_end,
                offset_x >= lw ==> x_end == offset_x,
                offset_x < lw ==> x_end == if offset_x + frame.width <= lw {
                    offset_x + frame.width
                } else {
                    lw as int
                },
                offset_y >= lh ==> y_end == offset_y,
                offset_y < lh ==> y_end == if offset_y + frame.height <= lh {
                    offset_y + frame.height
                } else {
                    lh as int
                },
                forall|px: int, py: int|
                    0 <= px < cw && 0 <= py < ch ==> #[trigger] canvas.at(px, py) == if py < y || (
                    py == y && px < x) {
                        composite_px(
                            before.at(px, py),
                            *frame,
                            offset_x as int,
                            offset_y as int,
                            blend,
                            lw as int,
                            lh as int,
                            px,
                            py,
                        )
                    } else {
                        before.at(px, py)
                    },
            decreases x_end - x,
        {
            let fx = (x - offset_x) as u32;
            let fy = (y - offset_y) as u32;
            let src = frame.pixel(fx, fy);
            let xu = x as u32;
            let yu = y as u32;
            assert(lw <= cw && lh <= ch);
            let under = canvas.image.pixel(xu, yu);
            let v = if blend {
                blend_pixel(under, src)
            } else {
                src
            };
            proof {
                assert(canvas.image.pixels@.len() == canvas.image.pixels.len());
                lemma_index_in_bounds(cw as int, ch as int, x as int, y as int);
                assert(0 <= y * cw) by (nonlinear_arith)
                    requires
                        0 <= y,
                        0 <= cw,
                ;
            }
            let idx = yu as usize * cw as usize + xu as usize;
            let ghost prev = *canvas;
            canvas.image.pixels.set(idx, v);
            assert forall|px: int, py: int|
                0 <= px < cw && 0 <= py < ch implies #[trigger] canvas.at(px, py) == if py < y || (
                py == y && px < x + 1) {
                    composite_px(
                        before.at(px, py),
                        *frame,
                        offset_x as int,
                        offset_y as int,
                        blend,
                        lw as int,
                        lh as int,
                        px,
                        py,
                    )
                } else {
                    before.at(px, py)
                } by {
                if px != x || py != y {
                    lemma_index_distinct(cw as int, px, py, x as int, y as int);
                    lemma_index_in_bounds(cw as int, ch as int, px, py);
                    assert(canvas.at(px, py) == prev.at(px, py));
                } else {
                    assert(prev.at(px, py) == before.at(px, py));
                }
            }
            x += 1;
        }
        assert forall|px: int, py: int|
            0 <= px < cw && 0 <= py < ch implies #[trigger] canvas.at(px, py) == if py < y + 1 {
                composite_px(
                    before.at(px, py),
                    *frame,
                    offset_x as int,
                    offset_y as int,
                    blend,
                    lw as int,
                    lh as int,
                    px,
                    py,
                )
            } else {
                before.at(px, py)
            } by {
            if py == y && px >= x {
                assert(!in_placed_rect(px, py, offset_x as int, offset_y as int, frame.width as int, frame.height as int, lw as int, lh as int));
            }
        }
        y += 1;
    }
    assert forall|px: int, py: int|
        0 <= px < cw && 0 <= py < ch implies #[trigger] canvas.at(px, py) == composite_px(
            before.at(px, py),
            *frame,
            offset_x as int,
            offset_y as int,
            blend,
            lw as int,
            lh as int,
            px,
            py,
        ) by {
        if py >= y {
            assert(!in_placed_rect(px, py, offset_x as int, offset_y as int, frame.width as int, frame.height as int, lw as int, lh as int));
        }
    }
}

/// Clears the `w` by `h` rectangle with its top left at `(offset_x, offset_y)`
/// to transparent, as far as it lies on the canvas's logical size.
pub fn clear_rect(canvas: &mut Canvas, offset_x: usize, offset_y: usize, w: usize, h: usize)
    requires
        old(canvas).wf(),
    ensures
        final(canvas).wf(),
        final(canvas).same_shape(old(canvas)),
        forall|x: int, y: int|
            0 <= x < final(canvas).image.width && 0 <= y < final(canvas).image.height
                ==> #[trigger] final(canvas).at(x, y) == cleared_px(
                old(canvas).at(x, y),
                offset_x as int,
                offset_y as int,
                w as int,
                h as int,
                old(canvas).width as int,
                old(canvas).height as int,
                x,
                y,
            ),
{
    let ghost before = *canvas;
    let cw = canvas.image.width;
    let ch = canvas.image.height;
    let lw = canvas.width;
    let lh = canvas.height;
    let x_end = clipped_end(offset_x, w, lw);
    let y_end = clipped_end(offset_y, h, lh);
    let mut y = offset_y;
    while y < y_end
        invariant
            canvas.wf(),
            canvas.same_shape(&before),
            cw == canvas.image.width,
            ch == canvas.image.height,
            lw == canvas.width,
            lh == canvas.height,
            offset_y <= y,
            y_end >= offset_y ==> y <= y_end,
            offset_x >= lw ==> x_end == offset_x,
            offset_x < lw ==> x_end == if offset_x + w <= lw {
                offset_x + w
            } else {
                lw as int
            },
            offset_y >= lh ==> y_end == offset_y,
            offset_y < lh ==> y_end == if offset_y + h <= lh {
                offset_y + h
            } else {
                lh as int
            },
            forall|px: int, py: int|
                0 <= px < cw && 0 <= py < ch ==> #[trigger] canvas.at(px, py) == if py < y {
                    cleared_px(
                        before.at(px, py),
                        offset_x as int,
                        offset_y as int,
                        w as int,
                        h as int,
                        lw as int,
                        lh as int,
                        px,
                        py,
                    )
                } else {
                    before.at(px, py)
                },
        decreases y_end - y,
    {
        let mut x = offset_x;
        while x < x_end
            invariant
                canvas.wf(),
                canvas.same_shape(&before),
                cw == canvas.image.width,
                ch == canvas.image.height,
                lw == canvas.width,
                lh == canvas.height,
                    offset_y <= y < y_end,
                y_end <= lh,
                y_end <= offset_y + h,
                offset_x <= x <= x_end,
                offset_x >= lw ==> x_end == offset_x,
                offset_x < lw ==> x_end == if offset_x + w <= lw {
                    offset_x + w
                } else {
                    lw as int
                },
                offset_y >= lh ==> y_end == offset_y,
                offset_y < lh ==> y_end == if offset_y + h <= lh {
                    offset_y + h
                } else {
                    lh as int
                },
                forall|px: int, py: int|
                    0 <= px < cw && 0 <= py < ch ==> #[trigger] canvas.at(px, py) == if py < y || (
                    py == y && px < x) {
                        cleared_px(
                            before.at(px, py),
                            offset_x as int,
                            offset_y as int,
                            w as int,
                            h as int,
                            lw as int,
                            lh as int,
                            px,
                            py,
                        )
                    } else {
                        before.at(px, py)
                    },
            decreases x_end - x,
        {
            let xu = x as u32;
            let yu = y as u32;
            assert(lw <= cw && lh <= ch);
            let v = Rgba8 { r: 0, g: 0, b: 0, a: 0 };
            proof {
                assert(canvas.image.pixels@.len() == canvas.image.pixels.len());
                lemma_index_in_bounds(cw as int, ch as int, x as int, y as int);
                assert(0 <= y * cw) by (nonlinear_arith)
                    requires
                        0 <= y,
                        0 <= cw,
                ;
            }
            let idx = yu as usize * cw as usize + xu as usize;
            let ghost prev = *canvas;
            canvas.image.pixels.set(idx, v);
            assert forall|px: int, py: int|
                0 <= px < cw && 0 <= py < ch implies #[trigger] canvas.at(px, py) == if py < y || (
                py == y && px < x + 1) {
                    cleared_px(
                        before.at(px, py),
                        offset_x as int,
                        offset_y as int,
                        w as int,
                        h as int,
                        lw as int,
                        lh as int,
                        px,
                        py,
                    )
                } else {
                    before.at(px, py)
                } by {
                if px != x || py != y {
                    lemma_index_distinct(cw as int, px, py, x as int, y as int);
                    lemma_index_in_bounds(cw as int, ch as int, px, py);
                    assert(canvas.at(px, py) == prev.at(px, py));
                } else {
                    assert(prev.at(px, py) == before.at(px, py));
                }
            }
            x += 1;
        }
        assert forall|px: int, py: int|
            0 <= px < cw && 0 <= py < ch implies #[trigger] canvas.at(px, py) == if py < y + 1 {
                cleared_px(
                    before.at(px, py),
                    offset_x as int,
                    offset_y as int,
                    w as int,
                    h as int,
                    lw as int,
                    lh as int,
                    px,
                    py,
                )
            } else {
                before.at(px, py)
            } by {
            if py == y && px >= x {
                assert(!in_placed_rect(px, py, offset_x as int, offset_y as int, w as int, h as int, lw as int, lh as int));
            }
        }
        y += 1;
    }
    assert forall|px: int, py: int|
        0 <= px < cw && 0 <= py < ch implies #[trigger] canvas.at(px, py) == cleared_px(
            before.at(px, py),
            offset_x as int,
            offset_y as int,
            w as int,
            h as int,
            lw as int,
            lh as int,
            px,
            py,
        ) by {
        if py >= y {
            assert(!in_placed_rect(px, py, offset_x as int, offset_y as int, w as int, h as int, lw as int, lh as int));
        }
    }
}


/// A fresh canvas of logical size `width` by `height`, on a raster rounded up to
/// even sides, every pixel `background`.
pub fn new_canvas(width: u32, height: u32, background: Rgba8) -> (r: Canvas)
    requires
        width < u32::MAX,
        height < u32::MAX,
        even_up(width as int) * even_up(height as int) <= usize::MAX,
    ensures
        r.wf(),
        r.width == width,
        r.height == height,
        forall|x: int, y: int|
            0 <= x < r.image.width && 0 <= y < r.image.height ==> #[trigger] r.at(x, y)
                == background,
{
    let ew = if width % 2 == 0 {
        width
    } else {
        width + 1
    };
    let eh = if height % 2 == 0 {
        height
    } else {
        height + 1
    };
    let image = Raster::filled(ew, eh, background);
    proof {
        assert forall|x: int, y: int|
            0 <= x < ew && 0 <= y < eh implies #[trigger] image.at(x, y) == background by {
            lemma_index_in_bounds(ew as int, eh as int, x, y);
        }
    }
    Canvas { width, height, image }
}

/// One frame of the output: the canvas as it stood, and how long it shows.
pub struct ComposedFrame {
    pub raster: Raster,
    pub duration_ms: u64,
}

/// The display time of frame `k`: a lone frame shows for the still-image time,
/// any other for its own duration.
pub open spec fn shown_duration(infos: Seq<FrameInfo>, k: int, static_ms: u64) -> u64 {
    if infos.len() == 1 {
        static_ms
    } else {
        infos[k].duration_ms
    }
}

/// A canvas pixel after frame `k` is shown: frame `k` composited on the canvas
/// as the earlier frames left it.
pub open spec fn shown_px(
    bg: Rgba8,
    lw: int,
    lh: int,
    frames: Seq<Raster>,
    infos: Seq<FrameInfo>,
    k: nat,
    x: int,
    y: int,
) -> Rgba8 {
    composite_px(
        canvas_px(bg, lw, lh, frames, infos, k, x, y),
        frames[k as int],
        infos[k as int].offset_x as int,
        infos[k as int].offset_y as int,
        infos[k as int].blend,
        lw,
        lh,
        x,
        y,
    )
}

/// A canvas pixel before frame `k` is composited: the background, then each
/// earlier frame composited in turn and, where it asks for it, its rectangle
/// cleared after it was shown.
pub open spec fn canvas_px(
    bg: Rgba8,
    lw: int,
    lh: int,
    frames: Seq<Raster>,
    infos: Seq<FrameInfo>,
    k: nat,
    x: int,
    y: int,
) -> Rgba8
    decreases k,
{
    if k == 0 {
        bg
    } else {
        let i = (k - 1) as nat;
        let shown = composite_px(
            canvas_px(bg, lw, lh, frames, infos, i, x, y),
            frames[i as int],
            infos[i as int].offset_x as int,
            infos[i as int].offset_y as int,
            infos[i as int].blend,
            lw,
            lh,
            x,
            y,
        );
        if infos[i as int].dispose_background {
            cleared_px(
                shown,
                infos[i as int].offset_x as int,
                infos[i as int].offset_y as int,
                frames[i as int].width as int,
                frames[i as int].height as int,
                lw,
                lh,
                x,
                y,
            )
        } else {
            shown
        }
    }
}

/// Composites one frame: draws it on the canvas, takes a copy of the canvas as
/// the frame's output, then clears the frame's rectangle where the frame asks
/// for disposal. The copy is made before the clearing, so disposal acts only on
/// the frames that follow. The output shows for the still-image time where the
/// animation has a single frame, else for the frame's own duration.
pub fn compose_step(
    canvas: &mut Canvas,
    frame: &Raster,
    info: &FrameInfo,
    total_frames: usize,
    static_ms: u64,
) -> (r: ComposedFrame)
    requires
        old(canvas).wf(),
        frame.wf(),
    ensures
        final(canvas).wf(),
        final(canvas).same_shape(old(canvas)),
        r.raster.wf(),
        r.raster.width == old(canvas).image.width,
        r.raster.height == old(canvas).image.height,
        r.duration_ms == if total_frames == 1 {
            static_ms
        } else {
            info.duration_ms
        },
        forall|x: int, y: int|
            0 <= x < r.raster.width && 0 <= y < r.raster.height ==> {
                let shown = composite_px(
                    old(canvas).at(x, y),
                    *frame,
                    info.offset_x as int,
                    info.offset_y as int,
                    info.blend,
                    old(canvas).width as int,
                    old(canvas).height as int,
                    x,
                    y,
                );
                &&& #[trigger] r.raster.at(x, y) == shown
                &&& final(canvas).at(x, y) == if info.dispose_background {
                    cleared_px(
                        shown,
                        info.offset_x as int,
                        info.offset_y as int,
                        frame.width as int,
                        frame.height as int,
                        old(canvas).width as int,
                        old(canvas).height as int,
                        x,
                        y,
                    )
                } else {
                    shown
                }
            },
{
    let ghost before = *canvas;
    composite_frame(canvas, frame, info.offset_x, info.offset_y, info.blend);
    let ghost mid = *canvas;
    let raster = canvas.image.snapshot();
    let duration_ms = if total_frames == 1 {
        static_ms
    } else {
        info.duration_ms
    };
    if info.dispose_background {
        clear_rect(canvas, info.offset_x, info.offset_y, frame.width as usize, frame.height as usize);
    }
    assert forall|x: int, y: int|
        0 <= x < raster.width && 0 <= y < raster.height implies #[trigger] raster.at(x, y)
            == mid.at(x, y) && canvas.at(x, y) == if info.dispose_background {
            cleared_px(
                mid.at(x, y),
                info.offset_x as int,
                info.offset_y as int,
                frame.width as int,
                frame.height as int,
                before.width as int,
                before.height as int,
                x,
                y,
            )
        } else {
            mid.at(x, y)
        } by {
        assert(mid.at(x, y) == composite_px(
            before.at(x, y),
            *frame,
            info.offset_x as int,
            info.offset_y as int,
            info.blend,
            before.width as int,
            before.height as int,
            x,
            y,
        ));
    }
    ComposedFrame { raster, duration_ms }
}


/// The progress mark after frame `frame_index` of `total` has been composited,
/// on a scale where compositing runs from 0 to 80: `80 * frame_index / total`,
/// rounded to the nearest integer, halves up.
pub fn compositing_progress(frame_index: usize, total: usize) -> (r: u8)
    requires
        1 <= frame_index <= total,
    ensures
        r == (160 * frame_index + total) / (2 * total),
        r <= 80,
{
    let num: u128 = 160 * frame_index as u128 + total as u128;
    let den: u128 = 2 * total as u128;
    assert(num / den <= 80) by (nonlinear_arith)
        requires
            num == 160 * frame_index + total,
            den == 2 * total,
            1 <= frame_index <= total,
    ;
    (num / den) as u8
}

/// The output frames of a whole animation: the canvas of logical size `width`
/// by `height` starts as `background`, and each frame in turn goes through
/// `compose_step`.
pub fn compose_frames(
    width: u32,
    height: u32,
    background: Rgba8,
    frames: &Vec<Raster>,
    infos: &Vec<FrameInfo>,
    static_ms: u64,
) -> (r: Vec<ComposedFrame>)
    requires
        width < u32::MAX,
        height < u32::MAX,
        even_up(width as int) * even_up(height as int) <= usize::MAX,
        frames@.len() == infos@.len(),
        forall|k: int| 0 <= k < frames@.len() ==> #[trigger] frames@[k].wf(),
    ensures
        r@.len() == frames@.len(),
        forall|k: int|
            0 <= k < r@.len() ==> {
                &&& #[trigger] r@[k].raster.wf()
                &&& r@[k].raster.width == even_up(width as int)
                &&& r@[k].raster.height == even_up(height as int)
                &&& r@[k].duration_ms == shown_duration(infos@, k, static_ms)
                &&& forall|x: int, y: int|
                    0 <= x < r@[k].raster.width && 0 <= y < r@[k].raster.height
                        ==> #[trigger] r@[k].raster.at(x, y) == shown_px(
                        background,
                        width as int,
                        height as int,
                        frames@,
                        infos@,
                        k as nat,
                        x,
                        y,
                    )
            },
{
    let mut canvas = new_canvas(width, height, background);
    let mut out: Vec<ComposedFrame> = Vec::new();
    let total = frames.len();
    let mut k: usize = 0;
    while k < total
        invariant
            total == frames@.len(),
            total == infos@.len(),
            k <= total,
            forall|j: int| 0 <= j < frames@.len() ==> #[trigger] frames@[j].wf(),
            canvas.wf(),
            canvas.width == width,
            canvas.height == height,
            forall|x: int, y: int|
                0 <= x < canvas.image.width && 0 <= y < canvas.image.height ==> #[trigger] canvas.at(
                    x,
                    y,
                ) == canvas_px(background, width as int, height as int, frames@, infos@, k as nat, x, y),
            out@.len() == k,
            forall|j: int|
                0 <= j < k ==> {
                    &&& #[trigger] out@[j].raster.wf()
                    &&& out@[j].raster.width == even_up(width as int)
                    &&& out@[j].raster.height == even_up(height as int)
                    &&& out@[j].duration_ms == shown_duration(infos@, j, static_ms)
                    &&& forall|x: int, y: int|
                        0 <= x < out@[j].raster.width && 0 <= y < out@[j].raster.height
                            ==> #[trigger] out@[j].raster.at(x, y) == shown_px(
                            background,
                            width as int,
                            height as int,
                            frames@,
                            infos@,
                            j as nat,
                            x,
                            y,
                        )
                },
        decreases total - k,
    {
        let ghost before = canvas;
        let step = compose_step(&mut canvas, &frames[k], &infos[k], total, static_ms);
        assert forall|x: int, y: int|
            0 <= x < canvas.image.width && 0 <= y < canvas.image.height implies #[trigger] canvas.at(
                x,
                y,
            ) == canvas_px(
                background,
                width as int,
                height as int,
                frames@,
                infos@,
                (k + 1) as nat,
                x,
                y,
            ) && step.raster.at(x, y) == shown_px(
                background,
                width as int,
                height as int,
                frames@,
                infos@,
                k as nat,
                x,
                y,
            ) by {
            assert(before.at(x, y) == canvas_px(
                background,
                width as int,
                height as int,
                frames@,
                infos@,
                k as nat,
                x,
                y,
            ));
            let shown = composite_px(
                before.at(x, y),
                frames@[k as int],
                infos@[k as int].offset_x as int,
                infos@[k as int].offset_y as int,
                infos@[k as int].blend,
                width as int,
                height as int,
                x,
                y,
            );
            assert(step.raster.at(x, y) == shown);
            assert(canvas.at(x, y) == if infos@[k as int].dispose_background {
                cleared_px(
                    shown,
                    infos@[k as int].offset_x as int,
                    infos@[k as int].offset_y as int,
                    frames@[k as int].width as int,
                    frames@[k as int].height as int,
                    width as int,
                    height as int,
                    x,
                    y,
                )
            } else {
                shown
            });
            assert(((k + 1) as nat - 1) as nat == k as nat);
        }
        let ghost old_out = out@;
        out.push(step);
        assert forall|j: int| 0 <= j < k + 1 implies #[trigger] out@[j].raster.wf() && out@[j].raster.width == even_up(width as int)
            && out@[j].raster.height == even_up(height as int) && out@[j].duration_ms == shown_duration(infos@, j, static_ms)
            && forall|x: int, y: int|
                0 <= x < out@[j].raster.width && 0 <= y < out@[j].raster.height
                    ==> #[trigger] out@[j].raster.at(x, y) == shown_px(
                    background,
                    width as int,
                    height as int,
                    frames@,
                    infos@,
                    j as nat,
                    x,
                    y,
                ) by {
            if j < k {
                assert(out@[j] == old_out[j]);
            }
        }
        k += 1;
    }
    out
}


/// An animation of one frame shows that frame for the still-image time,
/// whatever duration the frame itself gives.
pub proof fn lemma_single_frame_shows_static_time(infos: Seq<FrameInfo>, static_ms: u64)
    requires
        infos.len() == 1,
    ensures
        shown_duration(infos, 0, static_ms) == static_ms,
{
}

/// Without blending, every pixel of the placed rectangle that lies on the
/// canvas becomes the frame's pixel, alpha included.
pub proof fn lemma_overwrite_replaces(
    under: Rgba8,
    frame: Raster,
    ox: int,
    oy: int,
    lw: int,
    lh: int,
    x: int,
    y: int,
)
    requires
        in_placed_rect(x, y, ox, oy, frame.width as int, frame.height as int, lw, lh),
    ensures
        composite_px(under, frame, ox, oy, false, lw, lh, x, y) == frame.at(x - ox, y - oy),
{
}

/// With blending, a frame whose pixels are all opaque never lowers the alpha
/// of any canvas pixel.
pub proof fn lemma_opaque_blend_keeps_alpha(
    under: Rgba8,
    frame: Raster,
    ox: int,
    oy: int,
    lw: int,
    lh: int,
    x: int,
    y: int,
)
    requires
        forall|fx: int, fy: int|
            0 <= fx < frame.width && 0 <= fy < frame.height ==> #[trigger] frame.at(fx, fy).a == 255,
    ensures
        composite_px(under, frame, ox, oy, true, lw, lh, x, y).a >= under.a,
{
    if in_placed_rect(x, y, ox, oy, frame.width as int, frame.height as int, lw, lh) {
        assert(frame.at(x - ox, y - oy).a == 255);
    }
}

/// A frame that asks for disposal leaves, for the frames after it, its placed
/// rectangle (as far as it lies on the canvas) transparent and every other pixel
/// as the frame showed it; what the frame itself showed is not cleared.
pub proof fn lemma_disposal_after_show(
    bg: Rgba8,
    lw: int,
    lh: int,
    frames: Seq<Raster>,
    infos: Seq<FrameInfo>,
    k: nat,
    x: int,
    y: int,
)
    requires
        k < frames.len(),
        frames.len() == infos.len(),
        infos[k as int].dispose_background,
    ensures
        in_placed_rect(
            x,
            y,
            infos[k as int].offset_x as int,
            infos[k as int].offset_y as int,
            frames[k as int].width as int,
            frames[k as int].height as int,
            lw,
            lh,
        ) ==> canvas_px(bg, lw, lh, frames, infos, k + 1, x, y) == transparent(),
        !in_placed_rect(
            x,
            y,
            infos[k as int].offset_x as int,
            infos[k as int].offset_y as int,
            frames[k as int].width as int,
            frames[k as int].height as int,
            lw,
            lh,
        ) ==> canvas_px(bg, lw, lh, frames, infos, k + 1, x, y) == shown_px(
            bg,
            lw,
            lh,
            frames,
            infos,
            k,
            x,
            y,
        ),
{
    assert(((k + 1) as nat - 1) as nat == k);
}

/// A frame that does not ask for disposal leaves the canvas as it showed it.
pub proof fn lemma_no_disposal_keeps_canvas(
    bg: Rgba8,
    lw: int,
    lh: int,
    frames: Seq<Raster>,
    infos: Seq<FrameInfo>,
    k: nat,
    x: int,
    y: int,
)
    requires
        k < frames.len(),
        frames.len() == infos.len(),
        !infos[k as int].dispose_background,
    ensures
        canvas_px(bg, lw, lh, frames, infos, k + 1, x, y) == shown_px(bg, lw, lh, frames, infos, k, x, y),
{
    assert(((k + 1) as nat - 1) as nat == k);
}

} // verus!
