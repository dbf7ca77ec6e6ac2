//! Frames and pixel-neighborhood averaging.
//!
//! A `Frame` is one captured screenshot: a row-major array of RGBA
//! pixels with a known width and height. Capture back ends that deliver
//! BGRA bytes are normalized on construction. The detector samples a
//! frame through `average_color`, whose sampling rectangle is clipped
//! to the frame bounds, so no coordinate can fault.

use vstd::arithmetic::div_mod::lemma_div_is_ordered;
use vstd::arithmetic::div_mod::lemma_div_multiples_vanish;
use vstd::arithmetic::div_mod::lemma_fundamental_div_mod;
use vstd::prelude::*;

use crate::color::Rgba;

verus! {

/// A channel of a color by index: red, green, blue, alpha in that order.
pub open spec fn chan(c: Rgba, i: int) -> int {
    if i == 0 {
        c.r as int
    } else if i == 1 {
        c.g as int
    } else if i == 2 {
        c.b as int
    } else {
        c.a as int
    }
}

/// One captured screenshot: RGBA pixels in row-major order.
pub struct Frame {
    data: Vec<u8>,
    width: u32,
    height: u32,
}

impl Frame {
    /// Width of the frame in pixels.
    pub closed spec fn spec_width(self) -> u32 {
        self.width
    }

    /// Height of the frame in pixels.
    pub closed spec fn spec_height(self) -> u32 {
        self.height
    }

    /// Well-formedness: exactly four bytes for every pixel of the grid.
    pub closed spec fn wf(self) -> bool {
        self.data@.len() == 4 * (self.width as int) * (self.height as int)
    }

    /// The pixel at column `x`, row `y`.
    pub closed spec fn pixel(self, x: int, y: int) -> Rgba {
        Rgba {
            r: self.data@[4 * (y * (self.width as int) + x)],
            g: self.data@[4 * (y * (self.width as int) + x) + 1],
            b: self.data@[4 * (y * (self.width as int) + x) + 2],
            a: self.data@[4 * (y * (self.width as int) + x) + 3],
        }
    }

    /// Sum of channel `i` over the pixels of row `y` with columns in `[x0, x1)`.
    pub open spec fn row_sum(self, y: int, x0: int, x1: int, i: int) -> int
        decreases x1 - x0,
    {
        if x1 <= x0 {
            0
        } else {
            self.row_sum(y, x0, x1 - 1, i) + chan(self.pixel(x1 - 1, y), i)
        }
    }

    /// Sum of channel `i` over the rectangle `[x0, x1) x [y0, y1)`.
    pub open spec fn rect_sum(self, x0: int, x1: int, y0: int, y1: int, i: int) -> int
        decreases y1 - y0,
    {
        if y1 <= y0 {
            0
        } else {
            self.rect_sum(x0, x1, y0, y1 - 1, i) + self.row_sum(y1 - 1, x0, x1, i)
        }
    }

    /// Right edge (exclusive) of the sampling rectangle, clipped to the frame.
    pub open spec fn clip_x(self, x: int, w: int) -> int {
        if x + w < self.spec_width() as int {
            x + w
        } else {
            self.spec_width() as int
        }
    }

    /// Bottom edge (exclusive) of the sampling rectangle, clipped to the frame.
    pub open spec fn clip_y(self, y: int, h: int) -> int {
        if y + h < self.spec_height() as int {
            y + h
        } else {
            self.spec_height() as int
        }
    }

    /// The average color of the rectangle of width `w` and height `h` whose
    /// top-left corner is `(x, y)`, clipped to the frame; opaque black when
    /// the clipped rectangle is empty. Alpha is forced to opaque.
    pub open spec fn averaged(self, x: int, y: int, w: int, h: int) -> Rgba {
        let x1 = self.clip_x(x, w);
        let y1 = self.clip_y(y, h);
        if x < x1 && y < y1 {
            let cnt = (x1 - x) * (y1 - y);
            Rgba {
                r: (self.rect_sum(x, x1, y, y1, 0) / cnt) as u8,
                g: (self.rect_sum(x, x1, y, y1, 1) / cnt) as u8,
                b: (self.rect_sum(x, x1, y, y1, 2) / cnt) as u8,
                a: 255,
            }
        } else {
            Rgba { r: 0, g: 0, b: 0, a: 255 }
        }
    }

    /// Width of the frame in pixels.
    pub fn width(&self) -> (r: u32)
        ensures
            r == self.spec_width(),
    {
        self.width
    }

    /// Height of the frame in pixels.
    pub fn height(&self) -> (r: u32)
        ensures
            r == self.spec_height(),
    {
        self.height
    }

    /// Build a frame from bytes already in RGBA order. Fails exactly when
    /// the buffer holds fewer complete four-byte pixels than the grid
    /// needs; bytes beyond the grid are ignored.
    pub fn from_rgba(width: u32, height: u32, data: Vec<u8>) -> (r: Option<Frame>)
        ensures
            (r is Some) <==> data@.len() / 4 >= (width as int) * (height as int),
            r matches Some(f) ==> f.wf() && f.spec_width() == width && f.spec_height() == height
                && forall|x: int, y: int|
                0 <= x < width && 0 <= y < height ==> f.pixel(x, y) == (Rgba {
                    r: data@[4 * (y * (width as int) + x)],
                    g: data@[4 * (y * (width as int) + x) + 1],
                    b: data@[4 * (y * (width as int) + x) + 2],
                    a: data@[4 * (y * (width as int) + x) + 3],
                }),
    {
        proof {
            assert(4 * (width as int) * (height as int) <= 4 * 0xffff_ffff * 0xffff_ffff
                && (width as int) * (height as int) <= 0xffff_ffff * 0xffff_ffff)
                by (nonlinear_arith)
                requires
                    width as int <= 0xffff_ffff,
                    height as int <= 0xffff_ffff,
            ;
        }
        if (data.len() as u128) / 4 < (width as u128) * (height as u128) {
            return None;
        }
        let ghost orig = data@;
        proof {
            let k = (width as int) * (height as int);
            assert(4 * (width as int) * (height as int) == 4 * k) by (nonlinear_arith)
                requires
                    k == (width as int) * (height as int),
            ;
            lemma_fundamental_div_mod(orig.len() as int, 4);
            assert(orig.len() >= 4 * k);
        }
        let keep_bytes: u128 = 4 * (width as u128) * (height as u128);
        let keep: usize = keep_bytes as usize;
        let mut buf = data;
        buf.truncate(keep);
        let f = Frame { data: buf, width, height };
        proof {
            assert forall|x: int, y: int| 0 <= x < width && 0 <= y < height implies f.pixel(x, y)
                == (Rgba {
                r: orig[4 * (y * (width as int) + x)],
                g: orig[4 * (y * (width as int) + x) + 1],
                b: orig[4 * (y * (width as int) + x) + 2],
                a: orig[4 * (y * (width as int) + x) + 3],
            }) by {
                assert(0 <= y * (width as int) + x < (width as int) * (height as int))
                    by (nonlinear_arith)
                    requires
                        0 <= x < width as int,
                        0 <= y < height as int,
                ;
            }
        }
        Some(f)
    }

    /// Build a frame from bytes in BGRA order, swapping the red and blue
    /// channels of every pixel; alpha is kept. Fails exactly when the
    /// buffer holds fewer complete four-byte pixels than the grid needs;
    /// bytes beyond the grid are ignored.
    pub fn from_bgra(width: u32, height: u32, data: Vec<u8>) -> (r: Option<Frame>)
        ensures
            (r is Some) <==> data@.len() / 4 >= (width as int) * (height as int),
            r matches Some(f) ==> f.wf() && f.spec_width() == width && f.spec_height() == height
                && forall|x: int, y: int|
                0 <= x < width && 0 <= y < height ==> f.pixel(x, y) == (Rgba {
                    r: data@[4 * (y * (width as int) + x) + 2],
                    g: data@[4 * (y * (width as int) + x) + 1],
                    b: data@[4 * (y * (width as int) + x)],
                    a: data@[4 * (y * (width as int) + x) + 3],
                }),
    {
        proof {
            assert(4 * (width as int) * (height as int) <= 4 * 0xffff_ffff * 0xffff_ffff
                && (width as int) * (height as int) <= 0xffff_ffff * 0xffff_ffff)
                by (nonlinear_arith)
                requires
                    width as int <= 0xffff_ffff,
                    height as int <= 0xffff_ffff,
            ;
        }
        if (data.len() as u128) / 4 < (width as u128) * (height as u128) {
            return None;
        }
        let n = data.len();
        proof {
            let k = (width as int) * (height as int);
            assert(4 * (width as int) * (height as int) == 4 * k) by (nonlinear_arith)
                requires
                    k == (width as int) * (height as int),
            ;
            lemma_fundamental_div_mod(n as int, 4);
            assert(n >= 4 * k);
        }
        let px_count: u128 = (width as u128) * (height as u128);
        let pixels: usize = px_count as usize;
        let mut rgba: Vec<u8> = Vec::new();
        let mut p: usize = 0;
        while p < pixels
            invariant
                p <= pixels,
                4 * pixels <= n,
                n == data@.len(),
                rgba@.len() == 4 * p,
                forall|q: int|
                    0 <= q < p ==> #[trigger] rgba@[4 * q] == data@[4 * q + 2] && rgba@[4 * q + 1]
                        == data@[4 * q + 1] && rgba@[4 * q + 2] == data@[4 * q] && rgba@[4 * q + 3]
                        == data@[4 * q + 3],
            decreases pixels - p,
        {
            let ghost prev = rgba@;
            let base = 4 * p;
            rgba.push(data[base + 2]);
            rgba.push(data[base + 1]);
            rgba.push(data[base]);
            rgba.push(data[base + 3]);
            proof {
                assert forall|q: int|
                    0 <= q < p + 1 implies #[trigger] rgba@[4 * q] == data@[4 * q + 2] && rgba@[4
                    * q + 1] == data@[4 * q + 1] && rgba@[4 * q + 2] == data@[4 * q] && rgba@[4 * q
                    + 3] == data@[4 * q + 3] by {
                    if q < p {
                        assert(rgba@[4 * q] == prev[4 * q]);
                        assert(rgba@[4 * q + 1] == prev[4 * q + 1]);
                        assert(rgba@[4 * q + 2] == prev[4 * q + 2]);
                        assert(rgba@[4 * q + 3] == prev[4 * q + 3]);
                    } else {
                        assert(rgba@[4 * q] == data@[4 * q + 2]);
                        assert(rgba@[4 * q + 1] == data@[4 * q + 1]);
                        assert(rgba@[4 * q + 2] == data@[4 * q]);
                        assert(rgba@[4 * q + 3] == data@[4 * q + 3]);
                    }
                }
            }
            p = p + 1;
        }
        let f = Frame { data: rgba, width, height };
        proof {
            assert forall|x: int, y: int| 0 <= x < width && 0 <= y < height implies f.pixel(x, y)
                == (Rgba {
                r: data@[4 * (y * (width as int) + x) + 2],
                g: data@[4 * (y * (width as int) + x) + 1],
                b: data@[4 * (y * (width as int) + x)],
                a: data@[4 * (y * (width as int) + x) + 3],
            }) by {
                assert(0 <= y * (width as int) + x < (width as int) * (height as int))
                    by (nonlinear_arith)
                    requires
                        0 <= x < width as int,
                        0 <= y < height as int,
                ;
            }
        }
        Some(f)
    }

    /// Read one pixel of the frame.
    pub fn get_pixel(&self, x: u32, y: u32) -> (p: Rgba)
        requires
            self.wf(),
            x < self.spec_width(),
            y < self.spec_height(),
        ensures
            p == self.pixel(x as int, y as int),
    {
        let n = self.data.len();
        proof {
            assert(0 <= (y as int) * (self.width as int) + (x as int) && 4 * ((y as int)
                * (self.width as int) + (x as int)) + 3 < 4 * (self.width as int) * (self.height
                as int)) by (nonlinear_arith)
                requires
                    0 <= (x as int) && (x as int) < (self.width as int),
                    0 <= (y as int) && (y as int) < (self.height as int),
            ;
        }
        let base = 4 * ((y as usize) * (self.width as usize) + (x as usize));
        Rgba {
            r: self.data[base],
            g: self.data[base + 1],
            b: self.data[base + 2],
            a: self.data[base + 3],
        }
    }

    /// Average the pixels of the rectangle of width `w` and height `h`
    /// whose top-left corner is `(x, y)`, clipped to the frame bounds;
    /// opaque black when the clipped rectangle is empty.
    #[verifier::loop_isolation(false)]
    pub fn average_color(&self, x: u32, y: u32, w: u32, h: u32) -> (avg: Rgba)
        requires
            self.wf(),
        ensures
            avg == self.averaged(x as int, y as int, w as int, h as int),
    {
        let sx = x as u64;
        let sy = y as u64;
        let tx = x as u64 + w as u64;
        let ty = y as u64 + h as u64;
        let ex = if tx < self.width as u64 {
            tx
        } else {
            self.width as u64
        };
        let ey = if ty < self.height as u64 {
            ty
        } else {
            self.height as u64
        };
        if sx >= ex || sy >= ey {
            return Rgba { r: 0, g: 0, b: 0, a: 255 };
        }
        let mut rs: u128 = 0;
        let mut gs: u128 = 0;
        let mut bs: u128 = 0;
        let mut py: u64 = sy;
        while py < ey
            invariant
                sy <= py <= ey,
                rs == self.rect_sum(sx as int, ex as int, sy as int, py as int, 0),
                gs == self.rect_sum(sx as int, ex as int, sy as int, py as int, 1),
                bs == self.rect_sum(sx as int, ex as int, sy as int, py as int, 2),
            decreases ey - py,
        {
            let mut px: u64 = sx;
            while px < ex
                invariant
                    sx <= px <= ex,
                    sy <= py < ey,
                    rs == self.rect_sum(sx as int, ex as int, sy as int, py as int, 0)
                        + self.row_sum(py as int, sx as int, px as int, 0),
                    gs == self.rect_sum(sx as int, ex as int, sy as int, py as int, 1)
                        + self.row_sum(py as int, sx as int, px as int, 1),
                    bs == self.rect_sum(sx as int, ex as int, sy as int, py as int, 2)
                        + self.row_sum(py as int, sx as int, px as int, 2),
                decreases ex - px,
            {
                let pix = self.get_pixel(px as u32, py as u32);
                proof {
                    lemma_rect_sum_bound(*self, sx as int, ex as int, sy as int, py as int, 0);
                    lemma_rect_sum_bound(*self, sx as int, ex as int, sy as int, py as int, 1);
                    lemma_rect_sum_bound(*self, sx as int, ex as int, sy as int, py as int, 2);
                    lemma_row_sum_bound(*self, py as int, sx as int, px as int, 0);
                    lemma_row_sum_bound(*self, py as int, sx as int, px as int, 1);
                    lemma_row_sum_bound(*self, py as int, sx as int, px as int, 2);
                    assert(255 * ((ex as int) - (sx as int)) * ((py as int) - (sy as int)) <= 255
                        * 0xffff_ffff * 0xffff_ffff) by (nonlinear_arith)
                        requires
                            0 <= (ex as int) - (sx as int) <= 0xffff_ffff,
                            0 <= (py as int) - (sy as int) <= 0xffff_ffff,
                    ;
                }
                rs = rs + pix.r as u128;
                gs = gs + pix.g as u128;
                bs = bs + pix.b as u128;
                px = px + 1;
            }
            py = py + 1;
        }
        let cw: u128 = (ex - sx) as u128;
        let ch: u128 = (ey - sy) as u128;
        proof {
            let a = (ex as int) - (sx as int);
            let b = (ey as int) - (sy as int);
            assert(a * b >= 1 && a * b <= 0xffff_ffff * 0xffff_ffff) by (nonlinear_arith)
                requires
                    1 <= a <= 0xffff_ffff,
                    1 <= b <= 0xffff_ffff,
            ;
        }
        let cnt: u128 = cw * ch;
        proof {
            let a = (ex as int) - (sx as int);
            let b = (ey as int) - (sy as int);
            lemma_rect_sum_bound(*self, sx as int, ex as int, sy as int, ey as int, 0);
            lemma_rect_sum_bound(*self, sx as int, ex as int, sy as int, ey as int, 1);
            lemma_rect_sum_bound(*self, sx as int, ex as int, sy as int, ey as int, 2);
            assert(255 * a * b == (a * b) * 255) by (nonlinear_arith);
            lemma_div_is_ordered(rs as int, (a * b) * 255, a * b);
            lemma_div_is_ordered(gs as int, (a * b) * 255, a * b);
            lemma_div_is_ordered(bs as int, (a * b) * 255, a * b);
            lemma_div_multiples_vanish(255, a * b);
        }
        let r8 = (rs / cnt) as u8;
        let g8 = (gs / cnt) as u8;
        let b8 = (bs / cnt) as u8;
        Rgba { r: r8, g: g8, b: b8, a: 255 }
    }
}

/// Every row sum lies between zero and 255 per pixel of the row.
pub proof fn lemma_row_sum_bound(f: Frame, y: int, x0: int, x1: int, i: int)
    requires
        x0 <= x1,
    ensures
        0 <= f.row_sum(y, x0, x1, i) <= 255 * (x1 - x0),
    decreases x1 - x0,
{
    if x0 < x1 {
        lemma_row_sum_bound(f, y, x0, x1 - 1, i);
    }
}

/// Every rectangle sum lies between zero and 255 per pixel of the rectangle.
pub proof fn lemma_rect_sum_bound(f: Frame, x0: int, x1: int, y0: int, y1: int, i: int)
    requires
        x0 <= x1,
        y0 <= y1,
    ensures
        0 <= f.rect_sum(x0, x1, y0, y1, i) <= 255 * (x1 - x0) * (y1 - y0),
    decreases y1 - y0,
{
    if y0 < y1 {
        lemma_rect_sum_bound(f, x0, x1, y0, y1 - 1, i);
        lemma_row_sum_bound(f, y1 - 1, x0, x1, i);
        assert(255 * (x1 - x0) * (y1 - y0 - 1) + 255 * (x1 - x0) == 255 * (x1 - x0) * (y1 - y0))
            by (nonlinear_arith);
    } else {
        assert(255 * (x1 - x0) * (y1 - y0) == 0) by (nonlinear_arith)
            requires
                y1 == y0,
        ;
    }
}

/// Sum of one channel over a uniformly colored stretch of a row.
pub proof fn lemma_row_sum_uniform(f: Frame, y: int, x0: int, x1: int, i: int, c: Rgba)
    requires
        x0 <= x1,
        forall|px: int| x0 <= px < x1 ==> f.pixel(px, y) == c,
    ensures
        f.row_sum(y, x0, x1, i) == chan(c, i) * (x1 - x0),
    decreases x1 - x0,
{
    if x0 < x1 {
        lemma_row_sum_uniform(f, y, x0, x1 - 1, i, c);
        assert(chan(c, i) * (x1 - 1 - x0) + chan(c, i) == chan(c, i) * (x1 - x0))
            by (nonlinear_arith);
    } else {
        assert(chan(c, i) * (x1 - x0) == 0) by (nonlinear_arith)
            requires
                x1 == x0,
        ;
    }
}

/// Sum of one channel over a uniformly colored rectangle.
pub proof fn lemma_rect_sum_uniform(f: Frame, x0: int, x1: int, y0: int, y1: int, i: int, c: Rgba)
    requires
        x0 <= x1,
        y0 <= y1,
        forall|px: int, py: int| x0 <= px < x1 && y0 <= py < y1 ==> f.pixel(px, py) == c,
    ensures
        f.rect_sum(x0, x1, y0, y1, i) == chan(c, i) * (x1 - x0) * (y1 - y0),
    decreases y1 - y0,
{
    if y0 < y1 {
        lemma_rect_sum_uniform(f, x0, x1, y0, y1 - 1, i, c);
        lemma_row_sum_uniform(f, y1 - 1, x0, x1, i, c);
        assert(chan(c, i) * (x1 - x0) * (y1 - 1 - y0) + chan(c, i) * (x1 - x0) == chan(c, i) * (x1
            - x0) * (y1 - y0)) by (nonlinear_arith);
    } else {
        assert(chan(c, i) * (x1 - x0) * (y1 - y0) == 0) by (nonlinear_arith)
            requires
                y1 == y0,
        ;
    }
}

/// Empty-sample law: a sampling rectangle that starts at or beyond the
/// right or bottom frame edge averages to opaque black.
pub proof fn lemma_average_outside_frame(f: Frame, x: int, y: int, w: int, h: int)
    requires
        0 <= w,
        0 <= h,
        x >= f.spec_width() || y >= f.spec_height(),
    ensures
        f.averaged(x, y, w, h) == (Rgba { r: 0, g: 0, b: 0, a: 255 }),
{
}

/// Constant-fill law: when every pixel of the nonempty clipped sampling
/// window has color `c`, the average is `c` itself with alpha forced opaque.
pub proof fn lemma_average_of_uniform_window(f: Frame, x: int, y: int, w: int, h: int, c: Rgba)
    requires
        x < f.clip_x(x, w),
        y < f.clip_y(y, h),
        forall|px: int, py: int|
            x <= px < f.clip_x(x, w) && y <= py < f.clip_y(y, h) ==> f.pixel(px, py) == c,
    ensures
        f.averaged(x, y, w, h) == (Rgba { r: c.r, g: c.g, b: c.b, a: 255 }),
{
    let x1 = f.clip_x(x, w);
    let y1 = f.clip_y(y, h);
    let cnt = (x1 - x) * (y1 - y);
    assert((x1 - x) * (y1 - y) >= 1) by (nonlinear_arith)
        requires
            x1 - x >= 1,
            y1 - y >= 1,
    ;
    lemma_rect_sum_uniform(f, x, x1, y, y1, 0, c);
    lemma_rect_sum_uniform(f, x, x1, y, y1, 1, c);
    lemma_rect_sum_uniform(f, x, x1, y, y1, 2, c);
    assert forall|i: int| 0 <= i < 3 implies chan(c, i) * (x1 - x) * (y1 - y) == cnt * chan(
        c,
        i,
    ) by {
        assert(chan(c, i) * (x1 - x) * (y1 - y) == ((x1 - x) * (y1 - y)) * chan(c, i))
            by (nonlinear_arith);
    }
    lemma_div_multiples_vanish(chan(c, 0), cnt);
    lemma_div_multiples_vanish(chan(c, 1), cnt);
    lemma_div_multiples_vanish(chan(c, 2), cnt);
}

} // verus!
