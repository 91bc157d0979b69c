//! Pixel-space points, row-major grids, and the viewing window that maps
//! a pixel rectangle onto the complex plane.

use vstd::prelude::*;

use crate::complex::Cpx;
use crate::fixed::SCALE_ONE;

verus! {

/// A point in a two-dimensional integer space.
#[derive(Clone, Copy, Debug, PartialEq, Eq, Structural)]
pub struct Point<T> {
    pub x: T,
    pub y: T,
}

impl Point<i64> {
    /// The point `(x, y)`.
    pub fn new(x: i64, y: i64) -> (p: Self)
        ensures
            p == (Point { x, y }),
    {
        Point { x, y }
    }

    /// Componentwise sum.
    pub fn add(&self, point: &Self) -> (r: Self)
        requires
            i64::MIN <= self.x + point.x <= i64::MAX,
            i64::MIN <= self.y + point.y <= i64::MAX,
        ensures
            r.x == self.x + point.x,
            r.y == self.y + point.y,
    {
        Point { x: self.x + point.x, y: self.y + point.y }
    }

    /// Componentwise product with a scalar.
    pub fn mul(&self, scalar: i64) -> (r: Self)
        requires
            i64::MIN <= self.x * scalar <= i64::MAX,
            i64::MIN <= self.y * scalar <= i64::MAX,
        ensures
            r.x == self.x * scalar,
            r.y == self.y * scalar,
    {
        Point { x: self.x * scalar, y: self.y * scalar }
    }
}

impl Point<usize> {
    /// The point `(x, y)`.
    pub fn at(x: usize, y: usize) -> (p: Self)
        ensures
            p == (Point { x, y }),
    {
        Point { x, y }
    }

    /// Index of this point in a row-major buffer of the given row width.
    pub fn row_idx(&self, width: usize) -> (idx: usize)
        requires
            self.y * width + self.x <= usize::MAX,
        ensures
            idx == self.y * width + self.x,
    {
        self.y * width + self.x
    }

    /// Index of this point in a column-major buffer of the given column
    /// height.
    pub fn col_idx(&self, height: usize) -> (idx: usize)
        requires
            self.x * height + self.y <= usize::MAX,
        ensures
            idx == self.x * height + self.y,
    {
        self.x * height + self.y
    }
}

/// A row-major `width` by `height` grid of values: the cell at pixel
/// `(x, y)` sits at index `y * width + x`.
#[derive(Clone, Debug)]
pub struct Coords<T> {
    pub width: usize,
    pub height: usize,
    pub values: Vec<T>,
}

impl<T> Coords<T> {
    /// The grid holds one value per pixel.
    pub open spec fn wf(&self) -> bool {
        self.values@.len() == self.width * self.height
    }

    /// The value at pixel `(x, y)`.
    pub open spec fn at_spec(&self, x: int, y: int) -> T {
        self.values@[y * self.width + x]
    }
}

/// Division by a positive divisor, rounding half away from zero.
pub open spec fn div_round(a: int, b: int) -> int {
    if a >= 0 {
        (2 * a + b) / (2 * b)
    } else {
        -((2 * -a + b) / (2 * b))
    }
}

/// Rounding against a positive divisor lands within half a divisor of the
/// exact quotient: `|div_round(a, b) * b - a|` is at most `b / 2`.
pub proof fn lemma_div_round_error(a: int, b: int)
    requires
        b >= 1,
    ensures
        2 * vstd::math::abs(div_round(a, b) * b - a) <= b,
{
    if a >= 0 {
        lemma_div_round_error_nonneg(a, b);
    } else {
        lemma_div_round_error_nonneg(-a, b);
        let r = (2 * -a + b) / (2 * b);
        assert(div_round(a, b) == -r);
        assert((-r) * b - a == -(r * b - (-a))) by (nonlinear_arith);
    }
}

proof fn lemma_div_round_error_nonneg(a: int, b: int)
    requires
        a >= 0,
        b >= 1,
    ensures
        2 * vstd::math::abs(((2 * a + b) / (2 * b)) * b - a) <= b,
{
    let r = (2 * a + b) / (2 * b);
    vstd::arithmetic::div_mod::lemma_fundamental_div_mod(2 * a + b, 2 * b);
    vstd::arithmetic::div_mod::lemma_mod_bound(2 * a + b, 2 * b);
    let s = (2 * a + b) % (2 * b);
    assert(2 * a + b == 2 * b * r + s);
    assert(2 * (r * b - a) == b - s) by (nonlinear_arith)
        requires
            2 * a + b == 2 * b * r + s,
    ;
}

/// Rounded division of a nonnegative value by a positive divisor never
/// exceeds the value.
pub proof fn lemma_div_round_le(a: int, b: int)
    requires
        a >= 0,
        b >= 1,
    ensures
        0 <= div_round(a, b) <= a,
{
    let q = (2 * a + b) / (2 * b);
    vstd::arithmetic::div_mod::lemma_fundamental_div_mod(2 * a + b, 2 * b);
    vstd::arithmetic::div_mod::lemma_mod_bound(2 * a + b, 2 * b);
    vstd::arithmetic::div_mod::lemma_div_is_ordered(0, 2 * a + b, 2 * b);
    if q > a {
        vstd::arithmetic::mul::lemma_mul_inequality(a + 1, q, 2 * b);
        vstd::arithmetic::mul::lemma_mul_is_commutative(a + 1, 2 * b);
        vstd::arithmetic::mul::lemma_mul_is_commutative(q, 2 * b);
        vstd::arithmetic::mul::lemma_mul_is_distributive_add(2 * b, a, 1);
        vstd::arithmetic::mul::lemma_mul_inequality(1, b, 2 * a);
        vstd::arithmetic::mul::lemma_mul_is_commutative(b, 2 * a);
        assert(2 * b * (a + 1) == 2 * b * a + 2 * b);
        assert(2 * a * b >= 2 * a);
        assert(2 * b * a == 2 * a * b) by (nonlinear_arith);
        assert(false);
    }
}

/// A row-major position below `w * h` has a column below `w` and a row
/// below `h`.
pub proof fn lemma_grid_index(w: int, h: int, k: int)
    requires
        0 < w,
        0 < h,
        0 <= k < w * h,
    ensures
        0 <= k % w < w,
        0 <= k / w < h,
{
    vstd::arithmetic::div_mod::lemma_mod_bound(k, w);
    vstd::arithmetic::div_mod::lemma_fundamental_div_mod(k, w);
    vstd::arithmetic::div_mod::lemma_div_is_ordered(0, k, w);
    if k / w >= h {
        vstd::arithmetic::mul::lemma_mul_inequality(h, k / w, w);
        vstd::arithmetic::mul::lemma_mul_is_commutative(h, w);
        vstd::arithmetic::mul::lemma_mul_is_commutative(k / w, w);
        assert(false);
    }
}

/// The window: a pixel rectangle of `width` by `height` centred on an
/// integer pixel-space point, mapped onto the complex plane by a positive
/// rational scale of `scale_num / scale_den` pixels per unit.
#[derive(Clone, Copy, Debug)]
pub struct Viewbox {
    pub center: Point<i64>,
    pub width: i64,
    pub height: i64,
    pub scale_num: i64,
    pub scale_den: i64,
}

/// Upper bound on window sides, scale terms and centre coordinates, chosen
/// so that every product a window computation forms fits the machine
/// arithmetic with room to spare.
pub const VIEW_LIMIT: i64 = 0x100_0000_0000;

impl Viewbox {
    /// Dimensions are positive and everything is within machine limits.
    pub open spec fn wf(&self) -> bool {
        &&& 0 < self.width <= 65536
        &&& 0 < self.height <= 65536
        &&& 1 <= self.scale_num <= VIEW_LIMIT
        &&& 1 <= self.scale_den <= VIEW_LIMIT
        &&& -VIEW_LIMIT <= self.center.x <= VIEW_LIMIT
        &&& -VIEW_LIMIT <= self.center.y <= VIEW_LIMIT
    }

    /// Pixel column of the leftmost window column.
    pub open spec fn from_x(&self) -> int {
        self.center.x - self.width / 2
    }

    /// Pixel row of the topmost window row.
    pub open spec fn from_y(&self) -> int {
        self.center.y - self.height / 2
    }

    /// The fixed-point complex-plane coordinate of an absolute pixel
    /// column or row `p`: `p / scale`, rounded toward zero and saturated.
    pub open spec fn unscaled_coord(&self, p: int) -> int {
        crate::fixed::sat64(crate::fixed::div_trunc(
            p * (self.scale_den as int) * (SCALE_ONE as int),
            self.scale_num as int,
        ))
    }

    /// The complex coordinate grid of the window: pixel `(x, y)` of the
    /// window (row-major position `y * width + x`) maps to the unscaled
    /// absolute pixel `(from_x + x, from_y + y)`.
    pub open spec fn grid_view(&self) -> Seq<Cpx> {
        Seq::new(
            (self.width * self.height) as nat,
            |k: int|
                Cpx {
                    re: self.unscaled_coord(self.from_x() + k % (self.width as int)) as i64,
                    im: self.unscaled_coord(self.from_y() + k / (self.width as int)) as i64,
                },
        )
    }

    /// A window from its raw parts.
    pub fn new(x: i64, y: i64, w: i64, h: i64, scale_num: i64, scale_den: i64) -> (v: Self)
        ensures
            v == (Viewbox { center: Point { x, y }, width: w, height: h, scale_num, scale_den }),
    {
        Viewbox { center: Point::new(x, y), width: w, height: h, scale_num, scale_den }
    }

    /// The customary start window for a given pixel size: the scale is
    /// chosen from the aspect ratio so the interesting region fills the
    /// window, and the centre sits half a unit left of the origin.
    pub open spec fn initial_window(width: i64, height: i64) -> Viewbox {
        let num: i64 = if 4 * width > 5 * height {
            (5 * height) as i64
        } else {
            width
        };
        let den: i64 = if 4 * width > 5 * height {
            12i64
        } else {
            3i64
        };
        Viewbox {
            center: Point { x: (-div_round(num as int, 2 * (den as int))) as i64, y: 0i64 },
            width,
            height,
            scale_num: num,
            scale_den: den,
        }
    }

    /// Builds the customary start window for a fresh session.
    pub fn initial(width: i64, height: i64) -> (v: Self)
        requires
            0 < width <= 65536,
            0 < height <= 65536,
        ensures
            v.wf(),
            v == Self::initial_window(width, height),
            v.width == width,
            v.height == height,
            4 * width > 5 * height ==> v.scale_num == 5 * height && v.scale_den == 12,
            4 * width <= 5 * height ==> v.scale_num == width && v.scale_den == 3,
            v.center.y == 0,
            v.center.x == -div_round(v.scale_num as int, 2 * (v.scale_den as int)),
    {
        let (scale_num, scale_den): (i64, i64) = if 4 * width > 5 * height {
            (5 * height, 12)
        } else {
            (width, 3)
        };
        let half: i64 = {
            let a = 2 * scale_num;
            let b = 2 * (2 * scale_den);
            (a + (b / 2)) / b
        };
        proof {
            assert(half == div_round(scale_num as int, 2 * (scale_den as int))) by {
                assert(2 * (2 * scale_den) / 2 == 2 * scale_den);
            }
            assert(0 <= half <= scale_num) by {
                lemma_div_round_le(scale_num as int, 2 * (scale_den as int));
            }
        }
        Viewbox {
            center: Point::new(-half, 0),
            width,
            height,
            scale_num,
            scale_den,
        }
    }

    /// Scales both axes' lengths by the rational factor
    /// `f_num / f_den` around the window centre: a factor below one zooms
    /// in, a factor above one zooms out.  The pixel-space centre is
    /// re-rounded so that it stays on the same complex-plane point, up to
    /// half a pixel.
    pub fn zoom(&mut self, f_num: i64, f_den: i64)
        requires
            old(self).wf(),
            1 <= f_num,
            1 <= f_den,
            old(self).scale_num * f_den <= VIEW_LIMIT,
            old(self).scale_den * f_num <= VIEW_LIMIT,
            -VIEW_LIMIT <= div_round(old(self).center.x * f_den, f_num as int) <= VIEW_LIMIT,
            -VIEW_LIMIT <= div_round(old(self).center.y * f_den, f_num as int) <= VIEW_LIMIT,
        ensures
            final(self).wf(),
            final(self).width == old(self).width,
            final(self).height == old(self).height,
            final(self).scale_num == old(self).scale_num * f_den,
            final(self).scale_den == old(self).scale_den * f_num,
            final(self).center.x == div_round(old(self).center.x * f_den, f_num as int),
            final(self).center.y == div_round(old(self).center.y * f_den, f_num as int),
    {
        proof {
            assert(f_den <= VIEW_LIMIT && self.scale_num * f_den >= 1) by (nonlinear_arith)
                requires
                    1 <= self.scale_num,
                    1 <= f_den,
                    self.scale_num * f_den <= VIEW_LIMIT,
            ;
            assert(f_num <= VIEW_LIMIT && self.scale_den * f_num >= 1) by (nonlinear_arith)
                requires
                    1 <= self.scale_den,
                    1 <= f_num,
                    self.scale_den * f_num <= VIEW_LIMIT,
            ;
        }
        let num = self.scale_num * f_den;
        let den = self.scale_den * f_num;
        let cx = Self::round_scaled(self.center.x, f_den, f_num);
        let cy = Self::round_scaled(self.center.y, f_den, f_num);
        self.scale_num = num;
        self.scale_den = den;
        self.center = Point::new(cx, cy);
    }

    /// Computes `div_round(c * m, d)` for bounded inputs.
    fn round_scaled(c: i64, m: i64, d: i64) -> (r: i64)
        requires
            -VIEW_LIMIT <= c <= VIEW_LIMIT,
            1 <= m <= VIEW_LIMIT,
            1 <= d <= VIEW_LIMIT,
            i64::MIN <= div_round(c * m, d as int) <= i64::MAX,
        ensures
            r as int == div_round(c * m, d as int),
    {
        proof {
            assert(-0x1_0000_0000_0000_0000_0000 <= c * m <= 0x1_0000_0000_0000_0000_0000)
                by (nonlinear_arith)
                requires
                    -VIEW_LIMIT <= c <= VIEW_LIMIT,
                    1 <= m <= VIEW_LIMIT,
            ;
        }
        let p: i128 = (c as i128) * (m as i128);
        let b: i128 = d as i128;
        let neg = p < 0;
        let mag: i128 = if neg {
            -p
        } else {
            p
        };
        let q: i128 = (2 * mag + b) / (2 * b);
        proof {
            lemma_div_round_le(mag as int, b as int);
            assert(q as int == div_round(mag as int, b as int));
        }
        let r128: i128 = if neg {
            -q
        } else {
            q
        };
        proof {
            assert(r128 as int == div_round(p as int, d as int));
        }
        r128 as i64
    }
}

/// Walks the absolute pixel coordinates of a window, row by row.
pub struct ViewboxIter {
    pub y: i64,
    pub to_y: i64,
    pub x: i64,
    pub from_x: i64,
    pub to_x: i64,
}

impl ViewboxIter {
    /// The iterator is inside (or just past) its rectangle.
    pub open spec fn wf(&self) -> bool {
        &&& self.from_x <= self.x <= self.to_x
        &&& self.to_x < self.from_x + 65537
        &&& -0x200_0000_0000 <= self.from_x <= self.to_x
        &&& -0x200_0000_0000 <= self.y
        &&& self.to_y <= 0x200_0000_0000
    }

    /// Steps to the next pixel: left to right, then top to bottom, and
    /// reports the pixel the iterator was on.
    pub fn incr(&mut self) -> (current: (i64, i64))
        requires
            old(self).wf(),
            old(self).y <= old(self).to_y,
        ensures
            final(self).wf(),
            current == (old(self).x, old(self).y),
            final(self).from_x == old(self).from_x,
            final(self).to_x == old(self).to_x,
            final(self).to_y == old(self).to_y,
            old(self).x < old(self).to_x ==> final(self).x == old(self).x + 1 && final(self).y
                == old(self).y,
            old(self).x == old(self).to_x ==> final(self).x == old(self).from_x && final(self).y
                == old(self).y + 1,
    {
        let current = (self.x, self.y);
        if self.y <= self.to_y {
            if self.x < self.to_x {
                self.x += 1;
            } else {
                self.y += 1;
                self.x = self.from_x;
            }
        }
        current
    }
}

impl Viewbox {
    /// The iterator over this window's absolute pixel coordinates.
    pub fn into_iter(&self) -> (it: ViewboxIter)
        requires
            self.wf(),
        ensures
            it.wf(),
            it.from_x == self.from_x(),
            it.x == self.from_x(),
            it.to_x == self.from_x() + self.width - 1,
            it.y == self.from_y(),
            it.to_y == self.from_y() + self.height - 1,
    {
        let from_x = self.center.x - (self.width / 2);
        let to_x = from_x + self.width - 1;
        let from_y = self.center.y - (self.height / 2);
        let to_y = from_y + self.height - 1;
        proof {
            assert(self.width / 2 >= 0 && self.width / 2 <= self.width);
            assert(self.height / 2 >= 0 && self.height / 2 <= self.height);
        }
        ViewboxIter { x: from_x, from_x, to_x, y: from_y, to_y }
    }

    /// Collects every pixel coordinate of the window, row-major: entry
    /// `k` is the absolute pixel `(from_x + k % width, from_y + k / width)`.
    pub fn points(&self) -> (ps: Vec<(i64, i64)>)
        requires
            self.wf(),
        ensures
            ps@.len() == self.width * self.height,
            forall|k: int|
                0 <= k < ps@.len() ==> #[trigger] ps@[k] == (
                    (self.from_x() + k % (self.width as int)) as i64,
                    (self.from_y() + k / (self.width as int)) as i64,
                ),
    {
        let mut it = self.into_iter();
        let mut ps: Vec<(i64, i64)> = Vec::new();
        let w = self.width;
        let h = self.height;
        proof {
            assert((w * h) as int <= 65536 * 65536) by (nonlinear_arith)
                requires
                    0 < w <= 65536,
                    0 < h <= 65536,
            ;
        }
        let total: u64 = (w as u64) * (h as u64);
        let mut k: u64 = 0;
        let mut col: u64 = 0;
        let mut row: u64 = 0;
        while k < total
            invariant
                self.wf(),
                total == w * h,
                w == self.width,
                h == self.height,
                total <= 65536 * 65536,
                k <= total,
                0 <= col < w,
                0 <= row,
                k == row * w + col,
                k < total ==> row < h,
                it.wf(),
                it.from_x == self.from_x(),
                it.to_x == self.from_x() + w - 1,
                it.to_y == self.from_y() + h - 1,
                it.x == self.from_x() + col,
                it.y == self.from_y() + row,
                ps@.len() == k,
                forall|q: int|
                    0 <= q < k ==> #[trigger] ps@[q] == (
                        (self.from_x() + q % (self.width as int)) as i64,
                        (self.from_y() + q / (self.width as int)) as i64,
                    ),
            decreases total - k,
        {
            proof {
                vstd::arithmetic::div_mod::lemma_fundamental_div_mod_converse(
                    k as int,
                    w as int,
                    row as int,
                    col as int,
                );
                if row >= h {
                    vstd::arithmetic::mul::lemma_mul_inequality(h as int, row as int, w as int);
                    vstd::arithmetic::mul::lemma_mul_is_commutative(h as int, w as int);
                    vstd::arithmetic::mul::lemma_mul_is_commutative(row as int, w as int);
                    assert(false);
                }
            }
            let p = it.incr();
            ps.push(p);
            k += 1;
            if col + 1 < w as u64 {
                col += 1;
            } else {
                col = 0;
                row += 1;
            }
            proof {
                if col == 0 {
                    vstd::arithmetic::mul::lemma_mul_is_distributive_add_other_way(
                        w as int,
                        row as int - 1,
                        1,
                    );
                }
                vstd::arithmetic::mul::lemma_mul_nonnegative(row as int, w as int);
                if k < total && row >= h {
                    vstd::arithmetic::mul::lemma_mul_inequality(h as int, row as int, w as int);
                    vstd::arithmetic::mul::lemma_mul_is_commutative(h as int, w as int);
                    vstd::arithmetic::mul::lemma_mul_is_commutative(row as int, w as int);
                    assert(false);
                }
            }
        }
        proof {
            assert(k == total);
        }
        ps
    }

    /// Materialises the complex coordinate grid of the window.
    pub fn generate_complex_coordinates(&self) -> (grid: Coords<Cpx>)
        requires
            self.wf(),
        ensures
            grid.wf(),
            grid.width == self.width,
            grid.height == self.height,
            grid.values.deep_view() == self.grid_view(),
    {
        let ps = self.points();
        let ghost n = ps@.len() as int;
        let mut values: Vec<Cpx> = Vec::new();
        let mut k: usize = 0;
        let total = ps.len();
        while k < total
            invariant
                self.wf(),
                total == ps@.len(),
                n == total,
                n == self.width * self.height,
                forall|q: int|
                    0 <= q < n ==> #[trigger] ps@[q] == (
                        (self.from_x() + q % (self.width as int)) as i64,
                        (self.from_y() + q / (self.width as int)) as i64,
                    ),
                k <= total,
                values@.len() == k,
                forall|q: int|
                    0 <= q < k ==> #[trigger] values@[q] == self.grid_view()[q],
            decreases total - k,
        {
            let (px, py) = ps[k];
            proof {
                lemma_grid_index(self.width as int, self.height as int, k as int);
            }
            let re = self.unscale_pixel(px);
            let im = self.unscale_pixel(py);
            values.push(Cpx { re, im });
            k += 1;
        }
        let grid = Coords { width: self.width as usize, height: self.height as usize, values };
        proof {
            crate::threads::vec_deep_facts(&grid.values);
            assert(grid.values.deep_view() =~= self.grid_view());
            assert((self.width as usize) * (self.height as usize) == self.width * self.height);
        }
        grid
    }

    /// The pixel coordinate of a fixed-point complex-plane coordinate:
    /// `coord * scale`, rounded half away from zero and saturated at the
    /// machine range.
    pub open spec fn scaled_px(&self, coord: int) -> int {
        crate::fixed::sat64(
            div_round(coord * self.scale_num, self.scale_den * (SCALE_ONE as int)),
        )
    }

    /// Computes the pixel coordinate of a fixed-point complex-plane
    /// coordinate.
    pub fn scale(&self, coord: i64) -> (r: i64)
        requires
            self.wf(),
            -0x1_0000_0000_0000 <= coord <= 0x1_0000_0000_0000,
        ensures
            r as int == self.scaled_px(coord as int),
    {
        proof {
            let ci = coord as int;
            let m = self.scale_num as int;
            if ci >= 0 {
                vstd::arithmetic::mul::lemma_mul_nonnegative(ci, m);
                vstd::arithmetic::mul::lemma_mul_upper_bound(
                    ci,
                    0x1_0000_0000_0000,
                    m,
                    VIEW_LIMIT as int,
                );
            } else {
                vstd::arithmetic::mul::lemma_mul_nonnegative(-ci, m);
                vstd::arithmetic::mul::lemma_mul_upper_bound(
                    -ci,
                    0x1_0000_0000_0000,
                    m,
                    VIEW_LIMIT as int,
                );
                vstd::arithmetic::mul::lemma_mul_unary_negation(ci, m);
            }
        }
        let p: i128 = (coord as i128) * (self.scale_num as i128);
        let b: i128 = (self.scale_den as i128) * (SCALE_ONE as i128);
        let neg = p < 0;
        let mag: i128 = if neg {
            -p
        } else {
            p
        };
        let q: i128 = (2 * mag + b) / (2 * b);
        proof {
            lemma_div_round_le(mag as int, b as int);
        }
        let r128: i128 = if neg {
            -q
        } else {
            q
        };
        proof {
            assert(r128 as int == div_round(p as int, b as int));
        }
        if r128 > i64::MAX as i128 {
            i64::MAX
        } else if r128 < i64::MIN as i128 {
            i64::MIN
        } else {
            r128 as i64
        }
    }

    /// The fixed-point complex coordinate of an absolute pixel-space
    /// point.
    pub fn unscaled(&self, p: &Point<i64>) -> (r: Cpx)
        requires
            self.wf(),
            -0x200_0000_0000 <= p.x <= 0x200_0000_0000,
            -0x200_0000_0000 <= p.y <= 0x200_0000_0000,
        ensures
            r.re as int == self.unscaled_coord(p.x as int),
            r.im as int == self.unscaled_coord(p.y as int),
    {
        Cpx { re: self.unscale_pixel(p.x), im: self.unscale_pixel(p.y) }
    }

    /// Computes the fixed-point complex coordinate of one absolute pixel
    /// coordinate.
    pub fn unscale_pixel(&self, p: i64) -> (r: i64)
        requires
            self.wf(),
            -0x200_0000_0000 <= p <= 0x200_0000_0000,
        ensures
            r as int == self.unscaled_coord(p as int),
    {
        proof {
            let b1: int = 0x2_0000_0000_0000_0000_0000int;
            let pi = p as int;
            let den = self.scale_den as int;
            if pi >= 0 {
                vstd::arithmetic::mul::lemma_mul_nonnegative(pi, den);
                vstd::arithmetic::mul::lemma_mul_upper_bound(pi, 0x200_0000_0000, den, 0x100_0000_0000);
            } else {
                vstd::arithmetic::mul::lemma_mul_nonnegative(-pi, den);
                vstd::arithmetic::mul::lemma_mul_upper_bound(-pi, 0x200_0000_0000, den, 0x100_0000_0000);
                vstd::arithmetic::mul::lemma_mul_unary_negation(pi, den);
            }
            assert(-b1 <= pi * den <= b1);
        }
        let wide: i128 = (p as i128) * (self.scale_den as i128) * (SCALE_ONE as i128);
        let num: i128 = self.scale_num as i128;
        let neg = wide < 0;
        let mag: i128 = if neg {
            -wide
        } else {
            wide
        };
        let q: i128 = mag / num;
        proof {
            vstd::arithmetic::div_mod::lemma_div_is_ordered(0, mag as int, num as int);
            vstd::arithmetic::div_mod::lemma_div_is_ordered(
                mag as int,
                0x4000_0000_0000_0000_0000_0000_0000_0000,
                num as int,
            );
        }
        let qi: i128 = if neg {
            -q
        } else {
            q
        };
        proof {
            assert(qi as int == crate::fixed::div_trunc(
                (p as int) * self.scale_den * (SCALE_ONE as int),
                self.scale_num as int,
            ));
        }
        if qi > i64::MAX as i128 {
            i64::MAX
        } else if qi < i64::MIN as i128 {
            i64::MIN
        } else {
            qi as i64
        }
    }
}

/// Zooming by a factor and back restores the window.  `num2 / den2` is
/// the scale after `zoom(f_num, f_den)` followed by `zoom(f_den, f_num)`:
/// it equals the scale before, as a ratio — so the axis lengths
/// `width / scale` and `height / scale` are restored exactly.  The
/// pixel-space centre, re-rounded once per zoom, comes back to within half
/// a pixel per rounding: on each axis the drift obeys
/// `2 * f_den * |drift| <= f_num + f_den`.
pub proof fn lemma_zoom_round_trip(v: Viewbox, f_num: int, f_den: int, c1: int, c2: int)
    requires
        v.wf(),
        1 <= f_num,
        1 <= f_den,
        c1 == div_round((v.center.x as int) * f_den, f_num),
        c2 == div_round(c1 * f_num, f_den),
    ensures
        ({
            let num2 = (v.scale_num * f_den) * f_num;
            let den2 = (v.scale_den * f_num) * f_den;
            num2 * v.scale_den == v.scale_num * den2
        }),
        2 * f_den * vstd::math::abs(c2 - v.center.x) <= f_num + f_den,
{
    assert(((v.scale_num * f_den) * f_num) * v.scale_den == v.scale_num * ((v.scale_den * f_num)
        * f_den)) by (nonlinear_arith);
    let c = v.center.x;
    lemma_div_round_error(c * f_den, f_num);
    lemma_div_round_error(c1 * f_num, f_den);
    assert(2 * vstd::math::abs(c1 * f_num - c * f_den) <= f_num);
    assert(2 * vstd::math::abs(c2 * f_den - c1 * f_num) <= f_den);
    assert(vstd::math::abs(c2 * f_den - c * f_den) <= vstd::math::abs(c2 * f_den - c1 * f_num)
        + vstd::math::abs(c1 * f_num - c * f_den));
    assert(c2 * f_den - c * f_den == (c2 - c) * f_den) by (nonlinear_arith);
    assert(vstd::math::abs((c2 - c) * f_den) == vstd::math::abs(c2 - c) * f_den)
        by (nonlinear_arith)
        requires
            f_den >= 1,
    ;
    assert(2 * f_den * vstd::math::abs(c2 - c) == 2 * (vstd::math::abs(c2 - c) * f_den))
        by (nonlinear_arith);
}

} // verus!
