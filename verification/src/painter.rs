//! Colouring of escape results.
//!
//! An escape step is mapped to a colour by a [`ColorScale`]; the painter
//! walks a solved state and produces a flat row-major RGB byte buffer,
//! which the embedding program may hand to any image encoder.  All colour
//! arithmetic is exact integer arithmetic over the fraction
//! `i_value / max_i_value`.

use vstd::prelude::*;

use crate::coord::div_round;
use crate::solver::{lemma_row_major_index, MbState, I_UNSET};

verus! {

/// Read access to a solved grid of escape steps.
pub trait IValueGetter<T> {
    /// Pixel width of `t`.
    fn width(&self, t: &T) -> usize;

    /// Pixel height of `t`.
    fn height(&self, t: &T) -> usize;

    /// The escape step of pixel `(x, y)` of `t`, `-1` if it never escaped.
    fn i_value(&self, t: &T, x: usize, y: usize) -> i16;
}

/// The escape step clamped into `0 ..= max`.
pub open spec fn clamped_step(iv: i16, max: i16) -> int {
    if iv < 0 {
        0
    } else if iv > max {
        max as int
    } else {
        iv as int
    }
}

/// A mapping from the escape fraction `iv / max` to an RGB colour.
pub trait ColorScale: Sized {
    /// The colour for escape step `iv` out of `max`.
    spec fn color_spec(&self, iv: i16, max: i16) -> [u8; 3];

    /// Computes the colour for escape step `iv` out of `max`.
    fn get_color(&self, iv: i16, max: i16) -> (rgb: [u8; 3])
        requires
            max >= 1,
        ensures
            rgb == self.color_spec(iv, max),
    ;
}

/// The anchor colours of the rainbow scale, from outermost to innermost.
pub fn rainbow_color(n: usize) -> (rgb: [u8; 3])
    ensures
        rgb == rainbow_color_spec(n as int),
{
    match n {
        0 => [0xbe, 0x0a, 0xff],
        1 => [0x58, 0x0a, 0xff],
        2 => [0x14, 0x7d, 0xf5],
        3 => [0x0a, 0xef, 0xff],
        4 => [0x0a, 0xff, 0x99],
        5 => [0xa1, 0xff, 0x0a],
        6 => [0xde, 0xff, 0x0a],
        7 => [0xff, 0xd3, 0x00],
        8 => [0xff, 0x87, 0x00],
        _ => [0xff, 0x00, 0x00],
    }
}

/// The anchor colour table of the rainbow scale.
pub open spec fn rainbow_color_spec(n: int) -> [u8; 3] {
    if n == 0 {
        [0xbeu8, 0x0au8, 0xffu8]
    } else if n == 1 {
        [0x58u8, 0x0au8, 0xffu8]
    } else if n == 2 {
        [0x14u8, 0x7du8, 0xf5u8]
    } else if n == 3 {
        [0x0au8, 0xefu8, 0xffu8]
    } else if n == 4 {
        [0x0au8, 0xffu8, 0x99u8]
    } else if n == 5 {
        [0xa1u8, 0xffu8, 0x0au8]
    } else if n == 6 {
        [0xdeu8, 0xffu8, 0x0au8]
    } else if n == 7 {
        [0xffu8, 0xd3u8, 0x00u8]
    } else if n == 8 {
        [0xffu8, 0x87u8, 0x00u8]
    } else {
        [0xffu8, 0x00u8, 0x00u8]
    }
}

/// White-to-black greyscale: step zero is white, the maximum is black.
#[derive(Clone, Copy, Debug)]
pub struct Greyscale;

/// The grey level for escape step `iv` out of `max`.
pub open spec fn greyscale_level(iv: i16, max: i16) -> int {
    255 - div_round(255 * clamped_step(iv, max), max as int)
}

impl ColorScale for Greyscale {
    open spec fn color_spec(&self, iv: i16, max: i16) -> [u8; 3] {
        [greyscale_level(iv, max) as u8, greyscale_level(iv, max) as u8, greyscale_level(
            iv,
            max,
        ) as u8]
    }

    fn get_color(&self, iv: i16, max: i16) -> (rgb: [u8; 3]) {
        let step: u32 = if iv < 0 {
            0
        } else if iv > max {
            max as u32
        } else {
            iv as u32
        };
        let num: u32 = 255 * step;
        let den: u32 = max as u32;
        let q: u32 = (2 * num + den) / (2 * den);
        proof {
            crate::coord::lemma_div_round_le(num as int, den as int);
            assert(q == div_round(255 * clamped_step(iv, max), max as int));
            assert(div_round(255 * clamped_step(iv, max), max as int) <= 255) by {
                crate::coord::lemma_div_round_error(255 * clamped_step(iv, max), max as int);
                assert(255 * clamped_step(iv, max) <= 255 * (max as int))
                    by (nonlinear_arith)
                    requires
                        0 <= clamped_step(iv, max) <= max as int,
                ;
                if div_round(255 * clamped_step(iv, max), max as int) > 255 {
                    let dr = div_round(255 * clamped_step(iv, max), max as int);
                    assert(dr * (max as int) >= 256 * (max as int)) by (nonlinear_arith)
                        requires
                            dr >= 256,
                            max as int >= 1,
                    ;
                    assert(2 * vstd::math::abs(dr * (max as int) - 255 * clamped_step(iv, max))
                        <= max as int);
                    assert(false);
                }
            }
        }
        let v: u8 = 255 - (q as u8);
        [v, v, v]
    }
}

/// The rainbow scale: nine anchor colours blended pairwise along the
/// escape fraction.
#[derive(Clone, Copy, Debug)]
pub struct Rainbow;

/// Linear blend of two channel values at fraction `t / max`.
pub open spec fn mix_channel(a: int, b: int, t: int, max: int) -> int {
    div_round(a * (max - t) + b * t, max)
}

/// The rainbow colour for escape step `iv` out of `max`: the fraction
/// `iv / max` is scaled to the nine anchor spans; the colour blends the
/// two anchors around it.
pub open spec fn rainbow_spec(iv: i16, max: i16) -> [u8; 3] {
    let t9 = 9 * clamped_step(iv, max);
    let idx = t9 / (max as int);
    let rem = t9 % (max as int);
    let c1 = rainbow_color_spec(idx);
    let c2 = rainbow_color_spec(idx + 1);
    [
        mix_channel(c1[0] as int, c2[0] as int, rem, max as int) as u8,
        mix_channel(c1[1] as int, c2[1] as int, rem, max as int) as u8,
        mix_channel(c1[2] as int, c2[2] as int, rem, max as int) as u8,
    ]
}

/// Blends one channel; exact integer arithmetic.
fn mix(a: u8, b: u8, t: u32, max: u32) -> (v: u8)
    requires
        1 <= max,
        t < max,
    ensures
        v == mix_channel(a as int, b as int, t as int, max as int),
        mix_channel(a as int, b as int, t as int, max as int) <= 255,
{
    proof {
        vstd::arithmetic::mul::lemma_mul_upper_bound(a as int, 255, (max - t) as int, max as int);
        vstd::arithmetic::mul::lemma_mul_upper_bound(b as int, 255, t as int, max as int);
        vstd::arithmetic::mul::lemma_mul_inequality(a as int, 255, (max - t) as int);
        vstd::arithmetic::mul::lemma_mul_inequality(b as int, 255, t as int);
        vstd::arithmetic::mul::lemma_mul_nonnegative(a as int, (max - t) as int);
        vstd::arithmetic::mul::lemma_mul_nonnegative(b as int, t as int);
        vstd::arithmetic::mul::lemma_mul_is_distributive_sub(255, max as int, t as int);
    }
    let num: u64 = (a as u64) * ((max - t) as u64) + (b as u64) * (t as u64);
    let q: u64 = (2 * num + (max as u64)) / (2 * (max as u64));
    proof {
        crate::coord::lemma_div_round_le(num as int, max as int);
        assert(q == mix_channel(a as int, b as int, t as int, max as int));
        if q > 255 {
            let m = max as int;
            crate::coord::lemma_div_round_error(num as int, m);
            assert((q as int) * m >= 256 * m) by (nonlinear_arith)
                requires
                    q as int >= 256,
                    m >= 1,
            ;
            assert(num as int <= 255 * m);
            assert(2 * vstd::math::abs((q as int) * m - num as int) <= m);
            assert(false);
        }
    }
    q as u8
}

impl ColorScale for Rainbow {
    open spec fn color_spec(&self, iv: i16, max: i16) -> [u8; 3] {
        rainbow_spec(iv, max)
    }

    fn get_color(&self, iv: i16, max: i16) -> (rgb: [u8; 3]) {
        let step: u32 = if iv < 0 {
            0
        } else if iv > max {
            max as u32
        } else {
            iv as u32
        };
        let t9: u32 = 9 * step;
        let m: u32 = max as u32;
        let idx: u32 = t9 / m;
        let rem: u32 = t9 % m;
        proof {
            assert(idx == 9 * clamped_step(iv, max) / (max as int));
            assert(rem == 9 * clamped_step(iv, max) % (max as int));
            vstd::arithmetic::div_mod::lemma_mod_bound(9 * clamped_step(iv, max), max as int);
        }
        let c1 = rainbow_color(idx as usize);
        let c2 = rainbow_color(idx as usize + 1);
        proof {
            assert(c1 == rainbow_color_spec(9 * clamped_step(iv, max) / (max as int)));
            assert(c2 == rainbow_color_spec(9 * clamped_step(iv, max) / (max as int) + 1)) by {
                assert(idx as int + 1 == 9 * clamped_step(iv, max) / (max as int) + 1);
                assert(idx < 0x8000_0000);
            }
        }
        let r = mix(c1[0], c2[0], rem, m);
        let g = mix(c1[1], c2[1], rem, m);
        let b = mix(c1[2], c2[2], rem, m);
        [r, g, b]
    }
}

/// Paints a solved state: unescaped pixels are black, escaped pixels take
/// their scale colour for the fraction `i_value / max_i_value`.
pub struct IValuePainter<C> {
    pub max_i_value: i16,
    pub color: C,
}

/// The three channel bytes of one painted pixel.
pub open spec fn painted_pixel<C: ColorScale>(color: C, max: i16, iv: i16) -> [u8; 3] {
    if iv == I_UNSET {
        [0u8, 0u8, 0u8]
    } else {
        color.color_spec(iv, max)
    }
}

impl<C: ColorScale + Copy> IValuePainter<C> {
    /// A painter with the given scale and the step count painted as the
    /// innermost colour.
    pub fn new(color: C, max_i_value: i16) -> (p: Self)
        ensures
            p.max_i_value == max_i_value,
            p.color == color,
    {
        IValuePainter { color, max_i_value }
    }

    /// The row-major RGB bytes of the whole grid: three bytes per pixel,
    /// pixel `(x, y)` at offset `3 * (y * width + x)`.
    pub fn paint<T: MbState>(&self, t: &T) -> (buf: Vec<u8>)
        requires
            self.max_i_value >= 1,
            t.deep_view().wf(),
        ensures
            buf@.len() == 3 * t.deep_view().width * t.deep_view().height,
            forall|p: int|
                0 <= p < t.deep_view().width * t.deep_view().height ==> #[trigger] buf@[3 * p]
                    == painted_pixel(self.color, self.max_i_value, t.deep_view().cells[p].i)[0]
                    && buf@[3 * p + 1] == painted_pixel(
                    self.color,
                    self.max_i_value,
                    t.deep_view().cells[p].i,
                )[1] && buf@[3 * p + 2] == painted_pixel(
                    self.color,
                    self.max_i_value,
                    t.deep_view().cells[p].i,
                )[2],
    {
        let ghost v = t.deep_view();
        let width = t.width();
        let height = t.height();
        let mut buf: Vec<u8> = Vec::new();
        let mut y: usize = 0;
        while y < height
            invariant
                v == t.deep_view(),
                v.wf(),
                self.max_i_value >= 1,
                width == v.width,
                height == v.height,
                y <= height,
                buf@.len() == 3 * (y * width),
                forall|p: int|
                    0 <= p < y * width ==> #[trigger] buf@[3 * p] == painted_pixel(
                        self.color,
                        self.max_i_value,
                        v.cells[p].i,
                    )[0] && buf@[3 * p + 1] == painted_pixel(
                        self.color,
                        self.max_i_value,
                        v.cells[p].i,
                    )[1] && buf@[3 * p + 2] == painted_pixel(
                        self.color,
                        self.max_i_value,
                        v.cells[p].i,
                    )[2],
            decreases height - y,
        {
            let mut x: usize = 0;
            proof {
                vstd::arithmetic::mul::lemma_mul_nonnegative(y as int, width as int);
                vstd::arithmetic::mul::lemma_mul_is_distributive_add_other_way(
                    width as int,
                    y as int,
                    1,
                );
                vstd::arithmetic::mul::lemma_mul_inequality(y as int + 1, height as int, width as int);
                vstd::arithmetic::mul::lemma_mul_is_commutative(y as int + 1, width as int);
                vstd::arithmetic::mul::lemma_mul_is_commutative(height as int, width as int);
            }
            while x < width
                invariant
                    v == t.deep_view(),
                    v.wf(),
                    self.max_i_value >= 1,
                    width == v.width,
                    height == v.height,
                    y < height,
                    x <= width,
                    0 <= y * width,
                    y * width + width <= v.cells.len(),
                    buf@.len() == 3 * (y * width + x),
                    forall|p: int|
                        0 <= p < y * width + x ==> #[trigger] buf@[3 * p] == painted_pixel(
                            self.color,
                            self.max_i_value,
                            v.cells[p].i,
                        )[0] && buf@[3 * p + 1] == painted_pixel(
                            self.color,
                            self.max_i_value,
                            v.cells[p].i,
                        )[1] && buf@[3 * p + 2] == painted_pixel(
                            self.color,
                            self.max_i_value,
                            v.cells[p].i,
                        )[2],
                decreases width - x,
            {
                let iv = t.i_value(x, y);
                let px: [u8; 3] = if iv == I_UNSET {
                    [0, 0, 0]
                } else {
                    self.color.get_color(iv, self.max_i_value)
                };
                proof {
                    vstd::arithmetic::div_mod::lemma_fundamental_div_mod_converse(
                        (y * width + x) as int,
                        width as int,
                        y as int,
                        x as int,
                    );
                }
                buf.push(px[0]);
                buf.push(px[1]);
                buf.push(px[2]);
                x += 1;
                proof {
                    let p0: int = y * width + x - 1;
                    assert(buf@[3 * p0] == px[0]);
                    assert(buf@[3 * p0 + 1] == px[1]);
                    assert(buf@[3 * p0 + 2] == px[2]);
                    assert(px == painted_pixel(self.color, self.max_i_value, v.cells[p0].i));
                }
            }
            y += 1;
        }
        proof {
            vstd::arithmetic::mul::lemma_mul_is_commutative(height as int, width as int);
            assert(3 * (height as int * width as int) == 3 * v.width * v.height)
                by (nonlinear_arith)
                requires
                    height as int * width as int == v.width * v.height,
            ;
        }
        buf
    }
}

} // verus!
