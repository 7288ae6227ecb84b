//! Colors and the two palette families: a linear gradient between two
//! endpoint colors and a cyclic hue gradient at full saturation and value.
//!
//! Both families are functions of the ratio `t = index / max_iter`, taken
//! exactly: every formula is evaluated in integer arithmetic over the
//! numerator and the denominator, and the one place where a fraction has to
//! become a channel value truncates (it never rounds). The cyclic family
//! wraps its hue modulo a full turn.

use vstd::arithmetic::div_mod::{
    lemma_div_pos_is_pos, lemma_fundamental_div_mod, lemma_mod_bound, lemma_mod_pos_bound,
};
use vstd::arithmetic::mul::{lemma_mul_nonnegative, lemma_mul_upper_bound};
use vstd::prelude::*;

verus! {

/// A color as three channels. At eight bits per channel only the low byte
/// of each is used.
#[derive(Clone, Copy, Debug, PartialEq, Eq, Structural)]
pub struct Color {
    pub r: u16,
    pub g: u16,
    pub b: u16,
}

/// How many bits a channel has.
#[derive(Clone, Copy, Debug, PartialEq, Eq, Structural)]
pub enum Depth {
    Eight,
    Sixteen,
}

impl Depth {
    /// The largest channel value at this depth.
    pub open spec fn spec_full(self) -> int {
        match self {
            Depth::Eight => 255,
            Depth::Sixteen => 65535,
        }
    }

    /// The largest channel value at this depth: 255 or 65535.
    pub fn full(self) -> (full: u16)
        ensures
            full == self.spec_full(),
    {
        match self {
            Depth::Eight => 255,
            Depth::Sixteen => 65535,
        }
    }
}

/// Solid black, the color of points that did not escape in the palettes
/// that this module builds.
pub open spec fn black() -> Color {
    Color { r: 0, g: 0, b: 0 }
}

/// The fraction `numer / denom` of the unit interval as a channel value
/// below or at `full`, truncated.
pub open spec fn scale(numer: int, denom: int, full: int) -> int {
    full * numer / denom
}

/// The channel at `index` of `max_iter` steps on the way from `base` to
/// `target`: `base + (target - base) * index / max_iter`, truncated.
pub open spec fn lerp(base: int, target: int, index: int, max_iter: int) -> int {
    (base * (max_iter - index) + target * index) / max_iter
}

/// The color at `index` of the linear gradient from `base` to `target`.
pub open spec fn linear_color(base: Color, target: Color, index: int, max_iter: int) -> Color {
    Color {
        r: lerp(base.r as int, target.r as int, index, max_iter) as u16,
        g: lerp(base.g as int, target.g as int, index, max_iter) as u16,
        b: lerp(base.b as int, target.b as int, index, max_iter) as u16,
    }
}

/// Where the hue stands within its turn after `cycles` turns over the whole
/// range, as a numerator over `max_iter`: the hue in degrees is
/// `360 * phase / max_iter`.
pub open spec fn phase(index: int, cycles: int, max_iter: int) -> int {
    (index * cycles) % max_iter
}

/// The 60-degree sector, 0 to 5, in which a phase lies.
pub open spec fn sector(phase: int, max_iter: int) -> int {
    6 * phase / max_iter
}

/// The weight of the secondary channel, `1 - |(hue / 60) mod 2 - 1|`, as a
/// numerator over `max_iter`.
pub open spec fn ramp(phase: int, max_iter: int) -> int {
    let r = (6 * phase) % (2 * max_iter);
    if r <= max_iter {
        r
    } else {
        2 * max_iter - r
    }
}

/// The color of a sector of the hue circle, from the full channel value and
/// the value of the secondary channel.
pub open spec fn sector_color(sector: int, full: u16, x: u16) -> Color {
    if sector == 0 {
        Color { r: full, g: x, b: 0 }
    } else if sector == 1 {
        Color { r: x, g: full, b: 0 }
    } else if sector == 2 {
        Color { r: 0, g: full, b: x }
    } else if sector == 3 {
        Color { r: 0, g: x, b: full }
    } else if sector == 4 {
        Color { r: x, g: 0, b: full }
    } else {
        Color { r: full, g: 0, b: x }
    }
}

/// The color at `index` of the cyclic hue gradient with `cycles` turns.
pub open spec fn cyclic_color(index: int, max_iter: int, cycles: int, full: u16) -> Color {
    let p = phase(index, cycles, max_iter);
    sector_color(sector(p, max_iter), full, scale(ramp(p, max_iter), max_iter, full as int) as u16)
}

/// The product of two bounded factors stays below the product of the bounds.
proof fn lemma_product_bound(a: int, b: int, amax: int, bmax: int)
    requires
        0 <= a <= amax,
        0 <= b <= bmax,
    ensures
        0 <= a * b <= amax * bmax,
{
    lemma_mul_nonnegative(a, b);
    lemma_mul_upper_bound(a, amax, b, bmax);
}

/// A truncated fraction of `full` lies between 0 and `full`.
pub proof fn lemma_scale_bound(numer: int, denom: int, full: int)
    requires
        0 <= numer <= denom,
        0 < denom,
        0 <= full,
    ensures
        0 <= scale(numer, denom, full) <= full,
{
    lemma_product_bound(full, numer, full, denom);
    lemma_div_pos_is_pos(full * numer, denom);
    lemma_fundamental_div_mod(full * numer, denom);
    lemma_mod_bound(full * numer, denom);
    let q = full * numer / denom;
    if q > full {
        assert(denom * q >= denom * (full + 1)) by (nonlinear_arith)
            requires
                q >= full + 1,
                denom > 0,
        ;
        assert(denom * (full + 1) == full * denom + denom) by (nonlinear_arith);
    }
}

/// An interpolated channel lies between its two endpoints.
pub proof fn lemma_lerp_bound(base: int, target: int, index: int, max_iter: int)
    requires
        0 <= index <= max_iter,
        0 < max_iter,
        0 <= base,
        0 <= target,
    ensures
        base <= target ==> base <= lerp(base, target, index, max_iter) <= target,
        target <= base ==> target <= lerp(base, target, index, max_iter) <= base,
        index == 0 ==> lerp(base, target, index, max_iter) == base,
        index == max_iter ==> lerp(base, target, index, max_iter) == target,
{
    let n = base * (max_iter - index) + target * index;
    let q = n / max_iter;
    lemma_fundamental_div_mod(n, max_iter);
    lemma_mod_bound(n, max_iter);
    let lo = if base <= target { base } else { target };
    let hi = if base <= target { target } else { base };
    assert(lo * max_iter <= n <= hi * max_iter) by (nonlinear_arith)
        requires
            n == base * (max_iter - index) + target * index,
            0 <= index <= max_iter,
            lo <= base <= hi,
            lo <= target <= hi,
    ;
    assert(lo <= q <= hi) by (nonlinear_arith)
        requires
            n == max_iter * q + n % max_iter,
            0 <= n % max_iter < max_iter,
            lo * max_iter <= n <= hi * max_iter,
            0 < max_iter,
    ;
    if index == 0 {
        assert(n == base * max_iter) by (nonlinear_arith)
            requires
                n == base * (max_iter - index) + target * index,
                index == 0,
        ;
        assert(q == base) by (nonlinear_arith)
            requires
                n == max_iter * q + n % max_iter,
                0 <= n % max_iter < max_iter,
                n == base * max_iter,
        ;
    }
    if index == max_iter {
        assert(n == target * max_iter) by (nonlinear_arith)
            requires
                n == base * (max_iter - index) + target * index,
                index == max_iter,
        ;
        assert(q == target) by (nonlinear_arith)
            requires
                n == max_iter * q + n % max_iter,
                0 <= n % max_iter < max_iter,
                n == target * max_iter,
        ;
    }
}

/// A phase lies in sector 0 to 5 and its ramp between 0 and `max_iter`.
pub proof fn lemma_phase_bounds(index: int, cycles: int, max_iter: int)
    requires
        0 <= index,
        0 <= cycles,
        0 < max_iter,
    ensures
        0 <= phase(index, cycles, max_iter) < max_iter,
        0 <= sector(phase(index, cycles, max_iter), max_iter) <= 5,
        0 <= ramp(phase(index, cycles, max_iter), max_iter) <= max_iter,
{
    lemma_mul_nonnegative(index, cycles);
    lemma_mod_pos_bound(index * cycles, max_iter);
    let p = phase(index, cycles, max_iter);
    lemma_div_pos_is_pos(6 * p, max_iter);
    lemma_fundamental_div_mod(6 * p, max_iter);
    lemma_mod_bound(6 * p, max_iter);
    let s = 6 * p / max_iter;
    if s >= 6 {
        assert(max_iter * s >= max_iter * 6) by (nonlinear_arith)
            requires
                s >= 6,
                max_iter > 0,
        ;
    }
    lemma_mod_pos_bound(6 * p, 2 * max_iter);
}

/// The hue gradient is fully saturated and of full value: in each of its
/// colors one channel is full, another is 0, and the third lies between
/// them. So where the full value is not 0, black is none of its colors.
pub proof fn lemma_cyclic_saturated(index: int, max_iter: int, cycles: int, full: u16)
    requires
        0 <= index,
        0 <= cycles,
        0 < max_iter,
    ensures
        ({
            let c = cyclic_color(index, max_iter, cycles, full);
            &&& c.r == full || c.g == full || c.b == full
            &&& c.r == 0 || c.g == 0 || c.b == 0
            &&& c.r <= full && c.g <= full && c.b <= full
            &&& full > 0 ==> c != black()
        }),
{
    lemma_phase_bounds(index, cycles, max_iter);
    let p = phase(index, cycles, max_iter);
    lemma_scale_bound(ramp(p, max_iter), max_iter, full as int);
}

/// One channel of the linear gradient: `base` at index 0, approaching
/// `target` as `index` approaches `max_iter`.
pub fn lerp_channel(base: u16, target: u16, index: usize, max_iter: usize) -> (channel: u16)
    requires
        index <= max_iter,
        0 < max_iter,
    ensures
        channel == lerp(base as int, target as int, index as int, max_iter as int),
{
    let back: u128 = (max_iter - index) as u128;
    let forth: u128 = index as u128;
    proof {
        lemma_product_bound(base as int, back as int, 0xffff, 0xffff_ffff_ffff_ffff);
        lemma_product_bound(target as int, forth as int, 0xffff, 0xffff_ffff_ffff_ffff);
        lemma_lerp_bound(base as int, target as int, index as int, max_iter as int);
    }
    let weighted: u128 = (base as u128) * back + (target as u128) * forth;
    (weighted / (max_iter as u128)) as u16
}

/// The color of a 60-degree sector of the hue circle at full saturation and
/// value. `hue` is in whole degrees and wraps modulo 360; `x` is the value
/// of the secondary channel, already scaled to the depth.
pub fn hue_color(hue: u32, x: u16, depth: Depth) -> (color: Color)
    requires
        x <= depth.spec_full(),
    ensures
        color == sector_color((hue % 360) as int / 60, depth.spec_full() as u16, x),
        color.r <= depth.spec_full(),
        color.g <= depth.spec_full(),
        color.b <= depth.spec_full(),
{
    let full: u16 = depth.full();
    let wrapped: u32 = hue % 360;
    if wrapped < 60 {
        Color { r: full, g: x, b: 0 }
    } else if wrapped < 120 {
        Color { r: x, g: full, b: 0 }
    } else if wrapped < 180 {
        Color { r: 0, g: full, b: x }
    } else if wrapped < 240 {
        Color { r: 0, g: x, b: full }
    } else if wrapped < 300 {
        Color { r: x, g: 0, b: full }
    } else {
        Color { r: full, g: 0, b: x }
    }
}

/// The color at `index` of the linear gradient from `base` to `target`.
pub fn linear_at(base: Color, target: Color, index: usize, max_iter: usize) -> (color: Color)
    requires
        index <= max_iter,
        0 < max_iter,
    ensures
        color == linear_color(base, target, index as int, max_iter as int),
{
    Color {
        r: lerp_channel(base.r, target.r, index, max_iter),
        g: lerp_channel(base.g, target.g, index, max_iter),
        b: lerp_channel(base.b, target.b, index, max_iter),
    }
}

/// The color at `index` of the cyclic hue gradient that runs `cycles` times
/// round the hue circle over `max_iter` steps.
pub fn cyclic_at(index: usize, max_iter: usize, cycles: u32, depth: Depth) -> (color: Color)
    requires
        0 < max_iter,
    ensures
        color == cyclic_color(
            index as int,
            max_iter as int,
            cycles as int,
            depth.spec_full() as u16,
        ),
{
    let full: u16 = depth.full();
    let m: u128 = max_iter as u128;
    proof {
        lemma_product_bound(index as int, cycles as int, 0xffff_ffff_ffff_ffff, 0xffff_ffff);
        lemma_phase_bounds(index as int, cycles as int, max_iter as int);
    }
    let p: u128 = ((index as u128) * (cycles as u128)) % m;
    let s: u128 = 6 * p / m;
    let r: u128 = (6 * p) % (2 * m);
    let up: u128 = if r <= m { r } else { 2 * m - r };
    proof {
        lemma_product_bound(full as int, up as int, 0xffff, 0xffff_ffff_ffff_ffff);
        lemma_scale_bound(up as int, max_iter as int, full as int);
    }
    let x: u16 = ((full as u128) * up / m) as u16;
    if s == 0 {
        Color { r: full, g: x, b: 0 }
    } else if s == 1 {
        Color { r: x, g: full, b: 0 }
    } else if s == 2 {
        Color { r: 0, g: full, b: x }
    } else if s == 3 {
        Color { r: 0, g: x, b: full }
    } else if s == 4 {
        Color { r: x, g: 0, b: full }
    } else {
        Color { r: full, g: 0, b: x }
    }
}

} // verus!
