//! Image dimensions and the rational factors that scale them.

use vstd::prelude::*;

verus! {

/// A non-negative rational factor `num / den`.
///
/// A zero denominator stands for "no factor": it scales everything to zero
/// and no quantity ever exceeds it.
#[derive(Debug, Clone, Copy, PartialEq, Eq, Structural)]
pub struct Ratio {
    pub num: u32,
    pub den: u32,
}

impl Ratio {
    /// `x` times the factor, rounded down.
    pub open spec fn scaled(self, x: nat) -> nat {
        if self.den == 0 {
            0
        } else {
            (x * self.num as nat) / (self.den as nat)
        }
    }

    /// `x` times the factor, rounded to the nearest whole number, a half
    /// upwards.
    pub open spec fn rounded(self, x: nat) -> nat {
        if self.den == 0 {
            0
        } else {
            (x * self.num as nat + self.den as nat / 2) / (self.den as nat)
        }
    }

    pub fn new(num: u32, den: u32) -> (ratio: Self)
        ensures
            ratio.num == num,
            ratio.den == den,
    {
        Ratio { num, den }
    }

    /// Multiplies `x` by the factor and rounds to the nearest whole number,
    /// a half upwards.
    pub fn scale_nearest(&self, x: u32) -> (y: u64)
        ensures
            y == self.rounded(x as nat),
    {
        if self.den == 0 {
            0
        } else {
            assert(x * self.num <= 0xFFFF_FFFF * 0xFFFF_FFFF) by (nonlinear_arith)
                requires
                    x <= 0xFFFF_FFFF,
                    self.num <= 0xFFFF_FFFF,
            ;
            (x as u64 * self.num as u64 + (self.den / 2) as u64) / (self.den as u64)
        }
    }

    /// Multiplies `x` by the factor and rounds down.
    pub fn scale(&self, x: u32) -> (y: u64)
        ensures
            y == self.scaled(x as nat),
    {
        if self.den == 0 {
            0
        } else {
            assert(x * self.num <= 0xFFFF_FFFF * 0xFFFF_FFFF) by (nonlinear_arith)
                requires
                    x <= 0xFFFF_FFFF,
                    self.num <= 0xFFFF_FFFF,
            ;
            (x as u64 * self.num as u64) / (self.den as u64)
        }
    }
}

/// Rounding goes to the nearest whole number: the rounded value lies no
/// more than one half from the exact one.
pub proof fn lemma_rounded_nearest(ratio: Ratio, x: nat)
    requires
        ratio.den > 0,
    ensures
        2 * (ratio.rounded(x) * ratio.den - x * ratio.num) <= ratio.den,
        2 * (x * ratio.num - ratio.rounded(x) * ratio.den) <= ratio.den,
{
    let den = ratio.den as int;
    let exact = (x * ratio.num) as int;
    let r = (exact + den / 2) / den;
    assert(r * den <= exact + den / 2 < r * den + den) by (nonlinear_arith)
        requires
            r == (exact + den / 2) / den,
            den > 0,
    ;
    assert(ratio.rounded(x) == r);
}

/// Width and height of an image or canvas, in coordinate units.
#[derive(Debug, Clone, Copy, PartialEq, Eq, Structural)]
pub struct ImgDimensions {
    pub width: u32,
    pub height: u32,
}

/// `v`, or the largest `u32` where `v` is beyond it.
pub open spec fn saturated(v: nat) -> u32 {
    if v > u32::MAX {
        u32::MAX
    } else {
        v as u32
    }
}

/// Brings a 64-bit value into 32 bits, saturating.
pub fn saturate(v: u64) -> (r: u32)
    ensures
        r == saturated(v as nat),
{
    if v > u32::MAX as u64 {
        u32::MAX
    } else {
        v as u32
    }
}

impl ImgDimensions {
    pub fn new(width: u32, height: u32) -> (dims: Self)
        ensures
            dims.width == width,
            dims.height == height,
    {
        Self { width, height }
    }

    /// Both sides times `ratio`, each rounded to the nearest whole unit and
    /// saturating at the largest `u32`.
    pub fn scale(&self, ratio: Ratio) -> (dims: Self)
        ensures
            dims.width == saturated(ratio.rounded(self.width as nat)),
            dims.height == saturated(ratio.rounded(self.height as nat)),
    {
        Self {
            width: saturate(ratio.scale_nearest(self.width)),
            height: saturate(ratio.scale_nearest(self.height)),
        }
    }

    /// Whether either side is zero.
    pub fn is_empty(&self) -> (empty: bool)
        ensures
            empty == (self.width == 0 || self.height == 0),
    {
        self.width == 0 || self.height == 0
    }
}

impl From<(u32, u32)> for ImgDimensions {
    fn from(value: (u32, u32)) -> (dims: Self) {
        Self { width: value.0, height: value.1 }
    }
}

impl vstd::std_specs::convert::FromSpecImpl<(u32, u32)> for ImgDimensions {
    open spec fn obeys_from_spec() -> bool {
        true
    }

    open spec fn from_spec(value: (u32, u32)) -> Self {
        ImgDimensions { width: value.0, height: value.1 }
    }
}

} // verus!
