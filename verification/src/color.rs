use vstd::prelude::*;
use crate::fixed::FX_OP_MAX;
use crate::fixed::fx_mul;
use crate::fixed::fx_div;
use crate::fixed::fx_mul_e;
use crate::fixed::fx_div_e;

verus! {

/// Mathematical model of a color: three unbounded integers, each a raw
/// fixed-point channel at scale `SCALE` (so `SCALE` means channel value 1.0).
pub ghost struct C3 {
    pub r: int,
    pub g: int,
    pub b: int,
}

/// An RGB color with fixed-point channels in `[0, SCALE]` for displayable
/// values; arithmetic itself does not clamp.
#[derive(Clone, Copy, Debug, PartialEq, Eq, Structural)]
pub struct Color {
    pub r: i64,
    pub g: i64,
    pub b: i64,
}

impl View for Color {
    type V = C3;

    open spec fn view(&self) -> C3 {
        C3 { r: self.r as int, g: self.g as int, b: self.b as int }
    }
}

/// Every channel fits the bound the fixed-point multiply and divide accept.
pub open spec fn color_in_op_range(c: C3) -> bool {
    &&& -(FX_OP_MAX as int) <= c.r <= FX_OP_MAX as int
    &&& -(FX_OP_MAX as int) <= c.g <= FX_OP_MAX as int
    &&& -(FX_OP_MAX as int) <= c.b <= FX_OP_MAX as int
}

/// Channel-wise sums stay within `i64`.
pub open spec fn color_sum_fits(a: C3, b: C3) -> bool {
    &&& i64::MIN <= a.r + b.r <= i64::MAX
    &&& i64::MIN <= a.g + b.g <= i64::MAX
    &&& i64::MIN <= a.b + b.b <= i64::MAX
}

/// Channel-wise differences stay within `i64`.
pub open spec fn color_diff_fits(a: C3, b: C3) -> bool {
    &&& i64::MIN <= a.r - b.r <= i64::MAX
    &&& i64::MIN <= a.g - b.g <= i64::MAX
    &&& i64::MIN <= a.b - b.b <= i64::MAX
}

impl Color {
    pub fn new(r: i64, g: i64, b: i64) -> (c: Color)
        ensures
            c@ == (C3 { r: r as int, g: g as int, b: b as int }),
    {
        Color { r, g, b }
    }

    pub fn add(self, rhs: Color) -> (c: Color)
        requires
            color_sum_fits(self@, rhs@),
        ensures
            c@ == (C3 { r: self@.r + rhs@.r, g: self@.g + rhs@.g, b: self@.b + rhs@.b }),
    {
        Color { r: self.r + rhs.r, g: self.g + rhs.g, b: self.b + rhs.b }
    }

    pub fn sub(self, rhs: Color) -> (c: Color)
        requires
            color_diff_fits(self@, rhs@),
        ensures
            c@ == (C3 { r: self@.r - rhs@.r, g: self@.g - rhs@.g, b: self@.b - rhs@.b }),
    {
        Color { r: self.r - rhs.r, g: self.g - rhs.g, b: self.b - rhs.b }
    }

    pub fn neg(self) -> (c: Color)
        requires
            self@.r > i64::MIN,
            self@.g > i64::MIN,
            self@.b > i64::MIN,
        ensures
            c@ == (C3 { r: -self@.r, g: -self@.g, b: -self@.b }),
    {
        Color { r: -self.r, g: -self.g, b: -self.b }
    }

    /// Scale every channel by a fixed-point scalar.
    pub fn mul_scalar(self, rhs: i64) -> (c: Color)
        requires
            color_in_op_range(self@),
            -(FX_OP_MAX as int) <= rhs <= FX_OP_MAX as int,
        ensures
            c@ == (C3 {
                r: fx_mul(self@.r, rhs as int),
                g: fx_mul(self@.g, rhs as int),
                b: fx_mul(self@.b, rhs as int),
            }),
    {
        Color { r: fx_mul_e(self.r, rhs), g: fx_mul_e(self.g, rhs), b: fx_mul_e(self.b, rhs) }
    }

    /// Divide every channel by a non-zero fixed-point scalar.
    pub fn div_scalar(self, rhs: i64) -> (c: Color)
        requires
            color_in_op_range(self@),
            rhs != 0,
        ensures
            c@ == (C3 {
                r: fx_div(self@.r, rhs as int),
                g: fx_div(self@.g, rhs as int),
                b: fx_div(self@.b, rhs as int),
            }),
    {
        Color { r: fx_div_e(self.r, rhs), g: fx_div_e(self.g, rhs), b: fx_div_e(self.b, rhs) }
    }
}

impl Default for Color {
    /// Black: every channel zero.
    fn default() -> (c: Color)
        ensures
            c@ == (C3 { r: 0, g: 0, b: 0 }),
    {
        Color { r: 0, g: 0, b: 0 }
    }
}

} // verus!
