//! RGB colors with saturating channel arithmetic.
//!
//! A `Color` is three independent 8-bit channels. Addition saturates at 255;
//! scaling by a fixed-point triple truncates the fractional part and then
//! clamps, mirroring the order in which lighting contributions are folded
//! into a pixel.
use vstd::prelude::*;

verus! {

/// Number of fixed-point fractional steps per unit: scale factors and
/// trigonometric entries are stored as `round(x * FP_ONE)`.
pub const FP_ONE: i64 = 65536;

#[derive(Clone, Copy, Debug, PartialEq, Eq, Structural)]
pub struct Color {
    pub red: u8,
    pub green: u8,
    pub blue: u8,
}

/// Saturating sum of two channels: `a + b`, capped at 255.
pub open spec fn sat_add_channel(a: u8, b: u8) -> u8 {
    if a + b > 255 {
        255u8
    } else {
        (a + b) as u8
    }
}

/// A channel scaled by a fixed-point factor: `(c * k) / FP_ONE`, truncated
/// toward zero, clamped into 0..=255. Negative products floor at 0.
pub open spec fn scale_channel(c: u8, k: i64) -> u8 {
    let p = (c * k) / (FP_ONE as int);
    if p < 0 {
        0u8
    } else if p > 255 {
        255u8
    } else {
        p as u8
    }
}

impl Color {
    pub fn new(red: u8, green: u8, blue: u8) -> (r: Self)
        ensures
            r == (Color { red, green, blue }),
    {
        Self { red, green, blue }
    }

    /// A color with every channel drawn at random.
    pub fn rand() -> Self {
        Self { red: random_channel(), green: random_channel(), blue: random_channel() }
    }

    /// Channel-wise saturating addition.
    pub fn plus(self, rhs: Color) -> (r: Color)
        ensures
            r.red == sat_add_channel(self.red, rhs.red),
            r.green == sat_add_channel(self.green, rhs.green),
            r.blue == sat_add_channel(self.blue, rhs.blue),
    {
        Color {
            red: if self.red as u16 + rhs.red as u16 > 255 {
                255
            } else {
                self.red + rhs.red
            },
            green: if self.green as u16 + rhs.green as u16 > 255 {
                255
            } else {
                self.green + rhs.green
            },
            blue: if self.blue as u16 + rhs.blue as u16 > 255 {
                255
            } else {
                self.blue + rhs.blue
            },
        }
    }

    /// Channel-wise scaling by a fixed-point triple, truncating then clamping.
    pub fn scaled(self, kr: i64, kg: i64, kb: i64) -> (r: Color)
        requires
            -0x1_0000_0000_0000i64 <= kr <= 0x1_0000_0000_0000i64,
            -0x1_0000_0000_0000i64 <= kg <= 0x1_0000_0000_0000i64,
            -0x1_0000_0000_0000i64 <= kb <= 0x1_0000_0000_0000i64,
        ensures
            r.red == scale_channel(self.red, kr),
            r.green == scale_channel(self.green, kg),
            r.blue == scale_channel(self.blue, kb),
    {
        Color {
            red: scale_one(self.red, kr),
            green: scale_one(self.green, kg),
            blue: scale_one(self.blue, kb),
        }
    }
}

/// One channel of `Color::scaled`.
fn scale_one(c: u8, k: i64) -> (r: u8)
    requires
        -0x1_0000_0000_0000i64 <= k <= 0x1_0000_0000_0000i64,
    ensures
        r == scale_channel(c, k),
{
    proof {
        assert((c as int) * (k as int) <= 255 * 0x1_0000_0000_0000int && (c as int) * (k as int)
            >= -255 * 0x1_0000_0000_0000int) by (nonlinear_arith)
            requires
                0 <= c <= 255,
                -0x1_0000_0000_0000i64 <= k <= 0x1_0000_0000_0000i64,
        ;
    }
    clamp_channel(c as i64 * k / FP_ONE)
}

/// Clamp a wide intermediate into a displayable channel.
fn clamp_channel(p: i64) -> (r: u8)
    ensures
        r == (if p < 0 { 0u8 } else if p > 255 { 255u8 } else { p as u8 }),
{
    if p < 0 {
        0
    } else if p > 255 {
        255
    } else {
        p as u8
    }
}

/// Relies on `rand::Rng::gen::<u8>`: an arbitrary channel value; nothing is
/// promised of the result.
#[verifier::external_body]
fn random_channel() -> u8 {
    rand::Rng::gen::<u8>(&mut rand::thread_rng())
}

} // verus!
