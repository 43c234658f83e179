//! Colours with eight bits per channel.
use vstd::prelude::*;

use crate::scalar::{clamp_int, clamped, spec_clamped, Scalar};

verus! {

/// A colour whose red, green and blue are already multiplied by its alpha.
#[derive(Clone, Copy, Debug, PartialEq, Eq, Structural)]
pub struct Color32 {
    pub r: u8,
    pub g: u8,
    pub b: u8,
    pub a: u8,
}

impl Color32 {
    /// An opaque colour.
    pub fn from_rgb(r: u8, g: u8, b: u8) -> (c: Self)
        ensures
            c == (Color32 { r, g, b, a: 255 }),
    {
        Color32 { r, g, b, a: 255 }
    }

    /// A colour given by channels that are already multiplied by `a`.
    pub fn from_rgba_premultiplied(r: u8, g: u8, b: u8, a: u8) -> (c: Self)
        ensures
            c == (Color32 { r, g, b, a }),
    {
        Color32 { r, g, b, a }
    }

    /// A colour given by channels that are not multiplied by `a` yet.
    pub open spec fn spec_unmultiplied(r: u8, g: u8, b: u8, a: u8) -> Self {
        if a == 0 {
            Color32 { r: 0, g: 0, b: 0, a: 0 }
        } else if a == 255 {
            Color32 { r, g, b, a }
        } else {
            Color32 {
                r: scaled_channel(r, a) as u8,
                g: scaled_channel(g, a) as u8,
                b: scaled_channel(b, a) as u8,
                a,
            }
        }
    }

    /// A colour given by channels that are not multiplied by `a` yet.
    pub fn from_rgba_unmultiplied(r: u8, g: u8, b: u8, a: u8) -> (c: Self)
        ensures
            c == Self::spec_unmultiplied(r, g, b, a),
    {
        let (r, g, b, a) = unmultiplied_channels(r, g, b, a);
        Color32 { r, g, b, a }
    }

    /// The colour that hides nothing.
    pub open spec fn spec_transparent() -> Self {
        Color32 { r: 0, g: 0, b: 0, a: 0 }
    }

    /// The colour that hides nothing.
    pub fn transparent() -> (c: Self)
        ensures
            c == Self::spec_transparent(),
    {
        Color32 { r: 0, g: 0, b: 0, a: 0 }
    }

    /// The channels multiplied by alpha and cut to whole numbers; the alpha stays.
    pub open spec fn spec_premultiplied(self) -> Option<Self> {
        let r = self.r * self.a / 255;
        let g = self.g * self.a / 255;
        let b = self.b * self.a / 255;
        if r <= self.a && g <= self.a && b <= self.a {
            Some(Color32 { r: r as u8, g: g as u8, b: b as u8, a: self.a })
        } else {
            None
        }
    }

    /// The pixel of a pixmap for the colour: its channels multiplied by its alpha.
    pub fn premultiplied(self) -> (c: Option<Self>)
        ensures
            c == self.spec_premultiplied(),
    {
        let r = cut_channel(self.r, self.a);
        let g = cut_channel(self.g, self.a);
        let b = cut_channel(self.b, self.a);
        match pixel_channels(r, g, b, self.a) {
            Some((r, g, b, a)) => Some(Color32 { r, g, b, a }),
            None => None,
        }
    }
}

/// A channel times alpha, both as fractions of 255, to the nearest whole number.
pub open spec fn scaled_channel(v: u8, a: u8) -> int {
    let p = v * a + 128;
    (p + p / 256) / 256
}

/// A channel times alpha, both as fractions of 255, without its fraction.
fn cut_channel(v: u8, a: u8) -> (r: u8)
    ensures
        r == v * a / 255,
{
    assert(v * a <= 255 * a) by (nonlinear_arith)
        requires
            v <= 255,
    ;
    let p: u16 = v as u16 * a as u16;
    assert(p / 255 <= 255);
    (p / 255) as u8
}

/// Calls `egui::Color32::from_rgba_unmultiplied`. It is taken to give transparent black for no
/// alpha, the channels as they are for full alpha, and otherwise each channel times alpha to the
/// nearest whole number.
#[verifier::external_body]
fn unmultiplied_channels(r: u8, g: u8, b: u8, a: u8) -> (c: (u8, u8, u8, u8))
    ensures
        (Color32 { r: c.0, g: c.1, b: c.2, a: c.3 }) == Color32::spec_unmultiplied(r, g, b, a),
{
    let c = egui::Color32::from_rgba_unmultiplied(r, g, b, a);
    (c.r(), c.g(), c.b(), c.a())
}

/// Calls `tiny_skia::PremultipliedColorU8::from_rgba`. It is taken to give the four channels back
/// if none of red, green and blue is above alpha, and nothing otherwise.
#[verifier::external_body]
pub(crate) fn pixel_channels(r: u8, g: u8, b: u8, a: u8) -> (c: Option<(u8, u8, u8, u8)>)
    ensures
        c == (if r <= a && g <= a && b <= a {
            Some((r, g, b, a))
        } else {
            None
        }),
{
    let c = tiny_skia::PremultipliedColorU8::from_rgba(r, g, b, a);
    c.map(|p| (p.red(), p.green(), p.blue(), p.alpha()))
}

/// An alpha times an opacity that is held to `0..=1`.
pub open spec fn faded_alpha<S: Scalar>(a: u8, opacity: S) -> u8 {
    clamp_int(
        S::spec_ratio(a as int, 1).spec_times(
            spec_clamped(opacity, S::spec_ratio(0, 1), S::spec_ratio(1, 1)),
        ).spec_rounded().spec_to_int(),
        0,
        255,
    ) as u8
}

/// A colour with its alpha scaled by an opacity.
pub open spec fn faded<S: Scalar>(color: Color32, opacity: S) -> Color32 {
    Color32::spec_unmultiplied(color.r, color.g, color.b, faded_alpha(color.a, opacity))
}

/// A colour with its alpha scaled by an opacity.
pub fn with_opacity<S: Scalar>(color: Color32, opacity: S) -> (c: Color32)
    ensures
        c == faded(color, opacity),
{
    let held = clamped(opacity, S::ratio(0, 1), S::ratio(1, 1));
    let v: i64 = S::of_int(color.a as i64).times(held).rounded().to_i64();
    let a: u8 = if v < 0 {
        0
    } else if v > 255 {
        255
    } else {
        v as u8
    };
    Color32::from_rgba_unmultiplied(color.r, color.g, color.b, a)
}

} // verus!
