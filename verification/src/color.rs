//! RGB color values for PDF fill and stroke operators.
//!
//! Channels are fixed-point milli-units: 0 is black, 1000 is full
//! intensity, matching the 0.0..1.0 range PDF operators take.
use vstd::prelude::*;
use crate::numfmt::{fx_dec3_of, push_fx3};

verus! {

/// An RGBA color; the alpha channel is carried but not emitted.
#[derive(Clone, Copy)]
pub struct Color {
    pub r: i64,
    pub g: i64,
    pub b: i64,
    pub a: i64,
}

impl Color {
    /// All channels lie in 0..=1000.
    pub open spec fn wf(&self) -> bool {
        &&& 0 <= self.r <= 1000
        &&& 0 <= self.g <= 1000
        &&& 0 <= self.b <= 1000
        &&& 0 <= self.a <= 1000
    }

    /// An opaque color from milli-unit channels.
    pub fn rgb(r: i64, g: i64, b: i64) -> (c: Color)
        requires
            0 <= r <= 1000,
            0 <= g <= 1000,
            0 <= b <= 1000,
        ensures
            c == (Color { r, g, b, a: 1000int as i64 }),
            c.wf(),
    {
        Color { r, g, b, a: 1000 }
    }

    /// A color with explicit alpha, in milli-units.
    pub fn rgba(r: i64, g: i64, b: i64, a: i64) -> (c: Color)
        requires
            0 <= r <= 1000,
            0 <= g <= 1000,
            0 <= b <= 1000,
            0 <= a <= 1000,
        ensures
            c == (Color { r, g, b, a }),
            c.wf(),
    {
        Color { r, g, b, a }
    }

    pub fn black() -> (c: Color)
        ensures
            c == (Color { r: 0int as i64, g: 0int as i64, b: 0int as i64, a: 1000int as i64 }),
            c.wf(),
    {
        Color::rgb(0, 0, 0)
    }

    pub fn white() -> (c: Color)
        ensures
            c == (Color { r: 1000int as i64, g: 1000int as i64, b: 1000int as i64, a: 1000int as i64 }),
            c.wf(),
    {
        Color::rgb(1000, 1000, 1000)
    }

    pub fn red() -> (c: Color)
        ensures
            c == (Color { r: 1000int as i64, g: 0int as i64, b: 0int as i64, a: 1000int as i64 }),
            c.wf(),
    {
        Color::rgb(1000, 0, 0)
    }

    pub fn green() -> (c: Color)
        ensures
            c == (Color { r: 0int as i64, g: 1000int as i64, b: 0int as i64, a: 1000int as i64 }),
            c.wf(),
    {
        Color::rgb(0, 1000, 0)
    }

    pub fn blue() -> (c: Color)
        ensures
            c == (Color { r: 0int as i64, g: 0int as i64, b: 1000int as i64, a: 1000int as i64 }),
            c.wf(),
    {
        Color::rgb(0, 0, 1000)
    }

    /// A gray level, the same value on all channels.
    pub fn gray(intensity: i64) -> (c: Color)
        requires
            0 <= intensity <= 1000,
        ensures
            c == (Color { r: intensity, g: intensity, b: intensity, a: 1000int as i64 }),
            c.wf(),
    {
        Color::rgb(intensity, intensity, intensity)
    }

    /// Append this color's fill operator, `r g b rg`, three decimals each.
    pub fn to_pdf_fill(&self, out: &mut Vec<u8>)
        requires
            self.wf(),
        ensures
            final(out)@ == old(out)@ + fill_op(*self),
    {
        push_fx3(out, self.r);
        out.push(32);
        push_fx3(out, self.g);
        out.push(32);
        push_fx3(out, self.b);
        out.push(32);
        out.push(114);
        out.push(103);
        proof {
            assert(out@ =~= old(out)@ + fill_op(*self));
        }
    }

    /// Append this color's stroke operator, `r g b RG`, three decimals each.
    pub fn to_pdf_stroke(&self, out: &mut Vec<u8>)
        requires
            self.wf(),
        ensures
            final(out)@ == old(out)@ + stroke_op(*self),
    {
        push_fx3(out, self.r);
        out.push(32);
        push_fx3(out, self.g);
        out.push(32);
        push_fx3(out, self.b);
        out.push(32);
        out.push(82);
        out.push(71);
        proof {
            assert(out@ =~= old(out)@ + stroke_op(*self));
        }
    }
}

/// Black, as a spec value.
pub open spec fn spec_black() -> Color {
    Color { r: 0int as i64, g: 0int as i64, b: 0int as i64, a: 1000int as i64 }
}

/// The bytes of `r g b rg`.
pub open spec fn fill_op(c: Color) -> Seq<u8> {
    fx_dec3_of(c.r as int) + seq![32u8] + fx_dec3_of(c.g as int) + seq![32u8] + fx_dec3_of(
        c.b as int,
    ) + seq![32u8, 114, 103]
}

/// The bytes of `r g b RG`.
pub open spec fn stroke_op(c: Color) -> Seq<u8> {
    fx_dec3_of(c.r as int) + seq![32u8] + fx_dec3_of(c.g as int) + seq![32u8] + fx_dec3_of(
        c.b as int,
    ) + seq![32u8, 82, 71]
}

impl Default for Color {
    /// Black, fully opaque.
    fn default() -> (c: Color)
        ensures
            c == (Color { r: 0int as i64, g: 0int as i64, b: 0int as i64, a: 1000int as i64 }),
    {
        Color::black()
    }
}

} // verus!
