use vstd::prelude::*;
use crate::numfmt::{dec_string, spec_dec_chars};

verus! {

/// An RGB color with one byte per channel.
#[derive(Clone, Copy, Debug, PartialEq, Eq, Structural)]
pub struct Color {
    pub r: u8,
    pub g: u8,
    pub b: u8,
}

/// The text form of a color in a plain-text raster file: the three channel
/// values in decimal, separated by single spaces, with a trailing newline.
pub open spec fn spec_ppm_line(c: Color) -> Seq<char> {
    spec_dec_chars(c.r as nat) + seq![' '] + spec_dec_chars(c.g as nat) + seq![' ']
        + spec_dec_chars(c.b as nat) + seq!['\n']
}

impl Color {
    pub fn rgb(r: u8, g: u8, b: u8) -> (c: Color)
        ensures
            c == (Color { r, g, b }),
    {
        Color { r, g, b }
    }

    pub fn black() -> (c: Color)
        ensures
            c == (Color { r: 0, g: 0, b: 0 }),
    {
        Color::rgb(0, 0, 0)
    }

    pub fn white() -> (c: Color)
        ensures
            c == (Color { r: 255, g: 255, b: 255 }),
    {
        Color::rgb(255, 255, 255)
    }

    pub fn grayscale(v: u8) -> (c: Color)
        ensures
            c == (Color { r: v, g: v, b: v }),
    {
        Color::rgb(v, v, v)
    }

    /// A color picked deterministically from a small index, for telling
    /// successive primitives apart without a random-number source.
    pub fn arbitrary(i: usize) -> (c: Color)
        requires
            i <= 100,
        ensures
            c == (Color {
                r: ((i * i * (100 - i)) % 256) as u8,
                g: ((i * i * i) % 256) as u8,
                b: (((200 - i) * (150 - i)) % 256) as u8,
            }),
    {
        proof {
            assert(i * i <= 10000 && i * i * (100 - i) <= 1000000 && i * i * i <= 1000000
                && (200 - i) * (150 - i) <= 30000) by (nonlinear_arith)
                requires
                    i <= 100,
            ;
        }
        Color::rgb(
            ((i * i * (100 - i)) % 256) as u8,
            ((i * i * i) % 256) as u8,
            (((200 - i) * (150 - i)) % 256) as u8,
        )
    }

    /// One line of a plain-text raster file: "r g b\n".
    pub fn fmt_ppm(&self) -> (s: String)
        ensures
            s@ == spec_ppm_line(*self),
    {
        proof {
            reveal_strlit(" ");
            reveal_strlit("\n");
        }
        let mut s = dec_string(self.r as usize);
        s.append(" ");
        let g = dec_string(self.g as usize);
        s.append(g.as_str());
        s.append(" ");
        let b = dec_string(self.b as usize);
        s.append(b.as_str());
        s.append("\n");
        proof {
            assert(s@ =~= spec_ppm_line(*self));
        }
        s
    }
}

/// An integer point in screen space.
#[derive(Clone, Copy, Debug, PartialEq, Eq, Structural)]
pub struct Point {
    pub x: i64,
    pub y: i64,
}

impl Point {
    pub fn xy(x: i64, y: i64) -> (p: Point)
        ensures
            p == (Point { x, y }),
    {
        Point { x, y }
    }
}

} // verus!
