//! RGBA colors and their packed encodings.

use vstd::prelude::*;
use vstd::utf8::is_char_boundary;
use vstd::string::StringSliceAdditionalSpecFns;

verus! {

/// An RGBA color with eight bits per channel.
#[derive(Debug, Clone, Copy, PartialEq, Eq, Structural)]
pub struct Color {
    pub r: u8,
    pub g: u8,
    pub b: u8,
    pub a: u8,
}

/// Value of an ASCII hexadecimal digit, if `c` is one.
pub open spec fn hex_digit_value(c: u8) -> Option<u8> {
    if 0x30 <= c <= 0x39 {
        Some((c - 0x30) as u8)
    } else if 0x61 <= c <= 0x66 {
        Some((c - 0x61 + 10) as u8)
    } else if 0x41 <= c <= 0x46 {
        Some((c - 0x41 + 10) as u8)
    } else {
        None
    }
}

/// The channel value that two bytes of a hex code denote: the number they
/// spell in base 16 (an optional leading `+` allowed), or 255 when they spell none.
pub open spec fn hex_pair_value(c0: u8, c1: u8) -> u8 {
    match (hex_digit_value(c0), hex_digit_value(c1)) {
        (Some(h), Some(l)) => (h * 16 + l) as u8,
        _ => if c0 == 0x2b {
            match hex_digit_value(c1) {
                Some(l) => l,
                None => 255,
            }
        } else {
            255
        },
    }
}

/// Number of leading `#` bytes of `b` from position `start` on.
pub open spec fn leading_hashes(b: Seq<u8>, start: int) -> int
    decreases b.len() - start,
{
    if start < 0 || start >= b.len() || b[start] != 0x23 {
        0
    } else {
        1 + leading_hashes(b, start + 1)
    }
}

/// Whether `from_hex` accepts `hex`: after its leading `#`s it has at least six
/// bytes, and the channel slices fall on character boundaries.
pub open spec fn hex_code_accepted(hex: &str) -> bool {
    let b = hex.spec_bytes();
    let k = leading_hashes(b, 0);
    &&& b.len() - k >= 6
    &&& is_char_boundary(b, k + 2)
    &&& is_char_boundary(b, k + 4)
    &&& is_char_boundary(b, k + 6)
}

/// The color that a hex code denotes (`RRGGBB` or `RRGGBBAA`, leading `#`s ignored).
pub open spec fn hex_code_color(b: Seq<u8>) -> Color {
    let k = leading_hashes(b, 0);
    let r = hex_pair_value(b[k], b[k + 1]);
    let g = hex_pair_value(b[k + 2], b[k + 3]);
    let bl = hex_pair_value(b[k + 4], b[k + 5]);
    if b.len() - k == 8 {
        Color { r, g, b: bl, a: hex_pair_value(b[k + 6], b[k + 7]) }
    } else {
        Color { r, g, b: bl, a: 255 }
    }
}

/// The packed value of a color: alpha, red, green, blue from the high byte down
/// when alpha is included, else red, green, blue from the high byte down and a zero low byte.
pub open spec fn packed_color(c: Color, include_alpha: bool) -> u32 {
    if include_alpha {
        (c.a * 0x1000000 + c.r * 0x10000 + c.g * 0x100 + c.b) as u32
    } else {
        (c.r * 0x1000000 + c.g * 0x10000 + c.b * 0x100) as u32
    }
}

/// One channel of the blend `(x * alpha + y * (255 - alpha)) / 255`.
pub open spec fn blend_channel(x: u8, y: u8, alpha: u8) -> u8 {
    ((x * alpha + y * (255 - alpha)) / 255) as u8
}

fn hex_digit(c: u8) -> (r: Option<u8>)
    ensures
        r == hex_digit_value(c),
{
    if 0x30 <= c && c <= 0x39 {
        Some(c - 0x30)
    } else if 0x61 <= c && c <= 0x66 {
        Some(c - 0x61 + 10)
    } else if 0x41 <= c && c <= 0x46 {
        Some(c - 0x41 + 10)
    } else {
        None
    }
}

fn hex_pair(c0: u8, c1: u8) -> (r: u8)
    ensures
        r == hex_pair_value(c0, c1),
{
    match (hex_digit(c0), hex_digit(c1)) {
        (Some(h), Some(l)) => h * 16 + l,
        _ => {
            if c0 == 0x2b {
                match hex_digit(c1) {
                    Some(l) => l,
                    None => 255,
                }
            } else {
                255
            }
        },
    }
}

impl Color {
    /// Creates a color from red, green and blue, fully opaque.
    pub fn new(r: u8, g: u8, b: u8) -> (c: Self)
        ensures
            c == (Color { r, g, b, a: 255 }),
    {
        Color { r, g, b, a: 255 }
    }

    /// Creates a color from all four channels.
    pub fn with_alpha(r: u8, g: u8, b: u8, a: u8) -> (c: Self)
        ensures
            c == (Color { r, g, b, a }),
    {
        Color { r, g, b, a }
    }

    /// Parses `RRGGBB` or `RRGGBBAA`, with any number of leading `#`.
    /// A channel whose two bytes are not a base-16 number becomes 255.
    pub fn from_hex(hex: &str) -> (c: Self)
        requires
            hex_code_accepted(hex),
        ensures
            c == hex_code_color(hex.spec_bytes()),
    {
        let b = hex.as_bytes();
        let mut k: usize = 0;
        while k < b.len() && b[k] == 0x23
            invariant
                0 <= k <= b.len(),
                b@ == hex.spec_bytes(),
                leading_hashes(b@, 0) == k + leading_hashes(b@, k as int),
            decreases b.len() - k,
        {
            k = k + 1;
        }
        proof {
            assert(leading_hashes(b@, k as int) == 0);
        }
        let r = hex_pair(b[k], b[k + 1]);
        let g = hex_pair(b[k + 2], b[k + 3]);
        let bl = hex_pair(b[k + 4], b[k + 5]);
        if b.len() - k == 8 {
            let a = hex_pair(b[k + 6], b[k + 7]);
            Color::with_alpha(r, g, bl, a)
        } else {
            Color::new(r, g, bl)
        }
    }

    /// Packs the color into a `u32` (see [`packed_color`]).
    pub fn to_u32(&self, include_alpha: bool) -> (v: u32)
        ensures
            v == packed_color(*self, include_alpha),
    {
        let r = self.r as u32;
        let g = self.g as u32;
        let b = self.b as u32;
        if include_alpha {
            let a = self.a as u32;
            let v = (a << 24) | (r << 16) | (g << 8) | b;
            assert(v == a * 0x1000000 + r * 0x10000 + g * 0x100 + b) by (bit_vector)
                requires
                    v == (a << 24) | (r << 16) | (g << 8) | b,
                    a < 256,
                    r < 256,
                    g < 256,
                    b < 256,
            ;
            return v;
        }
        let v = (r << 24) | (g << 16) | (b << 8);
        assert(v == r * 0x1000000 + g * 0x10000 + b * 0x100) by (bit_vector)
            requires
                v == (r << 24) | (g << 16) | (b << 8),
                r < 256,
                g < 256,
                b < 256,
        ;
        v
    }

    /// Unpacks red, green and blue from the three high bytes; alpha is 255.
    pub fn from_u32(color: u32) -> (c: Self)
        ensures
            c.r == color / 0x1000000,
            c.g == (color / 0x10000) % 0x100,
            c.b == (color / 0x100) % 0x100,
            c.a == 255,
    {
        let r = (color >> 24) & 0xFF;
        let g = (color >> 16) & 0xFF;
        let b = (color >> 8) & 0xFF;
        assert(r == color / 0x1000000 && g == (color / 0x10000) % 0x100 && b == (color / 0x100)
            % 0x100) by (bit_vector)
            requires
                r == (color >> 24) & 0xFF,
                g == (color >> 16) & 0xFF,
                b == (color >> 8) & 0xFF,
        ;
        Self::new(r as u8, g as u8, b as u8)
    }

    /// The same color with its alpha replaced.
    pub fn mix_alpha(&self, alpha: u8) -> (c: Self)
        ensures
            c == (Color { r: self.r, g: self.g, b: self.b, a: alpha }),
    {
        Self::with_alpha(self.r, self.g, self.b, alpha)
    }

    /// Blends this color over `other` with weight `alpha / 255`; the result's alpha is `alpha`.
    pub fn mix(&self, other: &Color, alpha: u8) -> (c: Self)
        ensures
            c.r == blend_channel(self.r, other.r, alpha),
            c.g == blend_channel(self.g, other.g, alpha),
            c.b == blend_channel(self.b, other.b, alpha),
            c.a == alpha,
    {
        let r = blend(self.r, other.r, alpha);
        let g = blend(self.g, other.g, alpha);
        let b = blend(self.b, other.b, alpha);
        Color { r, g, b, a: alpha }
    }

    /// The complementary opaque color.
    pub fn invert(&self) -> (c: Color)
        ensures
            c == (Color { r: (255 - self.r) as u8, g: (255 - self.g) as u8, b: (255 - self.b) as u8, a: 255 }),
    {
        Color::new(255 - self.r, 255 - self.g, 255 - self.b)
    }
}

pub(crate) fn blend(x: u8, y: u8, alpha: u8) -> (v: u8)
    ensures
        v == blend_channel(x, y, alpha),
{
    let inv = 255 - alpha;
    assert(x as u16 * alpha as u16 <= 255 * 255) by (nonlinear_arith)
        requires
            x <= 255,
            alpha <= 255,
    ;
    assert(y as u16 * inv as u16 <= 255 * (255 - alpha)) by (nonlinear_arith)
        requires
            y <= 255,
            inv == 255 - alpha,
    ;
    assert(x as u16 * alpha as u16 + y as u16 * inv as u16 <= 255 * 255) by (nonlinear_arith)
        requires
            x <= 255,
            y <= 255,
            alpha <= 255,
            inv == 255 - alpha,
    ;
    let s = x as u16 * alpha as u16 + y as u16 * inv as u16;
    (s / 255) as u8
}

/// Packing a color without alpha and unpacking it gives back its red, green and blue.
pub proof fn lemma_pack_unpack_rgb(c: Color)
    ensures
        packed_color(c, false) / 0x1000000 == c.r,
        (packed_color(c, false) / 0x10000) % 0x100 == c.g,
        (packed_color(c, false) / 0x100) % 0x100 == c.b,
{
    let v = packed_color(c, false);
    assert(v == c.r * 0x1000000 + c.g * 0x10000 + c.b * 0x100);
    let (r, g, b) = (c.r as int, c.g as int, c.b as int);
    assert((r * 0x1000000 + g * 0x10000 + b * 0x100) / 0x1000000 == r) by (nonlinear_arith)
        requires 0 <= r < 256, 0 <= g < 256, 0 <= b < 256;
    assert(((r * 0x1000000 + g * 0x10000 + b * 0x100) / 0x10000) % 0x100 == g) by (nonlinear_arith)
        requires 0 <= r < 256, 0 <= g < 256, 0 <= b < 256;
    assert(((r * 0x1000000 + g * 0x10000 + b * 0x100) / 0x100) % 0x100 == b) by (nonlinear_arith)
        requires 0 <= r < 256, 0 <= g < 256, 0 <= b < 256;
}

/// Inverting twice gives back the red, green and blue of an opaque color unchanged.
pub proof fn lemma_invert_involution(c: Color)
    requires
        c.a == 255,
    ensures
        ({
            let i = Color { r: (255 - c.r) as u8, g: (255 - c.g) as u8, b: (255 - c.b) as u8, a: 255 };
            Color { r: (255 - i.r) as u8, g: (255 - i.g) as u8, b: (255 - i.b) as u8, a: 255 } == c
        }),
{
}

/// A blend with full weight gives the first color's channel; with zero weight, the second's.
pub proof fn lemma_blend_extremes(x: u8, y: u8)
    ensures
        blend_channel(x, y, 255) == x,
        blend_channel(x, y, 0) == y,
{
}

} // verus!
