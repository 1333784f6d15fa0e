use vstd::prelude::*;

verus! {

/// One RGBA pixel, eight bits per channel.
#[derive(Clone, Copy, Debug, PartialEq, Eq, Structural)]
pub struct Color {
    pub r: u8,
    pub g: u8,
    pub b: u8,
    pub a: u8,
}

/// The packed form of four channels: `r` is the most significant byte and
/// `a` the least.
pub open spec fn packed(r: u8, g: u8, b: u8, a: u8) -> u32 {
    (r * 0x100_0000 + g * 0x1_0000 + b * 0x100 + a) as u32
}

/// The pixel that a packed value holds.
pub open spec fn unpacked(value: u32) -> Color {
    Color {
        r: (value / 0x100_0000) as u8,
        g: (value / 0x1_0000 % 0x100) as u8,
        b: (value / 0x100 % 0x100) as u8,
        a: (value % 0x100) as u8,
    }
}

/// Unpacking a packed pixel gives back its four channels.
pub proof fn lemma_unpack_pack(r: u8, g: u8, b: u8, a: u8)
    ensures
        unpacked(packed(r, g, b, a)) == (Color { r, g, b, a }),
{
    let value: u32 = packed(r, g, b, a);
    assert(value / 0x100_0000 == r && value / 0x1_0000 % 0x100 == g && value / 0x100 % 0x100 == b
        && value % 0x100 == a) by (bit_vector)
        requires
            value == (r as u32) * 0x100_0000 + (g as u32) * 0x1_0000 + (b as u32) * 0x100 + (
            a as u32),
    ;
}

/// Packing the channels of an unpacked value gives back the value, for each
/// of the 2^32 values.
pub proof fn lemma_pack_unpack(value: u32)
    ensures
        packed(unpacked(value).r, unpacked(value).g, unpacked(value).b, unpacked(value).a)
            == value,
{
    let r: u8 = unpacked(value).r;
    let g: u8 = unpacked(value).g;
    let b: u8 = unpacked(value).b;
    let a: u8 = unpacked(value).a;
    assert(value / 0x100_0000 < 0x100) by (bit_vector);
    assert(value == (r as u32) * 0x100_0000 + (g as u32) * 0x1_0000 + (b as u32) * 0x100 + (
    a as u32)) by (bit_vector)
        requires
            r == value / 0x100_0000,
            g == value / 0x1_0000 % 0x100,
            b == value / 0x100 % 0x100,
            a == value % 0x100,
    ;
}

impl Color {
    /// The packed form of this pixel.
    pub open spec fn pack(self) -> u32 {
        packed(self.r, self.g, self.b, self.a)
    }

    /// A pixel from its four channels.
    pub fn from_components(r: u8, g: u8, b: u8, a: u8) -> (color: Color)
        ensures
            color == (Color { r, g, b, a }),
    {
        Color { r, g, b, a }
    }

    /// A pixel from its packed form.
    pub fn from_value(color: u32) -> (unpacked_color: Color)
        ensures
            unpacked_color == unpacked(color),
            unpacked_color.pack() == color,
    {
        assert((color >> 24) == color / 0x100_0000 && (color >> 24) < 0x100) by (bit_vector);
        assert(((color >> 16) & 0xff) == color / 0x1_0000 % 0x100) by (bit_vector);
        assert(((color >> 8) & 0xff) == color / 0x100 % 0x100) by (bit_vector);
        assert((color & 0xff) == color % 0x100) by (bit_vector);
        proof {
            lemma_pack_unpack(color);
        }
        Color {
            r: (color >> 24) as u8,
            g: ((color >> 16) & 0xff) as u8,
            b: ((color >> 8) & 0xff) as u8,
            a: (color & 0xff) as u8,
        }
    }

    /// The packed form of four channels.
    pub fn pack_components(r: u8, g: u8, b: u8, a: u8) -> (value: u32)
        ensures
            value == packed(r, g, b, a),
            unpacked(value) == (Color { r, g, b, a }),
    {
        assert(((r as u32) << 24 | (g as u32) << 16 | (b as u32) << 8 | (a as u32)) == (r as u32)
            * 0x100_0000 + (g as u32) * 0x1_0000 + (b as u32) * 0x100 + (a as u32))
            by (bit_vector);
        proof {
            lemma_unpack_pack(r, g, b, a);
        }
        (r as u32) << 24 | (g as u32) << 16 | (b as u32) << 8 | (a as u32)
    }
}

} // verus!
