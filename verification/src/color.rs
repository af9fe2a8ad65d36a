//! Packed 8-bit RGBA colours.

use vstd::prelude::*;
use crate::text::{digits, push_digits};

verus! {

/// A colour with four 8-bit channels, packed as `0xRRGGBBAA`.
///
/// Alpha is stored straight, not premultiplied.
#[derive(Copy, Clone, Debug)]
pub struct Color(u32);

/// The word that packs four channels, red in the most significant byte.
pub open spec fn pack(r: u8, g: u8, b: u8, a: u8) -> u32 {
    (r as u32) << 24 | (g as u32) << 16 | (b as u32) << 8 | (a as u32)
}

/// Unpacking undoes packing, channel by channel.
pub proof fn lemma_pack_channels(r: u8, g: u8, b: u8, a: u8)
    ensures
        (pack(r, g, b, a) >> 24) as u8 == r,
        ((pack(r, g, b, a) >> 16) & 0xff) as u8 == g,
        ((pack(r, g, b, a) >> 8) & 0xff) as u8 == b,
        (pack(r, g, b, a) & 0xff) as u8 == a,
{
    assert((((r as u32) << 24 | (g as u32) << 16 | (b as u32) << 8 | (a as u32)) >> 24) as u8 == r)
        by (bit_vector);
    assert(((((r as u32) << 24 | (g as u32) << 16 | (b as u32) << 8 | (a as u32)) >> 16)
        & 0xff) as u8 == g) by (bit_vector);
    assert(((((r as u32) << 24 | (g as u32) << 16 | (b as u32) << 8 | (a as u32)) >> 8)
        & 0xff) as u8 == b) by (bit_vector);
    assert((((r as u32) << 24 | (g as u32) << 16 | (b as u32) << 8 | (a as u32)) & 0xff) as u8
        == a) by (bit_vector);
}

impl Color {
    /// The packed word.
    pub closed spec fn word(self) -> u32 {
        self.0
    }

    /// The red channel.
    pub open spec fn spec_r(self) -> u8 {
        (self.word() >> 24) as u8
    }

    /// The green channel.
    pub open spec fn spec_g(self) -> u8 {
        ((self.word() >> 16) & 0xff) as u8
    }

    /// The blue channel.
    pub open spec fn spec_b(self) -> u8 {
        ((self.word() >> 8) & 0xff) as u8
    }

    /// The alpha channel.
    pub open spec fn spec_a(self) -> u8 {
        (self.word() & 0xff) as u8
    }

    /// The colour with the given channels.
    pub closed spec fn of(r: u8, g: u8, b: u8, a: u8) -> Color {
        Color(pack(r, g, b, a))
    }

    /// The channel that the `k`-th byte of a pixel holds: red, green, blue,
    /// alpha.
    pub open spec fn channel(self, k: int) -> u8 {
        if k == 0 {
            self.spec_r()
        } else if k == 1 {
            self.spec_g()
        } else if k == 2 {
            self.spec_b()
        } else {
            self.spec_a()
        }
    }

    /// The channels of `of` are the ones it was given.
    pub broadcast proof fn lemma_of_channels(r: u8, g: u8, b: u8, a: u8)
        ensures
            (#[trigger] Color::of(r, g, b, a)).word() == pack(r, g, b, a),
            Color::of(r, g, b, a).spec_r() == r,
            Color::of(r, g, b, a).spec_g() == g,
            Color::of(r, g, b, a).spec_b() == b,
            Color::of(r, g, b, a).spec_a() == a,
    {
        lemma_pack_channels(r, g, b, a);
    }

    /// A colour is the one that `of` makes from its channels: two colours
    /// with the same channels are the same colour.
    pub proof fn lemma_channels_make(self)
        ensures
            self == Color::of(self.spec_r(), self.spec_g(), self.spec_b(), self.spec_a()),
    {
        let w = self.0;
        assert(w == (((w >> 24) as u8) as u32) << 24 | ((((w >> 16) & 0xff) as u8) as u32) << 16 | (
        (((w >> 8) & 0xff) as u8) as u32) << 8 | (((w & 0xff) as u8) as u32)) by (bit_vector);
    }

    /// The colour with the given channels.
    pub fn new(r: u8, g: u8, b: u8, a: u8) -> (c: Color)
        ensures
            c == Color::of(r, g, b, a),
            c.spec_r() == r,
            c.spec_g() == g,
            c.spec_b() == b,
            c.spec_a() == a,
    {
        proof {
            lemma_pack_channels(r, g, b, a);
        }
        Color(((r as u32) << 24) | ((g as u32) << 16) | ((b as u32) << 8) | a as u32)
    }

    /// The colour whose channels are the first four bytes of `c`.
    pub fn from(c: &[u8]) -> (color: Color)
        requires
            c.len() >= 4,
        ensures
            color == Color::of(c[0], c[1], c[2], c[3]),
            color.spec_r() == c[0],
            color.spec_g() == c[1],
            color.spec_b() == c[2],
            color.spec_a() == c[3],
    {
        Color::new(c[0], c[1], c[2], c[3])
    }

    /// The red channel.
    pub fn r(&self) -> (v: u8)
        ensures
            v == self.spec_r(),
    {
        (self.0 >> 24) as u8
    }

    /// The green channel.
    pub fn g(&self) -> (v: u8)
        ensures
            v == self.spec_g(),
    {
        ((self.0 >> 16) & 0xff) as u8
    }

    /// The blue channel.
    pub fn b(&self) -> (v: u8)
        ensures
            v == self.spec_b(),
    {
        ((self.0 >> 8) & 0xff) as u8
    }

    /// The alpha channel.
    pub fn a(&self) -> (v: u8)
        ensures
            v == self.spec_a(),
    {
        (self.0 & 0xff) as u8
    }

    /// The packed word of the colour in decimal.
    pub fn to_text(&self) -> (text: String)
        ensures
            text@ == digits(self.word() as nat),
    {
        let mut s: String = String::new();
        push_digits(&mut s, self.0 as u64);
        assert(s@ =~= digits(self.word() as nat));
        s
    }

    /// The colour as a signed word `0xAARRGGBB`.
    pub open spec fn spec_argb(self) -> int {
        let n = self.spec_a() * 0x100_0000 + self.spec_r() * 0x1_0000 + self.spec_g() * 0x100
            + self.spec_b();
        if n >= 0x8000_0000 {
            n - 0x1_0000_0000
        } else {
            n
        }
    }

    /// The colour as a signed word `0xAARRGGBB`: alpha in the most
    /// significant byte, read as a two's complement number.
    pub fn to_argb_i32(&self) -> (v: i32)
        ensures
            v == self.spec_argb(),
    {
        let w: u32 = self.0;
        let a: u32 = w & 0xff;
        let word: u32 = (a << 24) | (w >> 8);
        proof {
            assert(word == ((w & 0xff) as u8) as u32 * 0x100_0000 + ((w >> 24) as u8) as u32
                * 0x1_0000 + (((w >> 16) & 0xff) as u8) as u32 * 0x100 + (((w >> 8) & 0xff) as u8) as u32)
                by (bit_vector)
                requires
                    word == ((w & 0xff) << 24) | (w >> 8),
            ;
        }
        if word >= 0x8000_0000 {
            ((word - 0x8000_0000) as i32) - 0x4000_0000 - 0x4000_0000
        } else {
            word as i32
        }
    }
}

} // verus!
