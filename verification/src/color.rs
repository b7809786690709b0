//! Colours and bytes: a channel byte as the fraction of 255 that it is, a
//! colour from six hexadecimal digits, and the bytes of a colour.

use vstd::prelude::*;
use crate::convert::BYTE_MAX_BITS;
use crate::float3::Color;
use crate::float3::Float3;
use crate::scalar::Scalar;

verus! {

/// The bit pattern of the number nearest to 255.999: the factor by which a
/// channel is scaled before it is cut off to a byte.
pub const CHANNEL_SCALE_BITS: u64 = 0x406f_fff7_ced9_1687;

/// The value of a hexadecimal digit, of either case.
pub open spec fn hex_digit_spec(c: u8) -> Option<u8> {
    if 0x30 <= c <= 0x39 {
        Some((c - 0x30) as u8)
    } else if 0x61 <= c <= 0x66 {
        Some((c - 0x61 + 10) as u8)
    } else if 0x41 <= c <= 0x46 {
        Some((c - 0x41 + 10) as u8)
    } else {
        None
    }
}

/// The byte that two characters spell: two hexadecimal digits, or a plus sign
/// and one digit.
pub open spec fn hex_byte_spec(high: u8, low: u8) -> Option<u8> {
    match hex_digit_spec(low) {
        None => None,
        Some(l) => if high == 0x2b {
            Some(l)
        } else {
            match hex_digit_spec(high) {
                None => None,
                Some(h) => Some((16 * h + l) as u8),
            }
        },
    }
}

/// The three bytes that six characters spell, red first.
pub open spec fn hex_rgb_spec(hex: Seq<u8>) -> Option<(u8, u8, u8)>
    recommends
        hex.len() == 6,
{
    match (hex_byte_spec(hex[0], hex[1]), hex_byte_spec(hex[2], hex[3]), hex_byte_spec(
        hex[4],
        hex[5],
    )) {
        (Some(r), Some(g), Some(b)) => Some((r, g, b)),
        _ => None,
    }
}

/// One channel of a colour: the byte divided by 255, rounded.
pub open spec fn channel_spec(c: u8) -> Scalar {
    Scalar::from_u8(c).div_spec(Scalar { bits: BYTE_MAX_BITS })
}

/// The byte of one channel: the channel clamped into `[0, 1]`, multiplied by
/// 255.999 and cut off.
pub open spec fn byte_spec(x: Scalar) -> u8 {
    Scalar { bits: CHANNEL_SCALE_BITS }.mul_spec(x.saturate_spec()).to_u8_spec()
}

pub fn hex_digit(c: u8) -> (d: Option<u8>)
    ensures
        d == hex_digit_spec(c),
        d matches Some(v) ==> v < 16,
{
    if 0x30 <= c && c <= 0x39 {
        Some(c - 0x30)
    } else if 0x61 <= c && c <= 0x66 {
        Some(c - 0x61 + 10)
    } else if 0x41 <= c && c <= 0x46 {
        Some(c - 0x41 + 10)
    } else {
        None
    }
}

pub fn hex_byte(high: u8, low: u8) -> (byte: Option<u8>)
    ensures
        byte == hex_byte_spec(high, low),
{
    match hex_digit(low) {
        None => None,
        Some(l) => if high == 0x2b {
            Some(l)
        } else {
            match hex_digit(high) {
                None => None,
                Some(h) => Some(16 * h + l),
            }
        },
    }
}

#[verifier::when_used_as_spec(channel_spec)]
pub fn channel(c: u8) -> (s: Scalar)
    ensures
        s == channel_spec(c),
{
    Scalar::from_u8(c) / Scalar { bits: BYTE_MAX_BITS }
}

#[verifier::when_used_as_spec(byte_spec)]
pub fn byte(x: Scalar) -> (c: u8)
    ensures
        c == byte_spec(x),
{
    (Scalar { bits: CHANNEL_SCALE_BITS } * x.saturate()).to_u8()
}

impl Float3 {
    /// The colour of three channel bytes.
    pub open spec fn from_rgb_spec(r: u8, g: u8, b: u8) -> Color {
        Float3 { x: channel_spec(r), y: channel_spec(g), z: channel_spec(b) }
    }

    /// The colour of three channel bytes.
    #[verifier::when_used_as_spec(from_rgb_spec)]
    pub fn from_rgb(r: u8, g: u8, b: u8) -> (v: Color)
        ensures
            v == Float3::from_rgb_spec(r, g, b),
    {
        Float3 { x: channel(r), y: channel(g), z: channel(b) }
    }

    /// The colour that six characters spell, or none where they do not
    /// spell one.
    pub fn parse_hex(hex: &[u8; 6]) -> (v: Option<Color>)
        ensures
            v == (match hex_rgb_spec(hex@) {
                Some((r, g, b)) => Some(Float3::from_rgb(r, g, b)),
                None => None,
            }),
    {
        match (hex_byte(hex[0], hex[1]), hex_byte(hex[2], hex[3]), hex_byte(hex[4], hex[5])) {
            (Some(r), Some(g), Some(b)) => Some(Float3::from_rgb(r, g, b)),
            _ => None,
        }
    }

    /// The colour that six characters spell: two for red, two for green, two
    /// for blue, each pair two hexadecimal digits of either case, or a plus
    /// sign and one digit.
    pub fn from_hex(hex: &[u8; 6]) -> (v: Color)
        requires
            hex_rgb_spec(hex@) is Some,
        ensures
            hex_rgb_spec(hex@) matches Some((r, g, b)) && v == Float3::from_rgb(r, g, b),
    {
        match Float3::parse_hex(hex) {
            Some(v) => v,
            None => Float3::zero(),
        }
    }

    /// The byte of the red channel.
    pub fn r(&self) -> (c: u8)
        ensures
            c == byte(self.x),
    {
        byte(self.x)
    }

    /// The byte of the green channel.
    pub fn g(&self) -> (c: u8)
        ensures
            c == byte(self.y),
    {
        byte(self.y)
    }

    /// The byte of the blue channel.
    pub fn b(&self) -> (c: u8)
        ensures
            c == byte(self.z),
    {
        byte(self.z)
    }

    /// The three bytes of a colour, red first.
    pub fn to_rgb(&self) -> (rgb: [u8; 3])
        ensures
            rgb@ == seq![byte(self.x), byte(self.y), byte(self.z)],
    {
        let rgb = [self.r(), self.g(), self.b()];
        assert(rgb@ =~= seq![byte(self.x), byte(self.y), byte(self.z)]);
        rgb
    }
}

/// `out` holds, for each channel of `c`, a power with the exponent `e` as
/// `powf` gives it.
pub open spec fn gives_powers<F: Fn(Scalar, Scalar) -> Scalar>(
    powf: F,
    c: Color,
    e: Scalar,
    out: Color,
) -> bool {
    &&& call_ensures(powf, (c.x, e), out.x)
    &&& call_ensures(powf, (c.y, e), out.y)
    &&& call_ensures(powf, (c.z, e), out.z)
}

impl Float3 {
    /// Every channel raised to the power `factor`. The power is the
    /// caller's: `powf` is asked for `x^factor`.
    pub fn degamma<F: Fn(Scalar, Scalar) -> Scalar>(&self, factor: Scalar, powf: &F) -> (c: Color)
        requires
            forall|x: Scalar, e: Scalar| call_requires(*powf, (x, e)),
        ensures
            gives_powers(*powf, *self, factor, c),
    {
        Float3 { x: powf(self.x, factor), y: powf(self.y, factor), z: powf(self.z, factor) }
    }

    /// Every channel raised to the power `1 / factor`. The power is the
    /// caller's: `powf` is asked for `x^(1 / factor)`.
    pub fn gamma<F: Fn(Scalar, Scalar) -> Scalar>(&self, factor: Scalar, powf: &F) -> (c: Color)
        requires
            forall|x: Scalar, e: Scalar| call_requires(*powf, (x, e)),
        ensures
            gives_powers(*powf, *self, Scalar::one().div_spec(factor), c),
    {
        self.degamma(Scalar::one() / factor, powf)
    }
}

} // verus!
