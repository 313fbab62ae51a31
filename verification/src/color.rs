//! Colour spaces for gradient interpolation and the parsing of HTML hex colours.
use vstd::prelude::*;
use vstd::string::StringSliceAdditionalSpecFns;
use vstd::utf8::is_continuation_byte;

verus! {

/// Color space that gradient stops are interpolated in.
///
/// Differences from CSS Color 4:
/// - Alpha is interpolated straight, not premultiplied.
/// - Out-of-gamut `Oklab`/`Oklch` results are clamped per channel, not gamut-mapped,
///   so very saturated ramps can shift hue slightly.
/// - In `Oklch`/`Hsl`, an achromatic stop (grey, white, black) takes the other stop's hue.
#[derive(Copy, Clone, Debug, PartialEq, Eq, Structural, PartialOrd, Ord, Hash)]
#[non_exhaustive]
pub enum ColorSpace {
    /// Interpolate directly in sRGB (the default).
    Srgb,
    /// Interpolate in linear-light sRGB (SVG `linearRGB`, CSS `srgb-linear`).
    LinearRgb,
    /// Interpolate in Oklab.
    Oklab,
    /// Interpolate in Oklch, taking the shorter hue arc.
    Oklch,
    /// Interpolate in HSL, taking the shorter hue arc.
    Hsl,
}

impl Default for ColorSpace {
    fn default() -> (r: Self)
        ensures
            r == ColorSpace::Srgb,
    {
        ColorSpace::Srgb
    }
}

impl ColorSpace {
    /// Whether the space has a hue component (a polar space).
    pub open spec fn has_hue(self) -> bool {
        self == ColorSpace::Oklch || self == ColorSpace::Hsl
    }

    /// Indices of hue and chroma/saturation in the component triple,
    /// or `None` for spaces without hue.
    pub fn hue_layout(self) -> (r: Option<(usize, usize)>)
        ensures
            r == (match self {
                ColorSpace::Oklch => Some((2usize, 1usize)),
                ColorSpace::Hsl => Some((0usize, 1usize)),
                _ => None::<(usize, usize)>,
            }),
            r is Some <==> self.has_hue(),
            r matches Some((h, m)) ==> h < 3 && m < 3 && h != m,
    {
        match self {
            Self::Oklch => Some((2, 1)),
            Self::Hsl => Some((0, 1)),
            Self::Srgb | Self::LinearRgb | Self::Oklab => None,
        }
    }
}

/// The value of an ASCII hexadecimal digit (`0-9`, `a-f`, `A-F`), or `None`
/// for any other byte.
pub open spec fn hex_digit_value(b: u8) -> Option<nat> {
    if 0x30 <= b <= 0x39 {
        Some((b - 0x30) as nat)
    } else if 0x61 <= b <= 0x66 {
        Some((b - 0x61 + 10) as nat)
    } else if 0x41 <= b <= 0x46 {
        Some((b - 0x41 + 10) as nat)
    } else {
        None
    }
}

/// The number that `digits` writes in base 16, most significant digit first;
/// `None` when some byte is not a hex digit. The empty sequence is zero.
pub open spec fn hex_digits_value(digits: Seq<u8>) -> Option<nat>
    decreases digits.len(),
{
    if digits.len() == 0 {
        Some(0)
    } else {
        match (hex_digits_value(digits.drop_last()), hex_digit_value(digits.last())) {
            (Some(v), Some(d)) => Some(v * 16 + d),
            _ => None,
        }
    }
}

/// Reading `text` as an unsigned 8-bit number in base 16: an optional `+`
/// (only when digits follow it) and at least one hex digit whose value fits
/// in 8 bits; `None` otherwise.
pub open spec fn parse_hex_u8(text: Seq<u8>) -> Option<u8> {
    let digits = if text.len() >= 2 && text[0] == 0x2b { text.drop_first() } else { text };
    if digits.len() == 0 {
        None
    } else {
        match hex_digits_value(digits) {
            Some(v) => if v <= 255 { Some(v as u8) } else { None },
            None => None,
        }
    }
}

/// `parse_hex_u8`, with 0 standing for text that does not parse.
pub open spec fn hex_u8_or_zero(text: Seq<u8>) -> u8 {
    match parse_hex_u8(text) {
        Some(v) => v,
        None => 0,
    }
}

/// `text` without its leading `#` characters.
pub open spec fn trim_hashes(text: Seq<u8>) -> Seq<u8>
    decreases text.len(),
{
    if text.len() > 0 && text[0] == 0x23 {
        trim_hashes(text.drop_first())
    } else {
        text
    }
}

/// The channel written by the two bytes of `hex` starting at `at`.
pub open spec fn hex_channel(hex: Seq<u8>, at: int) -> u8 {
    hex_u8_or_zero(hex.subrange(at, at + 2))
}

/// The (red, green, blue, alpha) channels an HTML hex colour denotes: after
/// the leading `#`s, eight bytes are `RRGGBBAA`, six are `RRGGBB` with an
/// opaque alpha, and any other length is opaque black. A pair that is not a
/// hex number reads as 0.
pub open spec fn hex_color_channels(raw: Seq<u8>) -> (u8, u8, u8, u8) {
    let hex = trim_hashes(raw);
    if hex.len() == 8 {
        (hex_channel(hex, 0), hex_channel(hex, 2), hex_channel(hex, 4), hex_channel(hex, 6))
    } else if hex.len() == 6 {
        (hex_channel(hex, 0), hex_channel(hex, 2), hex_channel(hex, 4), 255)
    } else {
        (0, 0, 0, 255)
    }
}

/// The byte offsets at which a hex colour is cut into channel pairs fall on
/// character boundaries, so that each pair is text of its own.
pub open spec fn hex_pairs_on_char_boundaries(raw: Seq<u8>) -> bool {
    let hex = trim_hashes(raw);
    &&& hex.len() == 8 ==> !is_continuation_byte(hex[2]) && !is_continuation_byte(hex[4])
        && !is_continuation_byte(hex[6])
    &&& hex.len() == 6 ==> !is_continuation_byte(hex[2]) && !is_continuation_byte(hex[4])
}

/// A value `v` kept as is below 256 and as 256 from there on.
spec fn capped(v: nat) -> nat {
    if v < 256 { v } else { 256 }
}

/// Reads `bytes[start..end]` as a base-16 number of at most 8 bits, or 0.
fn hex_bytes_to_u8(bytes: &[u8], start: usize, end: usize) -> (r: u8)
    requires
        start <= end <= bytes@.len(),
    ensures
        r == hex_u8_or_zero(bytes@.subrange(start as int, end as int)),
{
    let ghost text = bytes@.subrange(start as int, end as int);
    let first = if end - start >= 2 && bytes[start] == 0x2b { start + 1 } else { start };
    let ghost digits = bytes@.subrange(first as int, end as int);
    assert(digits =~= (if text.len() >= 2 && text[0] == 0x2b { text.drop_first() } else { text }));
    if first == end {
        return 0;
    }
    let mut acc: u32 = 0;
    let mut valid = true;
    let mut i = first;
    while i < end
        invariant
            first <= i <= end <= bytes@.len(),
            acc <= 256,
            valid ==> (hex_digits_value(bytes@.subrange(first as int, i as int)) matches Some(v)
                && capped(v) == acc),
            !valid ==> hex_digits_value(bytes@.subrange(first as int, i as int)) is None,
        decreases end - i,
    {
        let ghost prefix = bytes@.subrange(first as int, i as int);
        let ghost next = bytes@.subrange(first as int, i + 1);
        assert(next.drop_last() =~= prefix);
        let b = bytes[i];
        let digit: u32 = if 0x30 <= b && b <= 0x39 {
            (b - 0x30) as u32
        } else if 0x61 <= b && b <= 0x66 {
            (b - 0x61 + 10) as u32
        } else if 0x41 <= b && b <= 0x46 {
            (b - 0x41 + 10) as u32
        } else {
            16
        };
        if digit == 16 {
            valid = false;
        } else if valid {
            let widened = acc * 16 + digit;
            acc = if widened < 256 { widened } else { 256 };
        }
        i += 1;
    }
    if valid && acc < 256 {
        acc as u8
    } else {
        0
    }
}

/// Converts a hex string to a number: `"00"` is 0, `"FF"` is 255. Text that
/// is not a base-16 number of at most 8 bits gives 0.
pub fn hex_to_u8(hex_string: &str) -> (r: u8)
    ensures
        r == hex_u8_or_zero(hex_string.spec_bytes()),
{
    let bytes = hex_string.as_bytes();
    let r = hex_bytes_to_u8(bytes, 0, bytes.len());
    assert(bytes@.subrange(0, bytes@.len() as int) =~= bytes@);
    r
}

/// The (red, green, blue, alpha) channels of a 6-digit (`RRGGBB`) or
/// 8-digit (`RRGGBBAA`) HTML hex colour; any other length is opaque black,
/// and the `#` is optional. A pair that is not a hex number reads as 0.
pub fn hex_channels(raw_hex: &str) -> (r: (u8, u8, u8, u8))
    requires
        hex_pairs_on_char_boundaries(raw_hex.spec_bytes()),
    ensures
        r == hex_color_channels(raw_hex.spec_bytes()),
{
    let bytes = raw_hex.as_bytes();
    let len = bytes.len();
    let mut start: usize = 0;
    assert(bytes@.subrange(0, len as int) =~= bytes@);
    while start < len && bytes[start] == 0x23
        invariant
            start <= len == bytes@.len(),
            trim_hashes(bytes@) == trim_hashes(bytes@.subrange(start as int, len as int)),
        decreases len - start,
    {
        assert(bytes@.subrange(start as int, len as int).drop_first() =~= bytes@.subrange(
            start + 1,
            len as int,
        ));
        start += 1;
    }
    let ghost hex = bytes@.subrange(start as int, len as int);
    assert(trim_hashes(hex) == hex);
    let n = len - start;
    proof {
        assert forall|at: int| 0 <= at && at + 2 <= n implies #[trigger] hex.subrange(at, at + 2)
            =~= bytes@.subrange(start + at, start + at + 2) by {}
    }
    if n == 8 {
        let r = hex_bytes_to_u8(bytes, start, start + 2);
        let g = hex_bytes_to_u8(bytes, start + 2, start + 4);
        let b = hex_bytes_to_u8(bytes, start + 4, start + 6);
        let a = hex_bytes_to_u8(bytes, start + 6, start + 8);
        (r, g, b, a)
    } else if n == 6 {
        let r = hex_bytes_to_u8(bytes, start, start + 2);
        let g = hex_bytes_to_u8(bytes, start + 2, start + 4);
        let b = hex_bytes_to_u8(bytes, start + 4, start + 6);
        (r, g, b, 255)
    } else {
        (0, 0, 0, 255)
    }
}

/// The upper-case ASCII hex digit for `d < 16`.
pub open spec fn hex_digit_byte(d: nat) -> u8 {
    if d < 10 {
        (0x30 + d) as u8
    } else {
        (0x41 + d - 10) as u8
    }
}

/// `v` written as two hex digits, most significant first.
pub open spec fn hex_pair(v: u8) -> Seq<u8> {
    seq![hex_digit_byte(v as nat / 16), hex_digit_byte(v as nat % 16)]
}

/// The `#` is optional: any number of leading `#`s reads like none.
pub proof fn lemma_leading_hash_is_optional(raw: Seq<u8>)
    ensures
        hex_color_channels(seq![0x23u8] + raw) == hex_color_channels(raw),
{
    let s = seq![0x23u8] + raw;
    assert(s.drop_first() =~= raw);
}

/// Two hex digits read back as the channel they write.
pub proof fn lemma_hex_pair_round_trip(v: u8)
    ensures
        parse_hex_u8(hex_pair(v)) == Some(v),
        hex_u8_or_zero(hex_pair(v)) == v,
{
    let p = hex_pair(v);
    let hi = v as nat / 16;
    let lo = v as nat % 16;
    assert(p.drop_last() =~= seq![hex_digit_byte(hi)]);
    assert(p.drop_last().drop_last() =~= Seq::<u8>::empty());
    assert(hex_digit_value(hex_digit_byte(hi)) == Some(hi));
    assert(hex_digit_value(hex_digit_byte(lo)) == Some(lo));
    assert(hex_digits_value(p.drop_last().drop_last()) == Some(0nat));
    assert(hex_digits_value(p.drop_last()) == Some(hi));
    assert(p.last() == hex_digit_byte(lo));
    assert(hex_digits_value(p) == Some(hi * 16 + lo));
}

/// An `RRGGBBAA` colour reads back as the four channels it writes, and an
/// `RRGGBB` colour as its three channels with an opaque alpha.
pub proof fn lemma_hex_color_round_trip(r: u8, g: u8, b: u8, a: u8)
    ensures
        hex_color_channels(hex_pair(r) + hex_pair(g) + hex_pair(b) + hex_pair(a)) == (r, g, b, a),
        hex_color_channels(hex_pair(r) + hex_pair(g) + hex_pair(b)) == (r, g, b, 255u8),
{
    lemma_hex_pair_round_trip(r);
    lemma_hex_pair_round_trip(g);
    lemma_hex_pair_round_trip(b);
    lemma_hex_pair_round_trip(a);
    let s8 = hex_pair(r) + hex_pair(g) + hex_pair(b) + hex_pair(a);
    let s6 = hex_pair(r) + hex_pair(g) + hex_pair(b);
    assert(trim_hashes(s8) == s8);
    assert(trim_hashes(s6) == s6);
    assert(s8.subrange(0, 2) =~= hex_pair(r));
    assert(s8.subrange(2, 4) =~= hex_pair(g));
    assert(s8.subrange(4, 6) =~= hex_pair(b));
    assert(s8.subrange(6, 8) =~= hex_pair(a));
    assert(s6.subrange(0, 2) =~= hex_pair(r));
    assert(s6.subrange(2, 4) =~= hex_pair(g));
    assert(s6.subrange(4, 6) =~= hex_pair(b));
}

/// Text of any length other than six or eight (after its `#`s) is opaque black.
pub proof fn lemma_other_lengths_are_black(raw: Seq<u8>)
    requires
        trim_hashes(raw).len() != 6,
        trim_hashes(raw).len() != 8,
    ensures
        hex_color_channels(raw) == (0u8, 0u8, 0u8, 255u8),
{
}

} // verus!
