//! Colours and the text of a plain pixel map.
//!
//! An image is written as text: a header of three lines, then one line for each pixel, row
//! by row. The functions here append that text to a buffer of bytes; sending the buffer to a
//! file or a stream is the caller's part.
use crate::interval::Interval;
use crate::scalar::Scalar;
use crate::vec3::Vec3;
use vstd::prelude::*;

verus! {

/// A colour: red in `x`, green in `y`, blue in `z`.
pub type Color = Vec3;

/// The pattern of 0.999: the most of a channel that is written.
pub const INTENSITY_MAX_BITS: u64 = 0x3fef_f7ce_d916_872b;

/// The decimal digits of a natural number in ASCII, without leading zeros.
pub open spec fn digits(n: nat) -> Seq<u8>
    decreases n,
{
    if n < 10 {
        seq![(48 + n) as u8]
    } else {
        digits(n / 10).push((48 + n % 10) as u8)
    }
}

/// The number that a run of ASCII digits spells.
pub open spec fn spelled(text: Seq<u8>) -> nat
    decreases text.len(),
{
    if text.len() == 0 {
        0
    } else {
        spelled(text.drop_last()) * 10 + (text.last() - 48) as nat
    }
}

/// The digits of a number spell that number, and do so in the shortest way: there is at
/// least one digit, each is an ASCII digit, and the first is a zero only for zero itself.
pub proof fn lemma_digits_spell_the_number(n: nat)
    ensures
        spelled(digits(n)) == n,
        digits(n).len() >= 1,
        forall|i: int| 0 <= i < digits(n).len() ==> 48 <= #[trigger] digits(n)[i] <= 57,
        digits(n)[0] == 48 <==> n == 0,
    decreases n,
{
    if n < 10 {
        assert(digits(n).drop_last() =~= Seq::<u8>::empty());
        assert(spelled(digits(n).drop_last()) == 0);
        assert(digits(n).last() == 48 + n);
    } else {
        lemma_digits_spell_the_number(n / 10);
        assert(digits(n).drop_last() =~= digits(n / 10));
        assert(digits(n).last() == 48 + n % 10);
    }
}

/// An integer in decimal ASCII, with a minus sign before a negative one.
pub open spec fn decimal(n: int) -> Seq<u8> {
    if n < 0 {
        seq![45u8] + digits((-n) as nat)
    } else {
        digits(n as nat)
    }
}

/// The header of a plain pixel map, on three lines: the format's magic number, which is
/// the letter P and the digit 3; the width and the height; and 255, the largest channel
/// value.
pub open spec fn header(width: int, height: int) -> Seq<u8> {
    seq![80u8, 51u8, 10u8] + decimal(width) + seq![32u8] + decimal(height) + seq![
        10u8,
        50u8,
        53u8,
        53u8,
        10u8,
    ]
}

/// Whether each channel of a colour lies in [0, 1].
pub open spec fn within_unit(color: Color) -> bool {
    let unit = Interval { min: Scalar::zero(), max: Scalar::one() };
    unit.contains(color.x) && unit.contains(color.y) && unit.contains(color.z)
}

/// The range that a channel is held to before it is written.
pub open spec fn intensity() -> Interval {
    Interval { min: Scalar::zero(), max: Scalar { bits: INTENSITY_MAX_BITS } }
}

/// The byte written for a channel: the channel is held to `[0, 0.999]`, and the whole part
/// of 256 times that is taken. A NaN gives 0.
pub open spec fn channel_byte(channel: Scalar) -> u8 {
    intensity().clamp(channel).quantize(8, 255) as u8
}

/// The line of a pixel: its three bytes in decimal, red first, with a space between them.
pub open spec fn pixel_line(pixel_color: Color) -> Seq<u8> {
    decimal(channel_byte(pixel_color.x) as int) + seq![32u8] + decimal(
        channel_byte(pixel_color.y) as int,
    ) + seq![32u8] + decimal(channel_byte(pixel_color.z) as int) + seq![10u8]
}

/// The lines of the pixels, one after the other.
pub open spec fn pixel_lines(pixels: Seq<Color>) -> Seq<u8>
    decreases pixels.len(),
{
    if pixels.len() == 0 {
        Seq::<u8>::empty()
    } else {
        pixel_lines(pixels.drop_last()) + pixel_line(pixels.last())
    }
}

/// A brighter channel never gives a smaller byte.
pub proof fn lemma_channel_byte_is_monotone(darker: Scalar, brighter: Scalar)
    requires
        darker.le(brighter),
    ensures
        channel_byte(darker) <= channel_byte(brighter),
{
    crate::scalar::lemma_size_order(0, INTENSITY_MAX_BITS);
    crate::scalar::lemma_quantize_is_monotone(
        intensity().clamp(darker),
        intensity().clamp(brighter),
        8,
        255,
    );
}

/// What is written of a channel that is a number lies in [0, 0.999], and every byte is the
/// byte of such a number.
pub proof fn lemma_channel_is_held(channel: Scalar)
    ensures
        !channel.is_nan() ==> intensity().contains(intensity().clamp(channel)),
        channel_byte(channel) == channel_byte(intensity().clamp(channel)),
{
    crate::scalar::lemma_size_order(0, INTENSITY_MAX_BITS);
}

/// Appending a digit to a reversed list of digits puts it in front.
proof fn lemma_reverse_push(s: Seq<u8>, d: u8)
    ensures
        s.push(d).reverse() == seq![d] + s.reverse(),
{
    assert(s.push(d).reverse() =~= seq![d] + s.reverse());
}

/// Appends the decimal digits of `n`.
fn push_digits(out: &mut Vec<u8>, n: u32)
    ensures
        final(out)@ == old(out)@ + digits(n as nat),
{
    let mut low_first: Vec<u8> = Vec::new();
    let mut rest: u32 = n;
    while rest >= 10
        invariant
            digits(n as nat) == digits(rest as nat) + low_first@.reverse(),
        decreases rest,
    {
        let d: u8 = 48 + (rest % 10) as u8;
        proof {
            lemma_reverse_push(low_first@, d);
            assert(digits(rest as nat) == digits((rest / 10) as nat).push(d));
            assert(digits((rest / 10) as nat).push(d) + low_first@.reverse() =~= digits(
                (rest / 10) as nat,
            ) + (seq![d] + low_first@.reverse()));
        }
        low_first.push(d);
        rest = rest / 10;
    }
    let d: u8 = 48 + rest as u8;
    proof {
        lemma_reverse_push(low_first@, d);
    }
    low_first.push(d);
    assert(digits(n as nat) == low_first@.reverse());
    let mut i: usize = low_first.len();
    while i > 0
        invariant
            i <= low_first.len(),
            out@ == old(out)@ + low_first@.reverse().subrange(0, low_first.len() - i),
        decreases i,
    {
        i = i - 1;
        out.push(low_first[i]);
        assert(out@ =~= old(out)@ + low_first@.reverse().subrange(0, low_first.len() - i));
    }
    assert(low_first@.reverse().subrange(0, low_first.len() as int) =~= low_first@.reverse());
}

/// Appends `n` in decimal.
fn push_decimal(out: &mut Vec<u8>, n: i32)
    ensures
        final(out)@ == old(out)@ + decimal(n as int),
{
    if n < 0 {
        out.push(45u8);
        let size: u32 = if n == i32::MIN {
            0x8000_0000u32
        } else {
            (-n) as u32
        };
        push_digits(out, size);
        assert(out@ =~= old(out)@ + (seq![45u8] + digits((-n) as nat)));
    } else {
        push_digits(out, n as u32);
    }
}

/// Appends the header of an image of the given width and height.
pub fn write_header(out: &mut Vec<u8>, image_width: i32, image_height: i32)
    ensures
        final(out)@ == old(out)@ + header(image_width as int, image_height as int),
{
    out.push(80u8);
    out.push(51u8);
    out.push(10u8);
    push_decimal(out, image_width);
    out.push(32u8);
    push_decimal(out, image_height);
    out.push(10u8);
    out.push(50u8);
    out.push(53u8);
    out.push(53u8);
    out.push(10u8);
    assert(out@ =~= old(out)@ + header(image_width as int, image_height as int));
}

/// The byte of one channel.
pub fn to_byte(channel: Scalar) -> (r: u8)
    ensures
        r == channel_byte(channel),
{
    let range = Interval::new(Scalar::zero(), Scalar::from_bits(INTENSITY_MAX_BITS));
    range.clamp(channel).quantize(8, 255) as u8
}

/// Appends the line of one pixel.
pub fn write_color(out: &mut Vec<u8>, pixel_color: Color)
    ensures
        final(out)@ == old(out)@ + pixel_line(pixel_color),
{
    let r = to_byte(pixel_color.x());
    let g = to_byte(pixel_color.y());
    let b = to_byte(pixel_color.z());
    push_decimal(out, r as i32);
    out.push(32u8);
    push_decimal(out, g as i32);
    out.push(32u8);
    push_decimal(out, b as i32);
    out.push(10u8);
    assert(out@ =~= old(out)@ + pixel_line(pixel_color));
}

/// Appends a whole image: the header, then the pixels in the order given, which is row by
/// row from the top, each row from the left.
pub fn write_image(out: &mut Vec<u8>, image_width: i32, image_height: i32, pixels: &Vec<Color>)
    ensures
        final(out)@ == old(out)@ + header(image_width as int, image_height as int) + pixel_lines(
            pixels@,
        ),
{
    write_header(out, image_width, image_height);
    let ghost start = out@;
    let mut i: usize = 0;
    while i < pixels.len()
        invariant
            i <= pixels.len(),
            out@ == start + pixel_lines(pixels@.take(i as int)),
        decreases pixels.len() - i,
    {
        proof {
            assert(pixels@.take(i + 1).drop_last() =~= pixels@.take(i as int));
            assert(pixels@.take(i + 1).last() == pixels@[i as int]);
        }
        write_color(out, pixels[i]);
        assert(out@ =~= start + pixel_lines(pixels@.take(i + 1)));
        i = i + 1;
    }
    assert(pixels@.take(pixels.len() as int) =~= pixels@);
}

} // verus!
