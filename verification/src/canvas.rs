//! The packed color type and the canvas.
//!
//! A `Color` is a single 32-bit word holding four 8-bit channels, least
//! significant byte first: red, green, blue, alpha. A `Canvas` owns a color
//! plane of such words and a depth plane of single-precision bit patterns,
//! both `width * height` cells long, and exposes depth-tested pixel writes
//! addressed in a centered, y-up cartesian coordinate system.

use vstd::prelude::*;

use crate::depth::Depth;
use crate::depth::NAN_BITS;
use crate::depth::INFINITY_BITS;
use crate::depth::is_nan_bits;
use crate::depth::le_bits;
use crate::depth::lt_bits;

verus! {

/// The alpha byte of a packed color word.
pub const ALPHA_MASK: u32 = 0xff00_0000;

/// The blue byte of a packed color word.
pub const BLUE_MASK: u32 = 0x00ff_0000;

/// The green byte of a packed color word.
pub const GREEN_MASK: u32 = 0x0000_ff00;

/// The red byte of a packed color word.
pub const RED_MASK: u32 = 0x0000_00ff;

/// The red channel of a packed word: its least significant byte.
pub open spec fn red_of(c: u32) -> u8 {
    (c % 0x100) as u8
}

/// The green channel of a packed word: its second byte.
pub open spec fn green_of(c: u32) -> u8 {
    ((c / 0x100) % 0x100) as u8
}

/// The blue channel of a packed word: its third byte.
pub open spec fn blue_of(c: u32) -> u8 {
    ((c / 0x1_0000) % 0x100) as u8
}

/// The alpha channel of a packed word: its most significant byte.
pub open spec fn alpha_of(c: u32) -> u8 {
    ((c / 0x100_0000) % 0x100) as u8
}

/// The packed word holding the four given channels, red in the least
/// significant byte and alpha in the most significant one.
pub open spec fn pack_rgba(red: u8, green: u8, blue: u8, alpha: u8) -> u32 {
    (red + green * 0x100 + blue * 0x1_0000 + alpha * 0x100_0000) as u32
}

/// Addition of two channel values with 8-bit wraparound.
pub open spec fn wrap_add(x: u8, y: u8) -> u8 {
    if x + y > 255 {
        (x + y - 0x100) as u8
    } else {
        (x + y) as u8
    }
}

/// Addition of two channel values clamped at the channel maximum.
pub open spec fn sat_add(x: u8, y: u8) -> u8 {
    if x + y > 255 {
        255u8
    } else {
        (x + y) as u8
    }
}

/// A channel scaled by another channel read as a fraction of 255, with the
/// quotient truncated: 255 scales by one, 0 scales to nothing.
pub open spec fn scale_of(x: u8, y: u8) -> u8 {
    ((x * y) / 255) as u8
}

/// The word whose every channel is the receiver's channel increased, with
/// wraparound, by the operand's alpha channel.
pub open spec fn added_of(c: u32, o: u32) -> u32 {
    pack_rgba(
        wrap_add(red_of(c), alpha_of(o)),
        wrap_add(green_of(c), alpha_of(o)),
        wrap_add(blue_of(c), alpha_of(o)),
        wrap_add(alpha_of(c), alpha_of(o)),
    )
}

/// The word whose every channel is the receiver's channel increased, clamped
/// at 255, by the operand's alpha channel.
pub open spec fn sat_added_of(c: u32, o: u32) -> u32 {
    pack_rgba(
        sat_add(red_of(c), alpha_of(o)),
        sat_add(green_of(c), alpha_of(o)),
        sat_add(blue_of(c), alpha_of(o)),
        sat_add(alpha_of(c), alpha_of(o)),
    )
}

/// The word whose every channel is the receiver's channel scaled by the
/// operand's alpha channel read as a fraction of 255.
pub open spec fn multiplied_of(c: u32, o: u32) -> u32 {
    pack_rgba(
        scale_of(red_of(c), alpha_of(o)),
        scale_of(green_of(c), alpha_of(o)),
        scale_of(blue_of(c), alpha_of(o)),
        scale_of(alpha_of(c), alpha_of(o)),
    )
}

/// The word with each color channel replaced by its distance from 255 and the
/// alpha channel forced opaque.
pub open spec fn complement_of(c: u32) -> u32 {
    pack_rgba(
        (255 - red_of(c)) as u8,
        (255 - green_of(c)) as u8,
        (255 - blue_of(c)) as u8,
        255u8,
    )
}

/// The word with all four channels, alpha included, replaced by their
/// distance from 255.
pub open spec fn complement_rgba_of(c: u32) -> u32 {
    pack_rgba(
        (255 - red_of(c)) as u8,
        (255 - green_of(c)) as u8,
        (255 - blue_of(c)) as u8,
        (255 - alpha_of(c)) as u8,
    )
}

/// Unpacking a word and packing the four channels again gives the word back:
/// the four channels carry the whole 32-bit value.
pub proof fn lemma_bits_from_channels(c: u32)
    ensures
        pack_rgba(red_of(c), green_of(c), blue_of(c), alpha_of(c)) == c,
{
    assert((((c % 0x100) as u8) + (((c / 0x100) % 0x100) as u8) * 0x100 + (((c / 0x1_0000)
        % 0x100) as u8) * 0x1_0000 + (((c / 0x100_0000) % 0x100) as u8) * 0x100_0000) as u32
        == c) by (bit_vector);
}

/// Each channel read from a packed word is the channel it was packed from.
pub proof fn lemma_pack_channels(red: u8, green: u8, blue: u8, alpha: u8)
    ensures
        red_of(pack_rgba(red, green, blue, alpha)) == red,
        green_of(pack_rgba(red, green, blue, alpha)) == green,
        blue_of(pack_rgba(red, green, blue, alpha)) == blue,
        alpha_of(pack_rgba(red, green, blue, alpha)) == alpha,
{
    let c = pack_rgba(red, green, blue, alpha);
    assert(c % 0x100 == red && (c / 0x100) % 0x100 == green && (c / 0x1_0000) % 0x100 == blue
        && (c / 0x100_0000) % 0x100 == alpha) by (bit_vector)
        requires
            c == (red + green * 0x100 + blue * 0x1_0000 + alpha * 0x100_0000) as u32,
    ;
}

/// Scaling a channel by an opaque alpha returns it unchanged, and scaling by
/// a zero alpha clears it.
pub proof fn lemma_scale_extremes(x: u8)
    ensures
        scale_of(x, 255) == x,
        scale_of(x, 0) == 0,
{
    assert((x * 255) / 255 == x && (x * 0) / 255 == 0) by (bit_vector);
}

/// Multiplying by a color whose alpha channel is 255 leaves every channel of
/// the receiver unchanged.
pub proof fn lemma_multiply_identity(c: u32, o: u32)
    requires
        alpha_of(o) == 255,
    ensures
        multiplied_of(c, o) == c,
{
    lemma_scale_extremes(red_of(c));
    lemma_scale_extremes(green_of(c));
    lemma_scale_extremes(blue_of(c));
    lemma_scale_extremes(alpha_of(c));
    lemma_bits_from_channels(c);
}

/// Multiplying by a color whose alpha channel is 0 clears every channel of
/// the receiver.
pub proof fn lemma_multiply_zero(c: u32, o: u32)
    requires
        alpha_of(o) == 0,
    ensures
        multiplied_of(c, o) == pack_rgba(0, 0, 0, 0),
{
    lemma_scale_extremes(red_of(c));
    lemma_scale_extremes(green_of(c));
    lemma_scale_extremes(blue_of(c));
    lemma_scale_extremes(alpha_of(c));
}

/// A packed color: one 32-bit word, four 8-bit channels, red in the least
/// significant byte, then green, blue and alpha.
#[derive(Clone, Copy, PartialEq, Eq, Structural, Debug)]
pub struct Color(u32);

impl View for Color {
    type V = u32;

    closed spec fn view(&self) -> u32 {
        self.0
    }
}

impl Color {
    /// Packs four channels into one word, taking the alpha channel as given.
    pub fn from_rgba(red: u8, green: u8, blue: u8, alpha: u8) -> (c: Color)
        ensures
            c@ == pack_rgba(red, green, blue, alpha),
            red_of(c@) == red,
            green_of(c@) == green,
            blue_of(c@) == blue,
            alpha_of(c@) == alpha,
    {
        let r32: u32 = red as u32;
        let g32: u32 = green as u32;
        let b32: u32 = blue as u32;
        let a32: u32 = alpha as u32;
        let bits: u32 = r32 | (g32 << 8u32) | (b32 << 16u32) | (a32 << 24u32);
        proof {
            assert(bits == (r32 + g32 * 0x100 + b32 * 0x1_0000 + a32 * 0x100_0000) as u32)
                by (bit_vector)
                requires
                    bits == (r32 | (g32 << 8u32) | (b32 << 16u32) | (a32 << 24u32)),
                    r32 < 0x100,
                    g32 < 0x100,
                    b32 < 0x100,
                    a32 < 0x100,
            ;
            lemma_pack_channels(red, green, blue, alpha);
        }
        Color(bits)
    }

    /// Packs three color channels into one word with an opaque alpha channel.
    pub fn from_rgb(red: u8, green: u8, blue: u8) -> (c: Color)
        ensures
            c@ == pack_rgba(red, green, blue, 255),
            red_of(c@) == red,
            green_of(c@) == green,
            blue_of(c@) == blue,
            alpha_of(c@) == 255,
    {
        Color::from_rgba(red, green, blue, 255)
    }

    /// The red channel: the word's least significant byte.
    pub fn get_red(&self) -> (r: u8)
        ensures
            r == red_of(self@),
    {
        let bits = self.0;
        proof {
            assert(bits & 0xff == bits % 0x100 && bits % 0x100 < 0x100) by (bit_vector);
        }
        (bits & 0xff) as u8
    }

    /// The green channel: the word's second byte.
    pub fn get_green(&self) -> (r: u8)
        ensures
            r == green_of(self@),
    {
        let bits = self.0;
        proof {
            assert((bits >> 8u32) & 0xff == (bits / 0x100) % 0x100 && (bits / 0x100) % 0x100
                < 0x100) by (bit_vector);
        }
        ((bits >> 8u32) & 0xff) as u8
    }

    /// The blue channel: the word's third byte.
    pub fn get_blue(&self) -> (r: u8)
        ensures
            r == blue_of(self@),
    {
        let bits = self.0;
        proof {
            assert((bits >> 16u32) & 0xff == (bits / 0x1_0000) % 0x100 && (bits / 0x1_0000) % 0x100
                < 0x100) by (bit_vector);
        }
        ((bits >> 16u32) & 0xff) as u8
    }

    /// The alpha channel: the word's most significant byte.
    pub fn get_alpha(&self) -> (r: u8)
        ensures
            r == alpha_of(self@),
    {
        let bits = self.0;
        proof {
            assert((bits >> 24u32) & 0xff == (bits / 0x100_0000) % 0x100 && (bits / 0x100_0000)
                % 0x100 < 0x100) by (bit_vector);
        }
        ((bits >> 24u32) & 0xff) as u8
    }

    /// Replaces the red channel, leaving the other three bytes untouched.
    pub fn set_red(&mut self, value: u8)
        ensures
            final(self)@ == pack_rgba(
                value,
                green_of(old(self)@),
                blue_of(old(self)@),
                alpha_of(old(self)@),
            ),
            red_of(final(self)@) == value,
            green_of(final(self)@) == green_of(old(self)@),
            blue_of(final(self)@) == blue_of(old(self)@),
            alpha_of(final(self)@) == alpha_of(old(self)@),
    {
        let bits = self.0;
        let v32: u32 = value as u32;
        proof {
            assert((bits & !RED_MASK) | v32 == (v32 + ((bits / 0x100) % 0x100) * 0x100 + ((bits
                / 0x1_0000) % 0x100) * 0x1_0000 + ((bits / 0x100_0000) % 0x100) * 0x100_0000) as u32)
                by (bit_vector)
                requires
                    v32 < 0x100,
            ;
            lemma_pack_channels(
                value,
                green_of(old(self)@),
                blue_of(old(self)@),
                alpha_of(old(self)@),
            );
        }
        self.0 = (bits & !RED_MASK) | v32;
    }

    /// Replaces the green channel, leaving the other three bytes untouched.
    pub fn set_green(&mut self, value: u8)
        ensures
            final(self)@ == pack_rgba(
                red_of(old(self)@),
                value,
                blue_of(old(self)@),
                alpha_of(old(self)@),
            ),
            red_of(final(self)@) == red_of(old(self)@),
            green_of(final(self)@) == value,
            blue_of(final(self)@) == blue_of(old(self)@),
            alpha_of(final(self)@) == alpha_of(old(self)@),
    {
        let bits = self.0;
        let v32: u32 = value as u32;
        proof {
            assert((bits & !GREEN_MASK) | (v32 << 8u32) == ((bits % 0x100) + v32 * 0x100 + ((bits
                / 0x1_0000) % 0x100) * 0x1_0000 + ((bits / 0x100_0000) % 0x100) * 0x100_0000) as u32)
                by (bit_vector)
                requires
                    v32 < 0x100,
            ;
            lemma_pack_channels(
                red_of(old(self)@),
                value,
                blue_of(old(self)@),
                alpha_of(old(self)@),
            );
        }
        self.0 = (bits & !GREEN_MASK) | (v32 << 8u32);
    }

    /// Replaces the blue channel, leaving the other three bytes untouched.
    pub fn set_blue(&mut self, value: u8)
        ensures
            final(self)@ == pack_rgba(
                red_of(old(self)@),
                green_of(old(self)@),
                value,
                alpha_of(old(self)@),
            ),
            red_of(final(self)@) == red_of(old(self)@),
            green_of(final(self)@) == green_of(old(self)@),
            blue_of(final(self)@) == value,
            alpha_of(final(self)@) == alpha_of(old(self)@),
    {
        let bits = self.0;
        let v32: u32 = value as u32;
        proof {
            assert((bits & !BLUE_MASK) | (v32 << 16u32) == ((bits % 0x100) + ((bits / 0x100)
                % 0x100) * 0x100 + v32 * 0x1_0000 + ((bits / 0x100_0000) % 0x100) * 0x100_0000) as u32)
                by (bit_vector)
                requires
                    v32 < 0x100,
            ;
            lemma_pack_channels(
                red_of(old(self)@),
                green_of(old(self)@),
                value,
                alpha_of(old(self)@),
            );
        }
        self.0 = (bits & !BLUE_MASK) | (v32 << 16u32);
    }

    /// Replaces the alpha channel, leaving the other three bytes untouched.
    pub fn set_alpha(&mut self, value: u8)
        ensures
            final(self)@ == pack_rgba(
                red_of(old(self)@),
                green_of(old(self)@),
                blue_of(old(self)@),
                value,
            ),
            red_of(final(self)@) == red_of(old(self)@),
            green_of(final(self)@) == green_of(old(self)@),
            blue_of(final(self)@) == blue_of(old(self)@),
            alpha_of(final(self)@) == value,
    {
        let bits = self.0;
        let v32: u32 = value as u32;
        proof {
            assert((bits & !ALPHA_MASK) | (v32 << 24u32) == ((bits % 0x100) + ((bits / 0x100)
                % 0x100) * 0x100 + ((bits / 0x1_0000) % 0x100) * 0x1_0000 + v32 * 0x100_0000) as u32)
                by (bit_vector)
                requires
                    v32 < 0x100,
            ;
            lemma_pack_channels(
                red_of(old(self)@),
                green_of(old(self)@),
                blue_of(old(self)@),
                value,
            );
        }
        self.0 = (bits & !ALPHA_MASK) | (v32 << 24u32);
    }

    /// Increases every channel of the receiver, with 8-bit wraparound, by the
    /// operand's alpha channel — the same single source channel drives all
    /// four destination channels.
    pub fn add(&mut self, other: &Color) -> (r: &mut Color)
        ensures
            (*r)@ == added_of(old(self)@, other@),
            *final(self) == *final(r),
    {
        let a = other.get_alpha();
        self.set_red(self.get_red().wrapping_add(a));
        self.set_green(self.get_green().wrapping_add(a));
        self.set_blue(self.get_blue().wrapping_add(a));
        self.set_alpha(self.get_alpha().wrapping_add(a));
        self
    }

    /// Increases every channel of the receiver, clamped at 255, by the
    /// operand's alpha channel.
    pub fn saturating_add(&mut self, other: &Color) -> (r: &mut Color)
        ensures
            (*r)@ == sat_added_of(old(self)@, other@),
            *final(self) == *final(r),
    {
        let a = other.get_alpha();
        self.set_red(self.get_red().saturating_add(a));
        self.set_green(self.get_green().saturating_add(a));
        self.set_blue(self.get_blue().saturating_add(a));
        self.set_alpha(self.get_alpha().saturating_add(a));
        self
    }

    /// Scales every channel of the receiver by the operand's alpha channel
    /// read as a fraction of 255, truncating each quotient.
    pub fn multiply(&mut self, other: &Color) -> (r: &mut Color)
        ensures
            (*r)@ == multiplied_of(old(self)@, other@),
            *final(self) == *final(r),
    {
        let a = other.get_alpha();
        self.set_red(Color::scale(self.get_red(), a));
        self.set_green(Color::scale(self.get_green(), a));
        self.set_blue(Color::scale(self.get_blue(), a));
        self.set_alpha(Color::scale(self.get_alpha(), a));
        self
    }

    /// One channel scaled by another read as a fraction of 255.
    fn scale(x: u8, y: u8) -> (r: u8)
        ensures
            r == scale_of(x, y),
    {
        let xw: u32 = x as u32;
        let yw: u32 = y as u32;
        proof {
            assert(xw * yw < 0x1_0000 && xw * yw / 255 < 0x100) by (bit_vector)
                requires
                    xw < 0x100,
                    yw < 0x100,
            ;
        }
        let wide: u32 = xw * yw;
        (wide / 255) as u8
    }

    /// A new opaque color with each color channel replaced by its distance
    /// from 255.
    pub fn complement(&self) -> (c: Color)
        ensures
            c@ == complement_of(self@),
    {
        Color::from_rgb(
            255 - self.get_red(),
            255 - self.get_green(),
            255 - self.get_blue(),
        )
    }

    /// A new color with all four channels, alpha included, replaced by their
    /// distance from 255.
    pub fn complement_rgba(&self) -> (c: Color)
        ensures
            c@ == complement_rgba_of(self@),
    {
        Color::from_rgba(
            255 - self.get_red(),
            255 - self.get_green(),
            255 - self.get_blue(),
            255 - self.get_alpha(),
        )
    }

    /// Opaque black.
    pub fn black() -> (c: Color)
        ensures
            c@ == pack_rgba(0, 0, 0, 255),
    {
        Color::from_rgb(u8::MIN, u8::MIN, u8::MIN)
    }

    /// Opaque white: the word every canvas cell starts as.
    pub fn white() -> (c: Color)
        ensures
            c@ == pack_rgba(255, 255, 255, 255),
    {
        Color::from_rgb(u8::MAX, u8::MAX, u8::MAX)
    }

    /// Opaque mid-gray.
    pub fn gray() -> (c: Color)
        ensures
            c@ == pack_rgba(127, 127, 127, 255),
    {
        Color::from_rgb(u8::MAX / 2, u8::MAX / 2, u8::MAX / 2)
    }

    /// Opaque red.
    pub fn red() -> (c: Color)
        ensures
            c@ == pack_rgba(255, 0, 0, 255),
    {
        Color::from_rgb(u8::MAX, u8::MIN, u8::MIN)
    }

    /// Opaque green.
    pub fn green() -> (c: Color)
        ensures
            c@ == pack_rgba(0, 255, 0, 255),
    {
        Color::from_rgb(u8::MIN, u8::MAX, u8::MIN)
    }

    /// Opaque blue.
    pub fn blue() -> (c: Color)
        ensures
            c@ == pack_rgba(0, 0, 255, 255),
    {
        Color::from_rgb(u8::MIN, u8::MIN, u8::MAX)
    }

    /// Opaque yellow.
    pub fn yellow() -> (c: Color)
        ensures
            c@ == pack_rgba(255, 255, 0, 255),
    {
        Color::from_rgb(u8::MAX, u8::MAX, u8::MIN)
    }

    /// Opaque magenta.
    pub fn magenta() -> (c: Color)
        ensures
            c@ == pack_rgba(255, 0, 255, 255),
    {
        Color::from_rgb(u8::MAX, u8::MIN, u8::MAX)
    }

    /// Opaque cyan.
    pub fn cyan() -> (c: Color)
        ensures
            c@ == pack_rgba(0, 255, 255, 255),
    {
        Color::from_rgb(u8::MIN, u8::MAX, u8::MAX)
    }
}

/// The mathematical state of a canvas: both planes as sequences of 32-bit
/// cells, and the fixed dimensions.
#[verifier::ext_equal]
pub ghost struct CanvasView {
    pub colors: Seq<u32>,
    pub depths: Seq<u32>,
    pub width: int,
    pub height: int,
}

/// The column a cartesian `i` lands in: the origin sits at the plane's center.
pub open spec fn screen_column(w: int, i: int) -> int {
    i + w / 2
}

/// The row a cartesian `j` lands in: `j` grows upward, rows grow downward.
pub open spec fn screen_row(h: int, j: int) -> int {
    h / 2 - j
}

/// Whether a cartesian coordinate pair addresses a cell of a `w` by `h` plane.
pub open spec fn in_range(w: int, h: int, i: int, j: int) -> bool {
    &&& 0 <= screen_column(w, i) < w
    &&& 0 <= screen_row(h, j) < h
}

/// The linear, row-major cell index a cartesian coordinate pair resolves to.
pub open spec fn index_of(w: int, h: int, i: int, j: int) -> int {
    screen_column(w, i) + screen_row(h, j) * w
}

/// Well-formedness of a canvas state: both planes hold exactly one cell per
/// pixel, and the pixel count fits the signed 32-bit index arithmetic of the
/// write path.
pub open spec fn view_wf(v: CanvasView) -> bool {
    &&& v.colors.len() == v.width * v.height
    &&& v.depths.len() == v.width * v.height
    &&& 0 <= v.width <= 0x7fff_ffff
    &&& 0 <= v.height <= 0x7fff_ffff
    &&& v.width * v.height <= 0x7fff_ffff
}

/// The state after a depth-tested write: when the stored depth compares less
/// than or equal to the incoming one the write is rejected and nothing
/// changes; otherwise both cells at the resolved index are replaced. A stored
/// NaN compares false to everything, so it accepts every write; an incoming
/// NaN also compares false, so it always lands — and is stored.
pub open spec fn draw_spec(v: CanvasView, i: int, j: int, zbits: u32, cbits: u32) -> CanvasView {
    let idx = index_of(v.width, v.height, i, j);
    if le_bits(v.depths[idx], zbits) {
        v
    } else {
        CanvasView {
            colors: v.colors.update(idx, cbits),
            depths: v.depths.update(idx, zbits),
            width: v.width,
            height: v.height,
        }
    }
}

/// The state after an unconditional write: the color lands and the depth cell
/// becomes the NaN sentinel, whatever either held before.
pub open spec fn put_spec(v: CanvasView, i: int, j: int, cbits: u32) -> CanvasView {
    CanvasView {
        colors: v.colors.update(index_of(v.width, v.height, i, j), cbits),
        depths: v.depths.update(index_of(v.width, v.height, i, j), NAN_BITS),
        width: v.width,
        height: v.height,
    }
}

/// Every in-range coordinate pair resolves to a cell of the plane.
pub proof fn lemma_index_in_plane(w: int, h: int, i: int, j: int)
    requires
        in_range(w, h, i, j),
    ensures
        0 <= index_of(w, h, i, j) < w * h,
{
    let sc = screen_column(w, i);
    let sr = screen_row(h, j);
    assert(0 <= sc + sr * w < w * h) by (nonlinear_arith)
        requires
            0 <= sc < w,
            0 <= sr < h,
    ;
}

/// Distinct in-range coordinate pairs resolve to distinct cells.
pub proof fn lemma_index_injective(w: int, h: int, i1: int, j1: int, i2: int, j2: int)
    requires
        in_range(w, h, i1, j1),
        in_range(w, h, i2, j2),
        index_of(w, h, i1, j1) == index_of(w, h, i2, j2),
    ensures
        i1 == i2,
        j1 == j2,
{
    let s1 = screen_column(w, i1);
    let r1 = screen_row(h, j1);
    let s2 = screen_column(w, i2);
    let r2 = screen_row(h, j2);
    assert(s1 == s2 && r1 == r2) by (nonlinear_arith)
        requires
            0 <= s1 < w,
            0 <= s2 < w,
            s1 + r1 * w == s2 + r2 * w,
    ;
}

/// Every cell of the plane is resolved to by some in-range coordinate pair:
/// together with injectivity, the centered cartesian range covers the plane
/// exactly once.
pub proof fn lemma_index_surjective(w: int, h: int, k: int)
    requires
        0 < w,
        0 <= k < w * h,
    ensures
        in_range(w, h, k % w - w / 2, h / 2 - k / w),
        index_of(w, h, k % w - w / 2, h / 2 - k / w) == k,
{
    vstd::arithmetic::div_mod::lemma_fundamental_div_mod(k, w);
    vstd::arithmetic::div_mod::lemma_mod_bound(k, w);
    assert(0 <= k / w < h) by (nonlinear_arith)
        requires
            0 < w,
            0 <= k < w * h,
            k == w * (k / w) + k % w,
            0 <= k % w < w,
    ;
    assert(k % w + (k / w) * w == k) by (nonlinear_arith)
        requires
            k == w * (k / w) + k % w,
    ;
}

/// A canvas: a color plane of packed words and a depth plane of
/// single-precision bit patterns, both `width * height` cells in row-major
/// order, written through depth-tested or unconditional pixel writes.
pub struct Canvas {
    depth_buffer: Vec<u32>,
    color_buffer: Vec<u32>,
    width: u32,
    height: u32,
}

impl View for Canvas {
    type V = CanvasView;

    closed spec fn view(&self) -> CanvasView {
        CanvasView {
            colors: self.color_buffer@,
            depths: self.depth_buffer@,
            width: self.width as int,
            height: self.height as int,
        }
    }
}

/// A vector of `n` copies of one cell value.
fn filled(value: u32, n: usize) -> (v: Vec<u32>)
    ensures
        v@.len() == n,
        forall|k: int| 0 <= k < n ==> v@[k] == value,
{
    let mut v: Vec<u32> = Vec::new();
    let mut k: usize = 0;
    while k < n
        invariant
            k <= n,
            v@.len() == k,
            forall|m: int| 0 <= m < k ==> v@[m] == value,
        decreases n - k,
    {
        v.push(value);
        k += 1;
    }
    v
}

impl Canvas {
    /// Well-formedness: the planes match the dimensions.
    pub open spec fn wf(&self) -> bool {
        view_wf(self@)
    }

    /// Allocates both planes: every color cell starts as opaque white and
    /// every depth cell as positive infinity, "nothing drawn yet". The pixel
    /// count must fit the signed 32-bit arithmetic of the write path.
    pub fn new(width: u32, height: u32) -> (c: Canvas)
        requires
            width <= 0x7fff_ffff,
            height <= 0x7fff_ffff,
            width * height <= 0x7fff_ffff,
        ensures
            c.wf(),
            c@.width == width,
            c@.height == height,
            forall|k: int| 0 <= k < c@.colors.len() ==> c@.colors[k] == pack_rgba(255, 255, 255, 255),
            forall|k: int| 0 <= k < c@.depths.len() ==> c@.depths[k] == INFINITY_BITS,
    {
        let n: usize = (width * height) as usize;
        let vec: Vec<u32> = filled(u32::MAX, n);
        let buf: Vec<u32> = filled(INFINITY_BITS, n);
        Canvas { depth_buffer: buf, color_buffer: vec, width, height }
    }

    /// The width, as the signed value the coordinate arithmetic uses.
    pub fn get_width(&self) -> (w: i32)
        requires
            self.wf(),
        ensures
            w == self@.width,
    {
        self.width as i32
    }

    /// The height, as the signed value the coordinate arithmetic uses.
    pub fn get_height(&self) -> (h: i32)
        requires
            self.wf(),
        ensures
            h == self@.height,
    {
        self.height as i32
    }

    /// The raw color plane, row-major, for a presentation driver to read.
    /// Valid until the next mutating call.
    pub fn raw(&self) -> (r: &Vec<u32>)
        ensures
            r@ == self@.colors,
    {
        &self.color_buffer
    }

    /// Depth-tested write. When the stored depth at the resolved cell
    /// compares less than or equal to `z` the write is rejected and the
    /// canvas is unchanged: equal depths lose, so the first writer wins ties.
    /// Otherwise `z` and the color replace the stored cells. A NaN `z` always
    /// lands, and a stored NaN accepts everything.
    pub fn draw_pixel(&mut self, i: i32, j: i32, z: Depth, color: Color)
        requires
            old(self).wf(),
            in_range(old(self)@.width, old(self)@.height, i as int, j as int),
        ensures
            final(self).wf(),
            final(self)@ == draw_spec(old(self)@, i as int, j as int, z@, color@),
            final(self)@.width == old(self)@.width,
            final(self)@.height == old(self)@.height,
    {
        proof {
            lemma_index_in_plane(old(self)@.width, old(self)@.height, i as int, j as int);
        }
        let si: i32 = i + self.get_width() / 2;
        let sj: i32 = -j + self.get_height() / 2;
        let index: usize = (si + sj * self.get_width()) as usize;

        if Depth::from_bits(self.depth_buffer[index]).le(&z) {
            return;
        }
        self.depth_buffer[index] = z.to_bits();
        self.color_buffer[index] = color.0;
    }

    /// Unconditional write: paints the color and stores the NaN sentinel as
    /// the cell's depth, so every later write to this pixel passes the depth
    /// test until something stores a comparable depth again.
    pub fn put_pixel(&mut self, i: i32, j: i32, color: Color)
        requires
            old(self).wf(),
            in_range(old(self)@.width, old(self)@.height, i as int, j as int),
        ensures
            final(self).wf(),
            final(self)@ == put_spec(old(self)@, i as int, j as int, color@),
            final(self)@.width == old(self)@.width,
            final(self)@.height == old(self)@.height,
    {
        self.draw_pixel(i, j, Depth::nan(), color);
    }

    /// Resets every cell of the color plane to the given color; the depth
    /// plane and the dimensions are untouched.
    pub fn clear_color(&mut self, color: Color)
        requires
            old(self).wf(),
        ensures
            final(self).wf(),
            final(self)@.width == old(self)@.width,
            final(self)@.height == old(self)@.height,
            final(self)@.depths == old(self)@.depths,
            final(self)@.colors.len() == old(self)@.colors.len(),
            forall|k: int| 0 <= k < final(self)@.colors.len() ==> final(self)@.colors[k] == color@,
    {
        let n: usize = self.color_buffer.len();
        self.color_buffer = filled(color.0, n);
    }

    /// Resets every cell of the depth plane to the given depth; the color
    /// plane and the dimensions are untouched.
    pub fn clear_depth(&mut self, depth: Depth)
        requires
            old(self).wf(),
        ensures
            final(self).wf(),
            final(self)@.width == old(self)@.width,
            final(self)@.height == old(self)@.height,
            final(self)@.colors == old(self)@.colors,
            final(self)@.depths.len() == old(self)@.depths.len(),
            forall|k: int| 0 <= k < final(self)@.depths.len() ==> final(self)@.depths[k] == depth@,
    {
        let n: usize = self.depth_buffer.len();
        self.depth_buffer = filled(depth.to_bits(), n);
    }

    /// Calls the filling function once for every coordinate pair of the
    /// centered cartesian range, rows outer and columns inner, each low to
    /// high, and paints each result unconditionally: afterwards every
    /// in-range pixel holds an output of the function at its own coordinates
    /// and the NaN sentinel as its depth.
    pub fn fill_ij<F: Fn(i32, i32) -> Color>(&mut self, filling_function: F)
        requires
            old(self).wf(),
            forall|i: int, j: int|
                #[trigger] in_range(old(self)@.width, old(self)@.height, i, j) ==> call_requires(
                    filling_function,
                    (i as i32, j as i32),
                ),
        ensures
            final(self).wf(),
            final(self)@.width == old(self)@.width,
            final(self)@.height == old(self)@.height,
            forall|i: int, j: int|
                #[trigger] in_range(old(self)@.width, old(self)@.height, i, j) ==> exists|c: Color|
                    #[trigger] call_ensures(filling_function, (i as i32, j as i32), c)
                        && final(self)@.colors[index_of(old(self)@.width, old(self)@.height, i, j)]
                        == c@
                        && final(self)@.depths[index_of(old(self)@.width, old(self)@.height, i, j)]
                        == NAN_BITS,
    {
        let w: i32 = self.get_width();
        let h: i32 = self.get_height();
        let ghost orig: CanvasView = self@;
        let i_lo: i32 = -(w / 2);
        let i_hi: i32 = w - 1 - w / 2;
        let j_lo: i32 = h / 2 - (h - 1);
        let j_hi: i32 = h / 2;

        let mut j: i32 = j_lo;
        while j <= j_hi
            invariant
                self.wf(),
                self@.width == orig.width,
                self@.height == orig.height,
                w == orig.width,
                h == orig.height,
                i_lo == -(orig.width / 2),
                i_hi == orig.width - 1 - orig.width / 2,
                j_lo == orig.height / 2 - (orig.height - 1),
                j_hi == orig.height / 2,
                j_lo <= j <= j_hi + 1,
                forall|ii: int, jj: int|
                    #[trigger] in_range(orig.width, orig.height, ii, jj) ==> call_requires(
                        filling_function,
                        (ii as i32, jj as i32),
                    ),
                forall|ii: int, jj: int|
                    #[trigger] in_range(orig.width, orig.height, ii, jj) && jj < j
                        ==> exists|c: Color|
                        #[trigger] call_ensures(filling_function, (ii as i32, jj as i32), c)
                            && self@.colors[index_of(orig.width, orig.height, ii, jj)] == c@
                            && self@.depths[index_of(orig.width, orig.height, ii, jj)] == NAN_BITS,
            decreases j_hi + 1 - j,
        {
            let mut i: i32 = i_lo;
            while i <= i_hi
                invariant
                    self.wf(),
                    self@.width == orig.width,
                    self@.height == orig.height,
                    w == orig.width,
                    h == orig.height,
                    i_lo == -(orig.width / 2),
                    i_hi == orig.width - 1 - orig.width / 2,
                    j_lo == orig.height / 2 - (orig.height - 1),
                    j_hi == orig.height / 2,
                    j_lo <= j <= j_hi,
                    i_lo <= i <= i_hi + 1,
                    forall|ii: int, jj: int|
                        #[trigger] in_range(orig.width, orig.height, ii, jj) ==> call_requires(
                            filling_function,
                            (ii as i32, jj as i32),
                        ),
                    forall|ii: int, jj: int|
                        #[trigger] in_range(orig.width, orig.height, ii, jj) && (jj < j || (jj == j
                            && ii < i)) ==> exists|c: Color|
                            #[trigger] call_ensures(filling_function, (ii as i32, jj as i32), c)
                                && self@.colors[index_of(orig.width, orig.height, ii, jj)] == c@
                                && self@.depths[index_of(orig.width, orig.height, ii, jj)]
                                == NAN_BITS,
                decreases i_hi + 1 - i,
            {
                proof {
                    assert(in_range(orig.width, orig.height, i as int, j as int));
                }
                let color = filling_function(i, j);
                let ghost before: CanvasView = self@;
                self.put_pixel(i, j, color);
                proof {
                    lemma_index_in_plane(orig.width, orig.height, i as int, j as int);
                    assert forall|ii: int, jj: int|
                        #[trigger] in_range(orig.width, orig.height, ii, jj) && (jj < j || (jj == j
                            && ii < i + 1)) implies exists|c: Color|
                        #[trigger] call_ensures(filling_function, (ii as i32, jj as i32), c)
                            && self@.colors[index_of(orig.width, orig.height, ii, jj)] == c@
                            && self@.depths[index_of(orig.width, orig.height, ii, jj)]
                            == NAN_BITS by {
                        if ii == i as int && jj == j as int {
                            assert(call_ensures(filling_function, (i, j), color)
                                && self@.colors[index_of(orig.width, orig.height, ii, jj)]
                                == color@ && self@.depths[index_of(orig.width, orig.height, ii, jj)]
                                == NAN_BITS);
                        } else {
                            lemma_index_in_plane(orig.width, orig.height, ii, jj);
                            if index_of(orig.width, orig.height, ii, jj) == index_of(
                                orig.width,
                                orig.height,
                                i as int,
                                j as int,
                            ) {
                                lemma_index_injective(
                                    orig.width,
                                    orig.height,
                                    ii,
                                    jj,
                                    i as int,
                                    j as int,
                                );
                            }
                            let c = choose|c: Color|
                                call_ensures(filling_function, (ii as i32, jj as i32), c)
                                    && before.colors[index_of(orig.width, orig.height, ii, jj)]
                                    == c@ && before.depths[index_of(orig.width, orig.height, ii, jj)]
                                    == NAN_BITS;
                            assert(call_ensures(filling_function, (ii as i32, jj as i32), c)
                                && self@.colors[index_of(orig.width, orig.height, ii, jj)] == c@
                                && self@.depths[index_of(orig.width, orig.height, ii, jj)]
                                == NAN_BITS);
                        }
                    }
                }
                i = i + 1;
            }
            j = j + 1;
        }
    }
}

/// Painting a pixel and then reading the planes at its resolved cell gives
/// back the painted color, and the depth cell holds the NaN sentinel.
pub proof fn lemma_put_then_read(v: CanvasView, i: int, j: int, c: u32)
    requires
        view_wf(v),
        in_range(v.width, v.height, i, j),
    ensures
        put_spec(v, i, j, c).colors[index_of(v.width, v.height, i, j)] == c,
        put_spec(v, i, j, c).depths[index_of(v.width, v.height, i, j)] == NAN_BITS,
        is_nan_bits(put_spec(v, i, j, c).depths[index_of(v.width, v.height, i, j)]),
{
    lemma_index_in_plane(v.width, v.height, i, j);
}

/// After a draw at some depth, a second draw at the same pixel with a
/// strictly farther depth is rejected outright: the canvas is exactly what
/// the first draw left, whether or not that first draw itself landed.
pub proof fn lemma_farther_draw_rejected(
    v: CanvasView,
    i: int,
    j: int,
    d1: u32,
    c1: u32,
    d2: u32,
    c2: u32,
)
    requires
        view_wf(v),
        in_range(v.width, v.height, i, j),
        lt_bits(d1, d2),
    ensures
        draw_spec(draw_spec(v, i, j, d1, c1), i, j, d2, c2) == draw_spec(v, i, j, d1, c1),
{
    lemma_index_in_plane(v.width, v.height, i, j);
}

/// When a draw lands and a second draw at the same pixel carries a strictly
/// farther depth, the pixel keeps the first draw's color and depth.
pub proof fn lemma_nearer_first_draw_stands(
    v: CanvasView,
    i: int,
    j: int,
    d1: u32,
    c1: u32,
    d2: u32,
    c2: u32,
)
    requires
        view_wf(v),
        in_range(v.width, v.height, i, j),
        lt_bits(d1, d2),
        !le_bits(v.depths[index_of(v.width, v.height, i, j)], d1),
    ensures
        draw_spec(draw_spec(v, i, j, d1, c1), i, j, d2, c2).colors[index_of(
            v.width,
            v.height,
            i,
            j,
        )] == c1,
        draw_spec(draw_spec(v, i, j, d1, c1), i, j, d2, c2).depths[index_of(
            v.width,
            v.height,
            i,
            j,
        )] == d1,
{
    lemma_index_in_plane(v.width, v.height, i, j);
}

/// When a draw lands and a second draw at the same pixel carries a strictly
/// nearer depth, the second draw wins: the pixel takes its color and depth.
pub proof fn lemma_closer_second_draw_wins(
    v: CanvasView,
    i: int,
    j: int,
    d1: u32,
    c1: u32,
    d2: u32,
    c2: u32,
)
    requires
        view_wf(v),
        in_range(v.width, v.height, i, j),
        lt_bits(d2, d1),
        !le_bits(v.depths[index_of(v.width, v.height, i, j)], d1),
    ensures
        draw_spec(draw_spec(v, i, j, d1, c1), i, j, d2, c2).colors[index_of(
            v.width,
            v.height,
            i,
            j,
        )] == c2,
        draw_spec(draw_spec(v, i, j, d1, c1), i, j, d2, c2).depths[index_of(
            v.width,
            v.height,
            i,
            j,
        )] == d2,
{
    lemma_index_in_plane(v.width, v.height, i, j);
}

/// A second draw at exactly the depth a first draw left is rejected: ties
/// favor the first writer, whether or not that first draw itself landed.
pub proof fn lemma_equal_depth_second_rejected(
    v: CanvasView,
    i: int,
    j: int,
    d: u32,
    c1: u32,
    c2: u32,
)
    requires
        view_wf(v),
        in_range(v.width, v.height, i, j),
        !is_nan_bits(d),
    ensures
        draw_spec(draw_spec(v, i, j, d, c1), i, j, d, c2) == draw_spec(v, i, j, d, c1),
{
    lemma_index_in_plane(v.width, v.height, i, j);
}

/// Once a pixel's depth cell holds a NaN pattern, every draw to it lands,
/// whatever depth it carries: the sentinel disables the depth test at that
/// pixel until a write stores a comparable depth again.
pub proof fn lemma_nan_sentinel_disables_test(v: CanvasView, i: int, j: int, z: u32, c: u32)
    requires
        view_wf(v),
        in_range(v.width, v.height, i, j),
        is_nan_bits(v.depths[index_of(v.width, v.height, i, j)]),
    ensures
        draw_spec(v, i, j, z, c).colors[index_of(v.width, v.height, i, j)] == c,
        draw_spec(v, i, j, z, c).depths[index_of(v.width, v.height, i, j)] == z,
{
    lemma_index_in_plane(v.width, v.height, i, j);
}

} // verus!
