//! Pixels, the surface they are written to, and the tone mapping that turns a
//! linear colour into a pixel.

use crate::fixed::{fx_max, fx_mul, fx_sqrt, quotient, Fixed, SCALE};
use crate::ray::{Interval, IntervalView};
use crate::vec3::{Vec3, V3};
use vstd::prelude::*;

verus! {

/// The brightest value a channel is allowed before it is quantised, in raw
/// units: `0.999`.
pub const INTENSITY_MAX: i64 = 999_000;

/// One pixel, eight bits per channel.
#[derive(Clone, Copy, Debug, PartialEq, Eq, Structural)]
pub struct Pixel {
    pub b: u8,
    pub g: u8,
    pub r: u8,
}

/// A rectangular surface of pixels. `x` runs from the left edge and `y` from
/// the top edge.
pub trait Canvas {
    /// Whether the surface is in a consistent state.
    spec fn wf(&self) -> bool;

    /// The number of pixels in a row.
    spec fn spec_width(&self) -> int;

    /// The number of rows.
    spec fn spec_height(&self) -> int;

    /// The pixel in column `x` of row `y`.
    spec fn pixel_at(&self, x: int, y: int) -> Pixel;

    /// Stores `pixel` at column `x` of row `y` and leaves every other pixel
    /// as it was.
    fn set_pixel(&mut self, x: u32, y: u32, pixel: Pixel)
        requires
            old(self).wf(),
            x < old(self).spec_width(),
            y < old(self).spec_height(),
        ensures
            final(self).wf(),
            final(self).spec_width() == old(self).spec_width(),
            final(self).spec_height() == old(self).spec_height(),
            final(self).pixel_at(x as int, y as int) == pixel,
            forall|i: int, j: int|
                0 <= i < old(self).spec_width() && 0 <= j < old(self).spec_height() && (i != x
                    || j != y) ==> #[trigger] final(self).pixel_at(i, j) == old(self).pixel_at(
                    i,
                    j,
                ),
    ;

    /// The pixel at column `x` of row `y`.
    fn get_pixel(&self, x: u32, y: u32) -> (pixel: Pixel)
        requires
            self.wf(),
            x < self.spec_width(),
            y < self.spec_height(),
        ensures
            pixel == self.pixel_at(x as int, y as int),
    ;

    /// The number of rows.
    fn height(&self) -> (h: u32)
        ensures
            h == self.spec_height(),
    ;

    /// The number of pixels in a row.
    fn width(&self) -> (w: u32)
        ensures
            w == self.spec_width(),
    ;
}

/// Gamma correction of one channel: the square root of a positive value, and
/// zero otherwise.
pub open spec fn gamma(intensity: int) -> int {
    if intensity > 0 {
        fx_sqrt(intensity)
    } else {
        0
    }
}

/// A gamma-corrected channel held to `[0, 0.999]`.
pub open spec fn toned(intensity: int) -> int {
    (IntervalView { low: 0, high: INTENSITY_MAX as int }).clamp(gamma(intensity))
}

/// The whole part of `256 * value`.
pub open spec fn quantized(value: int) -> int {
    quotient(fx_mul(256 * SCALE, value), SCALE as int)
}

/// The eight-bit value of one linear channel.
pub open spec fn channel(intensity: int) -> int {
    quantized(toned(intensity))
}

/// The brightest of the three channels of a colour.
pub open spec fn brightest(color: V3) -> int {
    fx_max(color.x, fx_max(color.y, color.z))
}

/// The pixel of a linear colour. Where its brightest channel is above one,
/// every channel is first divided by the brightest.
pub open spec fn pixel_of(color: V3) -> Pixel {
    let c = if brightest(color) > SCALE {
        color.shrunk(brightest(color))
    } else {
        color
    };
    Pixel { r: channel(c.x) as u8, g: channel(c.y) as u8, b: channel(c.z) as u8 }
}

/// A channel's eight-bit value fits in eight bits.
pub proof fn lemma_channel_is_byte(intensity: int)
    ensures
        0 <= channel(intensity) <= 255,
{
    let t = toned(intensity);
    assert(0 <= t <= INTENSITY_MAX);
    assert(256 * SCALE * t == 256_000_000 * t);
    assert(quotient(256 * SCALE * t, SCALE as int) == 256 * t);
}

/// Turns a linear colour into a pixel: the channels are divided by the
/// brightest of them where that is above one, gamma-corrected, held to
/// `[0, 0.999]` and quantised to `floor(256 * value)`.
pub fn to_pixel(color_vec: Vec3) -> (pixel: Pixel)
    ensures
        pixel == pixel_of(color_vec@),
{
    let max_val = color_vec.x.max(color_vec.y.max(color_vec.z));
    let c = if max_val > Fixed::one() {
        color_vec.shrunk(max_val)
    } else {
        color_vec
    };
    Pixel { r: channel_byte(c.x), g: channel_byte(c.y), b: channel_byte(c.z) }
}

/// The eight-bit value of one linear channel.
fn channel_byte(intensity: Fixed) -> (byte: u8)
    ensures
        byte == channel(intensity@),
{
    let range = Interval::new(Fixed::zero(), Fixed::from_raw(INTENSITY_MAX));
    let value = range.clamp(linear_to_gamma(intensity));
    proof {
        lemma_channel_is_byte(intensity@);
    }
    let scaled = Fixed::from_int(256) * value;
    scaled.trunc() as u8
}

/// Gamma correction of one channel.
fn linear_to_gamma(intensity: Fixed) -> (r: Fixed)
    ensures
        r@ == gamma(intensity@),
{
    if intensity > Fixed::zero() {
        return intensity.sqrt();
    }
    Fixed::zero()
}

} // verus!
