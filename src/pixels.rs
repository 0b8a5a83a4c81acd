use vstd::prelude::*;
use vstd::arithmetic::div_mod::{lemma_div_is_ordered, lemma_div_by_multiple};
use vstd::arithmetic::mul::lemma_mul_inequality;

use crate::minmax::{seq_max, seq_min, MinMaxValues};

verus! {

/// Averages are fixed-point numbers with this many fractional bits.
pub const FRACTION_BITS: u32 = 24;

/// The fixed-point representation of `1`.
pub const FIXED_ONE: u128 = 16777216;

/// Number of whole RGB pixels in a raw 8-bit RGB raster.
pub open spec fn pixel_count(raster: Seq<u8>) -> nat {
    raster.len() / 3
}

/// The readings of one channel (`0` red, `1` green, `2` blue), pixel by pixel.
pub open spec fn channel_values(raster: Seq<u8>, channel: int) -> Seq<u32> {
    Seq::new(pixel_count(raster), |i: int| raster[3 * i + channel] as u32)
}

/// Sum of a sequence of readings.
pub open spec fn channel_total(s: Seq<u32>) -> int
    decreases s.len(),
{
    if s.len() == 0 {
        0
    } else {
        channel_total(s.drop_last()) + s.last()
    }
}

/// `total / count` in fixed point, rounded down.
pub open spec fn fixed_mean(total: int, count: int) -> int {
    (total * FIXED_ONE) / count
}

/// The fixed-point average of a sequence of readings.
pub open spec fn fixed_average(s: Seq<u32>) -> int {
    fixed_mean(channel_total(s), s.len() as int)
}

/// Per-image channel summary: the averages (fixed point, `FRACTION_BITS`
/// fractional bits) and the per-pixel extremes of each channel.
#[derive(Debug, Clone, Copy, PartialEq, Eq)]
pub struct PixelDescription {
    pub r_avg: u32,
    pub g_avg: u32,
    pub b_avg: u32,
    pub r_val: MinMaxValues,
    pub g_val: MinMaxValues,
    pub b_val: MinMaxValues,
}

impl PixelDescription {
    /// The summary of one channel's readings `s` is `avg` and `range`.
    pub open spec fn channel_summary(avg: u32, range: MinMaxValues, s: Seq<u32>) -> bool {
        &&& avg == fixed_average(s)
        &&& range.covers(s)
    }

    /// This is the summary of the raster `raster`.
    pub open spec fn describes(self, raster: Seq<u8>) -> bool {
        &&& Self::channel_summary(self.r_avg, self.r_val, channel_values(raster, 0))
        &&& Self::channel_summary(self.g_avg, self.g_val, channel_values(raster, 1))
        &&& Self::channel_summary(self.b_avg, self.b_val, channel_values(raster, 2))
    }

    /// Each average lies within its channel's extremes.
    pub open spec fn averages_within_ranges(self) -> bool {
        &&& self.r_val.min * FIXED_ONE <= self.r_avg <= self.r_val.max * FIXED_ONE
        &&& self.g_val.min * FIXED_ONE <= self.g_avg <= self.g_val.max * FIXED_ONE
        &&& self.b_val.min * FIXED_ONE <= self.b_avg <= self.b_val.max * FIXED_ONE
    }
}

/// The codec's error: an unreadable, corrupt or unsupported image.
#[verifier::external_type_specification]
#[verifier::external_body]
pub struct ExImageError(image::ImageError);

/// Why an image yields no `PixelDescription`.
#[derive(Debug)]
pub enum DecodeError {
    /// The codec could not decode the image.
    Codec(image::ImageError),
    /// The raster holds no whole pixel, so it has no average.
    NoPixels,
}

/// The 8-bit RGB raster that the codec decodes from an encoded image, or
/// `None` where it fails.
pub uninterp spec fn decoded_rgb8(encoded: Seq<u8>) -> Option<Seq<u8>>;

/// Relies on `image::load_from_memory`, which guesses the format from the
/// bytes and decodes the whole image or fails, and on
/// `DynamicImage::to_rgb8` with `ImageBuffer::into_raw`, which give its
/// pixels as 8-bit RGB bytes. The outcome depends on the bytes alone.
#[verifier::external_body]
fn decode_rgb8(encoded: &[u8]) -> (r: Result<Vec<u8>, image::ImageError>)
    ensures
        match decoded_rgb8(encoded@) {
            Some(raster) => r is Ok && r->Ok_0@ == raster,
            None => r is Err,
        },
{
    match image::load_from_memory(encoded) {
        Ok(decoded) => Ok(decoded.to_rgb8().into_raw()),
        Err(e) => Err(e),
    }
}

proof fn lemma_total_bounds(s: Seq<u32>)
    requires
        s.len() > 0,
    ensures
        seq_min(s) * s.len() <= channel_total(s) <= seq_max(s) * s.len(),
    decreases s.len(),
{
    let t = s.drop_last();
    if s.len() > 1 {
        lemma_total_bounds(t);
        let n = t.len() as int;
        lemma_mul_inequality(seq_min(s) as int, seq_min(t) as int, n);
        lemma_mul_inequality(seq_max(t) as int, seq_max(s) as int, n);
        assert(seq_min(s) * s.len() == seq_min(s) * n + seq_min(s)) by (nonlinear_arith)
            requires s.len() == n + 1;
        assert(seq_max(s) * s.len() == seq_max(s) * n + seq_max(s)) by (nonlinear_arith)
            requires s.len() == n + 1;
        assert(channel_total(s) == channel_total(t) + s.last());
    } else {
        assert(t.len() == 0);
        assert(channel_total(t) == 0);
        assert(channel_total(s) == s[0]);
    }
}

/// The fixed-point average of non-empty readings lies within their extremes.
pub proof fn lemma_average_within_extremes(s: Seq<u32>)
    requires
        s.len() > 0,
    ensures
        seq_min(s) * FIXED_ONE <= fixed_average(s) <= seq_max(s) * FIXED_ONE,
{
    let n = s.len() as int;
    let t = channel_total(s);
    lemma_total_bounds(s);
    lemma_mul_inequality(seq_min(s) * n, t, FIXED_ONE as int);
    lemma_mul_inequality(t, seq_max(s) * n, FIXED_ONE as int);
    assert(seq_min(s) * n * FIXED_ONE == (seq_min(s) * FIXED_ONE) * n) by (nonlinear_arith);
    assert(seq_max(s) * n * FIXED_ONE == (seq_max(s) * FIXED_ONE) * n) by (nonlinear_arith);
    lemma_div_is_ordered((seq_min(s) * FIXED_ONE) * n, t * FIXED_ONE, n);
    lemma_div_is_ordered(t * FIXED_ONE, (seq_max(s) * FIXED_ONE) * n, n);
    lemma_div_by_multiple(seq_min(s) * FIXED_ONE, n);
    lemma_div_by_multiple(seq_max(s) * FIXED_ONE, n);
}

/// For every image, each channel's average lies within that channel's
/// extremes for the image.
pub proof fn lemma_image_averages_within_ranges(d: PixelDescription, raster: Seq<u8>)
    requires
        d.describes(raster),
        pixel_count(raster) > 0,
    ensures
        d.averages_within_ranges(),
{
    lemma_average_within_extremes(channel_values(raster, 0));
    lemma_average_within_extremes(channel_values(raster, 1));
    lemma_average_within_extremes(channel_values(raster, 2));
}

fn fixed_average_of(total: u128, count: usize) -> (r: u32)
    requires
        count > 0,
        total <= 255 * count,
    ensures
        r == fixed_mean(total as int, count as int),
{
    let n = count as u128;
    assert(total * FIXED_ONE <= 255 * FIXED_ONE * n) by (nonlinear_arith)
        requires total <= 255 * n;
    let r = (total * FIXED_ONE) / n;
    proof {
        lemma_div_is_ordered(total * FIXED_ONE, (255 * FIXED_ONE) * n, n as int);
        lemma_div_by_multiple(255 * FIXED_ONE, n as int);
    }
    r as u32
}

/// Summarises a raw 8-bit RGB raster (three bytes per pixel, red first) in a
/// single pass over its pixels. A trailing partial pixel is ignored.
pub fn describe_rgb8(raster: &[u8]) -> (r: Result<PixelDescription, DecodeError>)
    ensures
        r is Err <==> pixel_count(raster@) == 0,
        r is Err ==> r->Err_0 is NoPixels,
        r is Ok ==> r->Ok_0.describes(raster@) && r->Ok_0.averages_within_ranges(),
{
    let n: usize = raster.len() / 3;
    if n == 0 {
        return Err(DecodeError::NoPixels);
    }
    let ghost rs = channel_values(raster@, 0);
    let ghost gs = channel_values(raster@, 1);
    let ghost bs = channel_values(raster@, 2);
    let mut r_sum: u128 = 0;
    let mut g_sum: u128 = 0;
    let mut b_sum: u128 = 0;
    let mut r_val = MinMaxValues::empty();
    let mut g_val = MinMaxValues::empty();
    let mut b_val = MinMaxValues::empty();
    let mut i: usize = 0;
    while i < n
        invariant
            n == pixel_count(raster@),
            3 * n <= raster@.len(),
            rs == channel_values(raster@, 0),
            gs == channel_values(raster@, 1),
            bs == channel_values(raster@, 2),
            i <= n,
            r_sum == channel_total(rs.subrange(0, i as int)),
            g_sum == channel_total(gs.subrange(0, i as int)),
            b_sum == channel_total(bs.subrange(0, i as int)),
            r_sum <= 255 * i,
            g_sum <= 255 * i,
            b_sum <= 255 * i,
            r_val.covers(rs.subrange(0, i as int)),
            g_val.covers(gs.subrange(0, i as int)),
            b_val.covers(bs.subrange(0, i as int)),
        decreases n - i,
    {
        assert(3 * i + 2 < raster@.len() && raster@.len() == raster.len());
        let red = raster[3 * i] as u32;
        let green = raster[3 * i + 1] as u32;
        let blue = raster[3 * i + 2] as u32;
        proof {
            let k = i as int;
            assert(rs.subrange(0, k + 1).drop_last() =~= rs.subrange(0, k));
            assert(gs.subrange(0, k + 1).drop_last() =~= gs.subrange(0, k));
            assert(bs.subrange(0, k + 1).drop_last() =~= bs.subrange(0, k));
            assert(rs.subrange(0, k + 1).last() == red);
            assert(gs.subrange(0, k + 1).last() == green);
            assert(bs.subrange(0, k + 1).last() == blue);
        }
        r_sum = r_sum + red as u128;
        g_sum = g_sum + green as u128;
        b_sum = b_sum + blue as u128;
        r_val.observe(red);
        g_val.observe(green);
        b_val.observe(blue);
        i = i + 1;
    }
    assert(rs.subrange(0, n as int) =~= rs);
    assert(gs.subrange(0, n as int) =~= gs);
    assert(bs.subrange(0, n as int) =~= bs);
    let d = PixelDescription {
        r_avg: fixed_average_of(r_sum, n),
        g_avg: fixed_average_of(g_sum, n),
        b_avg: fixed_average_of(b_sum, n),
        r_val,
        g_val,
        b_val,
    };
    proof {
        lemma_image_averages_within_ranges(d, raster@);
    }
    Ok(d)
}

/// Decodes an encoded image (its file's bytes) to 8-bit RGB and summarises
/// its channels. Fails when the codec fails or the image has no pixel.
pub fn get_pixels_description(encoded: &[u8]) -> (r: Result<PixelDescription, DecodeError>)
    ensures
        match decoded_rgb8(encoded@) {
            None => r is Err && r->Err_0 is Codec,
            Some(raster) => {
                &&& (r is Err && r->Err_0 is NoPixels) <==> pixel_count(raster) == 0
                &&& r is Ok <==> pixel_count(raster) > 0
                &&& r is Ok ==> r->Ok_0.describes(raster) && r->Ok_0.averages_within_ranges()
            },
        },
{
    match decode_rgb8(encoded) {
        Ok(raster) => describe_rgb8(raster.as_slice()),
        Err(e) => Err(DecodeError::Codec(e)),
    }
}

} // verus!
