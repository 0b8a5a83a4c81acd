use vstd::prelude::*;
use vstd::arithmetic::div_mod::{lemma_div_is_ordered, lemma_div_by_multiple};
use vstd::arithmetic::mul::lemma_mul_inequality;

use rayon::iter::{IntoParallelRefIterator, ParallelIterator};

use crate::minmax::MinMaxValues;
use crate::pixels::PixelDescription;

verus! {

/// Sum of a sequence of per-image values.
pub open spec fn total(s: Seq<u64>) -> int
    decreases s.len(),
{
    if s.len() == 0 {
        0
    } else {
        total(s.drop_last()) + s.last()
    }
}

/// One channel's average (`0` red, `1` green, `2` blue) of each image.
pub open spec fn channel_averages(images: Seq<PixelDescription>, channel: int) -> Seq<u64> {
    Seq::new(
        images.len(),
        |i: int|
            if channel == 0 {
                images[i].r_avg as u64
            } else if channel == 1 {
                images[i].g_avg as u64
            } else {
                images[i].b_avg as u64
            },
    )
}

/// Mean of per-image averages, in fixed point, rounded down.
pub open spec fn dataset_mean(a: Seq<u64>) -> int {
    total(a) / (a.len() as int)
}

/// `(x - mean)^2`.
pub open spec fn squared_deviation(x: int, mean: int) -> int {
    (x - mean) * (x - mean)
}

/// The squared deviation of each per-image average from `mean`.
pub open spec fn deviation_terms(a: Seq<u64>, mean: int) -> Seq<u64> {
    Seq::new(a.len(), |i: int| squared_deviation(a[i] as int, mean) as u64)
}

/// Population variance of per-image averages (divisor `n`), in fixed point
/// with twice the fractional bits, rounded down.
pub open spec fn dataset_variance(a: Seq<u64>) -> int {
    total(deviation_terms(a, dataset_mean(a))) / (a.len() as int)
}

/// `r` is the integer square root of `x`.
pub open spec fn is_int_sqrt(r: int, x: int) -> bool {
    0 <= r && r * r <= x < (r + 1) * (r + 1)
}

/// First component of each probed image size.
pub open spec fn first_dims(dims: Seq<(u32, u32)>) -> Seq<u32> {
    Seq::new(dims.len(), |i: int| dims[i].0)
}

/// Second component of each probed image size.
pub open spec fn second_dims(dims: Seq<(u32, u32)>) -> Seq<u32> {
    Seq::new(dims.len(), |i: int| dims[i].1)
}

/// Dataset-level channel statistics, in fixed point with
/// `FRACTION_BITS` fractional bits: the mean and the population standard
/// deviation of the per-image channel averages.
#[derive(Debug, Clone, Copy, PartialEq, Eq)]
pub struct DatasetPixelDescription {
    pub r_avg: u32,
    pub g_avg: u32,
    pub b_avg: u32,
    pub r_std: u32,
    pub g_std: u32,
    pub b_std: u32,
}

impl DatasetPixelDescription {
    /// `avg` and `std` are the mean and standard deviation of `a`.
    pub open spec fn channel_summary(avg: u32, std: u32, a: Seq<u64>) -> bool {
        &&& avg == dataset_mean(a)
        &&& is_int_sqrt(std as int, dataset_variance(a))
    }

    /// This summarises the per-image descriptions `images`.
    pub open spec fn summarizes(self, images: Seq<PixelDescription>) -> bool {
        &&& Self::channel_summary(self.r_avg, self.r_std, channel_averages(images, 0))
        &&& Self::channel_summary(self.g_avg, self.g_std, channel_averages(images, 1))
        &&& Self::channel_summary(self.b_avg, self.b_std, channel_averages(images, 2))
    }
}

/// The summary of a whole dataset.
#[derive(Debug, Clone, Copy, PartialEq, Eq)]
pub struct DatasetDescription {
    pub pixels_description: DatasetPixelDescription,
    /// Range of the first size component of each image, as the probe
    /// reports it.
    pub images_height: MinMaxValues,
    /// Range of the second size component of each image.
    pub images_length: MinMaxValues,
    /// Number of described images.
    pub size: usize,
}

/// Why a dataset has no summary.
#[derive(Debug, Clone, Copy, PartialEq, Eq)]
pub enum AggregationError {
    /// No image was described, so mean and deviation are undefined.
    NoImages,
}

/// Every value of `s` is at most `bound`.
pub open spec fn all_at_most(s: Seq<u64>, bound: int) -> bool {
    forall|i: int| 0 <= i < s.len() ==> #[trigger] s[i] <= bound
}

proof fn lemma_total_at_most(s: Seq<u64>, bound: int)
    requires
        all_at_most(s, bound),
    ensures
        0 <= total(s),
        total(s) <= bound * s.len(),
    decreases s.len(),
{
    if s.len() == 0 {
        assert(bound * s.len() == 0) by (nonlinear_arith)
            requires s.len() == 0;
    } else {
        let t = s.drop_last();
        assert(all_at_most(t, bound)) by {
            assert forall|i: int| 0 <= i < t.len() implies #[trigger] t[i] <= bound by {
                assert(t[i] == s[i]);
            }
        }
        lemma_total_at_most(t, bound);
        assert(s.last() == s[s.len() - 1]);
        assert(total(s) == total(t) + s.last());
        assert(bound * s.len() == bound * t.len() + bound) by (nonlinear_arith)
            requires s.len() == t.len() + 1;
    }
}

/// Totals add up over any split of the items: a reduction that hands parts
/// of the items to different workers and adds their partial totals gets the
/// same result as a single sequential pass.
pub proof fn lemma_total_split(a: Seq<u64>, b: Seq<u64>)
    ensures
        total(a + b) == total(a) + total(b),
    decreases b.len(),
{
    if b.len() == 0 {
        assert(a + b =~= a);
    } else {
        assert((a + b).drop_last() =~= a + b.drop_last());
        lemma_total_split(a, b.drop_last());
    }
}

proof fn lemma_single_value(a: Seq<u64>, avg: u32, std: u32)
    requires
        a.len() == 1,
        DatasetPixelDescription::channel_summary(avg, std, a),
    ensures
        avg == a[0],
        std == 0,
{
    assert(a.drop_last().len() == 0);
    assert(total(a.drop_last()) == 0);
    assert(total(a) == a[0]);
    let terms = deviation_terms(a, a[0] as int);
    assert(terms.drop_last().len() == 0);
    assert(total(terms.drop_last()) == 0);
    assert(terms[0] == 0);
    assert(total(terms) == 0);
    assert(dataset_variance(a) == 0);
    let r = std as int;
    assert(r == 0) by (nonlinear_arith)
        requires 0 <= r, r * r <= 0;
}

/// A dataset of exactly one image has that image's averages as its means and
/// a standard deviation of exactly zero in every channel.
pub proof fn lemma_single_image_has_no_deviation(
    images: Seq<PixelDescription>,
    d: DatasetPixelDescription,
)
    requires
        images.len() == 1,
        d.summarizes(images),
    ensures
        d.r_avg == images[0].r_avg,
        d.g_avg == images[0].g_avg,
        d.b_avg == images[0].b_avg,
        d.r_std == 0,
        d.g_std == 0,
        d.b_std == 0,
{
    lemma_single_value(channel_averages(images, 0), d.r_avg, d.r_std);
    lemma_single_value(channel_averages(images, 1), d.g_avg, d.g_std);
    lemma_single_value(channel_averages(images, 2), d.b_avg, d.b_std);
}

proof fn lemma_int_sqrt_unique(r1: int, r2: int, x: int)
    requires
        is_int_sqrt(r1, x),
        is_int_sqrt(r2, x),
    ensures
        r1 == r2,
{
    if r1 < r2 {
        assert((r1 + 1) * (r1 + 1) <= r2 * r2) by (nonlinear_arith)
            requires 0 <= r1, r1 + 1 <= r2;
    } else if r2 < r1 {
        assert((r2 + 1) * (r2 + 1) <= r1 * r1) by (nonlinear_arith)
            requires 0 <= r2, r2 + 1 <= r1;
    }
}

/// The dataset statistics are a function of the per-image descriptions
/// alone: two runs over the same images, in whatever order of reduction and
/// on however many threads, give identical results.
pub proof fn lemma_summary_is_unique(
    images: Seq<PixelDescription>,
    d1: DatasetPixelDescription,
    d2: DatasetPixelDescription,
)
    requires
        d1.summarizes(images),
        d2.summarizes(images),
    ensures
        d1 == d2,
{
    lemma_int_sqrt_unique(d1.r_std as int, d2.r_std as int, dataset_variance(channel_averages(images, 0)));
    lemma_int_sqrt_unique(d1.g_std as int, d2.g_std as int, dataset_variance(channel_averages(images, 1)));
    lemma_int_sqrt_unique(d1.b_std as int, d2.b_std as int, dataset_variance(channel_averages(images, 2)));
}

/// Relies on rayon's `ParallelIterator::sum`: the items are added in parallel
/// in some grouping, and as all partial sums of non-negative integers stay at
/// most the full total, the result is that exact total.
#[verifier::external_body]
fn par_total(values: &Vec<u64>) -> (r: u128)
    requires
        total(values@) <= u128::MAX,
    ensures
        r == total(values@),
{
    values.par_iter().map(|v| *v as u128).sum::<u128>()
}

/// The integer square root of `x`, by bisection.
pub fn integer_sqrt(x: u64) -> (r: u32)
    ensures
        is_int_sqrt(r as int, x as int),
{
    let mut lo: u64 = 0;
    let mut hi: u64 = 4294967296;
    assert(x < hi * hi) by (nonlinear_arith)
        requires hi == 4294967296, x <= u64::MAX;
    while hi - lo > 1
        invariant
            lo < hi <= 4294967296,
            lo * lo <= x,
            x < hi * hi,
        decreases hi - lo,
    {
        let mid = lo + (hi - lo) / 2;
        assert(mid * mid <= u64::MAX) by (nonlinear_arith)
            requires mid < 4294967296;
        if mid * mid <= x {
            lo = mid;
        } else {
            hi = mid;
        }
    }
    lo as u32
}

fn channel_stats(a: &Vec<u64>) -> (r: (u32, u32))
    requires
        a@.len() > 0,
        all_at_most(a@, u32::MAX as int),
    ensures
        DatasetPixelDescription::channel_summary(r.0, r.1, a@),
{
    let n = a.len() as u128;
    proof {
        lemma_total_at_most(a@, u32::MAX as int);
        lemma_mul_inequality(u32::MAX as int, u32::MAX as int, a@.len() as int);
    }
    // First pass: the mean, which the second pass needs complete.
    let sum = par_total(a);
    let mean = sum / n;
    proof {
        lemma_div_is_ordered(sum as int, u32::MAX * n, n as int);
        lemma_div_by_multiple(u32::MAX as int, n as int);
    }
    let mean = mean as u64;
    let mut terms: Vec<u64> = Vec::new();
    let mut i: usize = 0;
    while i < a.len()
        invariant
            i <= a@.len(),
            mean == dataset_mean(a@),
            mean <= u32::MAX,
            all_at_most(a@, u32::MAX as int),
            terms@ =~= deviation_terms(a@, mean as int).subrange(0, i as int),
        decreases a@.len() - i,
    {
        let x = a[i];
        let d: u64 = if x >= mean { x - mean } else { mean - x };
        assert(d * d <= u64::MAX) by (nonlinear_arith)
            requires d <= u32::MAX;
        assert(d * d == squared_deviation(x as int, mean as int)) by (nonlinear_arith)
            requires d == x - mean || d == mean - x;
        terms.push(d * d);
        i = i + 1;
    }
    assert(terms@ =~= deviation_terms(a@, mean as int));
    let ghost bound: int = u64::MAX as int;
    proof {
        lemma_total_at_most(terms@, bound);
        lemma_mul_inequality(terms@.len() as int, bound, bound);
        assert(bound * terms@.len() == terms@.len() * bound) by (nonlinear_arith);
    }
    // Second pass: the squared deviations from the finished mean.
    let deviations = par_total(&terms);
    let variance = deviations / n;
    proof {
        let dev_bound: int = u32::MAX * u32::MAX;
        assert(all_at_most(terms@, dev_bound)) by {
            assert forall|j: int| 0 <= j < terms@.len() implies #[trigger] terms@[j] <= dev_bound by {
                let x = a@[j] as int;
                let m = mean as int;
                assert(0 <= x <= u32::MAX && 0 <= m <= u32::MAX);
                assert(squared_deviation(x, m) <= dev_bound) by (nonlinear_arith)
                    requires 0 <= x <= u32::MAX, 0 <= m <= u32::MAX, dev_bound == u32::MAX * u32::MAX;
                assert(0 <= squared_deviation(x, m)) by (nonlinear_arith);
            }
        }
        lemma_total_at_most(terms@, dev_bound);
        lemma_div_is_ordered(deviations as int, dev_bound * n, n as int);
        lemma_div_by_multiple(dev_bound, n as int);
    }
    let std = integer_sqrt(variance as u64);
    (mean as u32, std)
}

/// Summarises a dataset from the probed size of each image and the
/// description of each image. The mean of each channel is computed first and
/// finished before the second pass over the same descriptions sums the
/// squared deviations from it.
pub fn get_dataset_description(
    dims: &Vec<(u32, u32)>,
    images: &Vec<PixelDescription>,
) -> (r: Result<DatasetDescription, AggregationError>)
    ensures
        r is Err <==> images@.len() == 0,
        r is Ok ==> ({
            let d = r->Ok_0;
            &&& d.size == images@.len()
            &&& d.pixels_description.summarizes(images@)
            &&& d.images_height.covers(first_dims(dims@))
            &&& d.images_length.covers(second_dims(dims@))
        }),
{
    if images.len() == 0 {
        return Err(AggregationError::NoImages);
    }
    let mut height = MinMaxValues::empty();
    let mut length = MinMaxValues::empty();
    let mut i: usize = 0;
    while i < dims.len()
        invariant
            i <= dims@.len(),
            height.covers(first_dims(dims@).subrange(0, i as int)),
            length.covers(second_dims(dims@).subrange(0, i as int)),
        decreases dims@.len() - i,
    {
        let (h, l) = dims[i];
        proof {
            let k = i as int;
            assert(first_dims(dims@).subrange(0, k + 1).drop_last() =~= first_dims(dims@).subrange(0, k));
            assert(second_dims(dims@).subrange(0, k + 1).drop_last() =~= second_dims(dims@).subrange(0, k));
        }
        height.observe(h);
        length.observe(l);
        i = i + 1;
    }
    assert(first_dims(dims@).subrange(0, dims@.len() as int) =~= first_dims(dims@));
    assert(second_dims(dims@).subrange(0, dims@.len() as int) =~= second_dims(dims@));

    let mut reds: Vec<u64> = Vec::new();
    let mut greens: Vec<u64> = Vec::new();
    let mut blues: Vec<u64> = Vec::new();
    let mut j: usize = 0;
    while j < images.len()
        invariant
            j <= images@.len(),
            reds@ =~= channel_averages(images@, 0).subrange(0, j as int),
            greens@ =~= channel_averages(images@, 1).subrange(0, j as int),
            blues@ =~= channel_averages(images@, 2).subrange(0, j as int),
        decreases images@.len() - j,
    {
        reds.push(images[j].r_avg as u64);
        greens.push(images[j].g_avg as u64);
        blues.push(images[j].b_avg as u64);
        j = j + 1;
    }
    assert(reds@ =~= channel_averages(images@, 0));
    assert(greens@ =~= channel_averages(images@, 1));
    assert(blues@ =~= channel_averages(images@, 2));
    let (r_avg, r_std) = channel_stats(&reds);
    let (g_avg, g_std) = channel_stats(&greens);
    let (b_avg, b_std) = channel_stats(&blues);
    Ok(DatasetDescription {
        pixels_description: DatasetPixelDescription { r_avg, g_avg, b_avg, r_std, g_std, b_std },
        images_height: height,
        images_length: length,
        size: images.len(),
    })
}

} // verus!
