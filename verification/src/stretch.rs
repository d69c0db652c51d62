//! Automatic tone stretch.
//!
//! The analysis pass ranks every sample of the image (all channels
//! mixed, deliberately: the sorted middle sample is a cheap proxy for
//! a luminance histogram), takes the middle one as the midtone, and
//! reads the global luminance minimum and maximum.  A gamma exponent
//! is derived from the midtone; applying the stretch normalizes every
//! sample, raises it to the inverse gamma, and clamps it to `[0, 1]`.
//!
//! A constant image would make the normalization divide by zero; the
//! policy here is to detect that during analysis and report it as
//! `NumericDegenerate`, so the stretch is skipped for such images.

use vstd::prelude::*;
use vstd::relations::sorted_by;
use vstd::relations::total_ordering;
use vstd::seq_lib::lemma_sorted_unique;

use crate::PipeError;
use crate::buffer::PixelBuffer;
use crate::buffer::SAMPLE_ABS;
use crate::numeric::SCALE;
use crate::numeric::clamp_unit;
use crate::numeric::fixed_pow;
use crate::numeric::floor_div_i64;
use crate::numeric::spec_clamp_unit;
use crate::numeric::spec_fixed_pow;
use crate::numeric::lemma_fixed_pow_zero;
use crate::numeric::lemma_fixed_pow_one;
use crate::numeric::lemma_fixed_pow_mono;

verus! {

/// The order by which samples are ranked for the median.
pub open spec fn sample_order() -> spec_fn(i64, i64) -> bool {
    |a: i64, b: i64| a <= b
}

/// All samples of a buffer, in ascending order.
pub open spec fn sorted_samples(s: Seq<i64>) -> Seq<i64> {
    s.sort_by(sample_order())
}

/// Ranking samples by `<=` is a total order.
proof fn lemma_sample_order_total()
    ensures
        total_ordering(sample_order()),
{
    let r = sample_order();
    assert forall|x: i64, y: i64| #[trigger] r(x, y) || #[trigger] r(y, x) by {}
}

/// Luminance of one RGB pixel, in thousandths (CCIR 709 weights).
pub open spec fn spec_lum(r: int, g: int, b: int) -> int {
    (2126 * r + 7152 * g + 722 * b) / 10000
}

/// Luminance of pixel `p` of a three-channel buffer.
pub open spec fn lum_at(b: &PixelBuffer, p: int) -> int {
    spec_lum(b.samples()[3 * p] as int, b.samples()[3 * p + 1] as int, b.samples()[3 * p + 2] as int)
}

/// `m` is the smallest luminance of the buffer.
pub open spec fn is_lum_min(b: &PixelBuffer, m: int) -> bool {
    &&& forall|p: int| 0 <= p < b.samples().len() / 3 ==> m <= #[trigger] lum_at(b, p)
    &&& exists|p: int| 0 <= p < b.samples().len() / 3 && m == #[trigger] lum_at(b, p)
}

/// `m` is the largest luminance of the buffer.
pub open spec fn is_lum_max(b: &PixelBuffer, m: int) -> bool {
    &&& forall|p: int| 0 <= p < b.samples().len() / 3 ==> m >= #[trigger] lum_at(b, p)
    &&& exists|p: int| 0 <= p < b.samples().len() / 3 && m == #[trigger] lum_at(b, p)
}

/// The gamma exponent, in millionths, derived from a midtone in
/// thousandths: no correction on a mid-gray median, a brightening
/// exponent capped at 1.5 below it, a darkening exponent floored at
/// 0.01 above it.
pub open spec fn spec_gamma(m: int) -> int {
    if m == 500 {
        1_000_000
    } else if m < 500 {
        let g = 1_000_000 + 1200 * (1000 - 2 * m);
        if g > 1_500_000 {
            1_500_000
        } else {
            g
        }
    } else {
        let g = (2000 - 2 * m) * 1000;
        if g < 10_000 {
            10_000
        } else {
            g
        }
    }
}

/// The gamma exponent always lies in `[0.01, 1.5]`, and is exactly
/// 1 precisely when the midtone is exactly mid-gray.
pub proof fn lemma_gamma_range(m: int)
    ensures
        10_000 <= spec_gamma(m) <= 1_500_000,
        spec_gamma(m) == 1_000_000 <==> m == 500,
{
}

/// Relies on rayon's `par_sort_unstable` for `[i64]`: it sorts the
/// slice in place in parallel, so afterwards the vector is ordered
/// and holds the same samples it held before.
#[verifier::external_body]
fn par_sort(v: &mut Vec<i64>)
    ensures
        final (v)@.len() == old(v)@.len(),
        sorted_by(final (v)@, sample_order()),
        final (v)@.to_multiset() == old(v)@.to_multiset(),
{
    rayon::slice::ParallelSliceMut::par_sort_unstable(v.as_mut_slice());
}

/// The middle sample of the ascending ranking of all samples.
fn median_of(data: &Vec<i64>) -> (r: i64)
    requires
        data@.len() > 0,
    ensures
        r == sorted_samples(data@)[data@.len() as int / 2],
        data@.contains(r),
{
    let n = data.len();
    let mut v: Vec<i64> = Vec::new();
    let mut i: usize = 0;
    while i < n
        invariant
            0 <= i <= n,
            n == data@.len(),
            v@.len() == i,
            forall|j: int| 0 <= j < i ==> v@[j] == data@[j],
        decreases n - i,
    {
        v.push(data[i]);
        i += 1;
    }
    proof {
        assert(v@ =~= data@);
    }
    par_sort(&mut v);
    proof {
        lemma_sample_order_total();
        data@.lemma_sort_by_ensures(sample_order());
        lemma_sorted_unique(v@, data@.sort_by(sample_order()), sample_order());
        assert(v@ =~= sorted_samples(data@));
    }
    let m = v[v.len() / 2];
    proof {
        broadcast use vstd::seq_lib::group_to_multiset_ensures;

        assert(v@.contains(m));
        assert(v@.to_multiset().contains(m));
        assert(data@.to_multiset().contains(m));
    }
    m
}

/// The derived tone stretch: gamma exponent, midtone, and the input
/// and output shadow and highlight levels.  Computed fresh from one
/// image, applied, then discarded.
#[derive(Debug, Clone, Copy)]
pub struct Stretcher {
    y: i64,
    midtones: i64,
    input_shadow: i64,
    output_shadow: i64,
    input_highlight: i64,
    output_highlight: i64,
}

impl Stretcher {
    /// The gamma exponent, in millionths.
    pub closed spec fn spec_gamma_value(&self) -> int {
        self.y as int
    }

    /// The median sample, in thousandths.
    pub closed spec fn spec_midtones(&self) -> int {
        self.midtones as int
    }

    /// The smallest luminance of the analyzed image.
    pub closed spec fn spec_input_shadow(&self) -> int {
        self.input_shadow as int
    }

    /// The largest luminance of the analyzed image.
    pub closed spec fn spec_input_highlight(&self) -> int {
        self.input_highlight as int
    }

    /// Analysis invariant: the gamma matches the midtone, the input
    /// range is strict, and the output range is the unit interval.
    pub closed spec fn wf(&self) -> bool {
        &&& self.y as int == spec_gamma(self.midtones as int)
        &&& -SAMPLE_ABS <= self.input_shadow < self.input_highlight <= SAMPLE_ABS
        &&& self.output_shadow == 0
        &&& self.output_highlight == SCALE
    }

    /// A sample normalized to thousandths of the input range,
    /// rounded toward minus infinity.
    pub open spec fn spec_normalized(&self, x: int) -> int {
        ((x - self.spec_input_shadow()) * 1000) / (self.spec_input_highlight()
            - self.spec_input_shadow())
    }

    /// The exponent actually applied to normalized samples: the
    /// inverse gamma, in millionths.
    pub open spec fn spec_inv_gamma(&self) -> int {
        1_000_000_000_000int / self.spec_gamma_value()
    }

    /// The whole per-sample remap: normalize to the input range,
    /// clamp to the unit interval, and raise to the inverse gamma
    /// unless the midtone is exactly mid-gray.
    pub open spec fn spec_stretched(&self, x: int) -> int {
        let c = spec_clamp_unit(self.spec_normalized(x));
        if self.spec_midtones() == 500 {
            c
        } else {
            spec_fixed_pow(c, self.spec_inv_gamma())
        }
    }

    /// Analyzes one finished image.
    ///
    /// The midtone is the middle element of the ascending ranking of
    /// all samples of all channels mixed together; the input range is
    /// the global luminance minimum and maximum.  A buffer that is
    /// not three-channel is refused as `UnsupportedColorDepth`; a
    /// constant-luminance image is refused as `NumericDegenerate`,
    /// since no range remains to stretch.
    #[verifier::rlimit(60)]
    pub fn from_image(image: &PixelBuffer) -> (r: Result<Stretcher, PipeError>)
        requires
            image.wf(),
        ensures
            r is Ok <==> (image.spec_channels() == 3 && exists|p: int, q: int|
                0 <= p < image.samples().len() / 3 && 0 <= q < image.samples().len() / 3
                    && #[trigger] lum_at(image, p) != #[trigger] lum_at(image, q)),
            match r {
                Ok(st) => {
                    &&& st.wf()
                    &&& st.spec_midtones() == sorted_samples(image.samples())[
                        image.samples().len() as int / 2]
                    &&& st.spec_gamma_value() == spec_gamma(st.spec_midtones())
                    &&& is_lum_min(image, st.spec_input_shadow())
                    &&& is_lum_max(image, st.spec_input_highlight())
                },
                Err(e) => {
                    &&& (e == PipeError::UnsupportedColorDepth <==> image.spec_channels() != 3)
                    &&& (e == PipeError::UnsupportedColorDepth || e
                        == PipeError::NumericDegenerate)
                },
            },
    {
        if image.channels() != 3 {
            return Err(PipeError::UnsupportedColorDepth);
        }
        let total = image.len();
        let npix = total / 3;
        proof {
            assert(image.samples().len() == image.spec_width() * image.spec_height() * 3);
            assert(image.spec_width() * image.spec_height() >= 1) by (nonlinear_arith)
                requires
                    image.spec_width() >= 1,
                    image.spec_height() >= 1,
            ;
        }
        let mut mn: i64 = lum_of(image, 0);
        let mut mx: i64 = mn;
        let mut p: usize = 1;
        while p < npix
            invariant
                image.wf(),
                image.spec_channels() == 3,
                npix == image.samples().len() / 3,
                1 <= p <= npix,
                forall|q: int| 0 <= q < p ==> mn as int <= #[trigger] lum_at(image, q),
                forall|q: int| 0 <= q < p ==> mx as int >= #[trigger] lum_at(image, q),
                exists|q: int| 0 <= q < p && mn as int == #[trigger] lum_at(image, q),
                exists|q: int| 0 <= q < p && mx as int == #[trigger] lum_at(image, q),
                -SAMPLE_ABS <= mn <= mx <= SAMPLE_ABS,
            decreases npix - p,
        {
            let l = lum_of(image, p);
            if l < mn {
                mn = l;
            }
            if l > mx {
                mx = l;
            }
            p += 1;
        }
        let midtone = median_of(image.data());
        proof {
            let j = choose|j: int| 0 <= j < image.samples().len() && image.samples()[j] == midtone;
            assert(-SAMPLE_ABS <= image.samples()[j] <= SAMPLE_ABS);
        }
        if mn == mx {
            proof {
                assert forall|p: int, q: int|
                    0 <= p < image.samples().len() / 3 && 0 <= q < image.samples().len()
                        / 3 implies #[trigger] lum_at(image, p) == #[trigger] lum_at(image, q) by {
                    assert(mn as int <= lum_at(image, p) <= mx as int);
                    assert(mn as int <= lum_at(image, q) <= mx as int);
                }
            }
            return Err(PipeError::NumericDegenerate);
        }
        proof {
            let pw = choose|q: int| 0 <= q < npix && mn as int == #[trigger] lum_at(image, q);
            let qw = choose|q: int| 0 <= q < npix && mx as int == #[trigger] lum_at(image, q);
            assert(lum_at(image, pw) != lum_at(image, qw));
        }
        let gamma: i64 = if midtone == 500 {
            1_000_000
        } else if midtone < 500 {
            let g = 1_000_000 + 1200 * (1000 - 2 * midtone);
            if g > 1_500_000 {
                1_500_000
            } else {
                g
            }
        } else {
            let g = (2000 - 2 * midtone) * 1000;
            if g < 10_000 {
                10_000
            } else {
                g
            }
        };
        Ok(
            Stretcher {
                y: gamma,
                midtones: midtone,
                input_shadow: mn,
                output_shadow: 0,
                input_highlight: mx,
                output_highlight: SCALE,
            },
        )
    }

    /// The inverse gamma, in millionths: the exponent actually
    /// applied to each normalized sample.
    fn gamma_correction(&self) -> (r: i64)
        requires
            self.wf(),
        ensures
            r == self.spec_inv_gamma(),
            666_666 <= r <= 100_000_000,
    {
        proof {
            lemma_gamma_range(self.midtones as int);
            vstd::arithmetic::div_mod::lemma_div_is_ordered_by_denominator(
                1_000_000_000_000,
                10_000,
                self.y as int,
            );
            vstd::arithmetic::div_mod::lemma_div_is_ordered_by_denominator(
                1_000_000_000_000,
                self.y as int,
                1_500_000,
            );
        }
        floor_div_i64(1_000_000_000_000, self.y)
    }

    /// One sample through the stretch: normalize, raise to the
    /// inverse gamma unless the midtone is exactly mid-gray, and
    /// clamp to the unit range.
    fn apply_sample(&self, x: i64) -> (r: i64)
        requires
            self.wf(),
            -SAMPLE_ABS <= x <= SAMPLE_ABS,
        ensures
            0 <= r <= SCALE,
            r as int == self.spec_stretched(x as int),
    {
        let d = self.input_highlight - self.input_shadow;
        let n = floor_div_i64((x - self.input_shadow) * 1000, d);
        let c = clamp_unit(n);
        if self.midtones == 500 {
            c
        } else {
            let e = self.gamma_correction();
            fixed_pow(c, e as u64)
        }
    }

    /// Remaps every sample of the buffer in place.  The shape is
    /// kept; every output sample is clamped to `[0, 1]`; on a
    /// mid-gray midtone the power curve is skipped entirely and the
    /// remap is the exact normalization.
    pub fn apply(&self, data: &mut PixelBuffer)
        requires
            self.wf(),
            old(data).wf(),
        ensures
            final (data).wf(),
            final (data).spec_width() == old(data).spec_width(),
            final (data).spec_height() == old(data).spec_height(),
            final (data).spec_channels() == old(data).spec_channels(),
            final (data).samples().len() == old(data).samples().len(),
            forall|i: int|
                0 <= i < old(data).samples().len() ==> {
                    let v = #[trigger] final (data).samples()[i] as int;
                    &&& 0 <= v <= SCALE
                    &&& v == self.spec_stretched(old(data).samples()[i] as int)
                },
    {
        let total = data.len();
        let mut i: usize = 0;
        while i < total
            invariant
                self.wf(),
                data.wf(),
                total == data.samples().len(),
                data.samples().len() == old(data).samples().len(),
                data.spec_width() == old(data).spec_width(),
                data.spec_height() == old(data).spec_height(),
                data.spec_channels() == old(data).spec_channels(),
                0 <= i <= total,
                forall|j: int| i <= j < total ==> data.samples()[j] == old(data).samples()[j],
                forall|j: int|
                    0 <= j < i ==> {
                        let v = #[trigger] data.samples()[j] as int;
                        &&& 0 <= v <= SCALE
                        &&& v == self.spec_stretched(old(data).samples()[j] as int)
                    },
            decreases total - i,
        {
            let x = data.get(i);
            let v = self.apply_sample(x);
            data.set(i, v);
            i += 1;
        }
    }

    /// The gamma exponent, in millionths.
    pub fn gamma(&self) -> (r: i64)
        ensures
            r == self.spec_gamma_value(),
    {
        self.y
    }

    /// The midtone the gamma was derived from, in thousandths.
    pub fn midtones_value(&self) -> (r: i64)
        ensures
            r == self.spec_midtones(),
    {
        self.midtones
    }

    /// The smallest luminance of the analyzed image.
    pub fn input_shadow_value(&self) -> (r: i64)
        ensures
            r == self.spec_input_shadow(),
    {
        self.input_shadow
    }

    /// The largest luminance of the analyzed image.
    pub fn input_highlight_value(&self) -> (r: i64)
        ensures
            r == self.spec_input_highlight(),
    {
        self.input_highlight
    }
}

/// The inverse gamma of a well-formed stretch is a usable exponent.
proof fn lemma_inv_gamma_range(st: &Stretcher)
    requires
        st.wf(),
    ensures
        666_666 <= st.spec_inv_gamma() <= 100_000_000,
{
    lemma_gamma_range(st.spec_midtones());
    vstd::arithmetic::div_mod::lemma_div_is_ordered_by_denominator(
        1_000_000_000_000,
        10_000,
        st.spec_gamma_value(),
    );
    vstd::arithmetic::div_mod::lemma_div_is_ordered_by_denominator(
        1_000_000_000_000,
        st.spec_gamma_value(),
        1_500_000,
    );
}

/// Flat ends of the remap: every sample at or below the input shadow
/// maps to exactly 0.0 (the output shadow), and every sample at or
/// beyond the input highlight maps to exactly 1.0 (the output
/// highlight) -- the stretch curve is flat beyond its domain ends,
/// like the tone curve's flat extrapolation.
pub proof fn lemma_stretch_flat_ends(st: &Stretcher, x: int)
    requires
        st.wf(),
    ensures
        x <= st.spec_input_shadow() ==> st.spec_stretched(x) == 0,
        x >= st.spec_input_highlight() ==> st.spec_stretched(x) == SCALE,
{
    let sh = st.spec_input_shadow();
    let hi = st.spec_input_highlight();
    let d = hi - sh;
    lemma_inv_gamma_range(st);
    if x <= sh {
        assert((x - sh) * 1000 <= 0);
        vstd::arithmetic::div_mod::lemma_div_is_ordered((x - sh) * 1000, 0, d);
        vstd::arithmetic::div_mod::lemma_basic_div(0, d);
        assert(spec_clamp_unit(st.spec_normalized(x)) == 0);
        if st.spec_midtones() != 500 {
            lemma_fixed_pow_zero(st.spec_inv_gamma());
        }
    }
    if x >= hi {
        assert((x - sh) * 1000 >= d * 1000);
        vstd::arithmetic::div_mod::lemma_div_is_ordered(d * 1000, (x - sh) * 1000, d);
        vstd::arithmetic::div_mod::lemma_div_multiples_vanish(1000, d);
        assert(d * 1000 == d * 1000);
        assert(st.spec_normalized(x) >= 1000);
        assert(spec_clamp_unit(st.spec_normalized(x)) == 1000);
        if st.spec_midtones() != 500 {
            lemma_fixed_pow_one(st.spec_inv_gamma());
        }
    }
}

/// The remap is monotone nondecreasing: a sample no darker than
/// another stays no darker through normalization, clamping, and the
/// power curve.
pub proof fn lemma_stretch_monotone(st: &Stretcher, a: int, b: int)
    requires
        st.wf(),
        a <= b,
    ensures
        st.spec_stretched(a) <= st.spec_stretched(b),
{
    let sh = st.spec_input_shadow();
    let d = st.spec_input_highlight() - sh;
    assert((a - sh) * 1000 <= (b - sh) * 1000);
    vstd::arithmetic::div_mod::lemma_div_is_ordered((a - sh) * 1000, (b - sh) * 1000, d);
    let ca = spec_clamp_unit(st.spec_normalized(a));
    let cb = spec_clamp_unit(st.spec_normalized(b));
    assert(0 <= ca <= cb <= 1000);
    if st.spec_midtones() != 500 {
        lemma_inv_gamma_range(st);
        lemma_fixed_pow_mono(ca, cb, st.spec_inv_gamma());
    }
}

/// Luminance of pixel `p`, by the spec formula.
fn lum_of(image: &PixelBuffer, p: usize) -> (r: i64)
    requires
        image.wf(),
        image.spec_channels() == 3,
        p < image.samples().len() / 3,
    ensures
        r == lum_at(image, p as int),
        -SAMPLE_ABS <= r <= SAMPLE_ABS,
{
    proof {
        vstd::arithmetic::div_mod::lemma_fundamental_div_mod(image.samples().len() as int, 3);
        vstd::arithmetic::div_mod::lemma_mod_bound(image.samples().len() as int, 3);
        assert(image.samples().len() <= 16384int * 16384 * 4) by (nonlinear_arith)
            requires
                image.samples().len() == image.spec_width() * image.spec_height()
                    * image.spec_channels(),
                1 <= image.spec_width() <= 16384,
                1 <= image.spec_height() <= 16384,
                1 <= image.spec_channels() <= 4,
        ;
        assert(3 * (p as int) + 2 < image.samples().len());
    }
    let red = image.get(3 * p);
    let green = image.get(3 * p + 1);
    let blue = image.get(3 * p + 2);
    let s = 2126 * red + 7152 * green + 722 * blue;
    let r = floor_div_i64(s, 10000);
    proof {
        vstd::arithmetic::div_mod::lemma_div_is_ordered(
            s as int,
            10_000_000_000_000,
            10000,
        );
        vstd::arithmetic::div_mod::lemma_div_is_ordered(
            -10_000_000_000_000,
            s as int,
            10000,
        );
    }
    r
}

} // verus!
