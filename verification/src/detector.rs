//! Stability detection over a smoothed series.
//!
//! The test is the normalized endpoint-slope rule: with first smoothed value
//! `f = sf/cf`, last smoothed value `l = sl/cl` and series length `n`, the
//! derivative is `(l - f) / n` and the normalized derivative is that divided
//! by `f`; the series is stable when `|normalized| < threshold`. A series
//! shorter than three samples, or one whose first smoothed value is zero
//! (the fixed-point analogue of "within epsilon of zero"), is never stable.
//! The comparison is carried out exactly by cross-multiplication:
//! `|sl*cf - sf*cl| * t_den < t_num * cl * n * |sf|`.

use vstd::prelude::*;

use crate::smoothing::Smoothed;
use crate::smoothing::smooth_series;
use crate::smoothing::as_ints;
use crate::smoothing::seq_sum;
use crate::smoothing::smoothed_count;
use crate::smoothing::smoothed_sum;

verus! {

/// Magnitude of a mathematical integer.
pub open spec fn abs_val(x: int) -> int {
    if x < 0 {
        -x
    } else {
        x
    }
}

/// A stability threshold as an exact rational `num / den`.
#[derive(Clone, Copy, PartialEq, Eq, Structural, Debug)]
pub struct Threshold {
    pub num: u32,
    pub den: u32,
}

impl Threshold {
    pub open spec fn wf(self) -> bool {
        self.den >= 1
    }

    pub fn new(num: u32, den: u32) -> (r: Threshold)
        requires
            den >= 1,
        ensures
            r.wf(),
            r.num == num,
            r.den == den,
    {
        Threshold { num, den }
    }

    /// The default stability threshold, 0.01.
    pub fn default_value() -> (r: Threshold)
        ensures
            r.wf(),
            r.num == 1,
            r.den == 100,
    {
        Threshold { num: 1, den: 100 }
    }
}

/// Numerator of the window derivative `(last - first) / n` of a smoothed
/// series, as the exact fraction `slope_num / slope_den`.
pub open spec fn slope_num(s: Seq<Smoothed>) -> int {
    s.last().sum as int * s[0].count as int - s[0].sum as int * s.last().count as int
}

/// Denominator of the window derivative of a smoothed series.
pub open spec fn slope_den(s: Seq<Smoothed>) -> int {
    s[0].count as int * s.last().count as int * s.len() as int
}

/// The stability verdict on a smoothed series: at least three samples, a
/// nonzero first smoothed value, and a normalized derivative strictly below
/// the threshold. With `f = sf/cf` and `l = sl/cl`, the normalized
/// derivative is `(l - f) / (n * f) = (sl*cf - sf*cl) / (cl * n * sf)`, and
/// the comparison below is `|normalized| < t_num/t_den` cross-multiplied.
pub open spec fn series_stable(s: Seq<Smoothed>, t_num: int, t_den: int) -> bool {
    &&& s.len() >= 3
    &&& s[0].sum != 0
    &&& abs_val(slope_num(s)) * t_den
        < t_num * s.last().count as int * s.len() as int * abs_val(s[0].sum as int)
}

/// The verdict of one stability evaluation. `deriv_num / deriv_den` is the
/// exact window derivative `(last smoothed - first smoothed) / n`; the
/// normalized derivative the verdict was judged by is that fraction divided
/// by the first smoothed value. For a series shorter than three samples the
/// derivative is reported as `0 / 1`.
#[derive(Clone, Copy, PartialEq, Eq, Structural, Debug)]
pub struct StabilityVerdict {
    pub is_stable: bool,
    pub deriv_num: i128,
    pub deriv_den: i128,
}

/// Judges a smoothed series against a threshold. Pure and exact: the
/// verdict is a function of the series and the threshold alone.
pub fn detect(series: &Vec<Smoothed>, t: &Threshold) -> (v: StabilityVerdict)
    requires
        t.wf(),
        forall|i: int| 0 <= i < series@.len() ==> (#[trigger] series@[i]).wf(),
    ensures
        v.is_stable == series_stable(series@, t.num as int, t.den as int),
        series@.len() >= 3 ==> v.deriv_num as int == slope_num(series@),
        series@.len() >= 3 ==> v.deriv_den as int == slope_den(series@),
        series@.len() < 3 ==> v == (StabilityVerdict { is_stable: false, deriv_num: 0, deriv_den: 1 }),
{
    if series.len() < 3 {
        return StabilityVerdict { is_stable: false, deriv_num: 0, deriv_den: 1 };
    }
    let first = series[0];
    let last = series[series.len() - 1];
    let n = series.len();

    proof {
        lemma_smoothed_magnitude(first);
        lemma_smoothed_magnitude(last);
        assert(series@.last() == last);
    }

    proof {
        assert(last.sum as int * first.count as int <= 0xff * 0x8000_0000_0000_0000 * 0xff
            && last.sum as int * first.count as int >= -(0xff * 0x8000_0000_0000_0000 * 0xff))
            by (nonlinear_arith)
            requires
                -(0xff * 0x8000_0000_0000_0000) <= last.sum as int <= 0xff * 0x8000_0000_0000_0000,
                1 <= first.count as int <= 0xff;
        assert(first.sum as int * last.count as int <= 0xff * 0x8000_0000_0000_0000 * 0xff
            && first.sum as int * last.count as int >= -(0xff * 0x8000_0000_0000_0000 * 0xff))
            by (nonlinear_arith)
            requires
                -(0xff * 0x8000_0000_0000_0000) <= first.sum as int <= 0xff * 0x8000_0000_0000_0000,
                1 <= last.count as int <= 0xff;
    }
    let num: i128 = last.sum * (first.count as i128) - first.sum * (last.count as i128);
    proof {
        assert(1 <= first.count as int * last.count as int <= 0xff * 0xff)
            by (nonlinear_arith)
            requires
                1 <= first.count as int <= 0xff,
                1 <= last.count as int <= 0xff;
    }
    let counts: i128 = (first.count as i128) * (last.count as i128);
    proof {
        assert(3 <= counts as int * n as int <= 0xff * 0xff * 0xffff_ffff_ffff_ffff)
            by (nonlinear_arith)
            requires
                1 <= counts as int <= 0xff * 0xff,
                3 <= n as int <= 0xffff_ffff_ffff_ffff;
    }
    let den: i128 = counts * (n as i128);

    let abs_num: i128 = if num < 0 { -num } else { num };
    let abs_first: i128 = if first.sum < 0 { -first.sum } else { first.sum };
    proof {
        assert(abs_num as int * t.den as int <= 0x2_0000_0000_0000_0000_0000 * 0xffff_ffff
            && abs_num as int * t.den as int >= 0)
            by (nonlinear_arith)
            requires
                0 <= abs_num as int <= 0x2_0000_0000_0000_0000_0000,
                0 <= t.den as int <= 0xffff_ffff;
    }
    let lhs: i128 = abs_num * (t.den as i128);

    // t_num * cl * n never exceeds 2^104; only the final factor can overflow
    // an i128, and when it does the right-hand side certainly exceeds the
    // bounded left-hand side, so the comparison is true.
    proof {
        assert(0 <= t.num as int * last.count as int <= 0xffff_ffff * 0xff)
            by (nonlinear_arith)
            requires
                0 <= t.num as int <= 0xffff_ffff,
                1 <= last.count as int <= 0xff;
    }
    let partial_rhs: i128 = (t.num as i128) * (last.count as i128);
    proof {
        assert(0 <= partial_rhs as int * n as int <= 0xffff_ffff * 0xff * 0xffff_ffff_ffff_ffff)
            by (nonlinear_arith)
            requires
                0 <= partial_rhs as int <= 0xffff_ffff * 0xff,
                3 <= n as int <= 0xffff_ffff_ffff_ffff;
    }
    let partial: i128 = partial_rhs * (n as i128);
    let below = match partial.checked_mul(abs_first) {
        Some(rhs) => lhs < rhs,
        None => {
            proof {
                assert(lhs < partial * abs_first) by (nonlinear_arith)
                    requires
                        lhs as int <= 0x2_0000_0000_0000_0000_0000 * 0xffff_ffff,
                        partial as int * abs_first as int > (i128::MAX as int)
                            || (partial as int * abs_first as int) < (i128::MIN as int),
                        (partial as int) >= 0,
                        (abs_first as int) >= 0;
            }
            true
        },
    };

    let stable = first.sum != 0 && below;
    proof {
        let tn = t.num as int;
        let td = t.den as int;
        assert(abs_num as int == abs_val(slope_num(series@)));
        assert(abs_first as int == abs_val(first.sum as int));
        assert(partial as int * abs_first as int
            == tn * series@.last().count as int * series@.len() as int * abs_val(series@[0].sum as int))
            by (nonlinear_arith)
            requires
                partial as int == tn * series@.last().count as int * series@.len() as int,
                abs_first as int == abs_val(series@[0].sum as int);
    }
    StabilityVerdict { is_stable: stable, deriv_num: num, deriv_den: den }
}

/// The stability verdict on a raw fixed-point series smoothed with window
/// width `w`: at least three samples, a nonzero first sample (the first
/// smoothed value is the first raw sample), and a normalized endpoint slope
/// strictly below `tn / td`, compared exactly by cross-multiplication.
pub open spec fn stable_signal(vals: Seq<int>, w: int, tn: int, td: int) -> bool {
    &&& vals.len() >= 3
    &&& vals[0] != 0
    &&& abs_val(smoothed_sum(vals, vals.len() - 1, w)
            - vals[0] * smoothed_count(vals.len() - 1, w)) * td
        < tn * smoothed_count(vals.len() - 1, w) * vals.len() as int * abs_val(vals[0])
}

/// Whether a series of fixed-point readings is stable under a smoothing
/// window of the given width: smooths it with a moving average, then
/// applies the normalized endpoint-slope test. Empty and short series are
/// never stable.
pub fn signal_is_stable(values: &Vec<i64>, width: u8, threshold: &Threshold) -> (r: bool)
    requires
        width >= 1,
        threshold.wf(),
    ensures
        r == stable_signal(as_ints(values@), width as int, threshold.num as int, threshold.den as int),
{
    let ghost vals = as_ints(values@);
    let ghost w = width as int;
    if values.len() < 3 {
        return false;
    }
    let series = smooth_series(values, width);
    let v = detect(&series, threshold);
    proof {
        let n = vals.len() as int;
        assert(series@[0].sum as int == smoothed_sum(vals, 0, w));
        assert(seq_sum(Seq::<int>::empty()) == 0);
        assert(vals.subrange(0, 1).drop_last() =~= Seq::<int>::empty());
        assert(vals.subrange(0, 1).last() == vals[0]);
        assert(series@[0].sum as int == vals[0]);
        assert(series@[0].count as int == 1);
        assert(series@.last() == series@[n - 1]);
        assert(series@.last().sum as int == smoothed_sum(vals, n - 1, w));
        assert(series@.last().count as int == smoothed_count(n - 1, w));
    }
    v.is_stable
}

/// Whether a series of fixed-point readings is stable: smooths it with a
/// width-3 moving average, then applies the normalized endpoint-slope test.
/// Empty and short series are never stable.
pub fn is_stable_resistance(values: &Vec<i64>, threshold: &Threshold) -> (r: bool)
    requires
        threshold.wf(),
    ensures
        r == stable_signal(as_ints(values@), 3, threshold.num as int, threshold.den as int),
{
    signal_is_stable(values, 3, threshold)
}

/// A series of fewer than three samples is never judged stable, whatever
/// its values or the threshold.
pub proof fn lemma_short_input_not_stable(vals: Seq<int>, w: int, tn: int, td: int)
    requires
        vals.len() < 3,
    ensures
        !stable_signal(vals, w, tn, td),
{
}

/// A zero first sample — the exact-arithmetic analogue of a first smoothed
/// value within floating-point epsilon of zero — is never judged stable:
/// a near-zero baseline cannot be judged for relative stability.
pub proof fn lemma_zero_baseline_not_stable(vals: Seq<int>, w: int, tn: int, td: int)
    requires
        vals.len() == 0 || vals[0] == 0,
    ensures
        !stable_signal(vals, w, tn, td),
{
}

/// A smoothed series whose first smoothed value is zero is never judged
/// stable.
pub proof fn lemma_zero_first_smoothed_not_stable(s: Seq<Smoothed>, tn: int, td: int)
    requires
        s.len() == 0 || s[0].sum == 0,
    ensures
        !series_stable(s, tn, td),
{
}

/// Smoothing and detection are pure: two runs over the same ordered input
/// with the same threshold yield the identical verdict.
pub proof fn lemma_detection_deterministic(a: Seq<int>, b: Seq<int>, w: int, tn: int, td: int)
    requires
        a == b,
    ensures
        stable_signal(a, w, tn, td) == stable_signal(b, w, tn, td),
{
}

/// The input series with every reading scaled by a constant factor.
pub open spec fn scaled(vals: Seq<int>, c: int) -> Seq<int> {
    vals.map(|i: int, v: int| c * v)
}

proof fn lemma_seq_sum_scaled(s: Seq<int>, c: int)
    ensures
        seq_sum(scaled(s, c)) == c * seq_sum(s),
    decreases s.len(),
{
    if s.len() == 0 {
    } else {
        lemma_seq_sum_scaled(s.drop_last(), c);
        assert(scaled(s, c).drop_last() =~= scaled(s.drop_last(), c));
        assert(scaled(s, c).last() == c * s.last());
        assert(c * (seq_sum(s.drop_last()) + s.last())
            == c * seq_sum(s.drop_last()) + c * s.last()) by (nonlinear_arith);
    }
}

proof fn lemma_smoothed_sum_scaled(s: Seq<int>, c: int, i: int, w: int)
    requires
        0 <= i < s.len(),
        w >= 1,
    ensures
        smoothed_sum(scaled(s, c), i, w) == c * smoothed_sum(s, i, w),
{
    let lo = i + 1 - smoothed_count(i, w);
    assert(scaled(s, c).subrange(lo, i + 1) =~= scaled(s.subrange(lo, i + 1), c));
    lemma_seq_sum_scaled(s.subrange(lo, i + 1), c);
}

proof fn lemma_abs_scaled(c: int, x: int)
    requires
        c >= 0,
    ensures
        abs_val(c * x) == c * abs_val(x),
{
    if x >= 0 {
        assert(c * x >= 0) by (nonlinear_arith)
            requires
                c >= 0,
                x >= 0;
    } else {
        assert(c * x <= 0) by (nonlinear_arith)
            requires
                c >= 0,
                x < 0;
        assert(-(c * x) == c * -x) by (nonlinear_arith);
    }
}

/// The verdict does not depend on the fixed-point scale: multiplying every
/// reading by the same positive factor leaves the stability judgment
/// unchanged, so any consistent choice of unit yields the same alerts.
pub proof fn lemma_stable_signal_scale_invariant(vals: Seq<int>, c: int, w: int, tn: int, td: int)
    requires
        c >= 1,
        w >= 1,
    ensures
        stable_signal(scaled(vals, c), w, tn, td) == stable_signal(vals, w, tn, td),
{
    if vals.len() >= 3 {
        let n = vals.len() as int;
        let sl = smoothed_sum(vals, n - 1, w);
        let cl = smoothed_count(n - 1, w);
        let s0 = vals[0];
        let d = sl - s0 * cl;
        lemma_smoothed_sum_scaled(vals, c, n - 1, w);
        assert(scaled(vals, c)[0] == c * s0);
        assert(c * s0 == 0 <==> s0 == 0) by (nonlinear_arith)
            requires
                c >= 1;
        assert(c * sl - (c * s0) * cl == c * (sl - s0 * cl)) by (nonlinear_arith);
        lemma_abs_scaled(c, d);
        lemma_abs_scaled(c, s0);
        assert((c * abs_val(d) * td < tn * cl * n * (c * abs_val(s0)))
            == (abs_val(d) * td < tn * cl * n * abs_val(s0))) by (nonlinear_arith)
            requires
                c >= 1;
    } else {
        assert(scaled(vals, c).len() == vals.len());
    }
}

/// A well-formed smoothed sample has magnitude at most `255 * 2^63`.
proof fn lemma_smoothed_magnitude(s: Smoothed)
    requires
        s.wf(),
    ensures
        -(0xff * 0x8000_0000_0000_0000) <= s.sum as int <= 0xff * 0x8000_0000_0000_0000,
{
    assert(-(0xff * 0x8000_0000_0000_0000) <= s.sum as int <= 0xff * 0x8000_0000_0000_0000)
        by (nonlinear_arith)
        requires
            1 <= s.count as int <= 0xff,
            (s.count as int) * (i64::MIN as int) <= s.sum as int,
            s.sum as int <= (s.count as int) * (i64::MAX as int);
}

} // verus!
