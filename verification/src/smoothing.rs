//! Causal moving-average smoothing over fixed-point readings.
//!
//! A `MeanFilter` keeps the last up-to-`width` raw values and, on each push,
//! returns the arithmetic mean of its buffer as an unreduced fraction
//! (`sum / count`), so no precision is lost. Applied in chronological order
//! to a whole series it yields the smoothed series: element `i` is the mean
//! of the last `min(i + 1, width)` raw values.

use vstd::prelude::*;

verus! {

/// Sum of a sequence of mathematical integers, folded from the right.
pub open spec fn seq_sum(s: Seq<int>) -> int
    decreases s.len(),
{
    if s.len() == 0 {
        0
    } else {
        seq_sum(s.drop_last()) + s.last()
    }
}

/// A raw series of fixed-point readings, as mathematical integers.
pub open spec fn as_ints(s: Seq<i64>) -> Seq<int> {
    s.map(|i: int, v: i64| v as int)
}

/// Number of raw samples that contribute to smoothed element `i`.
pub open spec fn smoothed_count(i: int, width: int) -> int {
    if i + 1 <= width {
        i + 1
    } else {
        width
    }
}

/// Sum of the raw samples that contribute to smoothed element `i`.
pub open spec fn smoothed_sum(s: Seq<int>, i: int, width: int) -> int {
    seq_sum(s.subrange(i + 1 - smoothed_count(i, width), i + 1))
}

/// A smoothed sample: the exact mean `sum / count` of the `count` most
/// recent raw values, kept as an unreduced fraction.
#[derive(Clone, Copy, PartialEq, Eq, Structural, Debug)]
pub struct Smoothed {
    pub sum: i128,
    pub count: u8,
}

impl Smoothed {
    /// A smoothed sample is the sum of at least one `i64` reading, so its
    /// magnitude is bounded by `count` times the `i64` range.
    pub open spec fn wf(self) -> bool {
        &&& self.count >= 1
        &&& (self.count as int) * (i64::MIN as int) <= self.sum as int
        &&& self.sum as int <= (self.count as int) * (i64::MAX as int)
    }
}

/// What one push does to the filter's buffer: append the new value, sliding
/// the oldest one out once the buffer has reached `width`.
pub open spec fn pushed_buffer(buf: Seq<int>, width: int, v: int) -> Seq<int> {
    if buf.len() < width {
        buf.push(v)
    } else {
        buf.drop_first().push(v)
    }
}

/// Stateful causal moving-average filter with a fixed window size.
pub struct MeanFilter {
    buf: Vec<i64>,
    width: u8,
}

impl MeanFilter {
    /// The raw values currently buffered, oldest first.
    pub closed spec fn buffer(self) -> Seq<int> {
        as_ints(self.buf@)
    }

    /// The fixed window size the filter was created with.
    pub closed spec fn width_spec(self) -> int {
        self.width as int
    }

    pub open spec fn wf(self) -> bool {
        &&& self.width_spec() >= 1
        &&& self.buffer().len() <= self.width_spec()
    }

    /// A fresh filter with an empty buffer.
    pub fn new(width: u8) -> (r: MeanFilter)
        requires
            width >= 1,
        ensures
            r.wf(),
            r.width_spec() == width as int,
            r.buffer() == Seq::<int>::empty(),
    {
        let r = MeanFilter { buf: Vec::new(), width };
        proof {
            assert(r.buffer() =~= Seq::<int>::empty());
        }
        r
    }

    /// Feed one raw value; returns the mean of the updated buffer as an
    /// exact fraction.
    pub fn push(&mut self, v: i64) -> (r: Smoothed)
        requires
            old(self).wf(),
        ensures
            final(self).wf(),
            final(self).width_spec() == old(self).width_spec(),
            final(self).buffer() == pushed_buffer(old(self).buffer(), old(self).width_spec(), v as int),
            r.wf(),
            r.count as int == final(self).buffer().len(),
            r.sum as int == seq_sum(final(self).buffer()),
    {
        if self.buf.len() == self.width as usize {
            self.buf.remove(0);
            proof {
                assert(self.buffer() =~= old(self).buffer().drop_first());
            }
        }
        self.buf.push(v);
        proof {
            assert(self.buffer() =~= pushed_buffer(
                old(self).buffer(),
                old(self).width_spec(),
                v as int,
            ));
        }
        let ghost target = self.buffer();
        let mut sum: i128 = 0;
        let mut i: usize = 0;
        while i < self.buf.len()
            invariant
                self.buffer() == target,
                0 <= i <= self.buf.len(),
                self.buf.len() <= u8::MAX as int,
                sum as int == seq_sum(target.take(i as int)),
                (i as int) * (i64::MIN as int) <= sum as int,
                sum as int <= (i as int) * (i64::MAX as int),
            decreases self.buf.len() - i,
        {
            proof {
                assert(target.take(i + 1).drop_last() =~= target.take(i as int));
                assert(target.take(i + 1).last() == target[i as int]);
                assert((i as int) * (i64::MIN as int) + (i64::MIN as int)
                    == (i + 1) * (i64::MIN as int)) by (nonlinear_arith);
                assert((i as int) * (i64::MAX as int) + (i64::MAX as int)
                    == (i + 1) * (i64::MAX as int)) by (nonlinear_arith);
            }
            sum = sum + self.buf[i] as i128;
            i = i + 1;
        }
        proof {
            assert(target.take(self.buf.len() as int) =~= target);
        }
        Smoothed { sum, count: self.buf.len() as u8 }
    }
}

/// Runs a fresh `MeanFilter` of the given width over a whole series in
/// order, producing the smoothed series: element `i` is the exact mean of
/// the last `min(i + 1, width)` raw values.
pub fn smooth_series(values: &Vec<i64>, width: u8) -> (r: Vec<Smoothed>)
    requires
        width >= 1,
    ensures
        r@.len() == values@.len(),
        forall|i: int| 0 <= i < r@.len() ==> (#[trigger] r@[i]).wf(),
        forall|i: int| 0 <= i < r@.len() ==> (#[trigger] r@[i]).count as int
            == smoothed_count(i, width as int),
        forall|i: int| 0 <= i < r@.len() ==> (#[trigger] r@[i]).sum as int
            == smoothed_sum(as_ints(values@), i, width as int),
{
    let ghost vals = as_ints(values@);
    let ghost w = width as int;
    let mut filter = MeanFilter::new(width);
    let mut out: Vec<Smoothed> = Vec::new();
    proof {
        assert(filter.buffer() =~= vals.subrange(0 - smoothed_count(-1, w), 0));
    }
    let mut i: usize = 0;
    while i < values.len()
        invariant
            vals == as_ints(values@),
            w == width as int,
            w >= 1,
            0 <= i <= values@.len(),
            out@.len() == i as int,
            filter.wf(),
            filter.width_spec() == w,
            filter.buffer() == vals.subrange(i as int - smoothed_count(i as int - 1, w), i as int),
            forall|j: int| 0 <= j < i as int ==> (#[trigger] out@[j]).wf(),
            forall|j: int| 0 <= j < i as int ==> (#[trigger] out@[j]).count as int
                == smoothed_count(j, w),
            forall|j: int| 0 <= j < i as int ==> (#[trigger] out@[j]).sum as int
                == smoothed_sum(vals, j, w),
        decreases values@.len() - i,
    {
        let v = values[i];
        let s = filter.push(v);
        proof {
            let ii = i as int;
            let before = vals.subrange(ii - smoothed_count(ii - 1, w), ii);
            assert(vals[ii] == v as int);
            if before.len() < w {
                assert(before.push(vals[ii])
                    =~= vals.subrange(ii + 1 - smoothed_count(ii, w), ii + 1));
            } else {
                assert(before.drop_first().push(vals[ii])
                    =~= vals.subrange(ii + 1 - smoothed_count(ii, w), ii + 1));
            }
        }
        out.push(s);
        i = i + 1;
    }
    out
}

} // verus!
