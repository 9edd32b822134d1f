//! Time-ordered windows of readings for one device.
//!
//! The store may hand the window back newest-first; the pipeline normalizes
//! it to oldest-first itself before any analysis. The sort is a stable
//! insertion sort by timestamp, so readings with equal timestamps keep
//! their fetched order. After sorting, the numeric series is pulled out of
//! the payloads, skipping readings whose metric field is absent or
//! non-numeric.

use vstd::prelude::*;
use vstd::seq_lib::lemma_multiset_commutative;

use crate::payload::Payload;
use crate::payload::payload_metric;
use crate::payload::extract_metric;

verus! {

broadcast use vstd::seq_lib::group_to_multiset_ensures;

/// One time-stamped reading for a device: the raw payload and the moment it
/// was recorded (a fixed-point instant, e.g. milliseconds since the epoch).
pub struct Reading {
    pub timestamp: i64,
    pub payload: Payload,
}

/// Oldest-first order.
pub open spec fn sorted_by_time(s: Seq<Reading>) -> bool {
    forall|i: int, j: int| 0 <= i < j < s.len() ==> s[i].timestamp <= s[j].timestamp
}

/// Inserts a reading into a sorted sequence, after every element whose
/// timestamp is not later: the stable insertion position.
pub open spec fn insert_by_time(r: Reading, s: Seq<Reading>) -> Seq<Reading>
    decreases s.len(),
{
    if s.len() == 0 {
        seq![r]
    } else if r.timestamp < s[0].timestamp {
        seq![r] + s
    } else {
        seq![s[0]] + insert_by_time(r, s.drop_first())
    }
}

/// Stable sort by timestamp, oldest first.
pub open spec fn sort_by_time(s: Seq<Reading>) -> Seq<Reading>
    decreases s.len(),
{
    if s.len() == 0 {
        Seq::empty()
    } else {
        insert_by_time(s.last(), sort_by_time(s.drop_last()))
    }
}

proof fn lemma_insert_by_time_sorted(r: Reading, s: Seq<Reading>)
    requires
        sorted_by_time(s),
    ensures
        insert_by_time(r, s).len() == s.len() + 1,
        sorted_by_time(insert_by_time(r, s)),
        insert_by_time(r, s).to_multiset() == s.to_multiset().insert(r),
    decreases s.len(),
{
    if s.len() == 0 {
        assert(seq![r] =~= Seq::<Reading>::empty().push(r));
        assert(seq![r].to_multiset() =~= s.to_multiset().insert(r));
    } else if r.timestamp < s[0].timestamp {
        let out = seq![r] + s;
        assert(forall|i: int, j: int| 0 <= i < j < out.len() ==> out[i].timestamp <= out[j].timestamp)
            by {
            assert(forall|j: int| 1 <= j < out.len() ==> out[j] == s[j - 1]);
        }
        lemma_multiset_commutative(seq![r], s);
        assert(seq![r] =~= Seq::<Reading>::empty().push(r));
        assert(out.to_multiset() =~= s.to_multiset().insert(r));
    } else {
        let rest = s.drop_first();
        assert(sorted_by_time(rest)) by {
            assert(forall|i: int, j: int| 0 <= i < j < rest.len()
                ==> rest[i] == s[i + 1] && rest[j] == s[j + 1]);
        }
        lemma_insert_by_time_sorted(r, rest);
        let inner = insert_by_time(r, rest);
        let out = seq![s[0]] + inner;
        // Every element of the inner insertion is either r (not earlier than
        // s[0]) or an element of rest (not earlier than s[0] by sortedness).
        assert forall|j: int| 0 <= j < inner.len()
            implies s[0].timestamp <= #[trigger] inner[j].timestamp by {
            lemma_insert_members(r, rest);
            if inner[j] != r {
                let k = choose|k: int| 0 <= k < rest.len() && inner[j] == rest[k];
                assert(rest[k] == s[k + 1]);
            }
        }
        assert(forall|i: int, j: int| 0 <= i < j < out.len() ==> out[i].timestamp <= out[j].timestamp)
            by {
            assert(forall|j: int| 1 <= j < out.len() ==> out[j] == inner[j - 1]);
        }
        lemma_multiset_commutative(seq![s[0]], inner);
        lemma_multiset_commutative(seq![s[0]], rest);
        assert(seq![s[0]] + rest =~= s);
        assert(seq![s[0]] =~= Seq::<Reading>::empty().push(s[0]));
        assert(out.to_multiset() =~= s.to_multiset().insert(r));
    }
}

/// Each element of `insert_by_time(r, s)` is `r` or an element of `s`.
proof fn lemma_insert_members(r: Reading, s: Seq<Reading>)
    ensures
        insert_by_time(r, s).len() == s.len() + 1,
        forall|j: int| 0 <= j < insert_by_time(r, s).len()
            ==> #[trigger] insert_by_time(r, s)[j] == r
                || exists|k: int| 0 <= k < s.len() && insert_by_time(r, s)[j] == s[k],
    decreases s.len(),
{
    if s.len() == 0 {
    } else if r.timestamp < s[0].timestamp {
    } else {
        lemma_insert_members(r, s.drop_first());
        let out = seq![s[0]] + insert_by_time(r, s.drop_first());
        assert forall|j: int| 0 <= j < out.len() implies #[trigger] out[j] == r
            || exists|k: int| 0 <= k < s.len() && out[j] == s[k] by {
            if j == 0 {
                assert(out[0] == s[0]);
            } else {
                let inner = insert_by_time(r, s.drop_first());
                assert(out[j] == inner[j - 1]);
                if inner[j - 1] != r {
                    let k = choose|k: int| 0 <= k < s.drop_first().len()
                        && inner[j - 1] == s.drop_first()[k];
                    assert(s.drop_first()[k] == s[k + 1]);
                }
            }
        }
    }
}

/// The canonical sorted window is a sorted permutation of its input.
pub proof fn lemma_sort_by_time_ensures(s: Seq<Reading>)
    ensures
        sort_by_time(s).len() == s.len(),
        sorted_by_time(sort_by_time(s)),
        sort_by_time(s).to_multiset() == s.to_multiset(),
    decreases s.len(),
{
    if s.len() == 0 {
    } else {
        lemma_sort_by_time_ensures(s.drop_last());
        lemma_insert_by_time_sorted(s.last(), sort_by_time(s.drop_last()));
        assert(s.drop_last().push(s.last()) =~= s);
        assert(s.drop_last().to_multiset().insert(s.last())
            == s.drop_last().push(s.last()).to_multiset());
    }
}

/// Where the stable insertion position is known, insertion is `Seq::insert`.
proof fn lemma_insert_by_time_at(r: Reading, s: Seq<Reading>, j: int)
    requires
        0 <= j <= s.len(),
        forall|k: int| 0 <= k < j ==> (#[trigger] s[k]).timestamp <= r.timestamp,
        j < s.len() ==> r.timestamp < s[j].timestamp,
    ensures
        insert_by_time(r, s) == s.insert(j, r),
    decreases s.len(),
{
    if s.len() == 0 {
        assert(insert_by_time(r, s) =~= s.insert(0, r));
    } else if j == 0 {
        assert(seq![r] + s =~= s.insert(0, r));
    } else {
        assert(s[0].timestamp <= r.timestamp);
        let rest = s.drop_first();
        assert(forall|k: int| 0 <= k < j - 1 ==> (#[trigger] rest[k]).timestamp <= r.timestamp)
            by {
            assert(forall|k: int| 0 <= k < rest.len() ==> rest[k] == s[k + 1]);
        }
        assert(j - 1 < rest.len() ==> rest[j - 1] == s[j]);
        lemma_insert_by_time_at(r, rest, j - 1);
        assert(seq![s[0]] + rest.insert(j - 1, r) =~= s.insert(j, r));
    }
}

/// Sorts a fetched window to oldest-first order. The result is the stable
/// insertion sort of the input: sorted by timestamp, a permutation of the
/// input, and readings with equal timestamps keep their fetched order.
pub fn sort_readings(readings: Vec<Reading>) -> (r: Vec<Reading>)
    ensures
        r@ == sort_by_time(readings@),
        sorted_by_time(r@),
        r@.to_multiset() == readings@.to_multiset(),
        r@.len() == readings@.len(),
{
    let ghost orig = readings@;
    let mut rest = readings;
    let mut out: Vec<Reading> = Vec::new();
    proof {
        assert(rest@ =~= orig.skip(0));
        assert(out@ =~= sort_by_time(orig.take(0)));
    }
    while rest.len() > 0
        invariant
            rest@ == orig.skip(orig.len() - rest@.len()),
            out@ == sort_by_time(orig.take(orig.len() - rest@.len())),
            sorted_by_time(out@),
            out@.len() + rest@.len() == orig.len(),
        decreases rest@.len(),
    {
        let ghost i = orig.len() - rest@.len();
        let x = rest.remove(0);
        proof {
            assert(x == orig[i]);
            assert(rest@ =~= orig.skip(i + 1));
        }
        let mut j: usize = 0;
        while j < out.len() && out[j].timestamp <= x.timestamp
            invariant
                0 <= j <= out@.len(),
                forall|k: int| 0 <= k < j as int ==> (#[trigger] out@[k]).timestamp <= x.timestamp,
            decreases out@.len() - j,
        {
            j = j + 1;
        }
        proof {
            lemma_insert_by_time_at(x, out@, j as int);
            lemma_insert_by_time_sorted(x, out@);
            assert(orig.take(i + 1).drop_last() =~= orig.take(i));
            assert(orig.take(i + 1).last() == orig[i]);
        }
        out.insert(j, x);
    }
    proof {
        assert(orig.take(orig.len() as int) =~= orig);
        lemma_sort_by_time_ensures(orig);
    }
    out
}

/// The numeric series a window yields: the metric at `key` of each reading
/// in order, with readings whose metric is absent or non-numeric skipped.
pub open spec fn extracted_series(rs: Seq<Reading>, key: Seq<u8>) -> Seq<i64>
    decreases rs.len(),
{
    if rs.len() == 0 {
        Seq::empty()
    } else {
        let init = extracted_series(rs.drop_last(), key);
        match payload_metric(rs.last().payload, key) {
            Some(v) => init.push(v),
            None => init,
        }
    }
}

/// Pulls the numeric series out of a window, in window order, discarding
/// readings with no usable metric.
pub fn extract_series(readings: &Vec<Reading>, key: &Vec<u8>) -> (r: Vec<i64>)
    ensures
        r@ == extracted_series(readings@, key@),
{
    let mut out: Vec<i64> = Vec::new();
    proof {
        assert(out@ =~= extracted_series(readings@.take(0), key@));
    }
    let mut i: usize = 0;
    while i < readings.len()
        invariant
            0 <= i <= readings@.len(),
            out@ == extracted_series(readings@.take(i as int), key@),
        decreases readings@.len() - i,
    {
        proof {
            assert(readings@.take(i as int + 1).drop_last() =~= readings@.take(i as int));
            assert(readings@.take(i as int + 1).last() == readings@[i as int]);
        }
        match extract_metric(&readings[i].payload, key) {
            Some(v) => {
                out.push(v);
            },
            None => {},
        }
        i = i + 1;
    }
    proof {
        assert(readings@.take(readings@.len() as int) =~= readings@);
    }
    out
}

} // verus!
