//! Benchmark statistics: nearest-rank percentiles and millisecond rendering.

use vstd::prelude::*;
use vstd::string::StringExecFns;
use std::time::Duration;
use crate::event_wait::{duration_as_nanos, duration_nanos};
use crate::text::{decimal, digit_char, push_decimal, digit_string_of};

verus! {

broadcast use vstd::seq_lib::group_to_multiset_ensures;

/// `Duration::ZERO`, the duration of no nanoseconds.
#[verifier::external_body]
pub(crate) fn zero_duration() -> (r: Duration)
    ensures
        duration_nanos(r) == 0,
{
    Duration::ZERO
}

pub open spec fn sorted_nanos(s: Seq<u128>) -> bool {
    forall|i: int, j: int| 0 <= i <= j < s.len() ==> s[i] <= s[j]
}

/// The nearest rank of the `pct` percentile among `len` samples (at least 1).
pub open spec fn nearest_rank(len: nat, pct: nat) -> nat {
    let r = (len * pct + 99) / 100;
    if r > 1 { r } else { 1 }
}

pub open spec fn sample_nanos(samples: Seq<Duration>) -> Seq<u128> {
    samples.map_values(|d: Duration| duration_nanos(d))
}

/// `x` in the sorted position of `t`.
fn sorted_insert(t: &mut Vec<u128>, x: u128)
    requires
        sorted_nanos(old(t)@),
    ensures
        sorted_nanos(final(t)@),
        final(t)@.len() == old(t)@.len() + 1,
        final(t)@.to_multiset() == old(t)@.to_multiset().insert(x),
{
    let mut p: usize = 0;
    while p < t.len() && t[p] <= x
        invariant
            0 <= p <= t@.len(),
            forall|j: int| 0 <= j < p ==> t@[j] <= x,
        decreases t.len() - p,
    {
        p = p + 1;
    }
    let ghost before = t@;
    t.insert(p, x);
    assert(t@ == before.insert(p as int, x));
    assert forall|i: int, j: int| 0 <= i <= j < t@.len() implies t@[i] <= t@[j] by {
        if i < p && j > p {
            assert(t@[j] == before[j - 1]);
        } else if i > p {
            assert(t@[i] == before[i - 1]);
            assert(t@[j] == before[j - 1]);
        } else if i == p && j > p {
            assert(t@[j] == before[j - 1]);
            assert(p < before.len() && before[p as int] > x);
            assert(before[p as int] <= before[j - 1]);
        }
    }
}

/// Nearest-rank percentile (`pct` in 0..=100) of the samples: the sample at
/// position `rank - 1` of the samples in ascending order, where rank is
/// `ceil(len * pct / 100)` but at least 1; zero when there is no such sample.
pub fn percentile(samples: &[Duration], pct: usize) -> (r: Duration)
    requires
        samples@.len() * pct <= usize::MAX,
    ensures
        nearest_rank(samples@.len(), pct as nat) > samples@.len() ==> duration_nanos(r) == 0,
        nearest_rank(samples@.len(), pct as nat) <= samples@.len() ==> {
            &&& samples@.contains(r)
            &&& exists|t: Seq<u128>|
                t.to_multiset() == sample_nanos(samples@).to_multiset() && sorted_nanos(t) && duration_nanos(r)
                    == t[nearest_rank(samples@.len(), pct as nat) - 1]
        },
{
    let len = samples.len();
    let scaled = len * pct;
    let mut rank = scaled / 100;
    if scaled % 100 != 0 {
        rank = rank + 1;
    }
    if rank < 1 {
        rank = 1;
    }
    assert(rank == nearest_rank(len as nat, pct as nat));
    if rank > len {
        return zero_duration();
    }
    let mut nanos: Vec<u128> = Vec::new();
    let mut sorted: Vec<u128> = Vec::new();
    let mut i: usize = 0;
    while i < len
        invariant
            len == samples@.len(),
            0 <= i <= len,
            nanos@ == sample_nanos(samples@).take(i as int),
            sorted@.len() == i,
            sorted_nanos(sorted@),
            sorted@.to_multiset() == nanos@.to_multiset(),
        decreases len - i,
    {
        let n = duration_as_nanos(samples[i]);
        let ghost before = nanos@;
        nanos.push(n);
        assert(nanos@ =~= sample_nanos(samples@).take(i + 1));
        sorted_insert(&mut sorted, n);
        assert(nanos@ == before.push(n));
        i = i + 1;
    }
    assert(nanos@ =~= sample_nanos(samples@));
    let target = sorted[rank - 1];
    proof {
        assert(sorted@[rank - 1] == target);
        assert(sorted@.contains(target));
        assert(sorted@.to_multiset().count(target) > 0);
        assert(nanos@.to_multiset().count(target) > 0);
        assert(nanos@.contains(target));
    }
    let mut k: usize = 0;
    while k < len
        invariant
            len == samples@.len(),
            nanos@ == sample_nanos(samples@),
            nanos@.contains(target),
            rank == nearest_rank(len as nat, pct as nat),
            1 <= rank <= len,
            sorted@.len() == len,
            target == sorted@[rank - 1],
            sorted_nanos(sorted@),
            sorted@.to_multiset() == nanos@.to_multiset(),
            0 <= k <= len,
            forall|j: int| 0 <= j < k ==> nanos@[j] != target,
        decreases len - k,
    {
        if nanos[k] == target {
            let r = samples[k];
            assert(samples@.contains(r)) by {
                assert(samples@[k as int] == r);
            }
            assert(duration_nanos(r) == target);
            assert(sorted@.to_multiset() == sample_nanos(samples@).to_multiset() && sorted_nanos(sorted@)
                && duration_nanos(r) == sorted@[nearest_rank(samples@.len(), pct as nat) - 1]);
            return r;
        }
        k = k + 1;
    }
    zero_duration()
}

/// `n` as three digits with leading zeros, for `n < 1000`.
pub open spec fn three_digits(n: nat) -> Seq<char> {
    seq![digit_char(n / 100), digit_char((n / 10) % 10), digit_char(n % 10)]
}

/// Whole microseconds of `nanos` as milliseconds with three decimals.
pub open spec fn spec_bench_ms(nanos: nat) -> Seq<char> {
    let micros = nanos / 1000;
    decimal(micros / 1000) + seq!['.'] + three_digits(micros % 1000) + seq!['m', 's']
}

/// Format a Duration as milliseconds with three decimals ("7.081ms"),
/// computed with integer math.
pub fn bench_ms(duration: Duration) -> (s: String)
    ensures
        s@ == spec_bench_ms(duration_nanos(duration) as nat),
{
    let micros = duration_as_nanos(duration) / 1000;
    let frac = micros % 1000;
    let mut s = String::new();
    push_decimal(&mut s, micros / 1000);
    proof {
        reveal_strlit(".");
        reveal_strlit("ms");
    }
    s.append(".");
    s.append(digit_string_of((frac / 100) as u8));
    s.append(digit_string_of(((frac / 10) % 10) as u8));
    s.append(digit_string_of((frac % 10) as u8));
    s.append("ms");
    assert(s@ =~= spec_bench_ms(duration_nanos(duration) as nat));
    s
}

} // verus!
