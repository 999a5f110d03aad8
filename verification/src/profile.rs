//! Timing of repeated runs: the durations measured, and their mean, middle
//! entry, variance and standard deviation.

use vstd::prelude::*;

verus! {

/// A point in time, as the system clock gives it.
#[verifier::external_type_specification]
#[verifier::external_body]
pub struct ExInstant(std::time::Instant);

/// The present moment, from `std::time::Instant::now`. It differs from call
/// to call, so nothing is claimed of it.
#[verifier::external_body]
fn now() -> std::time::Instant {
    std::time::Instant::now()
}

/// The time that has passed since `start`, from
/// `std::time::Instant::elapsed`. It depends on the clock, so nothing is
/// claimed of it.
#[verifier::external_body]
fn elapsed(start: &std::time::Instant) -> std::time::Duration {
    start.elapsed()
}

/// The whole nanoseconds of `d`, from `std::time::Duration::as_nanos`.
/// Nothing is claimed of the number.
#[verifier::external_body]
fn as_nanos(d: &std::time::Duration) -> u128 {
    d.as_nanos()
}

/// The nanoseconds `nanos` as an entry: the largest entry where `nanos` is
/// beyond the range of the entries.
pub open spec fn saturated(nanos: u128) -> u64 {
    if nanos > 0xffff_ffff_ffff_ffff {
        0xffff_ffff_ffff_ffff
    } else {
        nanos as u64
    }
}

/// The sum of the entries of `s`.
pub open spec fn total(s: Seq<u64>) -> int
    decreases s.len(),
{
    if s.len() == 0 {
        0
    } else {
        total(s.drop_last()) + s.last()
    }
}

/// The mean of the entries of `s`, rounded down.
pub open spec fn mean_of(s: Seq<u64>) -> int {
    total(s) / (s.len() as int)
}

/// The sum, over the entries of `s`, of the squared distance between the
/// entry and `mean`, both in whole thousands.
pub open spec fn squared_deviations(s: Seq<u64>, mean: int) -> int
    decreases s.len(),
{
    if s.len() == 0 {
        0
    } else {
        squared_deviations(s.drop_last(), mean) + (s.last() / 1000 - mean / 1000) * (s.last() / 1000
            - mean / 1000)
    }
}

/// The sample variance of the entries of `s`, taken in whole thousands and
/// rounded down.
pub open spec fn variance_of(s: Seq<u64>) -> int {
    squared_deviations(s, mean_of(s)) / (s.len() - 1)
}

/// `r` is the square root of `n`, rounded down.
pub open spec fn is_root(n: int, r: int) -> bool {
    0 <= r && r * r <= n < (r + 1) * (r + 1)
}

/// The sum grows with each entry.
pub proof fn lemma_total_bounds(s: Seq<u64>, k: int)
    requires
        0 <= k <= s.len(),
    ensures
        0 <= total(s.take(k)) <= k * 0xffff_ffff_ffff_ffff,
    decreases k,
{
    if k > 0 {
        lemma_total_bounds(s, k - 1);
        assert(s.take(k).drop_last() =~= s.take(k - 1));
        assert(k * 0xffff_ffff_ffff_ffff == (k - 1) * 0xffff_ffff_ffff_ffff + 0xffff_ffff_ffff_ffff)
            by (nonlinear_arith);
    }
}

/// The squared distances add up to more with each entry.
pub proof fn lemma_deviations_grow(s: Seq<u64>, mean: int, k: int)
    requires
        0 <= k <= s.len(),
    ensures
        0 <= squared_deviations(s.take(k), mean) <= squared_deviations(s, mean),
    decreases s.len() - k,
{
    lemma_deviations_nonnegative(s.take(k), mean);
    if k == s.len() {
        assert(s.take(k) =~= s);
    } else {
        lemma_deviations_grow(s, mean, k + 1);
        assert(s.take(k + 1).drop_last() =~= s.take(k));
        let d = s.take(k + 1).last() / 1000 - mean / 1000;
        assert(d * d >= 0) by (nonlinear_arith);
    }
}

/// Squared distances do not add up to less than nothing.
pub proof fn lemma_deviations_nonnegative(s: Seq<u64>, mean: int)
    ensures
        0 <= squared_deviations(s, mean),
    decreases s.len(),
{
    if s.len() > 0 {
        lemma_deviations_nonnegative(s.drop_last(), mean);
        let d = s.last() / 1000 - mean / 1000;
        assert(d * d >= 0) by (nonlinear_arith);
    }
}

/// The square root of `n`, rounded down.
pub fn integer_root(n: u128) -> (r: u64)
    ensures
        is_root(n as int, r as int),
{
    let mut low: u128 = 0;
    let mut high: u128 = 0x1_0000_0000_0000_0000;
    assert(0x1_0000_0000_0000_0000 * 0x1_0000_0000_0000_0000 > n as int) by (nonlinear_arith)
        requires
            n <= 0xffff_ffff_ffff_ffff_ffff_ffff_ffff_ffff,
    ;
    while high - low > 1
        invariant
            low < high <= 0x1_0000_0000_0000_0000,
            low * low <= n,
            n < high * high,
        decreases high - low,
    {
        let mid: u128 = low + (high - low) / 2;
        assert(mid * mid <= 0xffff_ffff_ffff_ffff * 0xffff_ffff_ffff_ffff) by (nonlinear_arith)
            requires
                0 <= mid <= 0xffff_ffff_ffff_ffff,
        ;
        if mid * mid <= n {
            low = mid;
        } else {
            high = mid;
        }
    }
    low as u64
}

/// The durations of a series of runs, in nanoseconds, and the start of the
/// run that is being timed.
pub struct ProfileSet {
    runs: Vec<u64>,
    start: Option<std::time::Instant>,
}

impl ProfileSet {
    /// The durations measured so far, in nanoseconds, oldest first.
    pub closed spec fn runs(&self) -> Seq<u64> {
        self.runs@
    }

    /// Whether a run is being timed.
    pub closed spec fn timing(&self) -> bool {
        self.start is Some
    }

    /// A set without runs.
    pub fn new() -> (set: Self)
        ensures
            set.runs() == Seq::<u64>::empty(),
            !set.timing(),
    {
        ProfileSet { runs: Vec::with_capacity(1024), start: None }
    }

    /// Starts timing a run; a run that was being timed is given up.
    pub fn start(&mut self)
        ensures
            final(self).timing(),
            final(self).runs() == old(self).runs(),
    {
        self.start = Some(now());
    }

    /// Ends the run that is being timed and adds its duration to the set,
    /// as `record` adds it. Where no run is being timed nothing changes.
    pub fn stop(&mut self)
        ensures
            !final(self).timing(),
            old(self).timing() ==> final(self).runs().len() == old(self).runs().len() + 1
                && final(self).runs().drop_last() == old(self).runs(),
            !old(self).timing() ==> final(self).runs() == old(self).runs(),
    {
        match self.start.take() {
            Some(start) => {
                self.record(as_nanos(&elapsed(&start)));
                assert(self.runs@.drop_last() =~= old(self).runs@);
            },
            None => {},
        }
    }

    /// Adds a run of `nanos` nanoseconds to the set, a duration beyond the
    /// range of the entries as the largest entry. A run that is being timed
    /// goes on.
    pub fn record(&mut self, nanos: u128)
        ensures
            final(self).runs() == old(self).runs().push(saturated(nanos)),
            final(self).timing() == old(self).timing(),
    {
        let entry: u64 = if nanos > 0xffff_ffff_ffff_ffff {
            0xffff_ffff_ffff_ffff
        } else {
            nanos as u64
        };
        self.runs.push(entry);
    }

    /// Times one call of `f` as a run, and hands back what `f` returned.
    pub fn scoped_run<F, R>(&mut self, f: F) -> (rval: R) where F: FnOnce() -> R
        requires
            f.requires(()),
        ensures
            f.ensures((), rval),
            !final(self).timing(),
            final(self).runs().len() == old(self).runs().len() + 1,
            final(self).runs().drop_last() == old(self).runs(),
    {
        self.start();
        let rval = f();
        self.stop();
        rval
    }

    /// Forgets all runs, and the run that is being timed.
    pub fn clear(&mut self)
        ensures
            final(self).runs() == Seq::<u64>::empty(),
            !final(self).timing(),
    {
        self.runs.clear();
        self.start = None;
    }

    /// The mean duration, rounded down to the nanosecond.
    pub fn mean(&self) -> (mean: u64)
        requires
            self.runs().len() > 0,
        ensures
            mean == mean_of(self.runs()),
    {
        let mut sum: u128 = 0;
        let mut i: usize = 0;
        assert(self.runs@.take(0) =~= Seq::<u64>::empty());
        while i < self.runs.len()
            invariant
                i <= self.runs@.len(),
                sum == total(self.runs@.take(i as int)),
            decreases self.runs@.len() - i,
        {
            proof {
                lemma_total_bounds(self.runs@, i as int);
                assert(self.runs@.take(i + 1).drop_last() =~= self.runs@.take(i as int));
                assert(i * 0xffff_ffff_ffff_ffff <= 0xffff_ffff_ffff_ffff * 0xffff_ffff_ffff_ffff)
                    by (nonlinear_arith)
                    requires
                        0 <= i <= 0xffff_ffff_ffff_ffff,
                ;
            }
            sum = sum + self.runs[i] as u128;
            i += 1;
        }
        assert(self.runs@.take(self.runs@.len() as int) =~= self.runs@);
        let count: u128 = self.runs.len() as u128;
        proof {
            lemma_total_bounds(self.runs@, self.runs@.len() as int);
            assert(total(self.runs@) / (count as int) <= 0xffff_ffff_ffff_ffff) by (nonlinear_arith)
                requires
                    0 <= total(self.runs@) <= count * 0xffff_ffff_ffff_ffff,
                    count > 0,
            ;
        }
        (sum / count) as u64
    }

    /// The entry in the middle of the series.
    pub fn median(&self) -> (middle: u64)
        requires
            self.runs().len() > 0,
        ensures
            middle == self.runs()[self.runs().len() as int / 2],
    {
        self.runs[self.runs.len() / 2]
    }

    /// The sample variance of the durations, taken in whole microseconds.
    pub fn variance(&self) -> (variance: u128)
        requires
            self.runs().len() > 1,
            squared_deviations(self.runs(), mean_of(self.runs()))
                <= 0xffff_ffff_ffff_ffff_ffff_ffff_ffff_ffff,
        ensures
            variance == variance_of(self.runs()),
    {
        let mean: u64 = self.mean() / 1000;
        let ghost exact = mean_of(self.runs());
        let mut top_term: u128 = 0;
        let mut i: usize = 0;
        assert(self.runs@.take(0) =~= Seq::<u64>::empty());
        while i < self.runs.len()
            invariant
                i <= self.runs@.len(),
                mean == exact / 1000,
                squared_deviations(self.runs@, exact) <= 0xffff_ffff_ffff_ffff_ffff_ffff_ffff_ffff,
                top_term == squared_deviations(self.runs@.take(i as int), exact),
            decreases self.runs@.len() - i,
        {
            let micros: u64 = self.runs[i] / 1000;
            let distance: u128 = if micros >= mean {
                (micros - mean) as u128
            } else {
                (mean - micros) as u128
            };
            proof {
                assert(self.runs@.take(i + 1).drop_last() =~= self.runs@.take(i as int));
                lemma_deviations_grow(self.runs@, exact, i + 1);
                let d = micros as int - mean as int;
                assert(distance * distance == d * d) by (nonlinear_arith)
                    requires
                        distance == d || distance == -d,
                ;
            }
            top_term = top_term + distance * distance;
            i += 1;
        }
        assert(self.runs@.take(self.runs@.len() as int) =~= self.runs@);
        let bot_term: u128 = (self.runs.len() - 1) as u128;
        top_term / bot_term
    }

    /// The sample variance as `variance` gives it, and `None` where there
    /// are fewer than two runs or the squared distances add up beyond the
    /// range of the result.
    pub fn checked_variance(&self) -> (variance: Option<u128>)
        ensures
            variance matches Some(v) ==> self.runs().len() > 1 && v == variance_of(self.runs()),
            variance is None <==> self.runs().len() <= 1 || squared_deviations(
                self.runs(),
                mean_of(self.runs()),
            ) > 0xffff_ffff_ffff_ffff_ffff_ffff_ffff_ffff,
    {
        if self.runs.len() < 2 {
            return None;
        }
        let mean: u64 = self.mean() / 1000;
        let ghost exact = mean_of(self.runs());
        let mut top_term: u128 = 0;
        let mut i: usize = 0;
        assert(self.runs@.take(0) =~= Seq::<u64>::empty());
        while i < self.runs.len()
            invariant
                i <= self.runs@.len(),
                self.runs@.len() > 1,
                exact == mean_of(self.runs@),
                mean == exact / 1000,
                top_term == squared_deviations(self.runs@.take(i as int), exact),
            decreases self.runs@.len() - i,
        {
            let micros: u64 = self.runs[i] / 1000;
            let distance: u128 = if micros >= mean {
                (micros - mean) as u128
            } else {
                (mean - micros) as u128
            };
            proof {
                assert(self.runs@.take(i + 1).drop_last() =~= self.runs@.take(i as int));
                lemma_deviations_grow(self.runs@, exact, i + 1);
                let d = micros as int - mean as int;
                assert(distance * distance == d * d) by (nonlinear_arith)
                    requires
                        distance == d || distance == -d,
                ;
                assert(distance * distance <= 0xffff_ffff_ffff_ffff * 0xffff_ffff_ffff_ffff)
                    by (nonlinear_arith)
                    requires
                        0 <= distance <= 0xffff_ffff_ffff_ffff,
                ;
            }
            let square: u128 = distance * distance;
            if top_term > 0xffff_ffff_ffff_ffff_ffff_ffff_ffff_ffff - square {
                return None;
            }
            top_term = top_term + square;
            i += 1;
        }
        assert(self.runs@.take(self.runs@.len() as int) =~= self.runs@);
        let bot_term: u128 = (self.runs.len() - 1) as u128;
        Some(top_term / bot_term)
    }

    /// The standard deviation as `std_dev` gives it, and `None` where
    /// `checked_variance` gives none.
    pub fn checked_std_dev(&self) -> (deviation: Option<u64>)
        ensures
            deviation matches Some(d) ==> self.runs().len() > 1 && is_root(
                variance_of(self.runs()),
                d as int,
            ),
            deviation is None <==> self.runs().len() <= 1 || squared_deviations(
                self.runs(),
                mean_of(self.runs()),
            ) > 0xffff_ffff_ffff_ffff_ffff_ffff_ffff_ffff,
    {
        match self.checked_variance() {
            Some(v) => Some(integer_root(v)),
            None => None,
        }
    }

    /// The standard deviation of the durations in whole microseconds: the
    /// square root of the variance, rounded down.
    pub fn std_dev(&self) -> (deviation: u64)
        requires
            self.runs().len() > 1,
            squared_deviations(self.runs(), mean_of(self.runs()))
                <= 0xffff_ffff_ffff_ffff_ffff_ffff_ffff_ffff,
        ensures
            is_root(variance_of(self.runs()), deviation as int),
    {
        integer_root(self.variance())
    }

    /// The number of runs.
    pub fn run_count(&self) -> (count: usize)
        ensures
            count == self.runs().len(),
    {
        self.runs.len()
    }

    /// The duration of the latest run.
    pub fn last(&self) -> (latest: Option<u64>)
        ensures
            latest == (if self.runs().len() > 0 {
                Some(self.runs().last())
            } else {
                None
            }),
    {
        if self.runs.len() > 0 {
            Some(self.runs[self.runs.len() - 1])
        } else {
            None
        }
    }
}

} // verus!
