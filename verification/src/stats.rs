//! What a benchmark measures: outcomes of operations, latencies and throughput.
//!
//! Latencies are whole nanoseconds.

use vstd::prelude::*;
use vstd::relations::*;
use vstd::seq_lib::*;

verus! {

/// Whether numbers stand in rising order.
pub open spec fn rising(s: Seq<u64>) -> bool {
    forall|i: int, j: int| 0 <= i <= j < s.len() ==> s[i] <= s[j]
}

/// One element more.
proof fn lemma_take_one_more(s: Seq<u64>, i: int)
    requires
        0 <= i < s.len(),
    ensures
        s.take(i + 1).to_multiset() == s.take(i).to_multiset().insert(s[i]),
{
    broadcast use group_to_multiset_ensures;

    assert(s.take(i + 1) =~= s.take(i).push(s[i]));
}

/// Merges two rising lists into one.
fn merge(a: &Vec<u64>, b: &Vec<u64>) -> (merged: Vec<u64>)
    requires
        rising(a@),
        rising(b@),
    ensures
        rising(merged@),
        merged@.to_multiset() == a@.to_multiset().add(b@.to_multiset()),
{
    broadcast use group_to_multiset_ensures;

    let mut merged: Vec<u64> = Vec::new();
    let mut i: usize = 0;
    let mut j: usize = 0;
    assert(merged@.to_multiset() =~= a@.take(0).to_multiset().add(b@.take(0).to_multiset()));
    while i < a.len() || j < b.len()
        invariant
            i <= a@.len(),
            j <= b@.len(),
            rising(a@),
            rising(b@),
            rising(merged@),
            forall|m: int, k: int|
                0 <= m < merged@.len() && i <= k < a@.len() ==> merged@[m] <= a@[k],
            forall|m: int, k: int|
                0 <= m < merged@.len() && j <= k < b@.len() ==> merged@[m] <= b@[k],
            merged@.to_multiset() == a@.take(i as int).to_multiset().add(
                b@.take(j as int).to_multiset(),
            ),
        decreases a@.len() - i + b@.len() - j,
    {
        if j >= b.len() || (i < a.len() && a[i] <= b[j]) {
            proof {
                lemma_take_one_more(a@, i as int);
                to_multiset_build(merged@, a@[i as int]);
            }
            merged.push(a[i]);
            i = i + 1;
        } else {
            proof {
                lemma_take_one_more(b@, j as int);
                to_multiset_build(merged@, b@[j as int]);
            }
            merged.push(b[j]);
            j = j + 1;
        }
        assert(merged@.to_multiset() =~= a@.take(i as int).to_multiset().add(
            b@.take(j as int).to_multiset(),
        ));
    }
    assert(a@.take(i as int) =~= a@);
    assert(b@.take(j as int) =~= b@);
    merged
}

/// The numbers from the `from`-th up to the one before the `to`-th, in rising order.
fn sort_range(list: &Vec<u64>, from: usize, to: usize) -> (sorted: Vec<u64>)
    requires
        from <= to <= list@.len(),
    ensures
        rising(sorted@),
        sorted@.to_multiset() == list@.subrange(from as int, to as int).to_multiset(),
    decreases to - from,
{
    if to - from < 2 {
        let mut sorted: Vec<u64> = Vec::new();
        if from < to {
            sorted.push(list[from]);
        }
        assert(sorted@ =~= list@.subrange(from as int, to as int));
        sorted
    } else {
        let middle: usize = from + (to - from) / 2;
        let left = sort_range(list, from, middle);
        let right = sort_range(list, middle, to);
        proof {
            let first = list@.subrange(from as int, middle as int);
            let second = list@.subrange(middle as int, to as int);
            lemma_multiset_commutative(first, second);
            assert(first + second =~= list@.subrange(from as int, to as int));
        }
        merge(&left, &right)
    }
}

/// Sorts numbers into rising order.
pub fn sort(list: &Vec<u64>) -> (sorted: Vec<u64>)
    ensures
        rising(sorted@),
        forall|i: int, j: int| 0 <= i <= j < sorted@.len() ==> sorted@[i] <= sorted@[j],
        sorted@.to_multiset() == list@.to_multiset(),
{
    assert(list@.subrange(0, list@.len() as int) =~= list@);
    sort_range(list, 0, list.len())
}

/// How many of `count` samples make up `percent` per cent, rounded down.
pub open spec fn rank(count: nat, percent: nat) -> nat {
    count * percent / 100
}

/// The percentile of samples in rising order: the sample at which the given share of all of them is
/// reached, the first where the share is less than one sample, and 0 where there is none.
pub open spec fn percentile_of(samples: Seq<u64>, percent: nat) -> u64 {
    let reached = rank(samples.len(), percent) as int;
    let index = if reached > 0 {
        reached - 1
    } else {
        0
    };
    if index < samples.len() {
        samples[index]
    } else {
        0
    }
}

/// The percentile of samples in rising order.
pub fn percentile(samples: &Vec<u64>, percent: u8) -> (value: u64)
    ensures
        value == percentile_of(samples@, percent as nat),
{
    let count: u128 = samples.len() as u128;
    proof {
        assert(count * (percent as u128) <= 0xffff_ffff_ffff_ffff * 0xff) by (nonlinear_arith)
            requires
                count <= 0xffff_ffff_ffff_ffff,
                percent <= 0xff,
        ;
    }
    let reached: u128 = count * (percent as u128) / 100;
    let index: u128 = if reached > 0 {
        reached - 1
    } else {
        0
    };
    if index < count {
        samples[index as usize]
    } else {
        0
    }
}

/// The latencies of a benchmark at a glance.
#[derive(Debug)]
pub struct LatencySummary {
    /// All samples, in rising order.
    pub samples: Vec<u64>,
    /// The smallest sample.
    pub min: u64,
    /// The largest sample.
    pub max: u64,
    /// The 50th percentile.
    pub p50: u64,
    /// The 95th percentile.
    pub p95: u64,
    /// The 99th percentile.
    pub p99: u64,
}

impl LatencySummary {
    /// Whether this sums up its own samples.
    pub open spec fn well_formed(self) -> bool {
        let n = self.samples@.len() as int;
        &&& rising(self.samples@)
        &&& self.min == if n > 0 {
            self.samples@[0]
        } else {
            0
        }
        &&& self.max == if n > 0 {
            self.samples@[n - 1]
        } else {
            0
        }
        &&& self.p50 == percentile_of(self.samples@, 50)
        &&& self.p95 == percentile_of(self.samples@, 95)
        &&& self.p99 == percentile_of(self.samples@, 99)
    }
}

/// Sums latencies up. Where there is none, every figure is 0.
pub fn summarize(latencies: &Vec<u64>) -> (summary: LatencySummary)
    ensures
        summary.well_formed(),
        summary.samples@.to_multiset() == latencies@.to_multiset(),
        summary.samples@.len() == latencies@.len(),
        latencies@.len() > 0 ==> latencies@.contains(summary.min) && latencies@.contains(
            summary.max,
        ),
        forall|i: int|
            0 <= i < latencies@.len() ==> summary.min <= #[trigger] latencies@[i] <= summary.max,
        latencies@.len() == 0 ==> summary.min == 0 && summary.max == 0,
{
    let samples = sort(latencies);
    let n: usize = samples.len();
    let min: u64 = if n > 0 {
        samples[0]
    } else {
        0
    };
    let max: u64 = if n > 0 {
        samples[n - 1]
    } else {
        0
    };
    let p50: u64 = percentile(&samples, 50);
    let p95: u64 = percentile(&samples, 95);
    let p99: u64 = percentile(&samples, 99);
    let summary = LatencySummary { samples, min, max, p50, p95, p99 };
    proof {
        law_extremes_are_extreme(summary, latencies@);
    }
    summary
}

/// What became of a successful operation.
#[derive(Clone, Copy, Debug, PartialEq, Eq, Structural)]
pub struct Sample {
    /// How long it took, in nanoseconds.
    pub latency: u64,
    /// Whether it was a read.
    pub is_read: bool,
}

/// What became of an operation.
#[derive(Clone, Copy, Debug, PartialEq, Eq, Structural)]
pub enum Outcome {
    /// It worked.
    Success(Sample),
    /// The node could not be reached or did not take it.
    Failure,
    /// It never came to an end.
    Lost,
}

/// The samples of the operations that worked, in order.
pub open spec fn samples_of(outcomes: Seq<Outcome>) -> Seq<Sample> {
    outcomes.filter(|o: Outcome| o is Success).map_values(|o: Outcome| o->Success_0)
}

/// The latencies of samples.
pub open spec fn latencies_of(samples: Seq<Sample>) -> Seq<u64> {
    samples.map_values(|s: Sample| s.latency)
}

/// Those samples that are reads, or those that are writes.
pub open spec fn only(samples: Seq<Sample>, reads: bool) -> Seq<Sample> {
    samples.filter(|s: Sample| s.is_read == reads)
}

/// How many operations failed.
pub open spec fn failures(outcomes: Seq<Outcome>) -> nat {
    outcomes.filter(|o: Outcome| o is Failure).len()
}

/// How many operations never came to an end.
pub open spec fn lost(outcomes: Seq<Outcome>) -> nat {
    outcomes.filter(|o: Outcome| o is Lost).len()
}

/// What became of all operations of a benchmark.
#[derive(Debug)]
pub struct Tally {
    /// How many operations worked.
    pub successful_operations: usize,
    /// How many failed.
    pub failed_operations: usize,
    /// The latencies of those that worked.
    pub latency_samples: Vec<u64>,
    /// The latencies of the reads among them.
    pub read_latencies: Vec<u64>,
    /// The latencies of the writes among them.
    pub write_latencies: Vec<u64>,
}

impl Tally {
    /// Whether this is the tally of the given outcomes.
    pub open spec fn counts(self, outcomes: Seq<Outcome>) -> bool {
        let samples = samples_of(outcomes);
        &&& self.successful_operations == samples.len()
        &&& self.failed_operations == failures(outcomes)
        &&& self.latency_samples@ == latencies_of(samples)
        &&& self.read_latencies@ == latencies_of(only(samples, true))
        &&& self.write_latencies@ == latencies_of(only(samples, false))
    }
}

/// Adding an outcome to a list adds its sample, if it has one.
proof fn lemma_one_more_outcome(outcomes: Seq<Outcome>, i: int)
    requires
        0 <= i < outcomes.len(),
    ensures
        samples_of(outcomes.take(i + 1)) == match outcomes[i] {
            Outcome::Success(sample) => samples_of(outcomes.take(i)).push(sample),
            _ => samples_of(outcomes.take(i)),
        },
        failures(outcomes.take(i + 1)) == failures(outcomes.take(i)) + if outcomes[i] is Failure {
            1nat
        } else {
            0
        },
        samples_of(outcomes.take(i)).len() <= i,
        failures(outcomes.take(i)) <= i,
    decreases i,
{
    reveal(Seq::filter);
    if i > 0 {
        lemma_one_more_outcome(outcomes, i - 1);
    }
    assert(outcomes.take(i + 1).drop_last() =~= outcomes.take(i));
    assert(outcomes.take(i + 1).last() == outcomes[i]);
    match outcomes[i] {
        Outcome::Success(sample) => {
            assert(samples_of(outcomes.take(i + 1)) =~= samples_of(outcomes.take(i)).push(sample));
        },
        _ => {},
    }
}

/// Adding a sample adds it to the reads or to the writes.
proof fn lemma_one_more_sample(samples: Seq<Sample>, sample: Sample, reads: bool)
    ensures
        latencies_of(samples.push(sample)) == latencies_of(samples).push(sample.latency),
        latencies_of(only(samples.push(sample), reads)) == if sample.is_read == reads {
            latencies_of(only(samples, reads)).push(sample.latency)
        } else {
            latencies_of(only(samples, reads))
        },
{
    reveal(Seq::filter);
    let more = samples.push(sample);
    assert(more.drop_last() =~= samples);
    assert(latencies_of(more) =~= latencies_of(samples).push(sample.latency));
    if sample.is_read == reads {
        assert(only(more, reads) =~= only(samples, reads).push(sample));
        assert(latencies_of(only(more, reads)) =~= latencies_of(only(samples, reads)).push(
            sample.latency,
        ));
    }
}

/// Counts and sorts out what became of the operations.
pub fn tally(outcomes: &Vec<Outcome>) -> (result: Tally)
    ensures
        result.counts(outcomes@),
{
    let mut successful: usize = 0;
    let mut failed: usize = 0;
    let mut latencies: Vec<u64> = Vec::new();
    let mut reads: Vec<u64> = Vec::new();
    let mut writes: Vec<u64> = Vec::new();
    let mut i: usize = 0;
    let ghost mut seen: Seq<Sample> = samples_of(outcomes@.take(0));
    proof {
        reveal(Seq::filter);
        assert(seen =~= seq![]);
        assert(latencies@ =~= latencies_of(seen));
        assert(reads@ =~= latencies_of(only(seen, true)));
        assert(writes@ =~= latencies_of(only(seen, false)));
    }
    while i < outcomes.len()
        invariant
            i <= outcomes@.len(),
            seen == samples_of(outcomes@.take(i as int)),
            successful == seen.len(),
            successful <= i,
            failed == failures(outcomes@.take(i as int)),
            failed <= i,
            latencies@ == latencies_of(seen),
            reads@ == latencies_of(only(seen, true)),
            writes@ == latencies_of(only(seen, false)),
        decreases outcomes@.len() - i,
    {
        proof {
            lemma_one_more_outcome(outcomes@, i as int);
        }
        match outcomes[i] {
            Outcome::Success(sample) => {
                proof {
                    lemma_one_more_sample(seen, sample, true);
                    lemma_one_more_sample(seen, sample, false);
                    seen = seen.push(sample);
                }
                successful = successful + 1;
                latencies.push(sample.latency);
                if sample.is_read {
                    reads.push(sample.latency);
                } else {
                    writes.push(sample.latency);
                }
            },
            Outcome::Failure => {
                failed = failed + 1;
            },
            Outcome::Lost => {},
        }
        i = i + 1;
    }
    assert(outcomes@.take(i as int) =~= outcomes@);
    Tally {
        successful_operations: successful,
        failed_operations: failed,
        latency_samples: latencies,
        read_latencies: reads,
        write_latencies: writes,
    }
}

/// The figures of a benchmark that are counted or picked out, not computed.
#[derive(Debug)]
pub struct BenchmarkResults {
    /// How many operations were to be done.
    pub total_operations: usize,
    /// How many of them worked.
    pub successful_operations: usize,
    /// How many failed.
    pub failed_operations: usize,
    /// The latencies of those that worked.
    pub latency: LatencySummary,
    /// The latencies of the reads, in the order of the operations.
    pub read_latencies: Vec<u64>,
    /// The latencies of the writes, in the order of the operations.
    pub write_latencies: Vec<u64>,
}

impl BenchmarkResults {
    /// Whether the counts are those of `total` operations with the given outcomes.
    pub open spec fn counts(self, total: usize, outcomes: Seq<Outcome>) -> bool {
        &&& self.total_operations == total
        &&& self.successful_operations == samples_of(outcomes).len()
        &&& self.failed_operations == failures(outcomes)
    }

    /// Whether the latencies are those of the given outcomes.
    pub open spec fn measures(self, outcomes: Seq<Outcome>) -> bool {
        let samples = samples_of(outcomes);
        &&& self.latency.well_formed()
        &&& self.latency.samples@.to_multiset() == latencies_of(samples).to_multiset()
        &&& self.read_latencies@ == latencies_of(only(samples, true))
        &&& self.write_latencies@ == latencies_of(only(samples, false))
    }
}

/// The results of `total` operations with the given outcomes.
pub fn full_results(total: usize, outcomes: &Vec<Outcome>) -> (results: BenchmarkResults)
    ensures
        results.counts(total, outcomes@),
        results.measures(outcomes@),
{
    let counted = tally(outcomes);
    BenchmarkResults {
        total_operations: total,
        successful_operations: counted.successful_operations,
        failed_operations: counted.failed_operations,
        latency: summarize(&counted.latency_samples),
        read_latencies: counted.read_latencies,
        write_latencies: counted.write_latencies,
    }
}

/// The results of a short benchmark: it counts as any other, and keeps no latencies.
pub fn counts_only(total: usize, outcomes: &Vec<Outcome>) -> (results: BenchmarkResults)
    ensures
        results.counts(total, outcomes@),
        results.measures(seq![]),
{
    let counted = tally(outcomes);
    proof {
        reveal(Seq::filter);
        let none = samples_of(seq![]);
        assert(latencies_of(none) =~= seq![]);
        assert(latencies_of(only(none, true)) =~= seq![]);
        assert(latencies_of(only(none, false)) =~= seq![]);
    }
    BenchmarkResults {
        total_operations: total,
        successful_operations: counted.successful_operations,
        failed_operations: counted.failed_operations,
        latency: summarize(&Vec::new()),
        read_latencies: Vec::new(),
        write_latencies: Vec::new(),
    }
}

/// A growth of the number of completed operations.
#[derive(Clone, Copy, Debug, PartialEq, Eq, Structural)]
pub struct Growth {
    /// When it was seen, in nanoseconds from the start.
    pub at: u64,
    /// By how much the number has grown.
    pub amount: u64,
}

/// Watches the number of completed operations grow.
#[derive(Debug)]
pub struct ThroughputMonitor {
    /// The number at the last growth.
    pub last_count: u64,
    /// The number at which there is nothing more to watch.
    pub target: u64,
    /// The growths that were seen.
    pub growths: Vec<Growth>,
}

/// A look at the number of completed operations: when it is taken, and the number.
pub type Look = (u64, u64);

impl ThroughputMonitor {
    /// Whether the monitor has taken the given looks, and no others.
    pub open spec fn has_taken(self, looks: Seq<Look>) -> bool {
        &&& self.last_count == highest_count(looks)
        &&& self.growths@ == growths(looks)
    }

    /// Watches from 0 on until all operations are completed.
    pub fn new(num_operations: usize) -> (monitor: Self)
        ensures
            monitor.has_taken(seq![]),
            monitor.last_count == 0,
            monitor.growths@.len() == 0,
            monitor.target == num_operations,
    {
        let monitor = ThroughputMonitor {
            last_count: 0,
            target: num_operations as u64,
            growths: Vec::new(),
        };
        assert(monitor.growths@ =~= growths(seq![]));
        monitor
    }

    /// Takes a look at the number of completed operations, and tells whether there is nothing more
    /// to watch.
    pub fn tick(&mut self, at: u64, current: u64) -> (done: bool)
        ensures
            done == (current >= old(self).target),
            final(self).target == old(self).target,
            final(self).last_count == if current > old(self).last_count {
                current
            } else {
                old(self).last_count
            },
            final(self).growths@ == old(self).growths@ + growth(old(self).last_count, (at, current)),
            current > old(self).last_count ==> final(self).growths@ == old(self).growths@.push(
                Growth { at, amount: (current - old(self).last_count) as u64 },
            ),
            current <= old(self).last_count ==> final(self).growths@ == old(self).growths@,
            forall|looks: Seq<Look>| #[trigger]
                old(self).has_taken(looks) ==> final(self).has_taken(looks.push((at, current))),
    {
        if current > self.last_count {
            self.growths.push(Growth { at, amount: current - self.last_count });
            self.last_count = current;
        }
        assert(self.growths@ =~= old(self).growths@ + growth(old(self).last_count, (at, current)));
        assert forall|looks: Seq<Look>| #[trigger] old(self).has_taken(looks) implies self.has_taken(
            looks.push((at, current)),
        ) by {
            assert(looks.push((at, current)).drop_last() =~= looks);
        }
        current >= self.target
    }
}

/// The growth that a look finds, if it finds one, where the highest number so far is `last`.
pub open spec fn growth(last: u64, look: Look) -> Seq<Growth> {
    if look.1 > last {
        seq![Growth { at: look.0, amount: (look.1 - last) as u64 }]
    } else {
        seq![]
    }
}

/// The highest number that looks find, at least 0.
pub open spec fn highest_count(looks: Seq<Look>) -> u64
    decreases looks.len(),
{
    if looks.len() == 0 {
        0
    } else {
        let before = highest_count(looks.drop_last());
        if looks.last().1 > before {
            looks.last().1
        } else {
            before
        }
    }
}

/// The growths that looks find one after the other.
pub open spec fn growths(looks: Seq<Look>) -> Seq<Growth>
    decreases looks.len(),
{
    if looks.len() == 0 {
        seq![]
    } else {
        growths(looks.drop_last()) + growth(highest_count(looks.drop_last()), looks.last())
    }
}

/// The sum of growths.
pub open spec fn total_growth(found: Seq<Growth>) -> nat
    decreases found.len(),
{
    if found.len() == 0 {
        0
    } else {
        total_growth(found.drop_last()) + found.last().amount as nat
    }
}

/// No completed operation is missed or counted twice: the growths that looks find add up to the
/// highest number that they find. None of them is empty.
pub proof fn law_growths_add_up(looks: Seq<Look>)
    ensures
        total_growth(growths(looks)) == highest_count(looks),
        forall|i: int| 0 <= i < growths(looks).len() ==> (#[trigger] growths(looks)[i]).amount > 0,
    decreases looks.len(),
{
    if looks.len() > 0 {
        let front = looks.drop_last();
        law_growths_add_up(front);
        let found = growth(highest_count(front), looks.last());
        if found.len() > 0 {
            assert(growths(looks).drop_last() =~= growths(front));
        } else {
            assert(growths(looks) =~= growths(front));
        }
    }
}

/// The highest number is found by a look, and no look finds a higher one.
proof fn lemma_highest_count(looks: Seq<Look>, bound: u64)
    requires
        forall|i: int| 0 <= i < looks.len() ==> (#[trigger] looks[i]).1 <= bound,
    ensures
        highest_count(looks) <= bound,
        looks.len() > 0 ==> looks.last().1 <= highest_count(looks),
    decreases looks.len(),
{
    if looks.len() > 0 {
        let front = looks.drop_last();
        assert forall|i: int| 0 <= i < front.len() implies (#[trigger] front[i]).1 <= bound by {
            assert(front[i] == looks[i]);
        }
        lemma_highest_count(front, bound);
    }
}

/// Every operation is in exactly one growth: where no look finds more operations completed than
/// there are, and the last one finds nothing more to watch, the growths add up to the number of
/// operations.
pub proof fn law_growths_cover_all_operations(looks: Seq<Look>, num_operations: usize)
    requires
        looks.len() > 0,
        forall|i: int| 0 <= i < looks.len() ==> (#[trigger] looks[i]).1 <= num_operations,
        looks.last().1 >= num_operations,
    ensures
        total_growth(growths(looks)) == num_operations,
{
    law_growths_add_up(looks);
    lemma_highest_count(looks, num_operations as u64);
}

/// Growths are listed in the order of time: where each look is later than those before it, so is
/// each growth. Every growth is seen at the time of a look.
pub proof fn law_growths_follow_time(looks: Seq<Look>)
    requires
        forall|i: int, j: int| 0 <= i < j < looks.len() ==> looks[i].0 < looks[j].0,
    ensures
        forall|i: int, j: int|
            0 <= i < j < growths(looks).len() ==> growths(looks)[i].at < growths(looks)[j].at,
        forall|i: int|
            0 <= i < growths(looks).len() ==> (#[trigger] growths(looks)[i]).at
                <= looks.last().0,
    decreases looks.len(),
{
    if looks.len() > 0 {
        let front = looks.drop_last();
        assert forall|i: int, j: int| 0 <= i < j < front.len() implies front[i].0 < front[j].0 by {
            assert(front[i] == looks[i] && front[j] == looks[j]);
        }
        law_growths_follow_time(front);
        if front.len() > 0 {
            assert(front.last() == looks[front.len() - 1]);
            assert(looks.last() == looks[front.len() as int]);
        }
        assert forall|i: int| 0 <= i < growths(looks).len() implies (#[trigger] growths(
            looks,
        )[i]).at <= looks.last().0 by {
            if i < growths(front).len() {
                assert(growths(looks)[i] == growths(front)[i]);
            }
        }
        assert forall|i: int, j: int| 0 <= i < j < growths(looks).len() implies growths(looks)[i].at
            < growths(looks)[j].at by {
            assert(growths(looks)[i] == growths(front)[i]);
            if j < growths(front).len() {
                assert(growths(looks)[j] == growths(front)[j]);
            }
        }
    }
}

/// Sorting has one result, whatever the order of what is sorted: samples in rising order are
/// determined by how often each occurs. So is every figure of a summary.
pub proof fn law_summary_does_not_depend_on_order(a: LatencySummary, b: LatencySummary)
    requires
        a.well_formed(),
        b.well_formed(),
        a.samples@.to_multiset() == b.samples@.to_multiset(),
    ensures
        a.samples@ == b.samples@,
        a.min == b.min,
        a.max == b.max,
        a.p50 == b.p50,
        a.p95 == b.p95,
        a.p99 == b.p99,
{
    let order = |x: u64, y: u64| x <= y;
    assert(sorted_by(a.samples@, order));
    assert(sorted_by(b.samples@, order));
    lemma_sorted_unique(a.samples@, b.samples@, order);
}

/// The figures of a summary rise from the smallest sample over the percentiles to the largest.
pub proof fn law_figures_rise(summary: LatencySummary)
    requires
        summary.well_formed(),
    ensures
        summary.min <= summary.p50 <= summary.p95 <= summary.p99 <= summary.max,
{
}

/// A percentile is one of the samples, and its share of them is reached there: as many samples as
/// make up the share are at most the percentile, and from the last of these on all are at least the
/// percentile.
pub proof fn law_percentile_reaches_its_share(samples: Seq<u64>, percent: nat)
    requires
        rising(samples),
        percent <= 100,
        rank(samples.len(), percent) > 0,
    ensures
        forall|i: int|
            0 <= i < rank(samples.len(), percent) ==> #[trigger] samples[i] <= percentile_of(
                samples,
                percent,
            ),
        forall|i: int|
            rank(samples.len(), percent) - 1 <= i < samples.len() ==> #[trigger] samples[i]
                >= percentile_of(samples, percent),
        samples.contains(percentile_of(samples, percent)),
{
    assert(rank(samples.len(), percent) <= samples.len()) by (nonlinear_arith)
        requires
            percent <= 100,
            rank(samples.len(), percent) == samples.len() * percent / 100,
    ;
}

/// Every sample is a read or a write: the two lists of latencies hold together what the list of all
/// of them holds, and as many as operations worked.
pub proof fn law_reads_and_writes_are_all(outcomes: Seq<Outcome>)
    ensures
        latencies_of(only(samples_of(outcomes), true)).to_multiset().add(
            latencies_of(only(samples_of(outcomes), false)).to_multiset(),
        ) == latencies_of(samples_of(outcomes)).to_multiset(),
        only(samples_of(outcomes), true).len() + only(samples_of(outcomes), false).len()
            == samples_of(outcomes).len(),
{
    lemma_split(samples_of(outcomes));
}

/// Samples are split into reads and writes.
proof fn lemma_split(samples: Seq<Sample>)
    ensures
        latencies_of(only(samples, true)).to_multiset().add(
            latencies_of(only(samples, false)).to_multiset(),
        ) == latencies_of(samples).to_multiset(),
        only(samples, true).len() + only(samples, false).len() == samples.len(),
    decreases samples.len(),
{
    broadcast use group_to_multiset_ensures;

    reveal(Seq::filter);
    let reads = latencies_of(only(samples, true));
    let writes = latencies_of(only(samples, false));
    if samples.len() > 0 {
        let front = samples.drop_last();
        let last = samples.last();
        lemma_split(front);
        assert(samples =~= front.push(last));
        lemma_one_more_sample(front, last, true);
        lemma_one_more_sample(front, last, false);
    } else {
        assert(latencies_of(samples) =~= seq![]);
        assert(reads =~= seq![]);
        assert(writes =~= seq![]);
    }
    assert(reads.to_multiset().add(writes.to_multiset()) =~= latencies_of(samples).to_multiset());
}

/// No operation is counted twice: those that worked, those that failed and those that never came to
/// an end are all of them.
pub proof fn law_every_operation_is_counted_once(outcomes: Seq<Outcome>)
    ensures
        samples_of(outcomes).len() + failures(outcomes) + lost(outcomes) == outcomes.len(),
    decreases outcomes.len(),
{
    reveal(Seq::filter);
    if outcomes.len() > 0 {
        law_every_operation_is_counted_once(outcomes.drop_last());
    }
}

/// There are as many latencies as operations that worked, and each is that of a read or of a write.
pub proof fn law_latencies_are_those_of_the_successes(
    results: BenchmarkResults,
    total: usize,
    outcomes: Seq<Outcome>,
)
    requires
        results.counts(total, outcomes),
        results.measures(outcomes),
    ensures
        results.successful_operations == results.latency.samples@.len(),
        results.successful_operations == results.read_latencies@.len()
            + results.write_latencies@.len(),
{
    broadcast use group_to_multiset_ensures;

    lemma_split(samples_of(outcomes));
    assert(results.latency.samples@.to_multiset().len() == results.latency.samples@.len());
    assert(latencies_of(samples_of(outcomes)).to_multiset().len() == samples_of(outcomes).len());
}

/// The extremes of a summary are those of the latencies that were handed in, in whatever order: each
/// is one of them, none is smaller than the minimum and none is greater than the maximum.
pub proof fn law_extremes_are_extreme(summary: LatencySummary, latencies: Seq<u64>)
    requires
        summary.well_formed(),
        summary.samples@.to_multiset() == latencies.to_multiset(),
    ensures
        summary.samples@.len() == latencies.len(),
        latencies.len() > 0 ==> latencies.contains(summary.min) && latencies.contains(summary.max),
        forall|i: int|
            0 <= i < latencies.len() ==> summary.min <= #[trigger] latencies[i] <= summary.max,
        latencies.len() == 0 ==> summary.min == 0 && summary.max == 0,
{
    broadcast use group_to_multiset_ensures;

    let samples = summary.samples@;
    assert(samples.to_multiset().len() == samples.len());
    assert(latencies.to_multiset().len() == latencies.len());
    if latencies.len() > 0 {
        assert(samples.contains(samples[0]));
        assert(samples.contains(samples[samples.len() - 1]));
        assert(samples.to_multiset().count(summary.min) > 0);
        assert(samples.to_multiset().count(summary.max) > 0);
    }
    assert forall|i: int| 0 <= i < latencies.len() implies summary.min <= #[trigger] latencies[i]
        <= summary.max by {
        assert(latencies.contains(latencies[i]));
        assert(samples.to_multiset().count(latencies[i]) > 0);
        let k = choose|k: int| 0 <= k < samples.len() && samples[k] == latencies[i];
        assert(samples[0] <= samples[k] <= samples[samples.len() - 1]);
    }
}

/// A percentile splits the samples at its share: with as many samples below the split as make up
/// `percent` per cent of all, rounded down, those are at most the percentile, and from the last of
/// them on all are at least the percentile; where that is not even one sample, all are at least the
/// percentile. It is one of the samples, and 0 where there is none.
pub proof fn law_percentile_splits_the_samples(samples: Seq<u64>, percent: nat)
    requires
        forall|i: int, j: int| 0 <= i <= j < samples.len() ==> samples[i] <= samples[j],
        percent <= 100,
    ensures
        samples.len() > 0 ==> samples.contains(percentile_of(samples, percent)),
        samples.len() == 0 ==> percentile_of(samples, percent) == 0,
        forall|i: int|
            0 <= i < samples.len() && 100 * (i + 1) <= samples.len() * percent
                ==> #[trigger] samples[i] <= percentile_of(samples, percent),
        forall|i: int|
            0 <= i < samples.len() && 100 * (i + 2) > samples.len() * percent
                ==> #[trigger] samples[i] >= percentile_of(samples, percent),
{
    let n = samples.len();
    let product = n * percent;
    assert(product <= 100 * n) by (nonlinear_arith)
        requires
            percent <= 100,
            product == n * percent,
    ;
    let reached = rank(n, percent);
    assert(100 * reached <= product < 100 * (reached + 1));
    if n > 0 {
        let index = if reached > 0 {
            reached - 1
        } else {
            0
        };
        assert(samples[index] == percentile_of(samples, percent));
    }
}

/// The percentiles of a summary are those that they are named after, and its samples rise.
pub proof fn law_summary_holds_the_named_percentiles(summary: LatencySummary)
    requires
        summary.well_formed(),
    ensures
        summary.p50 == percentile_of(summary.samples@, 50),
        summary.p95 == percentile_of(summary.samples@, 95),
        summary.p99 == percentile_of(summary.samples@, 99),
        forall|i: int, j: int|
            0 <= i <= j < summary.samples@.len() ==> summary.samples@[i] <= summary.samples@[j],
{
}

/// Every outcome counts for what it is: one more success adds its sample behind the others, one more
/// failure adds one to the failures, one more lost operation one to the lost ones, and none of them
/// changes anything else. Without outcomes there is nothing.
pub proof fn law_every_outcome_counts_for_what_it_is(outcomes: Seq<Outcome>, outcome: Outcome)
    ensures
        samples_of(seq![]).len() == 0,
        failures(seq![]) == 0,
        lost(seq![]) == 0,
        outcome matches Outcome::Success(sample) ==> samples_of(outcomes.push(outcome))
            == samples_of(outcomes).push(sample),
        !(outcome is Success) ==> samples_of(outcomes.push(outcome)) == samples_of(outcomes),
        failures(outcomes.push(outcome)) == failures(outcomes) + if outcome is Failure {
            1nat
        } else {
            0
        },
        lost(outcomes.push(outcome)) == lost(outcomes) + if outcome is Lost {
            1nat
        } else {
            0
        },
{
    reveal(Seq::filter);
    let more = outcomes.push(outcome);
    let n = outcomes.len() as int;
    lemma_one_more_outcome(more, n);
    assert(more.take(n + 1) =~= more);
    assert(more.take(n) =~= outcomes);
    assert(more.drop_last() =~= outcomes);
}

/// The latency of every sample is kept as it was measured and in its place, and every sample counts
/// as what it is: a read among the reads and a write among the writes, behind those before it.
pub proof fn law_every_sample_is_kept(samples: Seq<Sample>, sample: Sample, reads: bool)
    ensures
        latencies_of(samples).len() == samples.len(),
        forall|i: int|
            0 <= i < samples.len() ==> #[trigger] latencies_of(samples)[i] == samples[i].latency,
        only(seq![], reads).len() == 0,
        only(samples.push(sample), reads) == if sample.is_read == reads {
            only(samples, reads).push(sample)
        } else {
            only(samples, reads)
        },
{
    reveal(Seq::filter);
    assert(samples.push(sample).drop_last() =~= samples);
}

/// Results that count and measure outcomes hold no less than this of them: the number of operations
/// that were to be done, how many worked and how many failed, the latencies of the reads and of the
/// writes in the order of the operations, and all latencies with their extremes.
pub proof fn law_results_are_those_of_the_outcomes(
    results: BenchmarkResults,
    total: usize,
    outcomes: Seq<Outcome>,
)
    ensures
        results.counts(total, outcomes) ==> {
            &&& results.total_operations == total
            &&& results.successful_operations == samples_of(outcomes).len()
            &&& results.failed_operations == failures(outcomes)
        },
        results.measures(outcomes) ==> {
            let samples = samples_of(outcomes);
            &&& results.read_latencies@ == latencies_of(only(samples, true))
            &&& results.write_latencies@ == latencies_of(only(samples, false))
            &&& results.latency.well_formed()
            &&& results.latency.samples@.to_multiset() == latencies_of(samples).to_multiset()
            &&& results.latency.samples@.len() == samples.len()
            &&& forall|i: int|
                0 <= i < samples.len() ==> results.latency.min <= (#[trigger] samples[i]).latency
                    <= results.latency.max
        },
{
    if results.measures(outcomes) {
        let samples = samples_of(outcomes);
        let latencies = latencies_of(samples);
        law_extremes_are_extreme(results.latency, latencies);
        assert forall|i: int| 0 <= i < samples.len() implies results.latency.min <= (
        #[trigger] samples[i]).latency <= results.latency.max by {
            assert(latencies[i] == samples[i].latency);
        }
    }
}

/// A tally of outcomes holds no less than this of them: how many worked and how many failed, and the
/// latencies of all, of the reads and of the writes, in the order of the operations.
pub proof fn law_tally_is_that_of_the_outcomes(tally: Tally, outcomes: Seq<Outcome>)
    requires
        tally.counts(outcomes),
    ensures
        tally.successful_operations == samples_of(outcomes).len(),
        tally.failed_operations == failures(outcomes),
        tally.latency_samples@ == latencies_of(samples_of(outcomes)),
        tally.read_latencies@ == latencies_of(only(samples_of(outcomes), true)),
        tally.write_latencies@ == latencies_of(only(samples_of(outcomes), false)),
{
}

/// The sum of growths takes each of them in full, and the growths of looks are those that a monitor
/// lists: one more look adds the number by which it exceeds the highest one before it, at its time,
/// and nothing where it does not.
pub proof fn law_one_more_look(looks: Seq<Look>, look: Look, found: Seq<Growth>, one: Growth)
    ensures
        total_growth(seq![]) == 0,
        total_growth(found.push(one)) == total_growth(found) + one.amount,
        growths(seq![]).len() == 0,
        highest_count(seq![]) == 0,
        look.1 > highest_count(looks) ==> growths(looks.push(look)) == growths(looks).push(
            Growth { at: look.0, amount: (look.1 - highest_count(looks)) as u64 },
        ) && highest_count(looks.push(look)) == look.1,
        look.1 <= highest_count(looks) ==> growths(looks.push(look)) == growths(looks)
            && highest_count(looks.push(look)) == highest_count(looks),
{
    assert(found.push(one).drop_last() =~= found);
    assert(looks.push(look).drop_last() =~= looks);
    assert(looks.push(look).last() == look);
    if look.1 > highest_count(looks) {
        assert(growths(looks.push(look)) =~= growths(looks).push(
            Growth { at: look.0, amount: (look.1 - highest_count(looks)) as u64 },
        ));
    } else {
        assert(growths(looks.push(look)) =~= growths(looks));
    }
}

/// A monitor that has taken looks lists their growths and has seen their highest number.
pub proof fn law_monitor_lists_the_growths(monitor: ThroughputMonitor, looks: Seq<Look>)
    requires
        monitor.has_taken(looks),
    ensures
        monitor.growths@ == growths(looks),
        monitor.last_count == highest_count(looks),
{
}

} // verus!
