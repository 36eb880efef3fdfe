//! What the graphs of a benchmark show: bins and bars, which graphs there are, and where they go.

use vstd::prelude::*;
use vstd::seq_lib::*;
use vstd::string::*;
use crate::stats::{
    latencies_of, law_reads_and_writes_are_all, samples_of, BenchmarkResults, Outcome,
};

verus! {

/// How many bins a histogram of latencies has.
pub const BIN_COUNT: usize = 30;

/// The bin that a sample goes to: the one that it asks for, or the last where it asks for more.
pub open spec fn bin_of(wanted: usize, bin_count: usize) -> usize {
    if wanted < bin_count {
        wanted
    } else {
        (bin_count - 1) as usize
    }
}

/// How many samples go to a bin.
pub open spec fn samples_in(wanted: Seq<usize>, bin_count: usize, bin: int) -> nat {
    wanted.filter(|w: usize| bin_of(w, bin_count) == bin).len()
}

/// One sample more adds one to its bin and nothing to the others.
proof fn lemma_one_more_in_bin(wanted: Seq<usize>, bin_count: usize, i: int, bin: int)
    requires
        0 <= i < wanted.len(),
    ensures
        samples_in(wanted.take(i + 1), bin_count, bin) == samples_in(
            wanted.take(i),
            bin_count,
            bin,
        ) + if bin_of(wanted[i], bin_count) == bin {
            1nat
        } else {
            0
        },
        samples_in(wanted.take(i), bin_count, bin) <= i,
    decreases i,
{
    reveal(Seq::filter);
    if i > 0 {
        lemma_one_more_in_bin(wanted, bin_count, i - 1, bin);
    }
    assert(wanted.take(i + 1).drop_last() =~= wanted.take(i));
    assert(wanted.take(i + 1).last() == wanted[i]);
}

/// Counts the samples in every bin, given the bin that each asks for.
pub fn histogram(wanted: &Vec<usize>, bin_count: usize) -> (counts: Vec<usize>)
    requires
        bin_count > 0,
    ensures
        counts@.len() == bin_count,
        forall|b: int|
            0 <= b < bin_count ==> #[trigger] counts@[b] == samples_in(wanted@, bin_count, b),
{
    let mut counts: Vec<usize> = Vec::new();
    while counts.len() < bin_count
        invariant
            counts@.len() <= bin_count,
            forall|b: int| 0 <= b < counts@.len() ==> #[trigger] counts@[b] == 0,
        decreases bin_count - counts@.len(),
    {
        counts.push(0);
    }
    let mut i: usize = 0;
    proof {
        reveal(Seq::filter);
    }
    while i < wanted.len()
        invariant
            bin_count > 0,
            i <= wanted@.len(),
            counts@.len() == bin_count,
            forall|b: int|
                0 <= b < bin_count ==> #[trigger] counts@[b] == samples_in(
                    wanted@.take(i as int),
                    bin_count,
                    b,
                ),
        decreases wanted@.len() - i,
    {
        let bin: usize = if wanted[i] < bin_count {
            wanted[i]
        } else {
            bin_count - 1
        };
        let ghost before = counts@;
        assert forall|b: int| 0 <= b < bin_count implies samples_in(
            wanted@.take(i + 1),
            bin_count,
            b,
        ) == #[trigger] before[b] + if bin == b {
            1nat
        } else {
            0
        } && before[b] <= i by {
            lemma_one_more_in_bin(wanted@, bin_count, i as int, b);
        }
        let count: usize = counts[bin];
        assert(before[bin as int] <= i);
        counts.set(bin, count + 1);
        i = i + 1;
    }
    assert(wanted@.take(i as int) =~= wanted@);
    counts
}

/// Whether a number is one of the given ones and none of them is higher.
pub open spec fn is_highest(values: Seq<usize>, value: usize) -> bool {
    &&& values.contains(value)
    &&& forall|i: int| 0 <= i < values.len() ==> #[trigger] values[i] <= value
}

/// The highest of the given numbers, or 1 where there is none: the height of a histogram, or the
/// highest of the concurrency levels that were tried out.
pub fn highest(values: &Vec<usize>) -> (value: usize)
    ensures
        values@.len() == 0 ==> value == 1,
        values@.len() > 0 ==> is_highest(values@, value),
        values@.len() > 0 ==> values@.contains(value),
        values@.len() > 0 ==> forall|i: int| 0 <= i < values@.len() ==> #[trigger] values@[i] <= value,
{
    if values.len() == 0 {
        return 1;
    }
    let mut value: usize = values[0];
    let mut i: usize = 1;
    assert(values@[0] == value);
    while i < values.len()
        invariant
            1 <= i <= values@.len(),
            values@.contains(value),
            forall|k: int| 0 <= k < i ==> #[trigger] values@[k] <= value,
        decreases values@.len() - i,
    {
        if values[i] > value {
            value = values[i];
            assert(values@[i as int] == value);
        }
        i = i + 1;
    }
    value
}

/// The lower and the upper ends of bars, as the 32-bit numbers that a drawing takes: each bar
/// reaches from `low` times its count to `high` times its count.
pub open spec fn are_bars(bars: Seq<(i32, i32)>, counts: Seq<usize>, low: int, high: int) -> bool {
    &&& bars.len() == counts.len()
    &&& forall|b: int|
        0 <= b < counts.len() ==> (#[trigger] bars[b]).0 == low * counts[b] && bars[b].1 == high
            * counts[b]
}

/// Whether the upper ends of all bars are 32-bit numbers.
pub open spec fn bars_fit(counts: Seq<usize>, high: int) -> bool {
    forall|b: int| 0 <= b < counts.len() ==> high * #[trigger] counts[b] <= i32::MAX
}

/// The bars of a histogram that stand on the axis, unless one of them is too high to be drawn.
pub fn standing_bars(counts: &Vec<usize>) -> (result: Option<Vec<(i32, i32)>>)
    ensures
        match result {
            Some(bars) => bars_fit(counts@, 1) && are_bars(bars@, counts@, 0, 1),
            None => !bars_fit(counts@, 1),
        },
        result matches Some(bars) ==> bars@.len() == counts@.len() && forall|b: int|
            0 <= b < counts@.len() ==> (#[trigger] bars@[b]).0 == 0 && bars@[b].1 == counts@[b],
        result is None ==> exists|b: int|
            0 <= b < counts@.len() && #[trigger] counts@[b] > 0x7fff_ffff,
{
    let mut bars: Vec<(i32, i32)> = Vec::new();
    let mut i: usize = 0;
    while i < counts.len()
        invariant
            i <= counts@.len(),
            bars_fit(counts@.take(i as int), 1),
            are_bars(bars@, counts@.take(i as int), 0, 1),
        decreases counts@.len() - i,
    {
        let count: usize = counts[i];
        if count > i32::MAX as usize {
            assert(1 * counts@[i as int] > i32::MAX);
            return None;
        }
        let ghost drawn = counts@.take(i as int);
        let ghost more = counts@.take(i + 1);
        assert forall|b: int| 0 <= b < i implies #[trigger] more[b] == drawn[b] by {}
        bars.push((0, count as i32));
        i = i + 1;
    }
    assert(counts@.take(i as int) =~= counts@);
    Some(bars)
}

/// The bars of a histogram drawn above another: each reaches from its count to twice its count,
/// unless one of them is too high to be drawn.
pub fn raised_bars(counts: &Vec<usize>) -> (result: Option<Vec<(i32, i32)>>)
    ensures
        match result {
            Some(bars) => bars_fit(counts@, 2) && are_bars(bars@, counts@, 1, 2),
            None => !bars_fit(counts@, 2),
        },
        result matches Some(bars) ==> bars@.len() == counts@.len() && forall|b: int|
            0 <= b < counts@.len() ==> (#[trigger] bars@[b]).0 == counts@[b] && bars@[b].1 == 2
                * counts@[b],
        result is None ==> exists|b: int|
            0 <= b < counts@.len() && 2 * #[trigger] counts@[b] > 0x7fff_ffff,
{
    let mut bars: Vec<(i32, i32)> = Vec::new();
    let mut i: usize = 0;
    while i < counts.len()
        invariant
            i <= counts@.len(),
            bars_fit(counts@.take(i as int), 2),
            are_bars(bars@, counts@.take(i as int), 1, 2),
        decreases counts@.len() - i,
    {
        let count: usize = counts[i];
        if count > (i32::MAX / 2) as usize {
            assert(2 * counts@[i as int] > i32::MAX);
            return None;
        }
        let ghost drawn = counts@.take(i as int);
        let ghost more = counts@.take(i + 1);
        assert forall|b: int| 0 <= b < i implies #[trigger] more[b] == drawn[b] by {}
        bars.push((count as i32, 2 * (count as i32)));
        i = i + 1;
    }
    assert(counts@.take(i as int) =~= counts@);
    Some(bars)
}

/// A graph of a benchmark.
#[derive(Clone, Copy, Debug, PartialEq, Eq, Structural)]
pub enum Graph {
    /// How often which latency occurred.
    LatencyHistogram,
    /// The same for reads and writes apart.
    ReadVsWriteLatency,
    /// The throughput from begin to end.
    ThroughputOverTime,
    /// The throughput at several concurrency levels.
    ConcurrencyScaling,
}

/// How much there is to show.
#[derive(Clone, Copy, Debug, PartialEq, Eq, Structural)]
pub struct Measured {
    /// Number of latencies.
    pub latencies: usize,
    /// Number of latencies of reads.
    pub reads: usize,
    /// Number of latencies of writes.
    pub writes: usize,
    /// Number of throughput samples.
    pub throughput: usize,
    /// Number of concurrency levels.
    pub levels: usize,
}

impl Measured {
    /// How much the results of a benchmark have to show, beside the given numbers of throughput
    /// samples and concurrency levels.
    pub fn new(results: &BenchmarkResults, throughput: usize, levels: usize) -> (measured: Self)
        ensures
            measured.latencies == results.latency.samples@.len(),
            measured.reads == results.read_latencies@.len(),
            measured.writes == results.write_latencies@.len(),
            measured.throughput == throughput,
            measured.levels == levels,
    {
        Measured {
            latencies: results.latency.samples.len(),
            reads: results.read_latencies.len(),
            writes: results.write_latencies.len(),
            throughput,
            levels,
        }
    }
}

/// The graphs of a benchmark, in drawing order.
pub open spec fn all_graphs() -> Seq<Graph> {
    seq![
        Graph::LatencyHistogram,
        Graph::ReadVsWriteLatency,
        Graph::ThroughputOverTime,
        Graph::ConcurrencyScaling,
    ]
}

/// Whether a graph has anything to show.
pub open spec fn has_data(graph: Graph, measured: Measured) -> bool {
    match graph {
        Graph::LatencyHistogram => measured.latencies > 0,
        Graph::ReadVsWriteLatency => measured.reads > 0 || measured.writes > 0,
        Graph::ThroughputOverTime => measured.throughput > 0,
        Graph::ConcurrencyScaling => measured.levels > 0,
    }
}

/// The name of the file of a graph.
pub open spec fn file_name_of(graph: Graph) -> Seq<char> {
    match graph {
        Graph::LatencyHistogram => "latency_histogram.png"@,
        Graph::ReadVsWriteLatency => "read_vs_write_latency.png"@,
        Graph::ThroughputOverTime => "throughput_over_time.png"@,
        Graph::ConcurrencyScaling => "concurrency_scaling.png"@,
    }
}

impl Graph {
    /// Whether the graph has anything to show.
    pub fn is_drawn(self, measured: &Measured) -> (drawn: bool)
        ensures
            drawn == has_data(self, *measured),
            drawn == match self {
                Graph::LatencyHistogram => measured.latencies > 0,
                Graph::ReadVsWriteLatency => measured.reads > 0 || measured.writes > 0,
                Graph::ThroughputOverTime => measured.throughput > 0,
                Graph::ConcurrencyScaling => measured.levels > 0,
            },
    {
        match self {
            Graph::LatencyHistogram => measured.latencies > 0,
            Graph::ReadVsWriteLatency => measured.reads > 0 || measured.writes > 0,
            Graph::ThroughputOverTime => measured.throughput > 0,
            Graph::ConcurrencyScaling => measured.levels > 0,
        }
    }

    /// The name of the file of the graph.
    pub fn file_name(self) -> (name: &'static str)
        ensures
            name@ == file_name_of(self),
    {
        match self {
            Graph::LatencyHistogram => "latency_histogram.png",
            Graph::ReadVsWriteLatency => "read_vs_write_latency.png",
            Graph::ThroughputOverTime => "throughput_over_time.png",
            Graph::ConcurrencyScaling => "concurrency_scaling.png",
        }
    }

    /// Where the graph goes, below the given directory.
    pub fn path(self, output_dir: &str) -> (path: String)
        ensures
            path@ == output_dir@ + "/"@ + file_name_of(self),
    {
        let mut path = output_dir.to_owned();
        path.append("/");
        path.append(self.file_name());
        path
    }
}

/// The graphs to draw, in order: those that have anything to show.
pub fn graphs_to_draw(measured: &Measured) -> (graphs: Vec<Graph>)
    ensures
        graphs@ == all_graphs().filter(|g: Graph| has_data(g, *measured)),
{
    let list: [Graph; 4] = [
        Graph::LatencyHistogram,
        Graph::ReadVsWriteLatency,
        Graph::ThroughputOverTime,
        Graph::ConcurrencyScaling,
    ];
    let ghost drawn = |g: Graph| has_data(g, *measured);
    let mut graphs: Vec<Graph> = Vec::new();
    let mut i: usize = 0;
    assert(list@ =~= all_graphs());
    proof {
        reveal(Seq::filter);
    }
    while i < 4
        invariant
            i <= 4,
            list@ == all_graphs(),
            drawn == (|g: Graph| has_data(g, *measured)),
            graphs@ == list@.take(i as int).filter(drawn),
        decreases 4 - i,
    {
        let graph = list[i];
        proof {
            reveal(Seq::filter);
            assert(list@.take(i + 1).drop_last() =~= list@.take(i as int));
            assert(list@.take(i + 1).last() == graph);
        }
        if graph.is_drawn(measured) {
            graphs.push(graph);
        }
        i = i + 1;
    }
    assert(list@.take(4) =~= list@);
    graphs
}

/// The sum of the samples in the bins below the `bin`-th.
pub open spec fn samples_below(wanted: Seq<usize>, bin_count: usize, bin: int) -> nat
    decreases bin,
{
    if bin <= 0 {
        0
    } else {
        samples_below(wanted, bin_count, bin - 1) + samples_in(wanted, bin_count, bin - 1)
    }
}

/// One sample more counts once in the bins below the `bin`-th if it goes to one of them.
proof fn lemma_one_more_below(wanted: Seq<usize>, bin_count: usize, bin: int)
    requires
        wanted.len() > 0,
        bin_count > 0,
        0 <= bin <= bin_count,
    ensures
        samples_below(wanted, bin_count, bin) == samples_below(
            wanted.drop_last(),
            bin_count,
            bin,
        ) + if bin_of(wanted.last(), bin_count) < bin {
            1nat
        } else {
            0
        },
    decreases bin,
{
    if bin > 0 {
        let n = wanted.len() as int;
        lemma_one_more_below(wanted, bin_count, bin - 1);
        lemma_one_more_in_bin(wanted, bin_count, n - 1, bin - 1);
        assert(wanted.take(n) =~= wanted);
        assert(wanted.take(n - 1) =~= wanted.drop_last());
    }
}

/// A histogram loses no sample and shows none twice: its counts add up to the number of samples.
pub proof fn law_histogram_shows_every_sample_once(wanted: Seq<usize>, bin_count: usize)
    requires
        bin_count > 0,
    ensures
        samples_below(wanted, bin_count, bin_count as int) == wanted.len(),
    decreases wanted.len(),
{
    if wanted.len() > 0 {
        law_histogram_shows_every_sample_once(wanted.drop_last(), bin_count);
        lemma_one_more_below(wanted, bin_count, bin_count as int);
    } else {
        lemma_nothing_below(wanted, bin_count, bin_count as int);
    }
}

/// Without samples every bin is empty.
proof fn lemma_nothing_below(wanted: Seq<usize>, bin_count: usize, bin: int)
    requires
        wanted.len() == 0,
    ensures
        samples_below(wanted, bin_count, bin) == 0,
    decreases bin,
{
    reveal(Seq::filter);
    if bin > 0 {
        lemma_nothing_below(wanted, bin_count, bin - 1);
    }
}

/// Of the results of a benchmark the two graphs of latencies are drawn together or not at all.
pub proof fn law_latency_graphs_go_together(
    outcomes: Seq<Outcome>,
    results: BenchmarkResults,
    measured: Measured,
)
    requires
        results.measures(outcomes),
        measured.latencies == results.latency.samples@.len(),
        measured.reads == results.read_latencies@.len(),
        measured.writes == results.write_latencies@.len(),
    ensures
        has_data(Graph::LatencyHistogram, measured) <==> has_data(
            Graph::ReadVsWriteLatency,
            measured,
        ),
{
    broadcast use group_to_multiset_ensures;

    law_reads_and_writes_are_all(outcomes);
    assert(latencies_of(samples_of(outcomes)).len() == samples_of(outcomes).len());
    assert(results.latency.samples@.to_multiset().len() == results.latency.samples@.len());
    assert(latencies_of(samples_of(outcomes)).to_multiset().len() == samples_of(outcomes).len());
}

/// A further sample adds one to the bin that it asks for, or to the last one where there is no such
/// bin, and nothing to the others. Without samples all bins are empty.
pub proof fn law_every_sample_is_in_its_bin(wanted: Seq<usize>, sample: usize, bins: usize, bin: int)
    requires
        0 <= bin < bins,
    ensures
        samples_in(seq![], bins, bin) == 0,
        samples_in(wanted.push(sample), bins, bin) == samples_in(wanted, bins, bin) + if sample
            == bin || (sample >= bins && bin == bins - 1) {
            1nat
        } else {
            0
        },
        samples_below(wanted, bins, 0) == 0,
        samples_below(wanted, bins, bin + 1) == samples_below(wanted, bins, bin) + samples_in(
            wanted,
            bins,
            bin,
        ),
{
    reveal(Seq::filter);
    assert(wanted.push(sample).drop_last() =~= wanted);
}

/// Bars have the heights of what they show, for every count, and they cannot be drawn only where one
/// of them is above what a drawing takes.
pub proof fn law_bars_show_their_counts(
    bars: Seq<(i32, i32)>,
    counts: Seq<usize>,
    low: int,
    high: int,
)
    ensures
        are_bars(bars, counts, low, high) ==> bars.len() == counts.len() && forall|b: int|
            0 <= b < counts.len() ==> (#[trigger] bars[b]).0 == low * counts[b] && bars[b].1 == high
                * counts[b],
        bars_fit(counts, high) <==> forall|b: int|
            0 <= b < counts.len() ==> high * #[trigger] counts[b] <= 0x7fff_ffff,
{
}

/// A graph is drawn where there is something of its kind to show, in the fixed order, and never
/// twice.
pub proof fn law_graphs_that_are_drawn(measured: Measured, graph: Graph)
    ensures
        ({
            let drawn = all_graphs().filter(|g: Graph| has_data(g, measured));
            &&& drawn.contains(graph) <==> has_data(graph, measured)
            &&& drawn.no_duplicates()
        }),
        has_data(Graph::LatencyHistogram, measured) <==> measured.latencies > 0,
        has_data(Graph::ReadVsWriteLatency, measured) <==> measured.reads > 0 || measured.writes > 0,
        has_data(Graph::ThroughputOverTime, measured) <==> measured.throughput > 0,
        has_data(Graph::ConcurrencyScaling, measured) <==> measured.levels > 0,
{
    let list = all_graphs();
    let fits = |g: Graph| has_data(g, measured);
    let drawn = list.filter(fits);
    assert(list[0] == Graph::LatencyHistogram && list[1] == Graph::ReadVsWriteLatency && list[2]
        == Graph::ThroughputOverTime && list[3] == Graph::ConcurrencyScaling);
    assert(list.contains(graph));
    if drawn.contains(graph) {
        let i = choose|i: int| 0 <= i < drawn.len() && drawn[i] == graph;
        list.lemma_filter_pred(fits, i);
    }
    if has_data(graph, measured) {
        let i = choose|i: int| 0 <= i < list.len() && list[i] == graph;
        list.lemma_filter_contains(fits, i);
    }
    reveal_with_fuel(Seq::filter, 5);
    assert(list.drop_last() =~= seq![
        Graph::LatencyHistogram,
        Graph::ReadVsWriteLatency,
        Graph::ThroughputOverTime,
    ]);
    assert(list.drop_last().drop_last() =~= seq![
        Graph::LatencyHistogram,
        Graph::ReadVsWriteLatency,
    ]);
    assert(list.drop_last().drop_last().drop_last() =~= seq![Graph::LatencyHistogram]);
    assert(list.drop_last().drop_last().drop_last().drop_last() =~= seq![]);
}

/// No graph overwrites another: in one directory each has a file of its own.
pub proof fn law_graphs_have_files_of_their_own(dir: Seq<char>, a: Graph, b: Graph)
    requires
        a != b,
    ensures
        dir + "/"@ + file_name_of(a) != dir + "/"@ + file_name_of(b),
{
    reveal_strlit("latency_histogram.png");
    reveal_strlit("read_vs_write_latency.png");
    reveal_strlit("throughput_over_time.png");
    reveal_strlit("concurrency_scaling.png");
    assert("latency_histogram.png"@[0] == 'l' && "read_vs_write_latency.png"@[0] == 'r'
        && "throughput_over_time.png"@[0] == 't' && "concurrency_scaling.png"@[0] == 'c');
    let n = (dir + "/"@).len() as int;
    assert((dir + "/"@ + file_name_of(a))[n] == file_name_of(a)[0]);
    assert((dir + "/"@ + file_name_of(b))[n] == file_name_of(b)[0]);
}

} // verus!
