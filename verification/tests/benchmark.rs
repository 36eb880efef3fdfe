use dht_tools::chart::{
    graphs_to_draw, highest, histogram, raised_bars, standing_bars, Graph, Measured, BIN_COUNT,
};
use dht_tools::config::{parse_args, BenchmarkConfig, ParsedArgs};
use dht_tools::stats::{
    percentile, sort, summarize, tally, Growth, Outcome, Sample, ThroughputMonitor,
};
use dht_tools::wire::{announced_put_size, Segment};
use dht_tools::workload::{DHTBenchmark, Operation};

fn list(words: &[&str]) -> Vec<String> {
    words.iter().map(|w| w.to_string()).collect()
}

fn run(words: &[&str]) -> BenchmarkConfig {
    match parse_args(&list(words)) {
        Ok(ParsedArgs::Run(config)) => config,
        other => panic!("{:?}", other),
    }
}

fn error(words: &[&str]) -> String {
    match parse_args(&list(words)) {
        Err(message) => message,
        other => panic!("{:?}", other),
    }
}

fn bytes_of(request: &Vec<Segment>) -> Vec<u8> {
    let mut bytes = Vec::new();
    for segment in request {
        bytes.extend_from_slice(&segment.bytes);
    }
    bytes
}

#[test]
fn default_settings() {
    for config in [BenchmarkConfig::default(), run(&["bench"]), run(&[])] {
        assert_eq!(config.host, "127.0.0.1");
        assert_eq!(config.port, 7401);
        assert_eq!(config.num_operations, 1000);
        assert_eq!(config.concurrency, 10);
        assert_eq!(config.key_size, 16);
        assert_eq!(config.value_size, 256);
        assert_eq!(config.ttl, 300);
        assert_eq!(config.replication, 1);
        assert_eq!(config.read_ratio, "0.5");
        assert_eq!(config.warmup_operations, 50);
        assert_eq!(config.output_dir, "benchmark_results");
    }
}

#[test]
fn options_set_what_they_name() {
    let short = run(&["b", "-h", "node", "-p", "80", "-n", "7", "-c", "3"]);
    let long = run(&[
        "b", "--host", "node", "--port", "80", "--operations", "7", "--concurrency", "3",
    ]);
    for config in [short, long] {
        assert_eq!(config.host, "node");
        assert_eq!(config.port, 80);
        assert_eq!(config.num_operations, 7);
        assert_eq!(config.concurrency, 3);
        assert_eq!(config.warmup_operations, 50);
    }
    let short = run(&["b", "-k", "32", "-v", "512", "-t", "60", "--replication", "3", "-r", "0.25"]);
    let long = run(&[
        "b", "--key-size", "32", "--value-size", "512", "--ttl", "60", "--replication", "3",
        "--read-ratio", "0.25",
    ]);
    for config in [short, long] {
        assert_eq!(config.key_size, 32);
        assert_eq!(config.value_size, 512);
        assert_eq!(config.ttl, 60);
        assert_eq!(config.replication, 3);
        assert_eq!(config.read_ratio, "0.25");
        assert_eq!(config.host, "127.0.0.1");
        assert_eq!(config.port, 7401);
        assert_eq!(config.num_operations, 1000);
        assert_eq!(config.concurrency, 10);
        assert_eq!(config.warmup_operations, 50);
        assert_eq!(config.output_dir, "benchmark_results");
    }
    let largest = run(&["b", "-t", "65535", "--replication", "255"]);
    assert_eq!((largest.ttl, largest.replication), (65535, 255));
    assert_eq!(run(&["b", "--output-dir", "out"]).output_dir, "out");
    assert_eq!(run(&["b", "-h", "--help"]).host, "--help");
}

#[test]
fn presets() {
    for (name, operations, concurrency, warmup) in
        [("quick", 100, 5, 20), ("standard", 1000, 10, 50), ("stress", 5000, 20, 100)]
    {
        let config = run(&["b", "--preset", name]);
        assert_eq!(config.num_operations, operations);
        assert_eq!(config.concurrency, concurrency);
        assert_eq!(config.warmup_operations, warmup);
    }
}

#[test]
fn last_option_wins() {
    let config = run(&["b", "-n", "7", "--preset", "quick"]);
    assert_eq!(config.num_operations, 100);
    let config = run(&["b", "--preset", "quick", "-n", "7"]);
    assert_eq!(config.num_operations, 7);
    assert_eq!(config.concurrency, 5);
}

#[test]
fn other_words_are_skipped() {
    let config = run(&["b", "word", "-p", "1", "", "again"]);
    assert_eq!(config.port, 1);
    assert_eq!(config.host, "127.0.0.1");
    assert_eq!(error(&["b", "-p", "1", "word", "-n", "x"]), "Invalid operations number");
    assert_eq!(error(&["b", "word", "-p"]), "Missing port value");
    assert!(matches!(parse_args(&list(&["b", "word", "--help"])), Ok(ParsedArgs::Help)));
}

#[test]
fn help_ends_the_arguments() {
    assert!(matches!(parse_args(&list(&["b", "--help"])), Ok(ParsedArgs::Help)));
    assert!(matches!(parse_args(&list(&["b", "-p", "1", "--help", "--bad"])), Ok(ParsedArgs::Help)));
    assert_eq!(error(&["b", "--bad", "--help"]), "Unknown option: --bad");
}

#[test]
fn wrong_arguments() {
    assert_eq!(error(&["b", "-h"]), "Missing host value");
    assert_eq!(error(&["b", "--port"]), "Missing port value");
    assert_eq!(error(&["b", "-n"]), "Missing operations value");
    assert_eq!(error(&["b", "--concurrency"]), "Missing concurrency value");
    assert_eq!(error(&["b", "--output-dir"]), "Missing output-dir value");
    assert_eq!(error(&["b", "--preset"]), "Missing preset value");
    assert_eq!(error(&["b", "-p", "65536"]), "Invalid port number");
    assert_eq!(error(&["b", "-n", "-1"]), "Invalid operations number");
    assert_eq!(error(&["b", "-c", "many"]), "Invalid concurrency number");
    assert_eq!(error(&["b", "--preset", "huge"]), "Unknown preset: huge");
    assert_eq!(error(&["b", "-k"]), "Missing key-size value");
    assert_eq!(error(&["b", "--value-size"]), "Missing value-size value");
    assert_eq!(error(&["b", "-r"]), "Missing read-ratio value");
    assert_eq!(error(&["b", "--ttl"]), "Missing ttl value");
    assert_eq!(error(&["b", "--replication"]), "Missing replication value");
    assert_eq!(error(&["b", "-k", "wide"]), "Invalid key-size number");
    assert_eq!(error(&["b", "-v", ""]), "Invalid value-size number");
    assert_eq!(error(&["b", "-t", "65536"]), "Invalid ttl number");
    assert_eq!(error(&["b", "--replication", "256"]), "Invalid replication number");
    assert_eq!(error(&["b", "-x", "32"]), "Unknown option: -x");
    assert_eq!(error(&["b", "-"]), "Unknown option: -");
}

#[test]
fn keys_and_values() {
    let benchmark = DHTBenchmark::new(BenchmarkConfig::default());
    assert_eq!(benchmark.generate_key(0), "bench_key_000000");
    assert_eq!(benchmark.generate_key(42), "bench_key_000042");
    assert_eq!(benchmark.generate_key(1234567), "bench_key_1234567");
    assert_eq!(benchmark.generate_key(usize::MAX), format!("bench_key_{}", usize::MAX));
    let value = benchmark.generate_value(42);
    assert_eq!(value.len(), 256);
    assert_eq!(value, format!("bench_value_{:0width$}", 42, width = 244));
    assert_ne!(benchmark.generate_key(1), benchmark.generate_key(10));
    let small = DHTBenchmark::new(BenchmarkConfig {
        key_size: 4,
        value_size: 0,
        ..BenchmarkConfig::default()
    });
    assert_eq!(small.generate_key(5), "bench_key_5");
    assert_eq!(small.generate_value(5), "bench_value_5");
}

#[test]
fn values_up_to_the_largest_message_can_be_sent() {
    let largest = DHTBenchmark::new(run(&["b", "-v", "65495"]));
    let value = largest.generate_value(7);
    assert_eq!(value.len(), 65495);
    let put = bytes_of(&largest.put_operation_request("k", &value));
    assert_eq!(put[..2], [0xff, 0xff]);
    assert_eq!(put.len(), 65535);
    let larger = DHTBenchmark::new(run(&["b", "-v", "65496"]));
    assert_eq!(announced_put_size(larger.generate_value(7).len()), None);
}

#[test]
fn sizes_and_lifetime_reach_the_requests() {
    let benchmark = DHTBenchmark::new(run(&["b", "-k", "20", "-t", "258", "--replication", "3"]));
    assert_eq!(benchmark.generate_key(42), "bench_key_0000000042");
    let put = bytes_of(&benchmark.put_operation_request("k", "vw"));
    assert_eq!(put[..8], [0, 42, 2, 138, 1, 2, 3, 0]);
}

#[test]
fn benchmark_requests() {
    let benchmark = DHTBenchmark::new(run(&["b", "-h", "node", "-p", "9"]));
    assert_eq!(benchmark.address(), "node:9");
    let hash = DHTBenchmark::hash_key_bytes("k");
    let put = bytes_of(&benchmark.put_operation_request("k", "vw"));
    assert_eq!(put[..8], [0, 42, 2, 138, 1, 44, 1, 0]);
    assert_eq!(put[8..40], hash);
    assert_eq!(&put[40..], b"vw");
    let get = bytes_of(&benchmark.get_operation_request("k"));
    assert_eq!(get.len(), 36);
    assert_eq!(get[..4], [0, 38, 2, 139]);
    assert_eq!(get[4..], hash);
}

#[test]
fn operations_and_warmup() {
    let benchmark = DHTBenchmark::new(BenchmarkConfig::default());
    match benchmark.operation(3, true) {
        Operation::Get { key } => assert_eq!(key, "bench_key_000003"),
        other => panic!("{:?}", other),
    }
    match benchmark.operation(3, false) {
        Operation::Put { key, value } => {
            assert_eq!(key, "bench_key_000003");
            assert_eq!(value, benchmark.generate_value(3));
        }
        other => panic!("{:?}", other),
    }
    for i in 0..25usize {
        let step = benchmark.warmup_step(i);
        assert_eq!(step.pause, i == 0 || i == 10 || i == 20);
        assert!(matches!(step.operation, Operation::Put { .. }));
    }
}

#[test]
fn concurrency_levels_and_short_benchmarks() {
    let benchmark = DHTBenchmark::new(BenchmarkConfig::default());
    assert_eq!(benchmark.concurrency_levels(), vec![1, 2, 5, 10]);
    for (limit, levels) in [
        (0usize, vec![]),
        (1, vec![1usize]),
        (4, vec![1, 2]),
        (5, vec![1, 2, 5]),
        (100, vec![1, 2, 5, 10, 20]),
    ] {
        let config = BenchmarkConfig { concurrency: limit, ..BenchmarkConfig::default() };
        assert_eq!(DHTBenchmark::new(config).concurrency_levels(), levels);
    }
    let mini = benchmark.mini_benchmark(2).config;
    assert_eq!(mini.concurrency, 2);
    assert_eq!(mini.num_operations, 50);
    assert_eq!(mini.warmup_operations, 5);
    assert_eq!(mini.host, "127.0.0.1");
    assert_eq!(mini.value_size, 256);
    assert_eq!(mini.read_ratio, "0.5");
    assert_eq!(mini.output_dir, "benchmark_results");
}

#[test]
fn sorting() {
    assert_eq!(sort(&vec![]), Vec::<u64>::new());
    assert_eq!(sort(&vec![3, 1, 2, 3, 0, u64::MAX]), vec![0, 1, 2, 3, 3, u64::MAX]);
    let mut numbers: Vec<u64> = (0..1000u64).map(|i| (i * 7919) % 613).collect();
    let sorted = sort(&numbers);
    numbers.sort();
    assert_eq!(sorted, numbers);
}

#[test]
fn percentile_ranks_are_those_of_fractions() {
    let samples: Vec<u64> = (0..20_000u64).collect();
    let mut n: usize = 0;
    while n <= 20_000 {
        let some: Vec<u64> = samples[..n].to_vec();
        for (percent, share) in [(50u8, 0.5f64), (95, 0.95), (99, 0.99)] {
            let index = ((n as f64 * share) as usize).saturating_sub(1);
            assert_eq!(percentile(&some, percent), some.get(index).copied().unwrap_or(0));
        }
        n += if n < 600 { 1 } else { 97 };
    }
}

#[test]
fn summary_of_latencies() {
    let summary = summarize(&vec![30, 10, 20]);
    assert_eq!(summary.samples, vec![10, 20, 30]);
    assert_eq!((summary.min, summary.max), (10, 30));
    assert_eq!((summary.p50, summary.p95, summary.p99), (10, 20, 20));
    let hundred: Vec<u64> = (1..=100u64).rev().collect();
    let summary = summarize(&hundred);
    assert_eq!((summary.p50, summary.p95, summary.p99), (50, 95, 99));
    let one = summarize(&vec![7]);
    assert_eq!((one.min, one.p50, one.p95, one.p99, one.max), (7, 7, 7, 7, 7));
    let none = summarize(&vec![]);
    assert_eq!((none.min, none.p50, none.p95, none.p99, none.max), (0, 0, 0, 0, 0));
}

fn outcomes() -> Vec<Outcome> {
    vec![
        Outcome::Success(Sample { latency: 5, is_read: true }),
        Outcome::Failure,
        Outcome::Success(Sample { latency: 3, is_read: false }),
        Outcome::Lost,
        Outcome::Success(Sample { latency: 4, is_read: true }),
        Outcome::Failure,
    ]
}

#[test]
fn tally_of_outcomes() {
    let tally = tally(&outcomes());
    assert_eq!(tally.successful_operations, 3);
    assert_eq!(tally.failed_operations, 2);
    assert_eq!(tally.latency_samples, vec![5, 3, 4]);
    assert_eq!(tally.read_latencies, vec![5, 4]);
    assert_eq!(tally.write_latencies, vec![3]);
}

#[test]
fn results_of_a_benchmark() {
    let benchmark = DHTBenchmark::new(run(&["b", "-n", "6"]));
    let results = benchmark.results(&outcomes());
    assert_eq!(results.total_operations, 6);
    assert_eq!(results.successful_operations, 3);
    assert_eq!(results.failed_operations, 2);
    assert_eq!(results.latency.samples, vec![3, 4, 5]);
    assert_eq!(results.read_latencies, vec![5, 4]);
    assert_eq!(results.write_latencies, vec![3]);
    let mini = benchmark.mini_results(&outcomes());
    assert_eq!(mini.total_operations, 6);
    assert_eq!(mini.successful_operations, 3);
    assert_eq!(mini.failed_operations, 2);
    assert!(mini.latency.samples.is_empty());
    assert_eq!(mini.latency.max, 0);
    assert!(mini.read_latencies.is_empty() && mini.write_latencies.is_empty());
}

#[test]
fn runs_have_as_many_operations_as_the_settings_say() {
    let benchmark = DHTBenchmark::new(run(&["b", "-n", "6", "--preset", "quick", "-n", "6"]));
    let mut done: usize = 0;
    while let Some(operation) = benchmark.next_operation(done, done % 2 == 0) {
        match operation {
            Operation::Get { key } => {
                assert_eq!(done % 2, 0);
                assert_eq!(key, benchmark.generate_key(done));
            }
            Operation::Put { key, value } => {
                assert_eq!(done % 2, 1);
                assert_eq!(key, benchmark.generate_key(done));
                assert_eq!(value, benchmark.generate_value(done));
            }
        }
        done += 1;
    }
    assert_eq!(done, 6);
    assert!(benchmark.next_operation(usize::MAX, true).is_none());
    let results = benchmark.results(&outcomes());
    assert_eq!(outcomes().len(), done);
    assert_eq!(results.successful_operations + results.failed_operations + 1, 6);

    let mut steps: usize = 0;
    let mut pauses: usize = 0;
    while let Some(step) = benchmark.next_warmup(steps) {
        assert!(matches!(step.operation, Operation::Put { .. }));
        pauses += step.pause as usize;
        steps += 1;
    }
    assert_eq!((steps, pauses), (20, 2));
    assert!(DHTBenchmark::new(run(&["b", "-n", "0"])).next_operation(0, false).is_none());
}

#[test]
fn growth_of_the_throughput() {
    let mut monitor = ThroughputMonitor::new(10);
    let mut ends = Vec::new();
    for (at, count) in [(1u64, 0u64), (2, 3), (3, 3), (4, 2), (5, 7), (6, 10)] {
        ends.push(monitor.tick(at, count));
    }
    assert_eq!(ends, vec![false, false, false, false, false, true]);
    assert_eq!(
        monitor.growths,
        vec![
            Growth { at: 2, amount: 3 },
            Growth { at: 5, amount: 4 },
            Growth { at: 6, amount: 3 },
        ]
    );
    assert_eq!(monitor.growths.iter().map(|g| g.amount).sum::<u64>(), 10);
    assert_eq!(monitor.last_count, 10);
    let mut idle = ThroughputMonitor::new(0);
    assert!(idle.tick(1, 0));
    assert!(idle.growths.is_empty());
    let mut beyond = ThroughputMonitor::new(3);
    assert!(beyond.tick(7, 5));
    assert_eq!(beyond.growths, vec![Growth { at: 7, amount: 5 }]);
}

#[test]
fn histogram_of_bins() {
    let counts = histogram(&vec![0, 2, 2, 5, usize::MAX, 1], 3);
    assert_eq!(counts, vec![1, 1, 4]);
    assert_eq!(counts.iter().sum::<usize>(), 6);
    assert_eq!(highest(&counts), 4);
    assert_eq!(histogram(&vec![], BIN_COUNT), vec![0; 30]);
    assert_eq!(highest(&vec![]), 1);
    assert_eq!(highest(&vec![0, 0]), 0);
}

#[test]
fn bars() {
    assert_eq!(standing_bars(&vec![1, 0, 7]), Some(vec![(0, 1), (0, 0), (0, 7)]));
    assert_eq!(raised_bars(&vec![1, 0, 7]), Some(vec![(1, 2), (0, 0), (7, 14)]));
    assert_eq!(standing_bars(&vec![]), Some(vec![]));
    assert_eq!(standing_bars(&vec![1 << 31]), None);
    assert_eq!(standing_bars(&vec![(1 << 31) - 1]), Some(vec![(0, i32::MAX)]));
    assert_eq!(raised_bars(&vec![3, 1 << 30]), None);
    assert_eq!(raised_bars(&vec![(1 << 30) - 1]), Some(vec![((1 << 30) - 1, i32::MAX - 1)]));
}

#[test]
fn highest_concurrency_level() {
    assert_eq!(highest(&vec![]), 1);
    assert_eq!(highest(&vec![1, 20, 5]), 20);
}

#[test]
fn graphs() {
    let benchmark = DHTBenchmark::new(BenchmarkConfig::default());
    let all = Measured::new(&benchmark.results(&outcomes()), 1, 1);
    assert_eq!(
        graphs_to_draw(&all),
        vec![
            Graph::LatencyHistogram,
            Graph::ReadVsWriteLatency,
            Graph::ThroughputOverTime,
            Graph::ConcurrencyScaling
        ]
    );
    let none = Measured::new(&benchmark.results(&vec![Outcome::Failure]), 0, 0);
    assert!(graphs_to_draw(&none).is_empty());
    let writes = Measured { latencies: 1, reads: 0, writes: 1, throughput: 0, levels: 2 };
    assert_eq!(
        graphs_to_draw(&writes),
        vec![Graph::LatencyHistogram, Graph::ReadVsWriteLatency, Graph::ConcurrencyScaling]
    );
    let paths: Vec<String> = graphs_to_draw(&all).iter().map(|g| g.path("out")).collect();
    assert_eq!(
        paths,
        vec![
            "out/latency_histogram.png",
            "out/read_vs_write_latency.png",
            "out/throughput_over_time.png",
            "out/concurrency_scaling.png",
        ]
    );
}
