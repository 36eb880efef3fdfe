//! The operations of a benchmark: their keys and values, and what is sent for them.

use vstd::arithmetic::power::*;
use vstd::prelude::*;
use vstd::string::*;
use vstd::utf8::*;
use crate::client::{join_address, socket_address};
use crate::config::{BenchmarkConfig, Settings};
use crate::decimal::{
    law_numeral_length, law_padded_numerals_differ, law_written_numeral_reads_back,
    lemma_padded_numeral, numeral, padded_numeral, read_numeral, write_padded_numeral,
};
use crate::digest::{hash_key_bytes, key_hash, sha256};
use crate::stats::{
    counts_only, full_results, law_every_operation_is_counted_once,
    law_latencies_are_those_of_the_successes, lost, BenchmarkResults, Outcome,
};
use crate::wire::{
    frame, get_message, get_request, law_get_and_shutdown_bytes, law_put_bytes, put_message,
    put_request, put_size, segments, Field, Segment, KEY_LENGTH,
};

verus! {

/// The size that the benchmark announces in a request for a value.
pub const BENCHMARK_GET_SIZE: u16 = 38;

/// How many operations a short benchmark measures.
pub const MINI_OPERATIONS: usize = 50;

/// How many warmup operations the settings of a short benchmark name.
pub const MINI_WARMUP_OPERATIONS: usize = 5;

/// A benchmark of one node.
#[derive(Debug)]
pub struct DHTBenchmark {
    /// Its settings.
    pub config: BenchmarkConfig,
}

/// A prefix and a number that is filled up with leading zeros so that both take `size` characters,
/// or more where the number needs them.
pub open spec fn labelled(prefix: Seq<char>, index: nat, size: nat) -> Seq<char> {
    let width = if size > prefix.len() {
        (size - prefix.len()) as nat
    } else {
        0
    };
    prefix + padded_numeral(index, width)
}

/// The key of the operation with the given index.
pub open spec fn benchmark_key(settings: Settings, index: usize) -> Seq<char> {
    labelled("bench_key_"@, index as nat, settings.key_size as nat)
}

/// The value that the operation with the given index stores.
pub open spec fn benchmark_value(settings: Settings, index: usize) -> Seq<char> {
    labelled("bench_value_"@, index as nat, settings.value_size as nat)
}

/// An operation on the node.
#[derive(Debug)]
pub enum Operation {
    /// Asks for the value of a key.
    Get {
        /// The key.
        key: String,
    },
    /// Stores a value under a key.
    Put {
        /// The key.
        key: String,
        /// The value.
        value: String,
    },
}

/// An operation on the node, with texts as sequences of characters.
pub enum Task {
    /// Asks for the value of a key.
    Get(Seq<char>),
    /// Stores a value under a key.
    Put(Seq<char>, Seq<char>),
}

impl View for Operation {
    type V = Task;

    open spec fn view(&self) -> Task {
        match *self {
            Operation::Get { key } => Task::Get(key@),
            Operation::Put { key, value } => Task::Put(key@, value@),
        }
    }
}

/// The measured operation with the given index, which is a read or a write.
pub open spec fn task(settings: Settings, index: usize, is_read: bool) -> Task {
    if is_read {
        Task::Get(benchmark_key(settings, index))
    } else {
        Task::Put(benchmark_key(settings, index), benchmark_value(settings, index))
    }
}

/// What is sent for an operation.
pub open spec fn task_message(settings: Settings, t: Task) -> Seq<(Field, Seq<u8>)> {
    match t {
        Task::Get(key) => get_message(BENCHMARK_GET_SIZE, key_hash(key)),
        Task::Put(key, value) => put_message(
            key_hash(key),
            encode_utf8(value),
            settings.ttl,
            settings.replication,
        ),
    }
}

/// A step of the warmup: an operation, and whether a pause follows it.
#[derive(Debug)]
pub struct WarmupStep {
    /// The operation.
    pub operation: Operation,
    /// Whether a pause follows.
    pub pause: bool,
}

/// The measured operation that follows after `done` of them, if there is one: a read or a write.
pub open spec fn next_task(settings: Settings, done: usize, is_read: bool) -> Option<Task> {
    if done < settings.num_operations {
        Some(task(settings, done, is_read))
    } else {
        None
    }
}

/// The operation of the warmup that follows after `done` of them, if there is one, and whether a
/// pause follows it.
pub open spec fn next_warmup_task(settings: Settings, done: usize) -> Option<(Task, bool)> {
    if done < settings.warmup_operations {
        Some((task(settings, done, false), done % 10 == 0))
    } else {
        None
    }
}

/// Whether operations that are reads and writes as `draws` says are all the measured operations of a
/// benchmark: each follows those before it, and none follows the last.
pub open spec fn is_run(settings: Settings, draws: Seq<bool>) -> bool {
    &&& draws.len() <= usize::MAX
    &&& forall|i: int|
        0 <= i < draws.len() ==> next_task(settings, i as usize, #[trigger] draws[i]) is Some
    &&& next_task(settings, draws.len() as usize, true) is None
    &&& next_task(settings, draws.len() as usize, false) is None
}

/// Whether there are `steps` steps of the warmup: each follows those before it, and none follows the
/// last.
pub open spec fn is_warmup(settings: Settings, steps: usize) -> bool {
    &&& forall|i: usize| i < steps ==> next_warmup_task(settings, i) is Some
    &&& next_warmup_task(settings, steps) is None
}

/// The concurrency levels that are tried out.
pub open spec fn tried_levels() -> Seq<usize> {
    seq![1, 2, 5, 10, 20]
}

/// The concurrency levels that are tried out and are not above `limit`, in rising order.
pub open spec fn levels_up_to(limit: usize) -> Seq<usize> {
    tried_levels().filter(|level: usize| level <= limit)
}

/// The settings of a short benchmark at the given concurrency.
pub open spec fn mini_settings(settings: Settings, concurrency: usize) -> Settings {
    Settings {
        concurrency,
        num_operations: MINI_OPERATIONS,
        warmup_operations: MINI_WARMUP_OPERATIONS,
        ..settings
    }
}

impl DHTBenchmark {
    /// A benchmark with the given settings.
    pub fn new(config: BenchmarkConfig) -> (benchmark: Self)
        ensures
            benchmark.config == config,
    {
        DHTBenchmark { config }
    }

    /// Where to connect to.
    pub fn address(&self) -> (address: String)
        ensures
            address@ == socket_address(self.config.host@, self.config.port),
            address@ == self.config.host@ + ":"@ + numeral(self.config.port as nat),
    {
        join_address(self.config.host.as_str(), self.config.port)
    }

    /// Hashes a key to the 32 bytes that the protocol asks for.
    pub fn hash_key_bytes(key: &str) -> (hash: [u8; 32])
        ensures
            hash@ == key_hash(key@),
            hash@ == sha256(encode_utf8(key@)),
            hash@.len() == 32,
    {
        hash_key_bytes(key)
    }

    /// The key of the operation with the given index.
    pub fn generate_key(&self, index: usize) -> (key: String)
        ensures
            key@ == benchmark_key(self.config@, index),
    {
        proof {
            reveal_strlit("bench_key_");
        }
        let mut key = "bench_key_".to_owned();
        key.append(
            write_padded_numeral(index as u64, self.config.key_size.saturating_sub(10)).as_str(),
        );
        key
    }

    /// The value that the operation with the given index stores.
    pub fn generate_value(&self, index: usize) -> (value: String)
        ensures
            value@ == benchmark_value(self.config@, index),
    {
        proof {
            reveal_strlit("bench_value_");
        }
        let mut value = "bench_value_".to_owned();
        value.append(
            write_padded_numeral(index as u64, self.config.value_size.saturating_sub(12)).as_str(),
        );
        value
    }

    /// What is sent to store a value.
    pub fn put_operation_request(&self, key: &str, value: &str) -> (request: Vec<Segment>)
        requires
            put_size(encode_utf8(value@).len()) <= u16::MAX,
        ensures
            segments(request@) == task_message(self.config@, Task::Put(key@, value@)),
            key_hash(key@).len() == KEY_LENGTH,
            request@.len() == 7,
            request@[2].bytes@ == seq![(self.config.ttl / 256) as u8, (self.config.ttl % 256) as u8],
            request@[3].bytes@ == seq![self.config.replication],
            request@[5].bytes@ == sha256(encode_utf8(key@)),
            request@[6].bytes@ == encode_utf8(value@),
    {
        let hash = Self::hash_key_bytes(key);
        put_request(&hash, value.as_bytes(), self.config.ttl, self.config.replication)
    }

    /// What is sent to ask for a value.
    pub fn get_operation_request(&self, key: &str) -> (request: Vec<Segment>)
        ensures
            segments(request@) == task_message(self.config@, Task::Get(key@)),
            key_hash(key@).len() == KEY_LENGTH,
            request@.len() == 3,
            request@[0].bytes@ == seq![0u8, 38u8],
            request@[2].bytes@ == sha256(encode_utf8(key@)),
    {
        let hash = Self::hash_key_bytes(key);
        get_request(BENCHMARK_GET_SIZE, &hash)
    }

    /// The measured operation with the given index, which is a read or a write.
    pub fn operation(&self, index: usize, is_read: bool) -> (operation: Operation)
        ensures
            operation@ == task(self.config@, index, is_read),
            is_read <==> operation is Get,
            operation matches Operation::Get { key } ==> key@ == benchmark_key(self.config@, index),
            operation matches Operation::Put { key, value } ==> key@ == benchmark_key(
                self.config@,
                index,
            ) && value@ == benchmark_value(self.config@, index),
    {
        let key = self.generate_key(index);
        if is_read {
            Operation::Get { key }
        } else {
            Operation::Put { key, value: self.generate_value(index) }
        }
    }

    /// The step of the warmup with the given index: a write, with a pause after the first of every
    /// ten.
    pub fn warmup_step(&self, index: usize) -> (step: WarmupStep)
        ensures
            step.operation@ == task(self.config@, index, false),
            step.pause == (index % 10 == 0),
    {
        WarmupStep { operation: self.operation(index, false), pause: index % 10 == 0 }
    }

    /// The measured operation that follows after `done` of them, if there is one: a read or a write.
    pub fn next_operation(&self, done: usize, is_read: bool) -> (next: Option<Operation>)
        ensures
            match next {
                Some(operation) => next_task(self.config@, done, is_read) == Some(operation@),
                None => next_task(self.config@, done, is_read) is None,
            },
            next is Some <==> done < self.config.num_operations,
    {
        if done < self.config.num_operations {
            Some(self.operation(done, is_read))
        } else {
            None
        }
    }

    /// The step of the warmup that follows after `done` of them, if there is one.
    pub fn next_warmup(&self, done: usize) -> (next: Option<WarmupStep>)
        ensures
            match next {
                Some(step) => next_warmup_task(self.config@, done) == Some(
                    (step.operation@, step.pause),
                ),
                None => next_warmup_task(self.config@, done) is None,
            },
            next is Some <==> done < self.config.warmup_operations,
    {
        if done < self.config.warmup_operations {
            Some(self.warmup_step(done))
        } else {
            None
        }
    }

    /// The results of the benchmark, given the outcomes of its operations in their order.
    pub fn results(&self, outcomes: &Vec<Outcome>) -> (results: BenchmarkResults)
        ensures
            results.counts(self.config.num_operations, outcomes@),
            results.measures(outcomes@),
            results.successful_operations + results.failed_operations + lost(outcomes@)
                == outcomes@.len(),
            results.successful_operations == results.latency.samples@.len(),
            results.successful_operations == results.read_latencies@.len()
                + results.write_latencies@.len(),
    {
        let results = full_results(self.config.num_operations, outcomes);
        proof {
            law_every_operation_is_counted_once(outcomes@);
            law_latencies_are_those_of_the_successes(
                results,
                self.config.num_operations,
                outcomes@,
            );
        }
        results
    }

    /// The results of the benchmark as a short one: without latencies.
    pub fn mini_results(&self, outcomes: &Vec<Outcome>) -> (results: BenchmarkResults)
        ensures
            results.counts(self.config.num_operations, outcomes@),
            results.measures(seq![]),
            results.successful_operations + results.failed_operations + lost(outcomes@)
                == outcomes@.len(),
    {
        proof {
            law_every_operation_is_counted_once(outcomes@);
        }
        counts_only(self.config.num_operations, outcomes)
    }

    /// The concurrency levels to try out: those of the list that are not above that of the
    /// benchmark.
    pub fn concurrency_levels(&self) -> (levels: Vec<usize>)
        ensures
            levels@ == levels_up_to(self.config.concurrency),
    {
        let list: [usize; 5] = [1, 2, 5, 10, 20];
        let limit: usize = self.config.concurrency;
        let ghost fits = |level: usize| level <= limit;
        let mut levels: Vec<usize> = Vec::new();
        let mut i: usize = 0;
        assert(list@ =~= tried_levels());
        proof {
            reveal(Seq::filter);
        }
        while i < 5
            invariant
                i <= 5,
                list@ == tried_levels(),
                limit == self.config.concurrency,
                fits == (|level: usize| level <= limit),
                levels@ == list@.take(i as int).filter(fits),
            decreases 5 - i,
        {
            let level: usize = list[i];
            proof {
                reveal(Seq::filter);
                assert(list@.take(i + 1).drop_last() =~= list@.take(i as int));
                assert(list@.take(i + 1).last() == level);
            }
            if level <= limit {
                levels.push(level);
            }
            i = i + 1;
        }
        assert(list@.take(5) =~= list@);
        levels
    }

    /// A short benchmark at the given concurrency and otherwise with the same settings.
    pub fn mini_benchmark(&self, concurrency: usize) -> (mini: DHTBenchmark)
        ensures
            mini.config@ == mini_settings(self.config@, concurrency),
            mini.config.concurrency == concurrency,
            mini.config.num_operations == 50,
            mini.config.warmup_operations == 5,
            mini.config.host@ == self.config.host@,
            mini.config.port == self.config.port,
            mini.config.key_size == self.config.key_size,
            mini.config.value_size == self.config.value_size,
            mini.config.ttl == self.config.ttl,
            mini.config.replication == self.config.replication,
            mini.config.read_ratio@ == self.config.read_ratio@,
            mini.config.output_dir@ == self.config.output_dir@,
    {
        let mut config = self.config.clone();
        config.concurrency = concurrency;
        config.num_operations = MINI_OPERATIONS;
        config.warmup_operations = MINI_WARMUP_OPERATIONS;
        DHTBenchmark::new(config)
    }
}

/// A benchmark measures exactly as many operations as its settings say, and warms up with exactly as
/// many.
pub proof fn law_runs_are_complete(settings: Settings, draws: Seq<bool>, steps: usize)
    ensures
        is_run(settings, draws) ==> draws.len() == settings.num_operations,
        is_warmup(settings, steps) ==> steps == settings.warmup_operations,
{
    if is_run(settings, draws) {
        if draws.len() > settings.num_operations {
            let last = draws[settings.num_operations as int];
            assert(next_task(settings, settings.num_operations, last) is Some);
        }
    }
    if is_warmup(settings, steps) && steps > settings.warmup_operations {
        assert(next_warmup_task(settings, settings.warmup_operations) is Some);
    }
}

/// With one outcome for each measured operation, the operations that worked, those that failed and
/// those that never came to an end add up to the total, which is the number that the settings name.
/// Where every operation came to an end, the successes and the failures do.
pub proof fn law_counts_add_up_to_the_total(
    settings: Settings,
    draws: Seq<bool>,
    outcomes: Seq<Outcome>,
    results: BenchmarkResults,
)
    requires
        is_run(settings, draws),
        outcomes.len() == draws.len(),
        results.counts(settings.num_operations, outcomes),
    ensures
        results.total_operations == settings.num_operations,
        results.successful_operations + results.failed_operations + lost(outcomes)
            == results.total_operations,
        (forall|i: int| 0 <= i < outcomes.len() ==> !(#[trigger] outcomes[i] is Lost))
            ==> results.successful_operations + results.failed_operations
            == results.total_operations,
{
    law_runs_are_complete(settings, draws, 0);
    law_every_operation_is_counted_once(outcomes);
    if forall|i: int| 0 <= i < outcomes.len() ==> !(#[trigger] outcomes[i] is Lost) {
        let is_lost = |o: Outcome| o is Lost;
        if lost(outcomes) > 0 {
            outcomes.lemma_filter_pred(is_lost, 0);
            let first = outcomes.filter(is_lost)[0];
            assert(outcomes.filter(is_lost).contains(first));
            outcomes.lemma_filter_contains_rev(is_lost, first);
        }
    }
}

/// Every tried concurrency level that is not above the limit is taken, and no other.
pub proof fn law_levels_respect_the_limit(limit: usize, level: usize)
    ensures
        levels_up_to(limit).contains(level) <==> tried_levels().contains(level) && level <= limit,
{
    let list = tried_levels();
    let fits = |l: usize| l <= limit;
    if list.filter(fits).contains(level) {
        let i = choose|i: int| 0 <= i < list.filter(fits).len() && list.filter(fits)[i] == level;
        list.lemma_filter_pred(fits, i);
        list.lemma_filter_contains_rev(fits, level);
    }
    if list.contains(level) && level <= limit {
        let i = choose|i: int| 0 <= i < list.len() && list[i] == level;
        list.lemma_filter_contains(fits, i);
    }
}

/// A prefix and a number take `size` bytes, or as many as they need where those are more.
proof fn lemma_labelled_length(prefix: Seq<char>, index: nat, size: nat)
    requires
        is_ascii_chars(prefix),
    ensures
        is_ascii_chars(labelled(prefix, index, size)),
        encode_utf8(labelled(prefix, index, size)).len() == if size > prefix.len() + numeral(
            index,
        ).len() {
            size
        } else {
            prefix.len() + numeral(index).len()
        },
{
    let width = if size > prefix.len() {
        (size - prefix.len()) as nat
    } else {
        0
    };
    let text = labelled(prefix, index, size);
    let digits = padded_numeral(index, width);
    lemma_padded_numeral(index, width);
    assert forall|i: int| 0 <= i < text.len() implies '\0' <= #[trigger] text[i] <= '\u{7f}' by {
        if i < prefix.len() {
            assert(text[i] == prefix[i]);
        } else {
            assert(text[i] == digits[i - prefix.len()]);
        }
    }
    is_ascii_chars_encode_utf8(text);
}

/// A key takes as many bytes as the settings say, as long as its index has few enough digits for
/// that; otherwise it is as long as it has to be.
pub proof fn law_key_length(settings: Settings, index: usize)
    ensures
        encode_utf8(benchmark_key(settings, index)).len() == if settings.key_size > 10 + numeral(
            index as nat,
        ).len() {
            settings.key_size as nat
        } else {
            10 + numeral(index as nat).len()
        },
        settings.key_size > 10 && index < pow(10, (settings.key_size - 10) as nat) ==> encode_utf8(
            benchmark_key(settings, index),
        ).len() == settings.key_size,
{
    reveal_strlit("bench_key_");
    lemma_labelled_length("bench_key_"@, index as nat, settings.key_size as nat);
    if settings.key_size > 10 {
        law_numeral_length(index as nat, (settings.key_size - 10) as nat);
    }
}

/// A value takes as many bytes as the settings say, as long as its index has few enough digits for
/// that; otherwise it is as long as it has to be.
pub proof fn law_value_length(settings: Settings, index: usize)
    ensures
        encode_utf8(benchmark_value(settings, index)).len() == if settings.value_size > 12
            + numeral(index as nat).len() {
            settings.value_size as nat
        } else {
            12 + numeral(index as nat).len()
        },
        settings.value_size > 12 && index < pow(10, (settings.value_size - 12) as nat)
            ==> encode_utf8(benchmark_value(settings, index)).len() == settings.value_size,
{
    reveal_strlit("bench_value_");
    lemma_labelled_length("bench_value_"@, index as nat, settings.value_size as nat);
    if settings.value_size > 12 {
        law_numeral_length(index as nat, (settings.value_size - 12) as nat);
    }
}

/// Two texts with a common prefix are equal only where what follows is.
proof fn lemma_labels_differ(prefix: Seq<char>, i: nat, j: nat, size: nat)
    requires
        i != j,
    ensures
        labelled(prefix, i, size) != labelled(prefix, j, size),
{
    let width = if size > prefix.len() {
        (size - prefix.len()) as nat
    } else {
        0
    };
    law_padded_numerals_differ(i, j, width);
    let n = prefix.len() as int;
    assert(labelled(prefix, i, size).skip(n) =~= padded_numeral(i, width));
    assert(labelled(prefix, j, size).skip(n) =~= padded_numeral(j, width));
}

/// The read and the write with the same index name the same hashed key to the node.
pub proof fn law_read_asks_for_the_written_key(settings: Settings, index: usize)
    ensures
        task_message(settings, task(settings, index, true))[2] == task_message(
            settings,
            task(settings, index, false),
        )[5],
{
}

/// The values of a benchmark fit into requests, which announce the length that they have, exactly
/// where the settings ask for values of no more than 65495 bytes.
pub proof fn law_every_write_can_be_sent(settings: Settings, index: usize)
    ensures
        ({
            let value = encode_utf8(benchmark_value(settings, index));
            &&& put_size(value.len()) == 40 + value.len()
            &&& put_size(value.len()) <= u16::MAX <==> settings.value_size <= 65495
        }),
{
    law_value_length(settings, index);
    law_numeral_length(index as nat, 20);
    reveal_with_fuel(pow, 21);
}

/// Operations with different indices have different keys and store different values.
pub proof fn law_operations_do_not_collide(settings: Settings, i: usize, j: usize)
    requires
        i != j,
    ensures
        benchmark_key(settings, i) != benchmark_key(settings, j),
        benchmark_value(settings, i) != benchmark_value(settings, j),
{
    lemma_labels_differ("bench_key_"@, i as nat, j as nat, settings.key_size as nat);
    lemma_labels_differ("bench_value_"@, i as nat, j as nat, settings.value_size as nat);
}

/// A short benchmark differs from the one that it belongs to in its concurrency, the number of its
/// operations and the number of its warmup operations alone. So it is a benchmark of the same node,
/// with the same keys, the same values and the same requests.
pub proof fn law_short_benchmark_is_of_the_same_node(
    settings: Settings,
    concurrency: usize,
    index: usize,
    is_read: bool,
)
    ensures
        ({
            let mini = mini_settings(settings, concurrency);
            &&& mini.concurrency == concurrency
            &&& mini.num_operations == 50
            &&& mini.warmup_operations == 5
            &&& mini.host == settings.host
            &&& mini.port == settings.port
            &&& mini.key_size == settings.key_size
            &&& mini.value_size == settings.value_size
            &&& mini.ttl == settings.ttl
            &&& mini.replication == settings.replication
            &&& mini.read_ratio == settings.read_ratio
            &&& mini.output_dir == settings.output_dir
            &&& task(mini, index, is_read) == task(settings, index, is_read)
            &&& task_message(mini, task(mini, index, is_read)) == task_message(
                settings,
                task(settings, index, is_read),
            )
        }),
{
}

/// Keys and values say which operation they belong to: behind a fixed name stands nothing but digits,
/// and these read as the index of the operation, whatever sizes the settings ask for.
pub proof fn law_keys_and_values_name_their_index(settings: Settings, index: usize)
    ensures
        ({
            let key = benchmark_key(settings, index);
            &&& key.len() > 10
            &&& key.take(10) == "bench_key_"@
            &&& forall|i: int| 10 <= i < key.len() ==> '0' <= #[trigger] key[i] <= '9'
            &&& read_numeral(key.skip(10), usize::MAX as nat) == Some(index as nat)
        }),
        ({
            let value = benchmark_value(settings, index);
            &&& value.len() > 12
            &&& value.take(12) == "bench_value_"@
            &&& forall|i: int| 12 <= i < value.len() ==> '0' <= #[trigger] value[i] <= '9'
            &&& read_numeral(value.skip(12), usize::MAX as nat) == Some(index as nat)
        }),
{
    reveal_strlit("bench_key_");
    reveal_strlit("bench_value_");
    lemma_label("bench_key_"@, index, settings.key_size as nat);
    lemma_label("bench_value_"@, index, settings.value_size as nat);
}

/// A prefix and a number: the prefix is at the start, and behind it are digits that read as the
/// number.
proof fn lemma_label(prefix: Seq<char>, index: usize, size: nat)
    ensures
        ({
            let text = labelled(prefix, index as nat, size);
            let n = prefix.len() as int;
            &&& text.len() > n
            &&& text.take(n) == prefix
            &&& forall|i: int| n <= i < text.len() ==> '0' <= #[trigger] text[i] <= '9'
            &&& read_numeral(text.skip(n), usize::MAX as nat) == Some(index as nat)
        }),
{
    let width = if size > prefix.len() {
        (size - prefix.len()) as nat
    } else {
        0
    };
    let text = labelled(prefix, index as nat, size);
    let digits = padded_numeral(index as nat, width);
    let n = prefix.len() as int;
    lemma_padded_numeral(index as nat, width);
    law_written_numeral_reads_back(index as nat, width, usize::MAX as nat);
    assert(text.take(n) =~= prefix);
    assert(text.skip(n) =~= digits);
    assert forall|i: int| n <= i < text.len() implies '0' <= #[trigger] text[i] <= '9' by {
        assert(text[i] == digits[i - n]);
    }
}

/// A read asks for the key of its index, and a write stores the value of its index under that key.
/// There is a next operation as long as fewer are done than the settings say, and it is the one with
/// the next index; the same holds of the warmup, which only writes and pauses after the first of
/// every ten.
pub proof fn law_operations_follow_their_index(settings: Settings, index: usize)
    ensures
        task(settings, index, true) == Task::Get(benchmark_key(settings, index)),
        task(settings, index, false) == Task::Put(
            benchmark_key(settings, index),
            benchmark_value(settings, index),
        ),
        forall|is_read: bool| #[trigger]
            next_task(settings, index, is_read) == if index < settings.num_operations {
                Some(task(settings, index, is_read))
            } else {
                None
            },
        next_warmup_task(settings, index) == if index < settings.warmup_operations {
            Some((task(settings, index, false), index % 10 == 0))
        } else {
            None
        },
{
}

/// An operation means what it holds.
pub proof fn law_operations_mean_what_they_hold(operation: Operation)
    ensures
        match operation {
            Operation::Get { key } => operation@ == Task::Get(key@),
            Operation::Put { key, value } => operation@ == Task::Put(key@, value@),
        },
{
}

/// What is sent for an operation names the hash of its whole key, and for a write its whole value
/// with the lifetime and the number of copies of the settings: a node sees these at their places.
pub proof fn law_operations_are_sent_in_full(
    settings: Settings,
    key: Seq<char>,
    value: Seq<char>,
)
    requires
        key_hash(key).len() == 32,
        40 + encode_utf8(value).len() <= 65535,
    ensures
        ({
            let f = frame(task_message(settings, Task::Put(key, value)));
            &&& f.len() == 40 + encode_utf8(value).len()
            &&& 256 * f[0] + f[1] == f.len()
            &&& 256 * f[2] + f[3] == 650
            &&& 256 * f[4] + f[5] == settings.ttl
            &&& f[6] == settings.replication
            &&& f.subrange(8, 40) == sha256(encode_utf8(key))
            &&& f.skip(40) == encode_utf8(value)
        }),
        ({
            let f = frame(task_message(settings, Task::Get(key)));
            &&& f.len() == 36
            &&& 256 * f[0] + f[1] == 38
            &&& 256 * f[2] + f[3] == 651
            &&& f.skip(4) == sha256(encode_utf8(key))
        }),
{
    law_put_bytes(key_hash(key), encode_utf8(value), settings.ttl, settings.replication);
    law_get_and_shutdown_bytes(BENCHMARK_GET_SIZE, key_hash(key));
}

/// Of the levels 1, 2, 5, 10 and 20 those are tried out that are not above the limit, in rising order
/// and each once.
pub proof fn law_levels_that_are_tried(limit: usize, level: usize)
    ensures
        levels_up_to(limit).contains(level) <==> level <= limit && (level == 1 || level == 2
            || level == 5 || level == 10 || level == 20),
        forall|i: int, j: int|
            0 <= i < j < levels_up_to(limit).len() ==> levels_up_to(limit)[i] < levels_up_to(
                limit,
            )[j],
{
    law_levels_respect_the_limit(limit, level);
    let list = tried_levels();
    assert(list[0] == 1 && list[1] == 2 && list[2] == 5 && list[3] == 10 && list[4] == 20);
    let fits = |l: usize| l <= limit;
    reveal_with_fuel(Seq::filter, 6);
    assert(list.drop_last() =~= seq![1usize, 2, 5, 10]);
    assert(list.drop_last().drop_last() =~= seq![1usize, 2, 5]);
    assert(list.drop_last().drop_last().drop_last() =~= seq![1usize, 2]);
    assert(list.drop_last().drop_last().drop_last().drop_last() =~= seq![1usize]);
    assert(list.drop_last().drop_last().drop_last().drop_last().drop_last() =~= seq![]);
}

} // verus!
