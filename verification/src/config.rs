//! The settings of the benchmark, and how its arguments change them.

use vstd::prelude::*;
use vstd::string::*;
use crate::decimal::{law_limit_decides, numeral, parse_numeral, read_numeral};
use crate::text::{characters, same_text, texts};

verus! {

/// The settings of a benchmark. The share of reads among the operations is kept as it was written;
/// the program that draws by it reads it as a fraction.
#[derive(Debug)]
pub struct BenchmarkConfig {
    /// Host of the node.
    pub host: String,
    /// Port of the node.
    pub port: u16,
    /// How many operations are measured.
    pub num_operations: usize,
    /// How many of them run at a time.
    pub concurrency: usize,
    /// Length of a key, in bytes.
    pub key_size: usize,
    /// Length of a value, in bytes.
    pub value_size: usize,
    /// Lifetime of a stored value, in seconds.
    pub ttl: u16,
    /// Number of copies of a stored value.
    pub replication: u8,
    /// Share of reads among the measured operations, as text.
    pub read_ratio: String,
    /// How many operations come before the measured ones.
    pub warmup_operations: usize,
    /// Directory of the graphs.
    pub output_dir: String,
}

/// The settings of a benchmark, with texts as sequences of characters.
pub struct Settings {
    /// Host of the node.
    pub host: Seq<char>,
    /// Port of the node.
    pub port: u16,
    /// How many operations are measured.
    pub num_operations: usize,
    /// How many of them run at a time.
    pub concurrency: usize,
    /// Length of a key, in bytes.
    pub key_size: usize,
    /// Length of a value, in bytes.
    pub value_size: usize,
    /// Lifetime of a stored value, in seconds.
    pub ttl: u16,
    /// Number of copies of a stored value.
    pub replication: u8,
    /// Share of reads among the measured operations, as text.
    pub read_ratio: Seq<char>,
    /// How many operations come before the measured ones.
    pub warmup_operations: usize,
    /// Directory of the graphs.
    pub output_dir: Seq<char>,
}

impl View for BenchmarkConfig {
    type V = Settings;

    open spec fn view(&self) -> Settings {
        Settings {
            host: self.host@,
            port: self.port,
            num_operations: self.num_operations,
            concurrency: self.concurrency,
            key_size: self.key_size,
            value_size: self.value_size,
            ttl: self.ttl,
            replication: self.replication,
            read_ratio: self.read_ratio@,
            warmup_operations: self.warmup_operations,
            output_dir: self.output_dir@,
        }
    }
}

/// The settings without any argument.
pub open spec fn default_settings() -> Settings {
    Settings {
        host: "127.0.0.1"@,
        port: 7401,
        num_operations: 1000,
        concurrency: 10,
        key_size: 16,
        value_size: 256,
        ttl: 300,
        replication: 1,
        read_ratio: "0.5"@,
        warmup_operations: 50,
        output_dir: "benchmark_results"@,
    }
}

impl Default for BenchmarkConfig {
    fn default() -> (config: Self)
        ensures
            config@ == default_settings(),
            config.host@ == "127.0.0.1"@,
            config.port == 7401,
            config.num_operations == 1000,
            config.concurrency == 10,
            config.key_size == 16,
            config.value_size == 256,
            config.ttl == 300,
            config.replication == 1,
            config.read_ratio@ == "0.5"@,
            config.warmup_operations == 50,
            config.output_dir@ == "benchmark_results"@,
    {
        BenchmarkConfig {
            host: "127.0.0.1".to_owned(),
            port: 7401,
            num_operations: 1000,
            concurrency: 10,
            key_size: 16,
            value_size: 256,
            ttl: 300,
            replication: 1,
            read_ratio: "0.5".to_owned(),
            warmup_operations: 50,
            output_dir: "benchmark_results".to_owned(),
        }
    }
}

impl Clone for BenchmarkConfig {
    fn clone(&self) -> (copy: Self)
        ensures
            copy@ == self@,
            copy.host@ == self.host@,
            copy.port == self.port,
            copy.num_operations == self.num_operations,
            copy.concurrency == self.concurrency,
            copy.key_size == self.key_size,
            copy.value_size == self.value_size,
            copy.ttl == self.ttl,
            copy.replication == self.replication,
            copy.read_ratio@ == self.read_ratio@,
            copy.warmup_operations == self.warmup_operations,
            copy.output_dir@ == self.output_dir@,
    {
        BenchmarkConfig {
            host: self.host.clone(),
            port: self.port,
            num_operations: self.num_operations,
            concurrency: self.concurrency,
            key_size: self.key_size,
            value_size: self.value_size,
            ttl: self.ttl,
            replication: self.replication,
            read_ratio: self.read_ratio.clone(),
            warmup_operations: self.warmup_operations,
            output_dir: self.output_dir.clone(),
        }
    }
}

/// The options that the benchmark knows.
#[derive(Clone, Copy, Debug, PartialEq, Eq, Structural)]
pub enum Setting {
    /// `-h` or `--host`.
    Host,
    /// `-p` or `--port`.
    Port,
    /// `-n` or `--operations`.
    Operations,
    /// `-c` or `--concurrency`.
    Concurrency,
    /// `-k` or `--key-size`.
    KeySize,
    /// `-v` or `--value-size`.
    ValueSize,
    /// `-r` or `--read-ratio`.
    ReadRatio,
    /// `-t` or `--ttl`.
    Ttl,
    /// `--replication`.
    Replication,
    /// `--output-dir`.
    OutputDir,
    /// `--preset`.
    Preset,
}

/// What a single argument is.
#[derive(Clone, Copy, Debug, PartialEq, Eq, Structural)]
pub enum Argument {
    /// The request for the list of options.
    Help,
    /// An option that takes the next argument as its value.
    Setting(Setting),
    /// An option that there is not.
    UnknownOption,
    /// A word without a meaning.
    Word,
}

/// What a single argument is.
pub open spec fn argument(arg: Seq<char>) -> Argument {
    if arg == "--help"@ {
        Argument::Help
    } else if arg == "-h"@ || arg == "--host"@ {
        Argument::Setting(Setting::Host)
    } else if arg == "-p"@ || arg == "--port"@ {
        Argument::Setting(Setting::Port)
    } else if arg == "-n"@ || arg == "--operations"@ {
        Argument::Setting(Setting::Operations)
    } else if arg == "-c"@ || arg == "--concurrency"@ {
        Argument::Setting(Setting::Concurrency)
    } else if arg == "-k"@ || arg == "--key-size"@ {
        Argument::Setting(Setting::KeySize)
    } else if arg == "-v"@ || arg == "--value-size"@ {
        Argument::Setting(Setting::ValueSize)
    } else if arg == "-r"@ || arg == "--read-ratio"@ {
        Argument::Setting(Setting::ReadRatio)
    } else if arg == "-t"@ || arg == "--ttl"@ {
        Argument::Setting(Setting::Ttl)
    } else if arg == "--replication"@ {
        Argument::Setting(Setting::Replication)
    } else if arg == "--output-dir"@ {
        Argument::Setting(Setting::OutputDir)
    } else if arg == "--preset"@ {
        Argument::Setting(Setting::Preset)
    } else if arg.len() > 0 && arg[0] == '-' {
        Argument::UnknownOption
    } else {
        Argument::Word
    }
}

/// The message about an option without a value.
pub open spec fn missing(setting: Setting) -> Seq<char> {
    match setting {
        Setting::Host => "Missing host value"@,
        Setting::Port => "Missing port value"@,
        Setting::Operations => "Missing operations value"@,
        Setting::Concurrency => "Missing concurrency value"@,
        Setting::KeySize => "Missing key-size value"@,
        Setting::ValueSize => "Missing value-size value"@,
        Setting::ReadRatio => "Missing read-ratio value"@,
        Setting::Ttl => "Missing ttl value"@,
        Setting::Replication => "Missing replication value"@,
        Setting::OutputDir => "Missing output-dir value"@,
        Setting::Preset => "Missing preset value"@,
    }
}

/// The number of operations, the concurrency and the number of warmup operations of a preset.
pub open spec fn preset(name: Seq<char>) -> Option<(usize, usize, usize)> {
    if name == "quick"@ {
        Some((100, 5, 20))
    } else if name == "standard"@ {
        Some((1000, 10, 50))
    } else if name == "stress"@ {
        Some((5000, 20, 100))
    } else {
        None
    }
}

/// The settings after an option with its value, or the message about a value that it does not take.
pub open spec fn changed_by(settings: Settings, setting: Setting, value: Seq<char>) -> Result<
    Settings,
    Seq<char>,
> {
    match setting {
        Setting::Host => Ok(Settings { host: value, ..settings }),
        Setting::Port => match read_numeral(value, u16::MAX as nat) {
            Some(n) => Ok(Settings { port: n as u16, ..settings }),
            None => Err("Invalid port number"@),
        },
        Setting::Operations => match read_numeral(value, usize::MAX as nat) {
            Some(n) => Ok(Settings { num_operations: n as usize, ..settings }),
            None => Err("Invalid operations number"@),
        },
        Setting::Concurrency => match read_numeral(value, usize::MAX as nat) {
            Some(n) => Ok(Settings { concurrency: n as usize, ..settings }),
            None => Err("Invalid concurrency number"@),
        },
        Setting::KeySize => match read_numeral(value, usize::MAX as nat) {
            Some(n) => Ok(Settings { key_size: n as usize, ..settings }),
            None => Err("Invalid key-size number"@),
        },
        Setting::ValueSize => match read_numeral(value, usize::MAX as nat) {
            Some(n) => Ok(Settings { value_size: n as usize, ..settings }),
            None => Err("Invalid value-size number"@),
        },
        Setting::ReadRatio => Ok(Settings { read_ratio: value, ..settings }),
        Setting::Ttl => match read_numeral(value, u16::MAX as nat) {
            Some(n) => Ok(Settings { ttl: n as u16, ..settings }),
            None => Err("Invalid ttl number"@),
        },
        Setting::Replication => match read_numeral(value, u8::MAX as nat) {
            Some(n) => Ok(Settings { replication: n as u8, ..settings }),
            None => Err("Invalid replication number"@),
        },
        Setting::OutputDir => Ok(Settings { output_dir: value, ..settings }),
        Setting::Preset => match preset(value) {
            Some((operations, concurrency, warmup)) => Ok(
                Settings {
                    num_operations: operations,
                    concurrency,
                    warmup_operations: warmup,
                    ..settings
                },
            ),
            None => Err("Unknown preset: "@ + value),
        },
    }
}

/// What the arguments of the benchmark ask for.
pub enum Instruction {
    /// To run with these settings.
    Run(Settings),
    /// To list the options.
    Help,
    /// Nothing that can be done, as this message says.
    Error(Seq<char>),
}

/// What the arguments from the `i`-th on ask for, read from left to right after those before them
/// have led to the given settings.
pub open spec fn instruction_from(args: Seq<Seq<char>>, i: int, settings: Settings) -> Instruction
    decreases args.len() - i,
{
    if i < 0 || i >= args.len() {
        Instruction::Run(settings)
    } else {
        match argument(args[i]) {
            Argument::Help => Instruction::Help,
            Argument::Setting(setting) => if i + 1 >= args.len() {
                Instruction::Error(missing(setting))
            } else {
                match changed_by(settings, setting, args[i + 1]) {
                    Ok(changed) => instruction_from(args, i + 2, changed),
                    Err(message) => Instruction::Error(message),
                }
            },
            Argument::UnknownOption => Instruction::Error("Unknown option: "@ + args[i]),
            Argument::Word => instruction_from(args, i + 1, settings),
        }
    }
}

/// What the arguments of the benchmark ask for, the name of the program first.
pub open spec fn instruction(args: Seq<Seq<char>>) -> Instruction {
    instruction_from(args, 1, default_settings())
}

/// What arguments without an error ask for.
#[derive(Debug)]
pub enum ParsedArgs {
    /// To run with these settings.
    Run(BenchmarkConfig),
    /// To list the options.
    Help,
}

/// The meaning of the outcome of reading the arguments.
pub open spec fn instruction_of(result: Result<ParsedArgs, String>) -> Instruction {
    match result {
        Ok(ParsedArgs::Run(config)) => Instruction::Run(config@),
        Ok(ParsedArgs::Help) => Instruction::Help,
        Err(message) => Instruction::Error(message@),
    }
}

/// Tells what a single argument is.
pub fn classify(arg: &str) -> (kind: Argument)
    ensures
        kind == argument(arg@),
{
    if same_text(arg, "--help") {
        Argument::Help
    } else if same_text(arg, "-h") || same_text(arg, "--host") {
        Argument::Setting(Setting::Host)
    } else if same_text(arg, "-p") || same_text(arg, "--port") {
        Argument::Setting(Setting::Port)
    } else if same_text(arg, "-n") || same_text(arg, "--operations") {
        Argument::Setting(Setting::Operations)
    } else if same_text(arg, "-c") || same_text(arg, "--concurrency") {
        Argument::Setting(Setting::Concurrency)
    } else if same_text(arg, "-k") || same_text(arg, "--key-size") {
        Argument::Setting(Setting::KeySize)
    } else if same_text(arg, "-v") || same_text(arg, "--value-size") {
        Argument::Setting(Setting::ValueSize)
    } else if same_text(arg, "-r") || same_text(arg, "--read-ratio") {
        Argument::Setting(Setting::ReadRatio)
    } else if same_text(arg, "-t") || same_text(arg, "--ttl") {
        Argument::Setting(Setting::Ttl)
    } else if same_text(arg, "--replication") {
        Argument::Setting(Setting::Replication)
    } else if same_text(arg, "--output-dir") {
        Argument::Setting(Setting::OutputDir)
    } else if same_text(arg, "--preset") {
        Argument::Setting(Setting::Preset)
    } else {
        let chars = characters(arg);
        if chars.len() > 0 && chars[0] == '-' {
            Argument::UnknownOption
        } else {
            Argument::Word
        }
    }
}

impl Setting {
    /// The message about this option without a value.
    fn missing_value(self) -> (message: String)
        ensures
            message@ == missing(self),
    {
        match self {
            Setting::Host => "Missing host value".to_owned(),
            Setting::Port => "Missing port value".to_owned(),
            Setting::Operations => "Missing operations value".to_owned(),
            Setting::Concurrency => "Missing concurrency value".to_owned(),
            Setting::KeySize => "Missing key-size value".to_owned(),
            Setting::ValueSize => "Missing value-size value".to_owned(),
            Setting::ReadRatio => "Missing read-ratio value".to_owned(),
            Setting::Ttl => "Missing ttl value".to_owned(),
            Setting::Replication => "Missing replication value".to_owned(),
            Setting::OutputDir => "Missing output-dir value".to_owned(),
            Setting::Preset => "Missing preset value".to_owned(),
        }
    }
}

/// A message that ends in a word of the user.
fn message_about(message: &str, word: &str) -> (text: String)
    ensures
        text@ == message@ + word@,
{
    let mut text = message.to_owned();
    text.append(word);
    text
}

/// The number of operations, the concurrency and the number of warmup operations of a preset.
pub fn find_preset(name: &str) -> (found: Option<(usize, usize, usize)>)
    ensures
        found == preset(name@),
{
    if same_text(name, "quick") {
        Some((100, 5, 20))
    } else if same_text(name, "standard") {
        Some((1000, 10, 50))
    } else if same_text(name, "stress") {
        Some((5000, 20, 100))
    } else {
        None
    }
}

impl BenchmarkConfig {
    /// Changes the settings as an option with its value says. Where the option does not take the
    /// value, the settings stay as they are, and a message says so.
    pub fn apply(&mut self, setting: Setting, value: &str) -> (result: Result<(), String>)
        ensures
            match result {
                Ok(()) => changed_by(old(self)@, setting, value@) == Ok::<_, Seq<char>>(final(self)@),
                Err(message) => {
                    &&& changed_by(old(self)@, setting, value@) == Err::<Settings, _>(message@)
                    &&& *final(self) == *old(self)
                },
            },
            setting != Setting::Host ==> final(self).host@ == old(self).host@,
            setting != Setting::Port ==> final(self).port == old(self).port,
            setting != Setting::Operations && setting != Setting::Preset
                ==> final(self).num_operations == old(self).num_operations,
            setting != Setting::Concurrency && setting != Setting::Preset
                ==> final(self).concurrency == old(self).concurrency,
            setting != Setting::KeySize ==> final(self).key_size == old(self).key_size,
            setting != Setting::ValueSize ==> final(self).value_size == old(self).value_size,
            setting != Setting::ReadRatio ==> final(self).read_ratio@ == old(self).read_ratio@,
            setting != Setting::Ttl ==> final(self).ttl == old(self).ttl,
            setting != Setting::Replication ==> final(self).replication == old(self).replication,
            setting != Setting::OutputDir ==> final(self).output_dir@ == old(self).output_dir@,
            setting != Setting::Preset ==> final(self).warmup_operations
                == old(self).warmup_operations,
    {
        match setting {
            Setting::Host => {
                self.host = value.to_owned();
                Ok(())
            },
            Setting::Port => match parse_numeral(value, u16::MAX as u64) {
                Some(n) => {
                    self.port = n as u16;
                    Ok(())
                },
                None => Err("Invalid port number".to_owned()),
            },
            Setting::Operations => match parse_numeral(value, usize::MAX as u64) {
                Some(n) => {
                    self.num_operations = n as usize;
                    Ok(())
                },
                None => Err("Invalid operations number".to_owned()),
            },
            Setting::Concurrency => match parse_numeral(value, usize::MAX as u64) {
                Some(n) => {
                    self.concurrency = n as usize;
                    Ok(())
                },
                None => Err("Invalid concurrency number".to_owned()),
            },
            Setting::KeySize => match parse_numeral(value, usize::MAX as u64) {
                Some(n) => {
                    self.key_size = n as usize;
                    Ok(())
                },
                None => Err("Invalid key-size number".to_owned()),
            },
            Setting::ValueSize => match parse_numeral(value, usize::MAX as u64) {
                Some(n) => {
                    self.value_size = n as usize;
                    Ok(())
                },
                None => Err("Invalid value-size number".to_owned()),
            },
            Setting::ReadRatio => {
                self.read_ratio = value.to_owned();
                Ok(())
            },
            Setting::Ttl => match parse_numeral(value, u16::MAX as u64) {
                Some(n) => {
                    self.ttl = n as u16;
                    Ok(())
                },
                None => Err("Invalid ttl number".to_owned()),
            },
            Setting::Replication => match parse_numeral(value, u8::MAX as u64) {
                Some(n) => {
                    self.replication = n as u8;
                    Ok(())
                },
                None => Err("Invalid replication number".to_owned()),
            },
            Setting::OutputDir => {
                self.output_dir = value.to_owned();
                Ok(())
            },
            Setting::Preset => match find_preset(value) {
                Some((operations, concurrency, warmup)) => {
                    self.num_operations = operations;
                    self.concurrency = concurrency;
                    self.warmup_operations = warmup;
                    Ok(())
                },
                None => Err(message_about("Unknown preset: ", value)),
            },
        }
    }
}

/// Reads the arguments of the benchmark, the name of the program first.
pub fn parse_args(args: &Vec<String>) -> (result: Result<ParsedArgs, String>)
    ensures
        instruction_of(result) == instruction(texts(args@)),
        match result {
            Ok(ParsedArgs::Run(config)) => instruction(texts(args@)) == Instruction::Run(config@),
            Ok(ParsedArgs::Help) => instruction(texts(args@)) is Help,
            Err(message) => instruction(texts(args@)) == Instruction::Error(message@),
        },
{
    let ghost list = texts(args@);
    let mut config = BenchmarkConfig::default();
    let mut i: usize = 1;
    while i < args.len()
        invariant
            i >= 1,
            list == texts(args@),
            list.len() == args@.len(),
            instruction(list) == instruction_from(list, i as int, config@),
        decreases args@.len() - i,
    {
        assert(list[i as int] == args@[i as int]@);
        match classify(args[i].as_str()) {
            Argument::Help => {
                return Ok(ParsedArgs::Help);
            },
            Argument::Setting(setting) => {
                i = i + 1;
                if i >= args.len() {
                    return Err(setting.missing_value());
                }
                assert(list[i as int] == args@[i as int]@);
                match config.apply(setting, args[i].as_str()) {
                    Ok(()) => {},
                    Err(message) => {
                        return Err(message);
                    },
                }
            },
            Argument::UnknownOption => {
                return Err(message_about("Unknown option: ", args[i].as_str()));
            },
            Argument::Word => {},
        }
        i = i + 1;
    }
    Ok(ParsedArgs::Run(config))
}

/// The arguments of `a` mean in front of others what they mean alone.
proof fn lemma_prefix_is_read_alone(
    a: Seq<Seq<char>>,
    b: Seq<Seq<char>>,
    i: int,
    settings: Settings,
)
    requires
        0 <= i <= a.len(),
    ensures
        instruction_from(a, i, settings) matches Instruction::Run(reached) ==> instruction_from(
            a + b,
            i,
            settings,
        ) == instruction_from(a + b, a.len() as int, reached),
        instruction_from(a, i, settings) is Help ==> instruction_from(a + b, i, settings) is Help,
    decreases a.len() - i,
{
    if i < a.len() {
        assert((a + b)[i] == a[i]);
        match argument(a[i]) {
            Argument::Setting(setting) => {
                if i + 1 < a.len() {
                    assert((a + b)[i + 1] == a[i + 1]);
                    if let Ok(changed) = changed_by(settings, setting, a[i + 1]) {
                        lemma_prefix_is_read_alone(a, b, i + 2, changed);
                    }
                }
            },
            Argument::Word => {
                lemma_prefix_is_read_alone(a, b, i + 1, settings);
            },
            _ => {},
        }
    }
}

/// Arguments are read from left to right: those behind a complete list of arguments are read with
/// the settings that the list leads to.
pub proof fn law_arguments_are_read_in_order(a: Seq<Seq<char>>, b: Seq<Seq<char>>)
    requires
        a.len() > 0,
    ensures
        instruction(a) matches Instruction::Run(reached) ==> instruction(a + b)
            == instruction_from(a + b, a.len() as int, reached),
{
    lemma_prefix_is_read_alone(a, b, 1, default_settings());
}

/// Once the list of options is asked for, the arguments behind do not matter.
pub proof fn law_help_ends_the_arguments(a: Seq<Seq<char>>, b: Seq<Seq<char>>)
    requires
        a.len() > 0,
        instruction(a) is Help,
    ensures
        instruction(a + b) is Help,
{
    lemma_prefix_is_read_alone(a, b, 1, default_settings());
}

/// The last option wins: behind arguments that can be run, an option with a value that it takes
/// changes just what it names, whatever was said of it before.
pub proof fn law_last_option_wins(
    args: Seq<Seq<char>>,
    option: Seq<char>,
    setting: Setting,
    value: Seq<char>,
)
    requires
        args.len() > 0,
        argument(option) == Argument::Setting(setting),
    ensures
        instruction(args) matches Instruction::Run(reached) ==> instruction(
            args + seq![option, value],
        ) == match changed_by(reached, setting, value) {
            Ok(settings) => Instruction::Run(settings),
            Err(message) => Instruction::Error(message),
        },
{
    let more = args + seq![option, value];
    law_arguments_are_read_in_order(args, seq![option, value]);
    if let Instruction::Run(reached) = instruction(args) {
        assert(more[args.len() as int] == option);
        assert(more[args.len() as int + 1] == value);
        reveal_with_fuel(instruction_from, 2);
    }
}

/// A word without a leading `-` that is no value of an option changes nothing.
pub proof fn law_other_words_are_skipped(args: Seq<Seq<char>>, word: Seq<char>)
    requires
        args.len() > 0,
        instruction(args) is Run,
        argument(word) == Argument::Word,
    ensures
        instruction(args.push(word)) == instruction(args),
{
    let more = args + seq![word];
    law_arguments_are_read_in_order(args, seq![word]);
    assert(more =~= args.push(word));
    assert(more[args.len() as int] == word);
    reveal_with_fuel(instruction_from, 2);
}

/// Arguments mean the same behind one list as behind another that leads to the same settings.
proof fn lemma_suffix_is_read_alone(
    a: Seq<Seq<char>>,
    b: Seq<Seq<char>>,
    more: Seq<Seq<char>>,
    i: int,
    settings: Settings,
)
    requires
        0 <= i,
    ensures
        instruction_from(a + more, a.len() + i, settings) == instruction_from(
            b + more,
            b.len() + i,
            settings,
        ),
    decreases more.len() - i,
{
    if i < more.len() {
        assert((a + more)[a.len() + i] == more[i]);
        assert((b + more)[b.len() + i] == more[i]);
        match argument(more[i]) {
            Argument::Setting(setting) => {
                if i + 1 < more.len() {
                    assert((a + more)[a.len() + i + 1] == more[i + 1]);
                    assert((b + more)[b.len() + i + 1] == more[i + 1]);
                    if let Ok(changed) = changed_by(settings, setting, more[i + 1]) {
                        lemma_suffix_is_read_alone(a, b, more, i + 2, changed);
                    }
                }
            },
            Argument::Word => {
                lemma_suffix_is_read_alone(a, b, more, i + 1, settings);
            },
            _ => {},
        }
    }
}

/// A word without a leading `-` that is no value of an option changes nothing, whatever follows it.
pub proof fn law_other_words_are_skipped_anywhere(
    args: Seq<Seq<char>>,
    word: Seq<char>,
    more: Seq<Seq<char>>,
)
    requires
        args.len() > 0,
        instruction(args) is Run,
        argument(word) == Argument::Word,
    ensures
        instruction(args + (seq![word] + more)) == instruction(args + more),
{
    let longer = args.push(word);
    law_other_words_are_skipped(args, word);
    law_arguments_are_read_in_order(longer, more);
    law_arguments_are_read_in_order(args, more);
    assert(longer + more =~= args + (seq![word] + more));
    if let Instruction::Run(reached) = instruction(args) {
        lemma_suffix_is_read_alone(longer, args, more, 0, reached);
    }
}

/// Without arguments the benchmark runs with the default settings.
pub proof fn law_no_arguments_mean_defaults(program: Seq<char>)
    ensures
        instruction(seq![program]) == Instruction::Run(default_settings()),
{
}

/// The settings are those that the configuration holds, field by field.
pub proof fn law_settings_are_the_fields(config: BenchmarkConfig)
    ensures
        config@.host == config.host@,
        config@.port == config.port,
        config@.num_operations == config.num_operations,
        config@.concurrency == config.concurrency,
        config@.key_size == config.key_size,
        config@.value_size == config.value_size,
        config@.ttl == config.ttl,
        config@.replication == config.replication,
        config@.read_ratio == config.read_ratio@,
        config@.warmup_operations == config.warmup_operations,
        config@.output_dir == config.output_dir@,
{
}

/// An option changes only what it names: whatever the settings were, every other of them stays as it
/// was. A preset names the number of operations, the concurrency and the number of warmup
/// operations.
pub proof fn law_options_change_only_what_they_name(
    settings: Settings,
    setting: Setting,
    value: Seq<char>,
)
    ensures
        changed_by(settings, setting, value) matches Ok(changed) ==> {
            &&& setting != Setting::Host ==> changed.host == settings.host
            &&& setting != Setting::Port ==> changed.port == settings.port
            &&& setting != Setting::Operations && setting != Setting::Preset
                ==> changed.num_operations == settings.num_operations
            &&& setting != Setting::Concurrency && setting != Setting::Preset
                ==> changed.concurrency == settings.concurrency
            &&& setting != Setting::KeySize ==> changed.key_size == settings.key_size
            &&& setting != Setting::ValueSize ==> changed.value_size == settings.value_size
            &&& setting != Setting::ReadRatio ==> changed.read_ratio == settings.read_ratio
            &&& setting != Setting::Ttl ==> changed.ttl == settings.ttl
            &&& setting != Setting::Replication ==> changed.replication == settings.replication
            &&& setting != Setting::OutputDir ==> changed.output_dir == settings.output_dir
            &&& setting != Setting::Preset ==> changed.warmup_operations
                == settings.warmup_operations
        },
{
}

/// What an option names becomes what its value says: a text as it was typed, and a number as its
/// numeral reads.
pub proof fn law_options_take_their_value(settings: Settings, setting: Setting, value: Seq<char>)
    ensures
        changed_by(settings, setting, value) matches Ok(changed) ==> {
            &&& setting == Setting::Host ==> changed.host == value
            &&& setting == Setting::ReadRatio ==> changed.read_ratio == value
            &&& setting == Setting::OutputDir ==> changed.output_dir == value
            &&& setting == Setting::Port ==> read_numeral(value, 65535) == Some(changed.port as nat)
            &&& setting == Setting::Ttl ==> read_numeral(value, 65535) == Some(changed.ttl as nat)
            &&& setting == Setting::Replication ==> read_numeral(value, 255) == Some(
                changed.replication as nat,
            )
            &&& setting == Setting::Operations ==> read_numeral(value, usize::MAX as nat) == Some(
                changed.num_operations as nat,
            )
            &&& setting == Setting::Concurrency ==> read_numeral(value, usize::MAX as nat) == Some(
                changed.concurrency as nat,
            )
            &&& setting == Setting::KeySize ==> read_numeral(value, usize::MAX as nat) == Some(
                changed.key_size as nat,
            )
            &&& setting == Setting::ValueSize ==> read_numeral(value, usize::MAX as nat) == Some(
                changed.value_size as nat,
            )
        },
{
}

/// Every number that a setting can hold can be given: written as a numeral, it becomes the value of
/// that setting.
pub proof fn law_written_numbers_are_set(settings: Settings, n: usize, p: u16, r: u8)
    ensures
        changed_by(settings, Setting::Port, numeral(p as nat)) matches Ok(c) && c.port == p,
        changed_by(settings, Setting::Ttl, numeral(p as nat)) matches Ok(c) && c.ttl == p,
        changed_by(settings, Setting::Replication, numeral(r as nat)) matches Ok(c)
            && c.replication == r,
        changed_by(settings, Setting::Operations, numeral(n as nat)) matches Ok(c)
            && c.num_operations == n,
        changed_by(settings, Setting::Concurrency, numeral(n as nat)) matches Ok(c)
            && c.concurrency == n,
        changed_by(settings, Setting::KeySize, numeral(n as nat)) matches Ok(c) && c.key_size == n,
        changed_by(settings, Setting::ValueSize, numeral(n as nat)) matches Ok(c) && c.value_size
            == n,
{
    law_limit_decides(p as nat, 65535);
    law_limit_decides(r as nat, 255);
    law_limit_decides(n as nat, usize::MAX as nat);
}

/// A host, a directory and a share of reads can be any text. A value is refused only where a number
/// is asked for and it is none that the setting can hold, or where it names no preset, and then the
/// message names the setting or the preset.
pub proof fn law_refused_values(settings: Settings, setting: Setting, value: Seq<char>)
    ensures
        setting == Setting::Host || setting == Setting::OutputDir || setting == Setting::ReadRatio
            ==> changed_by(settings, setting, value) is Ok,
        setting == Setting::Port && read_numeral(value, 65535) is None ==> changed_by(
            settings,
            setting,
            value,
        ) == Err::<Settings, _>("Invalid port number"@),
        setting == Setting::Ttl && read_numeral(value, 65535) is None ==> changed_by(
            settings,
            setting,
            value,
        ) == Err::<Settings, _>("Invalid ttl number"@),
        setting == Setting::Replication && read_numeral(value, 255) is None ==> changed_by(
            settings,
            setting,
            value,
        ) == Err::<Settings, _>("Invalid replication number"@),
        setting == Setting::Operations && read_numeral(value, usize::MAX as nat) is None
            ==> changed_by(settings, setting, value) == Err::<Settings, _>(
            "Invalid operations number"@,
        ),
        setting == Setting::Concurrency && read_numeral(value, usize::MAX as nat) is None
            ==> changed_by(settings, setting, value) == Err::<Settings, _>(
            "Invalid concurrency number"@,
        ),
        setting == Setting::KeySize && read_numeral(value, usize::MAX as nat) is None
            ==> changed_by(settings, setting, value) == Err::<Settings, _>(
            "Invalid key-size number"@,
        ),
        setting == Setting::ValueSize && read_numeral(value, usize::MAX as nat) is None
            ==> changed_by(settings, setting, value) == Err::<Settings, _>(
            "Invalid value-size number"@,
        ),
        setting == Setting::Preset && value != "quick"@ && value != "standard"@ && value
            != "stress"@ ==> changed_by(settings, setting, value) == Err::<Settings, _>(
            "Unknown preset: "@ + value,
        ),
        changed_by(settings, setting, value) is Err ==> (setting == Setting::Preset && value
            != "quick"@ && value != "standard"@ && value != "stress"@) || (setting
            != Setting::Preset && read_numeral(
            value,
            match setting {
                Setting::Port | Setting::Ttl => 65535,
                Setting::Replication => 255,
                _ => usize::MAX as nat,
            },
        ) is None),
{
    reveal_strlit("quick");
    reveal_strlit("standard");
    reveal_strlit("stress");
}

/// The presets, from whatever settings they start: the fast one, the usual one and the heavy one.
pub proof fn law_presets(settings: Settings)
    ensures
        changed_by(settings, Setting::Preset, "quick"@) matches Ok(c) && c.num_operations == 100
            && c.concurrency == 5 && c.warmup_operations == 20,
        changed_by(settings, Setting::Preset, "standard"@) matches Ok(c) && c.num_operations == 1000
            && c.concurrency == 10 && c.warmup_operations == 50,
        changed_by(settings, Setting::Preset, "stress"@) matches Ok(c) && c.num_operations == 5000
            && c.concurrency == 20 && c.warmup_operations == 100,
{
    reveal_strlit("quick");
    reveal_strlit("standard");
    reveal_strlit("stress");
    assert("quick"@.len() == 5 && "standard"@.len() == 8 && "stress"@.len() == 6);
}

/// Options are known by these names, in full and by no other: an argument that starts with `-` and is
/// none of them is an unknown option, and one that does not start with `-` is a mere word.
pub proof fn law_names_of_options(arg: Seq<char>)
    ensures
        argument(arg) == Argument::Help <==> arg == "--help"@,
        argument(arg) == Argument::Setting(Setting::Host) <==> arg == "-h"@ || arg == "--host"@,
        argument(arg) == Argument::Setting(Setting::Port) <==> arg == "-p"@ || arg == "--port"@,
        argument(arg) == Argument::Setting(Setting::Operations) <==> arg == "-n"@ || arg == "--operations"@,
        argument(arg) == Argument::Setting(Setting::Concurrency) <==> arg == "-c"@ || arg == "--concurrency"@,
        argument(arg) == Argument::Setting(Setting::KeySize) <==> arg == "-k"@ || arg == "--key-size"@,
        argument(arg) == Argument::Setting(Setting::ValueSize) <==> arg == "-v"@ || arg == "--value-size"@,
        argument(arg) == Argument::Setting(Setting::ReadRatio) <==> arg == "-r"@ || arg == "--read-ratio"@,
        argument(arg) == Argument::Setting(Setting::Ttl) <==> arg == "-t"@ || arg == "--ttl"@,
        argument(arg) == Argument::Setting(Setting::Replication) <==> arg == "--replication"@,
        argument(arg) == Argument::Setting(Setting::OutputDir) <==> arg == "--output-dir"@,
        argument(arg) == Argument::Setting(Setting::Preset) <==> arg == "--preset"@,
        argument(arg) == Argument::Word <==> arg.len() == 0 || arg[0] != '-',
{
    reveal_strlit("--help");
    reveal_strlit("-h");
    reveal_strlit("--host");
    reveal_strlit("-p");
    reveal_strlit("--port");
    reveal_strlit("-n");
    reveal_strlit("--operations");
    reveal_strlit("-c");
    reveal_strlit("--concurrency");
    reveal_strlit("-k");
    reveal_strlit("--key-size");
    reveal_strlit("-v");
    reveal_strlit("--value-size");
    reveal_strlit("-r");
    reveal_strlit("--read-ratio");
    reveal_strlit("-t");
    reveal_strlit("--ttl");
    reveal_strlit("--replication");
    reveal_strlit("--output-dir");
    reveal_strlit("--preset");
    assert("-h"@[1] == 'h' && "-p"@[1] == 'p' && "-n"@[1] == 'n' && "-c"@[1] == 'c' && "-k"@[1]
        == 'k' && "-v"@[1] == 'v' && "-r"@[1] == 'r' && "-t"@[1] == 't');
    assert("--help"@[4] == 'l' && "--host"@[4] == 's' && "--port"@[4] == 'r');
    assert("--help"@.len() == 6 && "--host"@.len() == 6 && "--port"@.len() == 6
        && "--operations"@.len() == 12 && "--value-size"@.len() == 12 && "--read-ratio"@.len() == 12
        && "--output-dir"@.len() == 12 && "--concurrency"@.len() == 13 && "--replication"@.len()
        == 13 && "--key-size"@.len() == 10 && "--ttl"@.len() == 5 && "--preset"@.len() == 8);
    assert("--operations"@[3] == 'p' && "--value-size"@[3] == 'a' && "--read-ratio"@[3] == 'e'
        && "--output-dir"@[3] == 'u');
    assert("--concurrency"@[3] == 'o' && "--replication"@[3] == 'e');
    assert("-h"@[0] == '-' && "-p"@[0] == '-' && "-n"@[0] == '-' && "-c"@[0] == '-' && "-k"@[0]
        == '-' && "-v"@[0] == '-' && "-r"@[0] == '-' && "-t"@[0] == '-');
    assert("--help"@[0] == '-' && "--host"@[0] == '-' && "--port"@[0] == '-' && "--operations"@[0]
        == '-' && "--value-size"@[0] == '-' && "--read-ratio"@[0] == '-' && "--output-dir"@[0]
        == '-');
    assert("--concurrency"@[0] == '-' && "--replication"@[0] == '-' && "--key-size"@[0] == '-'
        && "--ttl"@[0] == '-' && "--preset"@[0] == '-');
}

/// What cannot be understood ends the arguments, whatever follows it: an unknown option, or an option
/// with a value that it does not take. An option that nothing follows lacks its value.
pub proof fn law_errors_end_the_arguments(
    args: Seq<Seq<char>>,
    option: Seq<char>,
    value: Seq<char>,
    more: Seq<Seq<char>>,
)
    requires
        args.len() > 0,
        instruction(args) is Run,
    ensures
        argument(option) == Argument::UnknownOption ==> instruction(args + (seq![option] + more))
            == Instruction::Error("Unknown option: "@ + option),
        argument(option) == Argument::Help ==> instruction(args + (seq![option] + more)) is Help,
        argument(option) matches Argument::Setting(setting) ==> {
            &&& instruction(args + seq![option]) == Instruction::Error(missing(setting))
            &&& instruction(args) matches Instruction::Run(reached) ==> changed_by(
                reached,
                setting,
                value,
            ) matches Err(message) ==> instruction(args + (seq![option, value] + more))
                == Instruction::Error(message)
        },
{
    let tail = seq![option] + more;
    let pair = seq![option, value] + more;
    law_arguments_are_read_in_order(args, tail);
    law_arguments_are_read_in_order(args, pair);
    law_arguments_are_read_in_order(args, seq![option]);
    assert((args + tail)[args.len() as int] == option);
    assert((args + pair)[args.len() as int] == option);
    assert((args + pair)[args.len() as int + 1] == value);
    assert((args + seq![option])[args.len() as int] == option);
}

/// Only the settings that arguments lead to matter for those that follow: these mean the same behind
/// any two lists that lead to the same settings.
pub proof fn law_only_the_settings_matter_for_what_follows(
    a: Seq<Seq<char>>,
    b: Seq<Seq<char>>,
    more: Seq<Seq<char>>,
)
    requires
        a.len() > 0,
        b.len() > 0,
        instruction(a) is Run,
        instruction(a) == instruction(b),
    ensures
        instruction(a + more) == instruction(b + more),
{
    law_arguments_are_read_in_order(a, more);
    law_arguments_are_read_in_order(b, more);
    if let Instruction::Run(reached) = instruction(a) {
        lemma_suffix_is_read_alone(a, b, more, 0, reached);
    }
}

/// Without arguments, or even without the name of the program, these are the settings.
pub proof fn law_default_settings(program: Seq<char>)
    ensures
        instruction(seq![]) == instruction(seq![program]),
        instruction(seq![program]) matches Instruction::Run(s) && {
            &&& s.host == "127.0.0.1"@
            &&& s.port == 7401
            &&& s.num_operations == 1000
            &&& s.concurrency == 10
            &&& s.key_size == 16
            &&& s.value_size == 256
            &&& s.ttl == 300
            &&& s.replication == 1
            &&& s.read_ratio == "0.5"@
            &&& s.warmup_operations == 50
            &&& s.output_dir == "benchmark_results"@
        },
{
}

/// The outcome of reading the arguments means what it holds.
pub proof fn law_parsed_arguments_mean_what_they_hold(result: Result<ParsedArgs, String>)
    ensures
        match result {
            Ok(ParsedArgs::Run(config)) => instruction_of(result) == Instruction::Run(config@),
            Ok(ParsedArgs::Help) => instruction_of(result) is Help,
            Err(message) => instruction_of(result) == Instruction::Error(message@),
        },
{
}

/// Settings given before a preset survive it: a node, a directory and the sizes named in front of a
/// preset are those of the run.
pub proof fn law_presets_keep_what_was_given(args: Seq<Seq<char>>, name: Seq<char>)
    requires
        args.len() > 0,
    ensures
        instruction(args) matches Instruction::Run(given) ==> instruction(
            args + seq!["--preset"@, name],
        ) matches Instruction::Run(run) ==> {
            &&& run.host == given.host
            &&& run.port == given.port
            &&& run.key_size == given.key_size
            &&& run.value_size == given.value_size
            &&& run.ttl == given.ttl
            &&& run.replication == given.replication
            &&& run.read_ratio == given.read_ratio
            &&& run.output_dir == given.output_dir
        },
{
    law_names_of_options("--preset"@);
    law_last_option_wins(args, "--preset"@, Setting::Preset, name);
}

} // verus!
