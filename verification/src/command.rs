//! The command line of the interactive client: from a typed line to what is to be done.

use vstd::prelude::*;
use vstd::string::*;
use vstd::utf8::*;
use crate::decimal::{
    law_limit_decides, law_written_numeral_reads_back, numeral, parse_numeral, read_numeral,
};
use crate::text::{
    is_white_space, law_white_space_separates, law_words_are_the_longest_runs, same_text,
    split_words, texts, words,
};

verus! {

/// The lifetime, in seconds, of a value stored without one.
pub const DEFAULT_TTL: u16 = 60;

/// The number of copies of a value stored without one.
pub const DEFAULT_REPLICATION: u8 = 1;

/// What a line asks for.
pub enum Request {
    /// Nothing.
    Empty,
    /// To leave.
    Quit,
    /// The list of commands.
    Help,
    /// The value of a key.
    Get(Seq<char>),
    /// A value, but not as `GET <key>`.
    GetUsage,
    /// To store a value under a key, for some seconds, in some copies.
    Put(Seq<char>, Seq<char>, u16, u8),
    /// To store, but with too few or too many words.
    PutUsage,
    /// To store, but for no number of seconds.
    InvalidTtl,
    /// To store, but in no positive number of copies.
    InvalidReplication,
    /// To shut the node down.
    Shutdown,
    /// A command that there is not, which starts with this word.
    Unknown(Seq<char>),
}

/// What a line asks for.
#[derive(Debug)]
pub enum Command {
    /// Nothing.
    Empty,
    /// To leave.
    Quit,
    /// The list of commands.
    Help,
    /// The value of a key.
    Get {
        /// The key.
        key: String,
    },
    /// A value, but not as `GET <key>`.
    GetUsage,
    /// To store a value.
    Put {
        /// The key.
        key: String,
        /// The value.
        value: String,
        /// The lifetime of the value, in seconds.
        ttl: u16,
        /// The number of copies.
        replication: u8,
    },
    /// To store, but with too few or too many words.
    PutUsage,
    /// To store, but for no number of seconds.
    InvalidTtl,
    /// To store, but in no positive number of copies.
    InvalidReplication,
    /// To shut the node down.
    Shutdown,
    /// A command that there is not.
    Unknown {
        /// The word that the line starts with.
        word: String,
    },
}

impl View for Command {
    type V = Request;

    open spec fn view(&self) -> Request {
        match *self {
            Command::Empty => Request::Empty,
            Command::Quit => Request::Quit,
            Command::Help => Request::Help,
            Command::Get { key } => Request::Get(key@),
            Command::GetUsage => Request::GetUsage,
            Command::Put { key, value, ttl, replication } => Request::Put(
                key@,
                value@,
                ttl,
                replication,
            ),
            Command::PutUsage => Request::PutUsage,
            Command::InvalidTtl => Request::InvalidTtl,
            Command::InvalidReplication => Request::InvalidReplication,
            Command::Shutdown => Request::Shutdown,
            Command::Unknown { word } => Request::Unknown(word@),
        }
    }
}

/// What the words after `PUT` ask for: a key and a value, a lifetime if there is a third word, and
/// a number of copies if there is a fourth.
pub open spec fn put_asks(parts: Seq<Seq<char>>) -> Request {
    if parts.len() < 3 || parts.len() > 5 {
        Request::PutUsage
    } else if parts.len() == 3 {
        Request::Put(parts[1], parts[2], DEFAULT_TTL, DEFAULT_REPLICATION)
    } else {
        match read_numeral(parts[3], u16::MAX as nat) {
            None => Request::InvalidTtl,
            Some(ttl) => if parts.len() == 4 {
                Request::Put(parts[1], parts[2], ttl as u16, DEFAULT_REPLICATION)
            } else {
                match read_numeral(parts[4], u8::MAX as nat) {
                    Some(replication) if replication > 0 => Request::Put(
                        parts[1],
                        parts[2],
                        ttl as u16,
                        replication as u8,
                    ),
                    _ => Request::InvalidReplication,
                }
            },
        }
    }
}

/// What the words of a line ask for, where `name` is the name of the command that the first word
/// says.
pub open spec fn asks(name: Seq<char>, parts: Seq<Seq<char>>) -> Request {
    if parts.len() == 0 {
        Request::Empty
    } else if name == "QUIT"@ || name == "EXIT"@ {
        Request::Quit
    } else if name == "HELP"@ {
        Request::Help
    } else if name == "GET"@ {
        if parts.len() == 2 {
            Request::Get(parts[1])
        } else {
            Request::GetUsage
        }
    } else if name == "PUT"@ {
        put_asks(parts)
    } else if name == "SHUTDOWN"@ {
        Request::Shutdown
    } else {
        Request::Unknown(parts[0])
    }
}

/// The words of a typed line.
pub fn parse_command(input: &str) -> (parts: Vec<String>)
    ensures
        texts(parts@) == words(input@),
{
    split_words(input)
}

/// Reads the words of a command to store.
fn interpret_put(parts: &Vec<String>) -> (command: Command)
    requires
        parts@.len() > 0,
    ensures
        command@ == put_asks(texts(parts@)),
{
    let ghost list = texts(parts@);
    if parts.len() < 3 || parts.len() > 5 {
        return Command::PutUsage;
    }
    let key = parts[1].clone();
    let value = parts[2].clone();
    assert(list[1] == key@ && list[2] == value@);
    if parts.len() == 3 {
        return Command::Put { key, value, ttl: DEFAULT_TTL, replication: DEFAULT_REPLICATION };
    }
    assert(list[3] == parts@[3]@);
    let ttl: u16 = match parse_numeral(parts[3].as_str(), u16::MAX as u64) {
        Some(n) => n as u16,
        None => {
            return Command::InvalidTtl;
        },
    };
    if parts.len() == 4 {
        return Command::Put { key, value, ttl, replication: DEFAULT_REPLICATION };
    }
    assert(list[4] == parts@[4]@);
    match parse_numeral(parts[4].as_str(), u8::MAX as u64) {
        Some(n) => if n > 0 {
            Command::Put { key, value, ttl, replication: n as u8 }
        } else {
            Command::InvalidReplication
        },
        None => Command::InvalidReplication,
    }
}

/// Reads the words of a line, where `name` is the name of the command that the first word says.
pub fn interpret(name: &str, parts: &Vec<String>) -> (command: Command)
    ensures
        command@ == asks(name@, texts(parts@)),
{
    let ghost list = texts(parts@);
    if parts.len() == 0 {
        Command::Empty
    } else if same_text(name, "QUIT") || same_text(name, "EXIT") {
        Command::Quit
    } else if same_text(name, "HELP") {
        Command::Help
    } else if same_text(name, "GET") {
        if parts.len() == 2 {
            assert(list[1] == parts@[1]@);
            Command::Get { key: parts[1].clone() }
        } else {
            Command::GetUsage
        }
    } else if same_text(name, "PUT") {
        interpret_put(parts)
    } else if same_text(name, "SHUTDOWN") {
        Command::Shutdown
    } else {
        assert(list[0] == parts@[0]@);
        Command::Unknown { word: parts[0].clone() }
    }
}

/// The uppercase equivalent of a text, as Unicode has it.
pub uninterp spec fn uppercase(text: Seq<char>) -> Seq<char>;

/// The uppercase letter of an ASCII letter; every other character itself.
pub open spec fn ascii_uppercase_char(c: char) -> char {
    if 'a' <= c <= 'z' {
        (c as u32 - 32) as char
    } else {
        c
    }
}

/// A text with its ASCII letters in uppercase.
pub open spec fn ascii_uppercase(text: Seq<char>) -> Seq<char> {
    text.map_values(|c: char| ascii_uppercase_char(c))
}

/// `str::to_uppercase` is a function of the text alone, here named `uppercase`. Of text that is all
/// ASCII it changes the letters `a` to `z` to `A` to `Z` and nothing else.
pub assume_specification[ str::to_uppercase ](text: &str) -> (res: String)
    ensures
        res@ == uppercase(text@),
        is_ascii_chars(text@) ==> res@ == ascii_uppercase(text@),
;

/// Reads a typed line. The name of a command is its first word in uppercase.
pub fn read_command(line: &str) -> (command: Command)
    ensures
        words(line@).len() == 0 ==> command@ == Request::Empty,
        words(line@).len() > 0 ==> command@ == asks(uppercase(words(line@)[0]), words(line@)),
        words(line@).len() > 0 && is_ascii_chars(words(line@)[0]) ==> command@ == asks(
            ascii_uppercase(words(line@)[0]),
            words(line@),
        ),
{
    let parts = parse_command(line);
    if parts.len() == 0 {
        return Command::Empty;
    }
    assert(words(line@)[0] == parts@[0]@);
    let name = parts[0].as_str().to_uppercase();
    interpret(name.as_str(), &parts)
}

/// Whether the client asks for another line after a command, given whether the exchange with the
/// node that the command led to has failed.
pub open spec fn goes_on(request: Request, failed: bool) -> bool {
    match request {
        Request::Quit => false,
        Request::Shutdown => failed,
        _ => true,
    }
}

/// What is said to the user in place of an exchange with the node, or before leaving.
pub open spec fn remark_on(request: Request) -> Option<Seq<char>> {
    match request {
        Request::Quit => Some("Goodbye!"@),
        Request::GetUsage => Some("Usage: GET <key>"@),
        Request::PutUsage => Some("Usage: PUT <key> <value> [ttl] [replication]"@),
        Request::InvalidTtl => Some("Error: TTL must be a number"@),
        Request::InvalidReplication => Some(
            "Error: Replication must be a positive number (1-255)"@,
        ),
        Request::Unknown(word) => Some(
            "Unknown command: '"@ + word + "'. Type 'HELP' for available commands."@,
        ),
        _ => None,
    }
}

impl Command {
    /// Whether the client asks for another line after this command, given whether the exchange with
    /// the node has failed.
    pub fn continues(&self, failed: bool) -> (more: bool)
        ensures
            more == goes_on(self@, failed),
            more == !(*self is Quit || (*self is Shutdown && !failed)),
    {
        match self {
            Command::Quit => false,
            Command::Shutdown => failed,
            _ => true,
        }
    }

    /// What is said to the user in place of an exchange with the node, or before leaving.
    pub fn remark(&self) -> (remark: Option<String>)
        ensures
            match remark {
                Some(text) => remark_on(self@) == Some(text@),
                None => remark_on(self@) is None,
            },
    {
        match self {
            Command::Quit => Some("Goodbye!".to_owned()),
            Command::GetUsage => Some("Usage: GET <key>".to_owned()),
            Command::PutUsage => Some("Usage: PUT <key> <value> [ttl] [replication]".to_owned()),
            Command::InvalidTtl => Some("Error: TTL must be a number".to_owned()),
            Command::InvalidReplication => Some(
                "Error: Replication must be a positive number (1-255)".to_owned(),
            ),
            Command::Unknown { word } => {
                let mut text = "Unknown command: '".to_owned();
                text.append(word.as_str());
                text.append("'. Type 'HELP' for available commands.");
                Some(text)
            },
            _ => None,
        }
    }
}

/// Lines that differ only in the case of the ASCII letters of their first word ask for the same,
/// except that a command that there is not is named as it was typed.
pub proof fn law_case_of_the_command_is_ignored(a: Seq<char>, b: Seq<char>, rest: Seq<Seq<char>>)
    requires
        ascii_uppercase(a) == ascii_uppercase(b),
    ensures
        ({
            let first = asks(ascii_uppercase(a), seq![a] + rest);
            let second = asks(ascii_uppercase(b), seq![b] + rest);
            first == second || (first == Request::Unknown(a) && second == Request::Unknown(b))
        }),
{
    let first = seq![a] + rest;
    let second = seq![b] + rest;
    assert(first.len() == second.len());
    assert forall|i: int| 1 <= i < first.len() implies first[i] == second[i] by {}
}

/// A request to store never asks for no copies at all.
pub proof fn law_put_asks_for_a_copy(name: Seq<char>, parts: Seq<Seq<char>>)
    ensures
        asks(name, parts) matches Request::Put(_, _, _, replication) ==> replication > 0,
{
}

/// Words that are left out of a request to store stand for their defaults.
pub proof fn law_left_out_words_are_defaults(
    word: Seq<char>,
    key: Seq<char>,
    value: Seq<char>,
    ttl: Seq<char>,
)
    ensures
        put_asks(seq![word, key, value]) == put_asks(
            seq![word, key, value, numeral(DEFAULT_TTL as nat)],
        ),
        put_asks(seq![word, key, value, ttl]) == put_asks(
            seq![word, key, value, ttl, numeral(DEFAULT_REPLICATION as nat)],
        ),
{
    law_written_numeral_reads_back(DEFAULT_TTL as nat, 0, u16::MAX as nat);
    law_written_numeral_reads_back(DEFAULT_REPLICATION as nat, 0, u8::MAX as nat);
}

/// Only two requests end the session: to leave, and to shut the node down where that has worked.
pub proof fn law_session_ends(request: Request, failed: bool)
    ensures
        !goes_on(request, failed) <==> request is Quit || (request is Shutdown && !failed),
{
}

/// A lifetime and a number of copies that are written out are the ones that are asked for, all of
/// them that the protocol can carry, for the key and the value as they were typed.
pub proof fn law_put_asks_for_what_is_written(
    word: Seq<char>,
    key: Seq<char>,
    value: Seq<char>,
    ttl: u16,
    replication: u8,
)
    ensures
        put_asks(seq![word, key, value]) == Request::Put(key, value, 60, 1),
        put_asks(seq![word, key, value, numeral(ttl as nat)]) == Request::Put(key, value, ttl, 1),
        replication > 0 ==> put_asks(
            seq![word, key, value, numeral(ttl as nat), numeral(replication as nat)],
        ) == Request::Put(key, value, ttl, replication),
{
    law_limit_decides(ttl as nat, 65535);
    law_limit_decides(replication as nat, 255);
}

/// Of the words of a request to store, the lifetime is looked at before the number of copies. A
/// lifetime is a number up to 65535 and a number of copies one from 1 to 255, in any notation that
/// reads as that number; anything else is refused, and so are too few or too many words.
pub proof fn law_put_refuses_what_it_cannot_ask_for(parts: Seq<Seq<char>>)
    ensures
        put_asks(parts) == Request::PutUsage <==> !(3 <= parts.len() <= 5),
        put_asks(parts) == Request::InvalidTtl <==> 4 <= parts.len() <= 5 && read_numeral(
            parts[3],
            65535,
        ) is None,
        put_asks(parts) == Request::InvalidReplication <==> parts.len() == 5 && read_numeral(
            parts[3],
            65535,
        ) is Some && (read_numeral(parts[4], 255) is None || read_numeral(parts[4], 255) == Some(
            0nat,
        )),
        put_asks(parts) matches Request::Put(key, value, ttl, replication) ==> {
            &&& 3 <= parts.len() <= 5
            &&& key == parts[1]
            &&& value == parts[2]
            &&& parts.len() > 3 ==> read_numeral(parts[3], 65535) == Some(ttl as nat)
            &&& parts.len() > 4 ==> read_numeral(parts[4], 255) == Some(replication as nat)
            &&& parts.len() <= 3 ==> ttl == 60
            &&& parts.len() <= 4 ==> replication == 1
        },
        put_asks(parts) is PutUsage || put_asks(parts) is InvalidTtl || put_asks(
            parts,
        ) is InvalidReplication || put_asks(parts) is Put,
{
}

/// The name of a command decides what is asked for, and nothing else does: a request for a value
/// asks for the one word behind the name, as it was typed, and any name that there is not is
/// reported as it was typed.
pub proof fn law_names_of_commands(name: Seq<char>, parts: Seq<Seq<char>>)
    requires
        parts.len() > 0,
    ensures
        asks(name, parts) is Quit <==> name == "QUIT"@ || name == "EXIT"@,
        asks(name, parts) is Help <==> name == "HELP"@,
        asks(name, parts) is Shutdown <==> name == "SHUTDOWN"@,
        name == "GET"@ ==> asks(name, parts) == if parts.len() == 2 {
            Request::Get(parts[1])
        } else {
            Request::GetUsage
        },
        name == "PUT"@ ==> asks(name, parts) == put_asks(parts),
        asks(name, parts) is Get || asks(name, parts) is GetUsage ==> name == "GET"@,
        asks(name, parts) is Put || asks(name, parts) is PutUsage || asks(name, parts) is InvalidTtl
            || asks(name, parts) is InvalidReplication ==> name == "PUT"@,
        asks(name, parts) is Unknown ==> asks(name, parts) == Request::Unknown(parts[0]),
        asks(name, parts) !is Empty,
        asks(name, seq![]) is Empty,
{
    reveal_strlit("QUIT");
    reveal_strlit("EXIT");
    reveal_strlit("HELP");
    reveal_strlit("GET");
    reveal_strlit("PUT");
    reveal_strlit("SHUTDOWN");
    assert("QUIT"@[0] == 'Q' && "EXIT"@[0] == 'E' && "HELP"@[0] == 'H' && "GET"@[0] == 'G'
        && "PUT"@[0] == 'P' && "SHUTDOWN"@[0] == 'S');
}

/// Letters from `a` to `z` become those from `A` to `Z`, place by place, and no other character
/// changes.
pub proof fn law_uppercase_of_ascii(text: Seq<char>, i: int)
    requires
        0 <= i < text.len(),
    ensures
        ascii_uppercase(text).len() == text.len(),
        'a' <= text[i] <= 'z' ==> ascii_uppercase(text)[i] as u32 + 32 == text[i] as u32,
        !('a' <= text[i] <= 'z') ==> ascii_uppercase(text)[i] == text[i],
{
}

/// Two words with a space between them, of which the first may be several, are split at the space.
proof fn lemma_one_more_word(line: Seq<char>, word: Seq<char>)
    requires
        word.len() > 0,
        forall|k: int| 0 <= k < word.len() ==> !is_white_space(#[trigger] word[k]),
    ensures
        words(line + " "@ + word) == words(line).push(word),
{
    reveal_strlit(" ");
    law_white_space_separates(line, ' ', word);
    law_words_are_the_longest_runs(word);
    assert(line.push(' ') + word =~= line + " "@ + word);
    assert(words(line) + seq![word] =~= words(line).push(word));
}

/// A numeral holds no white space.
proof fn lemma_numeral_is_a_word(n: nat)
    ensures
        numeral(n).len() > 0,
        forall|k: int| 0 <= k < numeral(n).len() ==> !is_white_space(#[trigger] numeral(n)[k]),
    decreases n,
{
    if n >= 10 {
        lemma_numeral_is_a_word(n / 10);
        assert forall|k: int| 0 <= k < numeral(n).len() implies !is_white_space(
            #[trigger] numeral(n)[k],
        ) by {
            if k < numeral(n / 10).len() {
                assert(numeral(n)[k] == numeral(n / 10)[k]);
            }
        }
    }
}

/// Typed lines are understood from end to end: `PUT`, a key, a value, a lifetime and a number of
/// copies, with spaces between them, ask to store just that, and `GET` and a key ask for the value of
/// just that key. Keys and values are texts of any length without white space.
pub proof fn law_typed_lines_are_understood(
    key: Seq<char>,
    value: Seq<char>,
    ttl: u16,
    replication: u8,
)
    requires
        key.len() > 0,
        value.len() > 0,
        forall|k: int| 0 <= k < key.len() ==> !is_white_space(#[trigger] key[k]),
        forall|k: int| 0 <= k < value.len() ==> !is_white_space(#[trigger] value[k]),
        replication > 0,
    ensures
        ({
            let short = "PUT"@ + " "@ + key + " "@ + value;
            let timed = short + " "@ + numeral(ttl as nat);
            let full = timed + " "@ + numeral(replication as nat);
            let get = "GET"@ + " "@ + key;
            &&& asks("PUT"@, words(short)) == Request::Put(key, value, 60, 1)
            &&& asks("PUT"@, words(timed)) == Request::Put(key, value, ttl, 1)
            &&& asks("PUT"@, words(full)) == Request::Put(key, value, ttl, replication)
            &&& words(full)[0] == "PUT"@
            &&& asks("GET"@, words(get)) == Request::Get(key)
            &&& words(get)[0] == "GET"@
        }),
{
    reveal_strlit("PUT");
    reveal_strlit("GET");
    let short = "PUT"@ + " "@ + key + " "@ + value;
    let timed = short + " "@ + numeral(ttl as nat);
    let full = timed + " "@ + numeral(replication as nat);
    law_words_are_the_longest_runs("PUT"@);
    law_words_are_the_longest_runs("GET"@);
    lemma_one_more_word("PUT"@, key);
    lemma_one_more_word("PUT"@ + " "@ + key, value);
    lemma_numeral_is_a_word(ttl as nat);
    lemma_one_more_word(short, numeral(ttl as nat));
    lemma_numeral_is_a_word(replication as nat);
    lemma_one_more_word(timed, numeral(replication as nat));
    lemma_one_more_word("GET"@, key);
    assert(words(short) =~= seq!["PUT"@, key, value]);
    assert(words(timed) =~= seq!["PUT"@, key, value, numeral(ttl as nat)]);
    assert(words(full) =~= seq![
        "PUT"@,
        key,
        value,
        numeral(ttl as nat),
        numeral(replication as nat),
    ]);
    assert(words("GET"@ + " "@ + key) =~= seq!["GET"@, key]);
    law_put_asks_for_what_is_written("PUT"@, key, value, ttl, replication);
    law_names_of_commands("PUT"@, words(short));
    law_names_of_commands("PUT"@, words(timed));
    law_names_of_commands("PUT"@, words(full));
    law_names_of_commands("GET"@, words("GET"@ + " "@ + key));
}

/// A command means what it holds: nothing of a key, a value, a lifetime, a number of copies or an
/// unknown word is lost.
pub proof fn law_commands_mean_what_they_hold(command: Command)
    ensures
        command matches Command::Put { key, value, ttl, replication } ==> command@
            == Request::Put(key@, value@, ttl, replication),
        command matches Command::Get { key } ==> command@ == Request::Get(key@),
        command matches Command::Unknown { word } ==> command@ == Request::Unknown(word@),
        command is Empty <==> command@ is Empty,
        command is Quit <==> command@ is Quit,
        command is Help <==> command@ is Help,
        command is Get <==> command@ is Get,
        command is GetUsage <==> command@ is GetUsage,
        command is Put <==> command@ is Put,
        command is PutUsage <==> command@ is PutUsage,
        command is InvalidTtl <==> command@ is InvalidTtl,
        command is InvalidReplication <==> command@ is InvalidReplication,
        command is Shutdown <==> command@ is Shutdown,
        command is Unknown <==> command@ is Unknown,
{
}

/// The user is told about every line that asks for nothing that can be done, by the word where it is
/// unknown, and on leaving; a command that is carried out has no remark.
pub proof fn law_remarks_are_made_where_nothing_is_done(request: Request, word: Seq<char>)
    ensures
        remark_on(request) is None <==> request is Empty || request is Help || request is Get
            || request is Put || request is Shutdown,
        remark_on(Request::Unknown(word)) == Some(
            "Unknown command: '"@ + word + "'. Type 'HELP' for available commands."@,
        ),
        remark_on(Request::InvalidTtl) == Some("Error: TTL must be a number"@),
        remark_on(Request::InvalidReplication) == Some(
            "Error: Replication must be a positive number (1-255)"@,
        ),
{
}

} // verus!
