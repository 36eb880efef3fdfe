//! The client of one node: where the node is, and what is sent to it.

use vstd::prelude::*;
use vstd::string::*;
use vstd::utf8::*;
use crate::decimal::{
    law_limit_decides, law_written_numeral_reads_back, numeral, parse_numeral, read_numeral,
    write_numeral,
};
use crate::digest::{hash_key_bytes, key_hash, sha256};
use crate::text::{characters, texts};
use crate::wire::{
    get_message, get_request, put_message, put_request, put_size, segments, shutdown_message,
    shutdown_request, Segment, KEY_LENGTH,
};

verus! {

/// The port that is used where none is given.
pub const DEFAULT_PORT: u16 = 7401;

/// The size that the client announces in a request for a value: a header and a key.
pub const GET_SIZE: u16 = 36;

/// A client of the node at `host` and `port`.
pub struct DHTClient {
    /// Name or address of the machine.
    pub host: String,
    /// Port that the node listens on.
    pub port: u16,
}

impl DHTClient {
    /// A client of the node at the given host and port.
    pub fn new(host: &str, port: u16) -> (client: Self)
        ensures
            client.host@ == host@,
            client.port == port,
    {
        DHTClient { host: host.to_owned(), port }
    }

    /// Where to connect to: the host and the port, with a colon between them.
    pub fn address(&self) -> (address: String)
        ensures
            address@ == socket_address(self.host@, self.port),
            address@ == self.host@ + ":"@ + numeral(self.port as nat),
    {
        join_address(self.host.as_str(), self.port)
    }

    /// Hashes a key to the 32 bytes that the protocol asks for.
    pub fn hash_key_bytes(key: &str) -> (hash: [u8; 32])
        ensures
            hash@ == key_hash(key@),
            hash@ == sha256(encode_utf8(key@)),
            hash@.len() == 32,
    {
        hash_key_bytes(key)
    }

    /// What is sent to store a value.
    pub fn put_value_request(&self, key: &str, value: &str, ttl: u16, replication: u8) -> (request:
        Vec<Segment>)
        requires
            put_size(encode_utf8(value@).len()) <= u16::MAX,
        ensures
            segments(request@) == put_message(
                key_hash(key@),
                encode_utf8(value@),
                ttl,
                replication,
            ),
            key_hash(key@).len() == KEY_LENGTH,
            request@.len() == 7,
            request@[2].bytes@ == seq![(ttl / 256) as u8, (ttl % 256) as u8],
            request@[3].bytes@ == seq![replication],
            request@[5].bytes@ == sha256(encode_utf8(key@)),
            request@[6].bytes@ == encode_utf8(value@),
    {
        let hash = Self::hash_key_bytes(key);
        put_request(&hash, value.as_bytes(), ttl, replication)
    }

    /// What is sent to ask for a value.
    pub fn get_value_request(&self, key: &str) -> (request: Vec<Segment>)
        ensures
            segments(request@) == get_message(GET_SIZE, key_hash(key@)),
            key_hash(key@).len() == KEY_LENGTH,
            request@.len() == 3,
            request@[0].bytes@ == seq![0u8, 36u8],
            request@[2].bytes@ == sha256(encode_utf8(key@)),
    {
        let hash = Self::hash_key_bytes(key);
        get_request(GET_SIZE, &hash)
    }

    /// What is sent to shut the node down.
    pub fn shutdown_request(&self) -> (request: Vec<Segment>)
        ensures
            segments(request@) == shutdown_message(),
    {
        shutdown_request()
    }
}

/// A host and a port, with a colon between them.
pub open spec fn socket_address(host: Seq<char>, port: u16) -> Seq<char> {
    host + ":"@ + numeral(port as nat)
}

/// Writes a host and a port with a colon between them.
pub fn join_address(host: &str, port: u16) -> (address: String)
    ensures
        address@ == socket_address(host@, port),
        address@ == host@ + ":"@ + numeral(port as nat),
{
    let mut address = host.to_owned();
    address.append(":");
    address.append(write_numeral(port as u64).as_str());
    address
}

/// How many characters stand before the first colon, or all of them where there is none.
pub open spec fn before_colon(s: Seq<char>) -> nat
    decreases s.len(),
{
    if s.len() == 0 || s[0] == ':' {
        0
    } else {
        1 + before_colon(s.drop_first())
    }
}

/// What the arguments of the client say about the node.
pub enum Target {
    /// The node is at this host and port.
    Node(Seq<char>, u16),
    /// This text is no port.
    InvalidPort(Seq<char>),
    /// There are too many arguments, or not even the name of the program.
    Usage,
}

/// A host, with the port that a text says.
pub open spec fn target_at(host: Seq<char>, port: Seq<char>) -> Target {
    match read_numeral(port, u16::MAX as nat) {
        Some(n) => Target::Node(host, n as u16),
        None => Target::InvalidPort(port),
    }
}

/// What the arguments say, the name of the program first: nothing, a host, `host:port`, or a host
/// and a port.
pub open spec fn target(args: Seq<Seq<char>>) -> Target {
    if args.len() == 1 {
        Target::Node("127.0.0.1"@, DEFAULT_PORT)
    } else if args.len() == 2 {
        let colon = before_colon(args[1]) as int;
        if colon < args[1].len() {
            target_at(args[1].take(colon), args[1].skip(colon + 1))
        } else {
            Target::Node(args[1], DEFAULT_PORT)
        }
    } else if args.len() == 3 {
        target_at(args[1], args[2])
    } else {
        Target::Usage
    }
}

/// Why the arguments say no node.
#[derive(Debug)]
pub enum TargetError {
    /// This text is no port.
    InvalidPort(String),
    /// There are too many arguments, or not even the name of the program.
    Usage,
}

/// The meaning of the outcome of reading the arguments.
pub open spec fn target_of(result: Result<(String, u16), TargetError>) -> Target {
    match result {
        Ok((host, port)) => Target::Node(host@, port),
        Err(TargetError::InvalidPort(text)) => Target::InvalidPort(text@),
        Err(TargetError::Usage) => Target::Usage,
    }
}

/// Reads a port.
fn parse_port(host: &str, port: &str) -> (result: Result<(String, u16), TargetError>)
    ensures
        target_of(result) == target_at(host@, port@),
{
    match parse_numeral(port, u16::MAX as u64) {
        Some(n) => Ok((host.to_owned(), n as u16)),
        None => Err(TargetError::InvalidPort(port.to_owned())),
    }
}

/// The first colon is where no colon stands before it.
proof fn lemma_before_colon(s: Seq<char>, n: int)
    requires
        0 <= n <= s.len(),
        forall|k: int| 0 <= k < n ==> #[trigger] s[k] != ':',
        n < s.len() ==> s[n] == ':',
    ensures
        before_colon(s) == n,
    decreases s.len(),
{
    if n > 0 {
        let rest = s.drop_first();
        assert(s[0] != ':');
        assert forall|k: int| 0 <= k < n - 1 implies #[trigger] rest[k] != ':' by {
            assert(rest[k] == s[k + 1]);
        }
        lemma_before_colon(rest, n - 1);
    }
}

/// Reads the arguments of the client, the name of the program first.
pub fn parse_target(args: &Vec<String>) -> (result: Result<(String, u16), TargetError>)
    ensures
        target_of(result) == target(texts(args@)),
        match result {
            Ok((host, port)) => target(texts(args@)) == Target::Node(host@, port),
            Err(TargetError::InvalidPort(text)) => target(texts(args@)) == Target::InvalidPort(text@),
            Err(TargetError::Usage) => target(texts(args@)) == Target::Usage,
        },
{
    if args.len() == 1 {
        Ok(("127.0.0.1".to_owned(), DEFAULT_PORT))
    } else if args.len() == 2 {
        let word = args[1].as_str();
        assert(texts(args@)[1] == word@);
        let chars = characters(word);
        let n: usize = chars.len();
        let mut colon: usize = 0;
        while colon < n && chars[colon] != ':'
            invariant
                n == chars@.len(),
                chars@ == word@,
                colon <= n,
                forall|k: int| 0 <= k < colon ==> #[trigger] word@[k] != ':',
            decreases n - colon,
        {
            colon = colon + 1;
        }
        proof {
            lemma_before_colon(word@, colon as int);
        }
        if colon < n {
            let host = word.substring_char(0, colon);
            let port = word.substring_char(colon + 1, n);
            assert(host@ =~= word@.take(colon as int));
            assert(port@ =~= word@.skip(colon + 1));
            parse_port(host, port)
        } else {
            Ok((word.to_owned(), DEFAULT_PORT))
        }
    } else if args.len() == 3 {
        assert(texts(args@)[1] == args@[1]@);
        assert(texts(args@)[2] == args@[2]@);
        parse_port(args[1].as_str(), args[2].as_str())
    } else {
        Err(TargetError::Usage)
    }
}

/// `host:port` as one argument says the same as the two as arguments of their own, where the host
/// holds no colon.
pub proof fn law_colon_form_is_two_arguments(
    program: Seq<char>,
    host: Seq<char>,
    port: Seq<char>,
)
    requires
        !host.contains(':'),
    ensures
        target(seq![program, host + ":"@ + port]) == target(seq![program, host, port]),
{
    reveal_strlit(":");
    let joined = host + ":"@ + port;
    assert forall|k: int| 0 <= k < host.len() implies #[trigger] joined[k] != ':' by {
        assert(joined[k] == host[k]);
    }
    lemma_before_colon(joined, host.len() as int);
    assert(joined.take(host.len() as int) =~= host);
    assert(joined.skip(host.len() as int + 1) =~= port);
}

/// The address that a client of a node connects to, given as the argument, leads to that node
/// again, where the host holds no colon.
pub proof fn law_address_is_an_argument(program: Seq<char>, host: Seq<char>, port: u16)
    requires
        !host.contains(':'),
    ensures
        target(seq![program, socket_address(host, port)]) == Target::Node(host, port),
{
    law_colon_form_is_two_arguments(program, host, numeral(port as nat));
    law_written_numeral_reads_back(port as nat, 0, u16::MAX as nat);
}

/// Every host can be named with every port: as two arguments, also where the host holds a colon, the
/// node is at that host and that port.
pub proof fn law_host_and_port_are_taken_as_given(program: Seq<char>, host: Seq<char>, port: u16)
    ensures
        target(seq![program, host, numeral(port as nat)]) == Target::Node(host, port),
        socket_address(host, port) == host + ":"@ + numeral(port as nat),
{
    law_limit_decides(port as nat, 65535);
}

/// A host alone stands for itself at the default port; nothing at all stands for this machine.
pub proof fn law_default_host_and_port(program: Seq<char>, host: Seq<char>)
    requires
        !host.contains(':'),
    ensures
        target(seq![program, host]) == Target::Node(host, 7401),
        target(seq![program]) == Target::Node("127.0.0.1"@, 7401),
{
    assert forall|k: int| 0 <= k < host.len() implies #[trigger] host[k] != ':' by {
        assert(host.contains(host[k]));
    }
    lemma_before_colon(host, host.len() as int);
}

/// In one argument the first colon ends the host, and all that follows it has to be the port; a text
/// that is no number up to 65535 is refused as it was given. The same holds of a port as an argument
/// of its own.
pub proof fn law_only_numbers_are_ports(
    program: Seq<char>,
    host: Seq<char>,
    any_host: Seq<char>,
    port: Seq<char>,
)
    requires
        !host.contains(':'),
    ensures
        match read_numeral(port, 65535) {
            Some(n) => {
                &&& n <= 65535
                &&& target(seq![program, any_host, port]) == Target::Node(any_host, n as u16)
                &&& target(seq![program, host + ":"@ + port]) == Target::Node(host, n as u16)
            },
            None => {
                &&& target(seq![program, any_host, port]) == Target::InvalidPort(port)
                &&& target(seq![program, host + ":"@ + port]) == Target::InvalidPort(port)
            },
        },
{
    law_colon_form_is_two_arguments(program, host, port);
}

/// There are at most two arguments.
pub proof fn law_more_than_two_arguments_are_refused(args: Seq<Seq<char>>)
    ensures
        target(args) == Target::Usage <==> args.len() == 0 || args.len() > 3,
{
}

} // verus!
