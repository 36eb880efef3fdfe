//! The messages that a client exchanges with a node.
//!
//! A message starts with a header of four bytes: the size of the whole message and its type, both
//! as big-endian 16-bit numbers. A request to store a value goes on with the lifetime of the value
//! in seconds, the number of copies, a reserved byte, the hashed key and the value; a request for a
//! value with the hashed key; a request to shut down ends after the header. A node answers a request
//! for a value with the key and the value, or says that it has none.

use vstd::prelude::*;
use vstd::slice::*;
use vstd::string::*;
use vstd::utf8::*;
use crate::decimal::{numeral, write_numeral};

verus! {

/// Type of a request to store a value.
pub const API_DHT_PUT: u16 = 650;

/// Type of a request for a value.
pub const API_DHT_GET: u16 = 651;

/// Type of an answer that carries the value asked for.
pub const API_DHT_SUCCESS: u16 = 652;

/// Type of an answer that says that there is no such value.
pub const API_DHT_FAILURE: u16 = 653;

/// Type of a request to shut the node down.
pub const API_DHT_SHUTDOWN: u16 = 654;

/// Length of a message header.
pub const HEADER_LENGTH: u16 = 4;

/// Length of a hashed key.
pub const KEY_LENGTH: usize = 32;

/// The part of a message that a run of bytes is.
#[derive(Clone, Copy, Debug, PartialEq, Eq, Structural)]
pub enum Field {
    /// The announced size of the message.
    TotalSize,
    /// The type of a request to store.
    PutType,
    /// The type of a request for a value.
    GetType,
    /// The type of a request to shut down.
    ShutdownType,
    /// The lifetime of a value, in seconds.
    Ttl,
    /// The number of copies to keep.
    Replication,
    /// The byte without a meaning.
    Reserved,
    /// The hashed key.
    Key,
    /// The value.
    Value,
}

/// A run of bytes of a message, sent in one write.
#[derive(Debug)]
pub struct Segment {
    /// What the bytes are.
    pub field: Field,
    /// The bytes.
    pub bytes: Vec<u8>,
}

impl View for Segment {
    type V = (Field, Seq<u8>);

    open spec fn view(&self) -> (Field, Seq<u8>) {
        (self.field, self.bytes@)
    }
}

/// A request as its fields and bytes, in sending order.
pub open spec fn segments(request: Seq<Segment>) -> Seq<(Field, Seq<u8>)> {
    request.map_values(|s: Segment| s@)
}

/// The bytes that a receiver sees of a request.
pub open spec fn frame(request: Seq<(Field, Seq<u8>)>) -> Seq<u8> {
    request.map_values(|s: (Field, Seq<u8>)| s.1).flatten()
}

/// A 16-bit number as two bytes, the high one first.
pub open spec fn be16(x: u16) -> Seq<u8> {
    seq![(x / 256) as u8, (x % 256) as u8]
}

/// The 16-bit number that two bytes stand for, the high one first.
pub open spec fn from_be16(high: u8, low: u8) -> int {
    256 * high + low
}

/// The size of a request to store a value of `len` bytes: what stands before the value takes forty
/// bytes.
pub open spec fn put_size(len: nat) -> nat {
    40 + len
}

/// A request to store a value.
pub open spec fn put_message(
    key: Seq<u8>,
    value: Seq<u8>,
    ttl: u16,
    replication: u8,
) -> Seq<(Field, Seq<u8>)> {
    seq![
        (Field::TotalSize, be16(put_size(value.len()) as u16)),
        (Field::PutType, be16(API_DHT_PUT)),
        (Field::Ttl, be16(ttl)),
        (Field::Replication, seq![replication]),
        (Field::Reserved, seq![0u8]),
        (Field::Key, key),
        (Field::Value, value),
    ]
}

/// A request for a value, which announces the given size.
pub open spec fn get_message(size: u16, key: Seq<u8>) -> Seq<(Field, Seq<u8>)> {
    seq![(Field::TotalSize, be16(size)), (Field::GetType, be16(API_DHT_GET)), (Field::Key, key)]
}

/// A request to shut down.
pub open spec fn shutdown_message() -> Seq<(Field, Seq<u8>)> {
    seq![
        (Field::TotalSize, be16(HEADER_LENGTH)),
        (Field::ShutdownType, be16(API_DHT_SHUTDOWN)),
    ]
}

/// The name of a field in messages about a failed write.
pub open spec fn field_name(field: Field) -> Seq<char> {
    match field {
        Field::TotalSize => "total_size"@,
        Field::PutType => "API_DHT_PUT"@,
        Field::GetType => "API_DHT_GET"@,
        Field::ShutdownType => "API_DHT_SHUTDOWN"@,
        Field::Ttl => "TTL"@,
        Field::Replication => "replication"@,
        Field::Reserved => "reserved"@,
        Field::Key => "key"@,
        Field::Value => "value"@,
    }
}

/// Splits a 16-bit number into two bytes, the high one first.
fn be16_bytes(x: u16) -> (bytes: Vec<u8>)
    ensures
        bytes@ == be16(x),
{
    let bytes = vec![(x / 256) as u8, (x % 256) as u8];
    assert(bytes@ =~= be16(x));
    bytes
}

/// The size that a request to store a value of `len` bytes announces, unless it is too large for the
/// header.
pub fn announced_put_size(len: usize) -> (size: Option<u16>)
    ensures
        match size {
            Some(n) => n == put_size(len as nat),
            None => put_size(len as nat) > u16::MAX,
        },
        size matches Some(n) ==> n == 40 + len,
        size is None <==> 40 + len > 65535,
{
    if len <= 0xffff - 40 {
        Some(40 + len as u16)
    } else {
        None
    }
}

/// Builds a request to store a value.
pub fn put_request(key: &[u8; 32], value: &[u8], ttl: u16, replication: u8) -> (request: Vec<
    Segment,
>)
    requires
        put_size(value@.len()) <= u16::MAX,
    ensures
        segments(request@) == put_message(key@, value@, ttl, replication),
        request@.len() == 7,
        request@[0].bytes@ == seq![
            ((40 + value@.len()) / 256) as u8,
            ((40 + value@.len()) % 256) as u8,
        ],
        request@[1].bytes@ == seq![2u8, 138u8],
        request@[2].bytes@ == seq![(ttl / 256) as u8, (ttl % 256) as u8],
        request@[3].bytes@ == seq![replication],
        request@[4].bytes@ == seq![0u8],
        request@[5].bytes@ == key@,
        request@[6].bytes@ == value@,
{
    let size: u16 = 40 + value.len() as u16;
    let request = vec![
        Segment { field: Field::TotalSize, bytes: be16_bytes(size) },
        Segment { field: Field::PutType, bytes: be16_bytes(API_DHT_PUT) },
        Segment { field: Field::Ttl, bytes: be16_bytes(ttl) },
        Segment { field: Field::Replication, bytes: vec![replication] },
        Segment { field: Field::Reserved, bytes: vec![0u8] },
        Segment { field: Field::Key, bytes: slice_to_vec(key.as_slice()) },
        Segment { field: Field::Value, bytes: slice_to_vec(value) },
    ];
    assert(request@[3].bytes@ =~= seq![replication]);
    assert(request@[4].bytes@ =~= seq![0u8]);
    assert(segments(request@) =~= put_message(key@, value@, ttl, replication));
    request
}

/// Builds a request for a value, which announces the given size.
pub fn get_request(size: u16, key: &[u8; 32]) -> (request: Vec<Segment>)
    ensures
        segments(request@) == get_message(size, key@),
        request@.len() == 3,
        request@[0].bytes@ == seq![(size / 256) as u8, (size % 256) as u8],
        request@[1].bytes@ == seq![2u8, 139u8],
        request@[2].bytes@ == key@,
{
    let request = vec![
        Segment { field: Field::TotalSize, bytes: be16_bytes(size) },
        Segment { field: Field::GetType, bytes: be16_bytes(API_DHT_GET) },
        Segment { field: Field::Key, bytes: slice_to_vec(key.as_slice()) },
    ];
    assert(segments(request@) =~= get_message(size, key@));
    request
}

/// Builds a request to shut down.
pub fn shutdown_request() -> (request: Vec<Segment>)
    ensures
        segments(request@) == shutdown_message(),
        request@.len() == 2,
        request@[0].bytes@ == seq![0u8, 4u8],
        request@[1].bytes@ == seq![2u8, 142u8],
{
    let request = vec![
        Segment { field: Field::TotalSize, bytes: be16_bytes(HEADER_LENGTH) },
        Segment { field: Field::ShutdownType, bytes: be16_bytes(API_DHT_SHUTDOWN) },
    ];
    assert(segments(request@) =~= shutdown_message());
    request
}

impl Field {
    /// The name of the field in messages about a failed write.
    fn name(self) -> (name: &'static str)
        ensures
            name@ == field_name(self),
    {
        match self {
            Field::TotalSize => "total_size",
            Field::PutType => "API_DHT_PUT",
            Field::GetType => "API_DHT_GET",
            Field::ShutdownType => "API_DHT_SHUTDOWN",
            Field::Ttl => "TTL",
            Field::Replication => "replication",
            Field::Reserved => "reserved",
            Field::Key => "key",
            Field::Value => "value",
        }
    }
}

impl Segment {
    /// The message about a failed write of this segment.
    pub fn write_failure(&self, cause: &str) -> (message: String)
        ensures
            message@ == "Write "@ + field_name(self.field) + " failed: "@ + cause@,
    {
        let mut message = "Write ".to_owned();
        message.append(self.field.name());
        message.append(" failed: ");
        message.append(cause);
        message
    }
}

/// The message about a connection that could not be made.
pub fn connection_failure(cause: &str) -> (message: String)
    ensures
        message@ == "Connection failed: "@ + cause@,
{
    let mut message = "Connection failed: ".to_owned();
    message.append(cause);
    message
}

/// The header of an answer.
#[derive(Clone, Copy, Debug, PartialEq, Eq, Structural)]
pub struct ResponseHeader {
    /// The size of the whole answer.
    pub size: u16,
    /// The type of the answer.
    pub kind: u16,
}

/// Reads the header of an answer.
pub fn read_header(bytes: &[u8; 4]) -> (header: ResponseHeader)
    ensures
        header.size == from_be16(bytes@[0], bytes@[1]),
        header.kind == from_be16(bytes@[2], bytes@[3]),
        header.size == 256 * bytes@[0] + bytes@[1],
        header.kind == 256 * bytes@[2] + bytes@[3],
{
    ResponseHeader {
        size: 256 * (bytes[0] as u16) + bytes[1] as u16,
        kind: 256 * (bytes[2] as u16) + bytes[3] as u16,
    }
}

impl ResponseHeader {
    /// How many bytes follow the header.
    pub fn payload_length(&self) -> (length: usize)
        requires
            self.size >= HEADER_LENGTH,
        ensures
            length == self.size - HEADER_LENGTH,
    {
        (self.size - HEADER_LENGTH) as usize
    }
}

/// What an answer to a request for a value means.
pub enum Answer {
    /// The value asked for.
    Value(Seq<char>),
    /// There is no such value.
    NotFound,
    /// The value is not valid UTF-8: how many of its bytes come before the fault, and how long the
    /// fault is.
    InvalidText(nat, Option<usize>),
    /// The answer is of a type that does not belong here.
    UnexpectedType(u16),
}

/// How many of the first `limit` bytes are valid UTF-8: the largest number for which they are.
pub open spec fn longest_valid(bytes: Seq<u8>, limit: nat) -> nat
    decreases limit,
{
    if limit == 0 || valid_utf8(bytes.take(limit as int)) {
        limit
    } else {
        longest_valid(bytes, (limit - 1) as nat)
    }
}

/// How many bytes come before the first that does not belong to valid UTF-8: all of them where there
/// is none.
pub open spec fn valid_up_to(bytes: Seq<u8>) -> nat {
    longest_valid(bytes, bytes.len())
}

/// How long the first run of bytes is that no valid UTF-8 holds, or `None` where the bytes end in the
/// middle of a character.
pub uninterp spec fn utf8_fault_length(bytes: Seq<u8>) -> Option<usize>;

/// The meaning of an answer of the given type and payload: on success, the value behind the key.
pub open spec fn answer(kind: u16, payload: Seq<u8>) -> Answer
    recommends
        kind == API_DHT_SUCCESS ==> payload.len() >= KEY_LENGTH,
{
    if kind == API_DHT_SUCCESS {
        let value = payload.skip(KEY_LENGTH as int);
        if valid_utf8(value) {
            Answer::Value(decode_utf8(value))
        } else {
            Answer::InvalidText(valid_up_to(value), utf8_fault_length(value))
        }
    } else if kind == API_DHT_FAILURE {
        Answer::NotFound
    } else {
        Answer::UnexpectedType(kind)
    }
}

/// Calls `String::from_utf8`. It succeeds exactly on valid UTF-8 and then gives the characters that
/// the bytes encode. Otherwise its error, handed on as two numbers, says up to which index the bytes
/// are valid, which is the largest for which they are, and how long the fault behind that index is.
/// There is no length where the bytes end too early, one to three bytes behind the index; a length
/// is that of bytes which are there. It is a function of the bytes, here named `utf8_fault_length`,
/// and no more is claimed of it.
#[verifier::external_body]
fn decode(bytes: Vec<u8>) -> (result: Result<String, (usize, Option<usize>)>)
    ensures
        result is Ok <==> valid_utf8(bytes@),
        result matches Ok(text) ==> text@ == decode_utf8(bytes@),
        result matches Err((index, length)) ==> {
            &&& index <= bytes@.len()
            &&& valid_utf8(bytes@.take(index as int))
            &&& forall|i: int|
                index < i <= bytes@.len() ==> !valid_utf8(#[trigger] bytes@.take(i))
            &&& length == utf8_fault_length(bytes@)
            &&& match length {
                Some(n) => 0 < n <= bytes@.len() - index,
                None => 1 <= bytes@.len() - index <= 3,
            }
        },
{
    String::from_utf8(bytes).map_err(|e| (e.utf8_error().valid_up_to(), e.utf8_error().error_len()))
}

/// Where bytes stop being UTF-8.
#[derive(Clone, Copy, Debug, PartialEq, Eq, Structural)]
pub struct InvalidUtf8 {
    /// How many bytes come before the fault.
    pub valid_up_to: usize,
    /// How many bytes the fault takes, or `None` where the bytes end in the middle of a character.
    pub error_len: Option<usize>,
}

/// The message about bytes that are not UTF-8.
pub open spec fn fault_message(valid_up_to: nat, error_len: Option<usize>) -> Seq<char> {
    match error_len {
        Some(n) => "invalid utf-8 sequence of "@ + numeral(n as nat) + " bytes from index "@
            + numeral(valid_up_to),
        None => "incomplete utf-8 byte sequence from index "@ + numeral(valid_up_to),
    }
}

impl InvalidUtf8 {
    /// The message about the fault.
    pub fn message(&self) -> (message: String)
        ensures
            message@ == fault_message(self.valid_up_to as nat, self.error_len),
            self.error_len matches Some(n) ==> message@ == "invalid utf-8 sequence of "@ + numeral(
                n as nat,
            ) + " bytes from index "@ + numeral(self.valid_up_to as nat),
            self.error_len is None ==> message@ == "incomplete utf-8 byte sequence from index "@
                + numeral(self.valid_up_to as nat),
    {
        let index = write_numeral(self.valid_up_to as u64);
        match self.error_len {
            Some(n) => {
                let mut message = "invalid utf-8 sequence of ".to_owned();
                message.append(write_numeral(n as u64).as_str());
                message.append(" bytes from index ");
                message.append(index.as_str());
                message
            },
            None => {
                let mut message = "incomplete utf-8 byte sequence from index ".to_owned();
                message.append(index.as_str());
                message
            },
        }
    }
}

/// Why an answer gave no result.
#[derive(Debug)]
pub enum GetError {
    /// The value is not valid UTF-8.
    InvalidText(InvalidUtf8),
    /// The answer is of a type that does not belong here.
    UnexpectedType(u16),
}

/// The meaning of the outcome of reading an answer.
pub open spec fn outcome(result: Result<Option<String>, GetError>) -> Answer {
    match result {
        Ok(Some(value)) => Answer::Value(value@),
        Ok(None) => Answer::NotFound,
        Err(GetError::InvalidText(fault)) => Answer::InvalidText(
            fault.valid_up_to as nat,
            fault.error_len,
        ),
        Err(GetError::UnexpectedType(kind)) => Answer::UnexpectedType(kind),
    }
}

/// The largest number for which the first bytes are valid UTF-8 is found from every limit above it.
proof fn lemma_longest_valid(bytes: Seq<u8>, index: nat, limit: nat)
    requires
        index <= limit <= bytes.len(),
        valid_utf8(bytes.take(index as int)),
        forall|i: int| index < i <= bytes.len() ==> !valid_utf8(#[trigger] bytes.take(i)),
    ensures
        longest_valid(bytes, limit) == index,
    decreases limit,
{
    if index < limit {
        lemma_longest_valid(bytes, index, (limit - 1) as nat);
    }
}

/// Reads the answer to a request for a value.
pub fn read_answer(kind: u16, payload: &Vec<u8>) -> (result: Result<Option<String>, GetError>)
    requires
        kind == API_DHT_SUCCESS ==> payload@.len() >= KEY_LENGTH,
    ensures
        outcome(result) == answer(kind, payload@),
        kind == 652 && valid_utf8(payload@.skip(32)) <==> (result matches Ok(Some(_))),
        result matches Ok(Some(value)) ==> encode_utf8(value@) == payload@.skip(32),
        kind == 653 <==> (result matches Ok(None)),
        kind != 652 && kind != 653 <==> (result matches Err(GetError::UnexpectedType(_))),
        result matches Err(GetError::UnexpectedType(other)) ==> other == kind,
        result matches Err(GetError::InvalidText(fault)) ==> {
            let value = payload@.skip(32);
            &&& fault.valid_up_to < value.len()
            &&& valid_utf8(value.take(fault.valid_up_to as int))
            &&& forall|i: int|
                fault.valid_up_to < i <= value.len() ==> !valid_utf8(#[trigger] value.take(i))
            &&& fault.error_len == utf8_fault_length(value)
        },
{
    if kind == API_DHT_SUCCESS {
        let value = slice_to_vec(slice_subrange(payload.as_slice(), KEY_LENGTH, payload.len()));
        let ghost bytes = value@;
        assert(bytes =~= payload@.skip(KEY_LENGTH as int));
        match decode(value) {
            Ok(text) => {
                proof {
                    decode_utf8_encode_utf8(bytes);
                }
                Ok(Some(text))
            },
            Err((valid_up_to, error_len)) => {
                proof {
                    assert(bytes.take(bytes.len() as int) =~= bytes);
                    lemma_longest_valid(bytes, valid_up_to as nat, bytes.len());
                }
                Err(GetError::InvalidText(InvalidUtf8 { valid_up_to, error_len }))
            },
        }
    } else if kind == API_DHT_FAILURE {
        Ok(None)
    } else {
        Err(GetError::UnexpectedType(kind))
    }
}

/// The message about an answer of a type that does not belong here.
pub fn unexpected_type(kind: u16) -> (message: String)
    ensures
        message@ == "Unexpected response type: "@ + numeral(kind as nat),
{
    let mut message = "Unexpected response type: ".to_owned();
    message.append(write_numeral(kind as u64).as_str());
    message
}

/// The bytes of an answer of the given type and payload.
pub open spec fn response_frame(kind: u16, payload: Seq<u8>) -> Seq<u8> {
    be16((HEADER_LENGTH + payload.len()) as u16) + be16(kind) + payload
}

/// A number split into two bytes is put together again.
proof fn lemma_be16(x: u16)
    ensures
        be16(x).len() == 2,
        from_be16(be16(x)[0], be16(x)[1]) == x,
{
}

/// The frame of a request to store, byte by byte.
proof fn lemma_put_frame(key: Seq<u8>, value: Seq<u8>, ttl: u16, replication: u8)
    ensures
        frame(put_message(key, value, ttl, replication)) == be16(put_size(value.len()) as u16)
            + be16(API_DHT_PUT) + be16(ttl) + seq![replication, 0u8] + key + value,
{
    let message = put_message(key, value, ttl, replication);
    let bytes = message.map_values(|s: (Field, Seq<u8>)| s.1);
    reveal_with_fuel(Seq::<_>::flatten, 8);
    assert(bytes =~= seq![
        be16(put_size(value.len()) as u16),
        be16(API_DHT_PUT),
        be16(ttl),
        seq![replication],
        seq![0u8],
        key,
        value,
    ]);
    assert(frame(message) =~= be16(put_size(value.len()) as u16) + be16(API_DHT_PUT) + be16(ttl)
        + seq![replication, 0u8] + key + value);
}

/// A receiver finds every part of a request to store at its fixed place, and the request announces
/// its own length.
pub proof fn law_put_frame_layout(key: Seq<u8>, value: Seq<u8>, ttl: u16, replication: u8)
    requires
        key.len() == KEY_LENGTH,
        put_size(value.len()) <= u16::MAX,
    ensures
        ({
            let f = frame(put_message(key, value, ttl, replication));
            &&& f.len() == 40 + value.len()
            &&& from_be16(f[0], f[1]) == f.len()
            &&& from_be16(f[2], f[3]) == API_DHT_PUT
            &&& from_be16(f[4], f[5]) == ttl
            &&& f[6] == replication
            &&& f[7] == 0
            &&& f.subrange(8, 40) == key
            &&& f.skip(40) == value
        }),
{
    let f = frame(put_message(key, value, ttl, replication));
    lemma_put_frame(key, value, ttl, replication);
    lemma_be16(put_size(value.len()) as u16);
    lemma_be16(API_DHT_PUT);
    lemma_be16(ttl);
    assert(f.subrange(8, 40) =~= key);
    assert(f.skip(40) =~= value);
}

/// A receiver finds the type and the key of a request for a value at their fixed places, behind the
/// announced size. The request takes thirty-six bytes.
pub proof fn law_get_frame_layout(size: u16, key: Seq<u8>)
    requires
        key.len() == KEY_LENGTH,
    ensures
        ({
            let f = frame(get_message(size, key));
            &&& f.len() == 36
            &&& from_be16(f[0], f[1]) == size
            &&& from_be16(f[2], f[3]) == API_DHT_GET
            &&& f.skip(4) == key
        }),
{
    let message = get_message(size, key);
    let bytes = message.map_values(|s: (Field, Seq<u8>)| s.1);
    reveal_with_fuel(Seq::<_>::flatten, 4);
    assert(bytes =~= seq![be16(size), be16(API_DHT_GET), key]);
    assert(frame(message) =~= be16(size) + be16(API_DHT_GET) + key);
    lemma_be16(size);
    lemma_be16(API_DHT_GET);
    assert(frame(message).skip(4) =~= key);
}

/// A request to shut down is a bare header, and announces the length that it has.
pub proof fn law_shutdown_frame_layout()
    ensures
        ({
            let f = frame(shutdown_message());
            &&& f.len() == HEADER_LENGTH
            &&& from_be16(f[0], f[1]) == f.len()
            &&& from_be16(f[2], f[3]) == API_DHT_SHUTDOWN
        }),
{
    let message = shutdown_message();
    let bytes = message.map_values(|s: (Field, Seq<u8>)| s.1);
    reveal_with_fuel(Seq::<_>::flatten, 3);
    assert(bytes =~= seq![be16(HEADER_LENGTH), be16(API_DHT_SHUTDOWN)]);
    assert(frame(message) =~= be16(HEADER_LENGTH) + be16(API_DHT_SHUTDOWN));
    lemma_be16(HEADER_LENGTH);
    lemma_be16(API_DHT_SHUTDOWN);
}

/// An answer announces its own length and type, and what is read behind the header is the payload.
pub proof fn law_response_header_reads_back(kind: u16, payload: Seq<u8>)
    requires
        HEADER_LENGTH + payload.len() <= u16::MAX,
    ensures
        ({
            let f = response_frame(kind, payload);
            &&& from_be16(f[0], f[1]) == f.len()
            &&& from_be16(f[2], f[3]) == kind
            &&& f.len() - HEADER_LENGTH == payload.len()
            &&& f.skip(HEADER_LENGTH as int) == payload
        }),
{
    let f = response_frame(kind, payload);
    lemma_be16((HEADER_LENGTH + payload.len()) as u16);
    lemma_be16(kind);
    assert(f.skip(HEADER_LENGTH as int) =~= payload);
}

/// The bytes of an answer that carries a value are read as that value: the header says how many
/// bytes follow and of which type they are, and these mean the value.
pub proof fn law_answer_with_a_value_is_read(key: Seq<u8>, value: Seq<char>)
    requires
        key.len() == KEY_LENGTH,
        HEADER_LENGTH + key.len() + encode_utf8(value).len() <= u16::MAX,
    ensures
        ({
            let f = response_frame(API_DHT_SUCCESS, key + encode_utf8(value));
            answer(
                from_be16(f[2], f[3]) as u16,
                f.subrange(HEADER_LENGTH as int, from_be16(f[0], f[1])),
            ) == Answer::Value(value)
        }),
{
    let payload = key + encode_utf8(value);
    let f = response_frame(API_DHT_SUCCESS, payload);
    law_response_header_reads_back(API_DHT_SUCCESS, payload);
    assert(f.subrange(HEADER_LENGTH as int, from_be16(f[0], f[1])) =~= payload);
    assert(payload.skip(KEY_LENGTH as int) =~= encode_utf8(value));
    encode_utf8_valid_utf8(value);
    encode_utf8_decode_utf8(value);
}

/// The bytes up to the fault are valid UTF-8, and no more of the first bytes are. There is a fault
/// exactly where the bytes are not valid as a whole.
pub proof fn law_fault_is_the_first(bytes: Seq<u8>)
    ensures
        valid_up_to(bytes) <= bytes.len(),
        valid_utf8(bytes.take(valid_up_to(bytes) as int)),
        forall|i: int|
            valid_up_to(bytes) < i <= bytes.len() ==> !valid_utf8(#[trigger] bytes.take(i)),
        valid_up_to(bytes) == bytes.len() <==> valid_utf8(bytes),
{
    lemma_longest_valid_is_largest(bytes, bytes.len());
    assert(bytes.take(bytes.len() as int) =~= bytes);
}

/// No number up to the limit is larger for which the first bytes are valid UTF-8.
proof fn lemma_longest_valid_is_largest(bytes: Seq<u8>, limit: nat)
    requires
        limit <= bytes.len(),
    ensures
        longest_valid(bytes, limit) <= limit,
        valid_utf8(bytes.take(longest_valid(bytes, limit) as int)),
        forall|i: int|
            longest_valid(bytes, limit) < i <= limit ==> !valid_utf8(#[trigger] bytes.take(i)),
    decreases limit,
{
    if limit > 0 && !valid_utf8(bytes.take(limit as int)) {
        lemma_longest_valid_is_largest(bytes, (limit - 1) as nat);
    }
}

/// A request for a value gives back what a request to store sent: where a node answers with the key
/// and the value as it received them, the text that was stored is read.
pub proof fn law_get_returns_what_put_sent(
    key: Seq<u8>,
    value: Seq<char>,
    ttl: u16,
    replication: u8,
)
    requires
        key.len() == KEY_LENGTH,
    ensures
        answer(
            API_DHT_SUCCESS,
            frame(put_message(key, encode_utf8(value), ttl, replication)).skip(8),
        ) == Answer::Value(value),
{
    let bytes = encode_utf8(value);
    let stored = frame(put_message(key, bytes, ttl, replication)).skip(8);
    lemma_put_frame(key, bytes, ttl, replication);
    assert(stored.skip(KEY_LENGTH as int) =~= bytes);
    encode_utf8_valid_utf8(value);
    encode_utf8_decode_utf8(value);
}

/// A request is sent segment by segment: it has as many as were built, with their bytes, and a
/// receiver sees the bytes of the first and behind them those of the others.
pub proof fn law_segments_are_sent_in_order(request: Seq<Segment>, more: Seq<(Field, Seq<u8>)>)
    ensures
        segments(request).len() == request.len(),
        forall|i: int|
            0 <= i < request.len() ==> (#[trigger] segments(request)[i]).1 == request[i].bytes@
                && segments(request)[i].0 == request[i].field,
        more.len() == 0 ==> frame(more).len() == 0,
        more.len() > 0 ==> frame(more) == more[0].1 + frame(more.drop_first()),
{
    if more.len() > 0 {
        let bytes = more.map_values(|s: (Field, Seq<u8>)| s.1);
        assert(bytes.drop_first() =~= more.drop_first().map_values(
            |s: (Field, Seq<u8>)| s.1,
        ));
    }
}

/// Numbers of sixteen bits go over the wire with the high byte first, both ways.
pub proof fn law_high_byte_comes_first(x: u16, high: u8, low: u8)
    ensures
        be16(x).len() == 2,
        256 * be16(x)[0] + be16(x)[1] == x,
        from_be16(high, low) == 256 * high + low,
{
}

/// What a node that keeps to the protocol answers is understood: a value behind a key of thirty-two
/// bytes, also an empty one; that there is none, whatever follows; and any other type as itself.
pub proof fn law_answers_are_understood(kind: u16, key: Seq<u8>, value: Seq<char>, rest: Seq<u8>)
    requires
        key.len() == 32,
    ensures
        answer(652, key + encode_utf8(value)) == Answer::Value(value),
        answer(653, rest) == Answer::NotFound,
        kind != 652 && kind != 653 ==> answer(kind, rest) == Answer::UnexpectedType(kind),
        !valid_utf8(rest) ==> answer(652, key + rest) == Answer::InvalidText(
            valid_up_to(rest),
            utf8_fault_length(rest),
        ),
{
    let bytes = encode_utf8(value);
    assert((key + bytes).skip(32) =~= bytes);
    assert((key + rest).skip(32) =~= rest);
    encode_utf8_valid_utf8(value);
    encode_utf8_decode_utf8(value);
}

/// The outcome of reading an answer is taken as it is.
pub proof fn law_outcomes_mean_what_they_hold(result: Result<Option<String>, GetError>)
    ensures
        match result {
            Ok(Some(value)) => outcome(result) == Answer::Value(value@),
            Ok(None) => outcome(result) == Answer::NotFound,
            Err(GetError::InvalidText(fault)) => outcome(result) == Answer::InvalidText(
                fault.valid_up_to as nat,
                fault.error_len,
            ),
            Err(GetError::UnexpectedType(kind)) => outcome(result) == Answer::UnexpectedType(kind),
        },
{
}

/// A request to store, as a node sees it, from the first byte to the last: for every lifetime and
/// every number of copies, and for every value that the header can announce.
pub proof fn law_put_bytes(key: Seq<u8>, value: Seq<u8>, ttl: u16, replication: u8)
    requires
        key.len() == 32,
        40 + value.len() <= 65535,
    ensures
        ({
            let f = frame(put_message(key, value, ttl, replication));
            &&& f.len() == 40 + value.len()
            &&& 256 * f[0] + f[1] == f.len()
            &&& 256 * f[2] + f[3] == 650
            &&& 256 * f[4] + f[5] == ttl
            &&& f[6] == replication
            &&& f[7] == 0
            &&& f.subrange(8, 40) == key
            &&& f.skip(40) == value
        }),
{
    law_put_frame_layout(key, value, ttl, replication);
}

/// A request for a value, as a node sees it, from the first byte to the last, and a request to shut
/// down.
pub proof fn law_get_and_shutdown_bytes(size: u16, key: Seq<u8>)
    requires
        key.len() == 32,
    ensures
        ({
            let f = frame(get_message(size, key));
            &&& f.len() == 36
            &&& 256 * f[0] + f[1] == size
            &&& 256 * f[2] + f[3] == 651
            &&& f.skip(4) == key
        }),
        ({
            let f = frame(shutdown_message());
            &&& f.len() == 4
            &&& 256 * f[0] + f[1] == 4
            &&& 256 * f[2] + f[3] == 654
        }),
{
    law_get_frame_layout(size, key);
    law_shutdown_frame_layout();
}

} // verus!
