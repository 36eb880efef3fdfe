use dht_tools::digest::hash_key_bytes;
use dht_tools::wire::{
    announced_put_size, connection_failure, get_request, put_request, read_answer, read_header,
    shutdown_request, unexpected_type, Field, GetError, InvalidUtf8, Segment, API_DHT_FAILURE, API_DHT_GET,
    API_DHT_PUT, API_DHT_SHUTDOWN, API_DHT_SUCCESS,
};

fn bytes_of(request: &Vec<Segment>) -> Vec<u8> {
    let mut bytes = Vec::new();
    for segment in request {
        bytes.extend_from_slice(&segment.bytes);
    }
    bytes
}

#[test]
fn message_types() {
    assert_eq!(API_DHT_PUT, 650);
    assert_eq!(API_DHT_GET, 651);
    assert_eq!(API_DHT_SUCCESS, 652);
    assert_eq!(API_DHT_FAILURE, 653);
    assert_eq!(API_DHT_SHUTDOWN, 654);
}

#[test]
fn keys_are_hashed_with_sha256() {
    let abc = hash_key_bytes("abc");
    let expected: [u8; 32] = [
        0xba, 0x78, 0x16, 0xbf, 0x8f, 0x01, 0xcf, 0xea, 0x41, 0x41, 0x40, 0xde, 0x5d, 0xae, 0x22,
        0x23, 0xb0, 0x03, 0x61, 0xa3, 0x96, 0x17, 0x7a, 0x9c, 0xb4, 0x10, 0xff, 0x61, 0xf2, 0x00,
        0x15, 0xad,
    ];
    assert_eq!(abc, expected);
    assert_eq!(hash_key_bytes("")[..4], [0xe3, 0xb0, 0xc4, 0x42]);
}

#[test]
fn put_frame() {
    let key = [7u8; 32];
    let request = put_request(&key, b"world", 0x0102, 3);
    let mut expected = vec![0, 45, 0x02, 0x8a, 1, 2, 3, 0];
    expected.extend_from_slice(&key);
    expected.extend_from_slice(b"world");
    assert_eq!(bytes_of(&request), expected);
    let fields: Vec<Field> = request.iter().map(|s| s.field).collect();
    assert_eq!(
        fields,
        vec![
            Field::TotalSize,
            Field::PutType,
            Field::Ttl,
            Field::Replication,
            Field::Reserved,
            Field::Key,
            Field::Value
        ]
    );
}

#[test]
fn put_size_is_the_size_of_the_message() {
    assert_eq!(announced_put_size(0), Some(40));
    assert_eq!(announced_put_size(5), Some(45));
    assert_eq!(announced_put_size(65495), Some(65535));
    for len in [65496, 65535, 65536, 65537, usize::MAX] {
        assert_eq!(announced_put_size(len), None);
    }
    for len in [0usize, 1, 255, 256, 65495] {
        let frame = bytes_of(&put_request(&[0u8; 32], &vec![1u8; len], 60, 1));
        assert_eq!(frame.len(), 40 + len);
        assert_eq!(u16::from_be_bytes([frame[0], frame[1]]) as usize, frame.len());
    }
}

#[test]
fn get_frame() {
    let key = [9u8; 32];
    let frame = bytes_of(&get_request(36, &key));
    assert_eq!(frame.len(), 36);
    assert_eq!(frame[..4], [0, 36, 0x02, 0x8b]);
    assert_eq!(frame[4..], key);
}

#[test]
fn shutdown_frame() {
    assert_eq!(bytes_of(&shutdown_request()), vec![0, 4, 0x02, 0x8e]);
}

#[test]
fn header_of_an_answer() {
    let header = read_header(&[0x01, 0x00, 0x02, 0x8c]);
    assert_eq!(header.size, 256);
    assert_eq!(header.kind, API_DHT_SUCCESS);
    assert_eq!(header.payload_length(), 252);
    assert_eq!(read_header(&[0, 4, 2, 141]).payload_length(), 0);
    assert_eq!(read_header(&[255, 255, 255, 254]).size, 65535);
    assert_eq!(read_header(&[255, 255, 255, 254]).kind, 65534);
}

#[test]
fn answer_with_a_value() {
    let mut payload = vec![0xffu8; 32];
    payload.extend_from_slice("h\u{e9}llo \u{1f600}".as_bytes());
    assert_eq!(
        read_answer(API_DHT_SUCCESS, &payload).unwrap(),
        Some("h\u{e9}llo \u{1f600}".to_string())
    );
    assert_eq!(read_answer(API_DHT_SUCCESS, &vec![1u8; 32]).unwrap(), Some(String::new()));
}

#[test]
fn answer_without_a_value() {
    assert_eq!(read_answer(API_DHT_FAILURE, &vec![0u8; 32]).unwrap(), None);
    assert_eq!(read_answer(API_DHT_FAILURE, &Vec::new()).unwrap(), None);
}

fn fault_of(value: &[u8]) -> InvalidUtf8 {
    let mut payload = vec![0u8; 32];
    payload.extend_from_slice(value);
    match read_answer(API_DHT_SUCCESS, &payload) {
        Err(GetError::InvalidText(fault)) => fault,
        other => panic!("{:?}", other),
    }
}

#[test]
fn answer_that_is_not_text() {
    let fault = fault_of(&[b'a', 0xff]);
    assert_eq!(fault, InvalidUtf8 { valid_up_to: 1, error_len: Some(1) });
    assert_eq!(fault.message(), "invalid utf-8 sequence of 1 bytes from index 1");
    let cut = fault_of(&[b'a', b'b', 0xe2, 0x82]);
    assert_eq!(cut, InvalidUtf8 { valid_up_to: 2, error_len: None });
    assert_eq!(cut.message(), "incomplete utf-8 byte sequence from index 2");
    let mut payload = vec![0xffu8; 32];
    payload.extend_from_slice(&[b'a', b'b', b'c', 0xe2, 0x82, b'd']);
    match read_answer(API_DHT_SUCCESS, &payload) {
        Err(GetError::InvalidText(fault)) => {
            assert_eq!(fault, InvalidUtf8 { valid_up_to: 3, error_len: Some(2) });
        }
        other => panic!("{:?}", other),
    }
}

#[test]
fn faults_are_described_as_std_describes_them() {
    let leads: [u8; 9] = [0x80, 0xc0, 0xc3, 0xe0, 0xe2, 0xed, 0xf0, 0xf4, 0xf8];
    let follows: [u8; 6] = [b'x', 0x80, 0x90, 0xa0, 0xbf, 0xff];
    for lead in leads {
        for first in follows {
            for second in follows {
                for len in 1..=3usize {
                    let tail = [lead, first, second];
                    let mut value = "gr\u{fc}n".as_bytes().to_vec();
                    value.extend_from_slice(&tail[..len]);
                    if let Err(error) = String::from_utf8(value.clone()) {
                        let fault = fault_of(&value);
                        assert_eq!(fault.valid_up_to, error.utf8_error().valid_up_to());
                        assert_eq!(fault.error_len, error.utf8_error().error_len());
                        assert_eq!(fault.message(), error.to_string());
                        let valid = (0..=value.len())
                            .filter(|&n| String::from_utf8(value[..n].to_vec()).is_ok())
                            .max();
                        assert_eq!(valid, Some(fault.valid_up_to));
                        match fault.error_len {
                            Some(n) => assert!(n > 0 && fault.valid_up_to + n <= value.len()),
                            None => assert!((1..=3).contains(&(value.len() - fault.valid_up_to))),
                        }
                    }
                }
            }
        }
    }
}

#[test]
fn answer_of_another_type() {
    match read_answer(650, &Vec::new()) {
        Err(GetError::UnexpectedType(kind)) => {
            assert_eq!(kind, 650);
            assert_eq!(unexpected_type(kind), "Unexpected response type: 650");
        }
        other => panic!("{:?}", other),
    }
}

#[test]
fn get_gives_back_what_put_sent() {
    let value = "gr\u{fc}n";
    let frame = bytes_of(&put_request(&hash_key_bytes("k"), value.as_bytes(), 60, 1));
    let stored: Vec<u8> = frame[8..].to_vec();
    assert_eq!(read_answer(API_DHT_SUCCESS, &stored).unwrap(), Some(value.to_string()));
}

#[test]
fn messages_about_failures() {
    let messages: Vec<String> = put_request(&[0u8; 32], b"v", 1, 1)
        .iter()
        .map(|s| s.write_failure("broken pipe"))
        .collect();
    assert_eq!(
        messages,
        vec![
            "Write total_size failed: broken pipe",
            "Write API_DHT_PUT failed: broken pipe",
            "Write TTL failed: broken pipe",
            "Write replication failed: broken pipe",
            "Write reserved failed: broken pipe",
            "Write key failed: broken pipe",
            "Write value failed: broken pipe",
        ]
    );
    assert_eq!(
        get_request(38, &[0u8; 32])[1].write_failure("x"),
        "Write API_DHT_GET failed: x"
    );
    assert_eq!(connection_failure("refused"), "Connection failed: refused");
}

#[test]
fn bytes_of_an_answer_are_read() {
    let mut frame = vec![0u8, 41, 2, 140];
    frame.extend_from_slice(&[5u8; 32]);
    frame.extend_from_slice(b"world");
    let header = read_header(&[frame[0], frame[1], frame[2], frame[3]]);
    assert_eq!(header.payload_length(), frame.len() - 4);
    let payload: Vec<u8> = frame[4..].to_vec();
    assert_eq!(read_answer(header.kind, &payload).unwrap(), Some("world".to_string()));
}
