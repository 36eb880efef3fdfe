use dht_tools::client::{parse_target, DHTClient, TargetError};
use dht_tools::command::{parse_command, read_command, Command};
use dht_tools::wire::Segment;

fn list(words: &[&str]) -> Vec<String> {
    words.iter().map(|w| w.to_string()).collect()
}

fn bytes_of(request: &Vec<Segment>) -> Vec<u8> {
    let mut bytes = Vec::new();
    for segment in request {
        bytes.extend_from_slice(&segment.bytes);
    }
    bytes
}

#[test]
fn client_keeps_host_and_port() {
    let client = DHTClient::new("example.org", 7401);
    assert_eq!(client.host, "example.org");
    assert_eq!(client.port, 7401);
    assert_eq!(client.address(), "example.org:7401");
}

#[test]
fn client_requests() {
    let client = DHTClient::new("127.0.0.1", 1);
    let hash = DHTClient::hash_key_bytes("hello");
    assert_eq!(hash[..4], [0x2c, 0xf2, 0x4d, 0xba]);
    let put = bytes_of(&client.put_value_request("hello", "w\u{f6}", 60, 1));
    assert_eq!(put[..8], [0, 43, 2, 138, 0, 60, 1, 0]);
    assert_eq!(put[8..40], hash);
    assert_eq!(&put[40..], "w\u{f6}".as_bytes());
    let get = bytes_of(&client.get_value_request("hello"));
    assert_eq!(get[..4], [0, 36, 2, 139]);
    assert_eq!(get[4..], hash);
    assert_eq!(bytes_of(&client.shutdown_request()), vec![0, 4, 2, 142]);
}

#[test]
fn target_defaults() {
    assert_eq!(parse_target(&list(&["dht_cli"])).unwrap(), ("127.0.0.1".to_string(), 7401));
    assert_eq!(parse_target(&list(&["dht_cli", "node"])).unwrap(), ("node".to_string(), 7401));
    assert_eq!(parse_target(&list(&["dht_cli", ""])).unwrap(), ("".to_string(), 7401));
}

#[test]
fn target_with_a_port() {
    assert_eq!(parse_target(&list(&["p", "node:80"])).unwrap(), ("node".to_string(), 80));
    assert_eq!(parse_target(&list(&["p", "node", "80"])).unwrap(), ("node".to_string(), 80));
    assert_eq!(parse_target(&list(&["p", ":65535"])).unwrap(), ("".to_string(), 65535));
    assert_eq!(parse_target(&list(&["p", "n\u{f6}de:+8"])).unwrap(), ("n\u{f6}de".to_string(), 8));
    assert_eq!(parse_target(&list(&["p", "a:b", "80"])).unwrap(), ("a:b".to_string(), 80));
}

#[test]
fn target_with_a_bad_port() {
    for (args, text) in [
        (list(&["p", "node:"]), ""),
        (list(&["p", "::1"]), ":1"),
        (list(&["p", "node:65536"]), "65536"),
        (list(&["p", "node", "http"]), "http"),
    ] {
        match parse_target(&args) {
            Err(TargetError::InvalidPort(port)) => assert_eq!(port, text),
            other => panic!("{:?}", other),
        }
    }
}

#[test]
fn target_usage() {
    assert!(matches!(parse_target(&list(&["p", "a", "1", "x"])), Err(TargetError::Usage)));
    assert!(matches!(parse_target(&Vec::new()), Err(TargetError::Usage)));
}

#[test]
fn address_is_an_argument() {
    let client = DHTClient::new("node", 4711);
    assert_eq!(
        parse_target(&list(&["p", &client.address()])).unwrap(),
        ("node".to_string(), 4711)
    );
}

#[test]
fn command_words() {
    assert_eq!(parse_command("  PUT  hello\tworld \n"), vec!["PUT", "hello", "world"]);
    assert!(parse_command(" \n").is_empty());
}

fn put(line: &str) -> (String, String, u16, u8) {
    match read_command(line) {
        Command::Put { key, value, ttl, replication } => (key, value, ttl, replication),
        other => panic!("{:?}", other),
    }
}

#[test]
fn examples_of_the_help() {
    let hello = "hello".to_string();
    let world = "world".to_string();
    assert_eq!(put("PUT hello world\n"), (hello.clone(), world.clone(), 60, 1));
    assert_eq!(put("PUT hello world 120\n"), (hello.clone(), world.clone(), 120, 1));
    assert_eq!(put("PUT hello world 120 3\n"), (hello.clone(), world.clone(), 120, 3));
    match read_command("GET hello\n") {
        Command::Get { key } => assert_eq!(key, hello),
        other => panic!("{:?}", other),
    }
}

#[test]
fn left_out_words_are_defaults() {
    assert_eq!(put("put k v"), put("put k v 60"));
    assert_eq!(put("put k v 9"), put("put k v 9 1"));
}

#[test]
fn case_is_ignored() {
    assert!(matches!(read_command("quit"), Command::Quit));
    assert!(matches!(read_command("QuIt"), Command::Quit));
    assert!(matches!(read_command("eXiT"), Command::Quit));
    assert!(matches!(read_command("help"), Command::Help));
    assert!(matches!(read_command("shutDown"), Command::Shutdown));
    assert!(matches!(read_command("qu\u{131}t"), Command::Quit));
    assert!(matches!(read_command("\u{17f}hutdown"), Command::Shutdown));
    assert!(matches!(read_command("quit now"), Command::Quit));
}

#[test]
fn commands_that_are_not_complete() {
    assert!(matches!(read_command("   "), Command::Empty));
    assert!(matches!(read_command("GET"), Command::GetUsage));
    assert!(matches!(read_command("GET a b"), Command::GetUsage));
    assert!(matches!(read_command("PUT"), Command::PutUsage));
    assert!(matches!(read_command("PUT a"), Command::PutUsage));
    assert!(matches!(read_command("PUT a b 1 2 3"), Command::PutUsage));
    assert!(matches!(read_command("PUT a b x"), Command::InvalidTtl));
    assert!(matches!(read_command("PUT a b 65536"), Command::InvalidTtl));
    assert!(matches!(read_command("PUT a b x 0"), Command::InvalidTtl));
    assert!(matches!(read_command("PUT a b 1 0"), Command::InvalidReplication));
    assert!(matches!(read_command("PUT a b 1 256"), Command::InvalidReplication));
    assert!(matches!(read_command("PUT a b 1 x"), Command::InvalidReplication));
    assert_eq!(put("PUT a b 0 255"), ("a".to_string(), "b".to_string(), 0, 255));
}

#[test]
fn remarks() {
    assert_eq!(read_command("quit").remark().unwrap(), "Goodbye!");
    assert_eq!(read_command("get").remark().unwrap(), "Usage: GET <key>");
    assert_eq!(
        read_command("put").remark().unwrap(),
        "Usage: PUT <key> <value> [ttl] [replication]"
    );
    assert_eq!(read_command("put a b c").remark().unwrap(), "Error: TTL must be a number");
    assert_eq!(
        read_command("put a b 1 0").remark().unwrap(),
        "Error: Replication must be a positive number (1-255)"
    );
    assert_eq!(
        read_command("Frob x").remark().unwrap(),
        "Unknown command: 'Frob'. Type 'HELP' for available commands."
    );
    for line in ["", "help", "get a", "put a b", "shutdown"] {
        assert!(read_command(line).remark().is_none());
    }
}

#[test]
fn end_of_the_session() {
    assert!(!read_command("quit").continues(false));
    assert!(!read_command("exit").continues(true));
    assert!(!read_command("shutdown").continues(false));
    assert!(read_command("shutdown").continues(true));
    assert!(read_command("get a").continues(true));
    assert!(read_command("nonsense").continues(false));
    assert!(read_command("").continues(false));
}
