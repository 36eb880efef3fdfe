use dht_tools::decimal::{parse_numeral, write_numeral, write_padded_numeral};
use dht_tools::text::{characters, same_text, split_words, white_space};

#[test]
fn white_space_is_that_of_unicode() {
    let mut code: u32 = 0;
    while code <= 0x10_ffff {
        if let Some(c) = char::from_u32(code) {
            assert_eq!(white_space(c), c.is_whitespace(), "{:x}", code);
        }
        code += 1;
    }
}

#[test]
fn words_are_those_of_the_standard_library() {
    let lines = [
        "",
        "   ",
        "GET hello",
        "  PUT  hello\tworld \r\n",
        "\u{3000}a\u{a0}b\u{2028}c\u{85}",
        "\u{200b}not\u{200b}blank",
        "\u{e9}t\u{e9} \u{1f600}",
    ];
    for line in lines {
        let expected: Vec<String> =
            line.trim().split_whitespace().map(|s| s.to_string()).collect();
        assert_eq!(split_words(line), expected);
    }
}

#[test]
fn surrounding_white_space_is_ignored() {
    assert_eq!(split_words(" \t GET a \n"), split_words("GET a"));
    assert_eq!(split_words("x y"), vec!["x", "y"]);
    assert_eq!(split_words("word"), vec!["word"]);
    assert_eq!(split_words(" a  b ").concat(), "ab");
}

#[test]
fn texts_are_compared_by_characters() {
    assert!(same_text("", ""));
    assert!(same_text("--help", "--help"));
    assert!(!same_text("--help", "--hel"));
    assert!(!same_text("--help", "--helP"));
    assert!(!same_text("\u{e9}", "e\u{301}"));
    assert_eq!(characters("a\u{e9}\u{1f600}"), vec!['a', '\u{e9}', '\u{1f600}']);
}

#[test]
fn numerals_are_written_as_by_the_standard_library() {
    for n in [0u64, 1, 9, 10, 99, 100, 7401, 65535, u64::MAX] {
        assert_eq!(write_numeral(n), n.to_string());
        for width in [0usize, 1, 3, 6, 25] {
            assert_eq!(write_padded_numeral(n, width), format!("{:0width$}", n, width = width));
        }
    }
    assert_eq!(write_padded_numeral(42, 6), "000042");
    assert_eq!(write_padded_numeral(1234567, 6), "1234567");
}

#[test]
fn numerals_are_read_as_by_the_standard_library() {
    let inputs = [
        "", "+", "-", "0", "-0", "+0", "++1", "+-1", "7", "007", "+60", " 1", "1 ", "1_0", "0x1",
        "255", "256", "65535", "65536", "+65535", "000000000000000000000065535", "99999x",
        "18446744073709551615", "18446744073709551616", "99999999999999999999999", "\u{661}", "1.5",
    ];
    for input in inputs {
        assert_eq!(parse_numeral(input, u8::MAX as u64), input.parse::<u8>().ok().map(u64::from));
        assert_eq!(parse_numeral(input, u16::MAX as u64), input.parse::<u16>().ok().map(u64::from));
        assert_eq!(parse_numeral(input, u64::MAX), input.parse::<u64>().ok());
    }
    assert_eq!(parse_numeral("+120", 65535), Some(120));
    assert_eq!(parse_numeral("5", 3), None);
    assert_eq!(parse_numeral("3", 3), Some(3));
}

#[test]
fn written_numerals_read_back() {
    for n in [0u64, 5, 10, 4711, u64::MAX] {
        assert_eq!(parse_numeral(&write_padded_numeral(n, 30), u64::MAX), Some(n));
        assert_eq!(parse_numeral(&write_numeral(n), u64::MAX), Some(n));
    }
    assert_ne!(write_padded_numeral(1, 4), write_padded_numeral(10, 4));
    assert_eq!(write_numeral(9999).len(), 4);
    assert_eq!(write_numeral(10000).len(), 5);
}

#[test]
fn joined_words_are_split_again() {
    let words = vec!["PUT", "hello", "w\u{f6}rld", "120"];
    assert_eq!(split_words(&words.join(" ")), words);
}
