use sota_save::decimal::{decimal_text, parse_digits, parse_i64};
use sota_save::locator::{collection_tag, find, locate, record_end, record_tag, replace_range};

#[test]
fn tags_are_written_as_the_format_has_them() {
    assert_eq!(collection_tag("User"), b"<collection name=\"User\">".to_vec());
    assert_eq!(collection_tag(""), b"<collection name=\"\">".to_vec());
    assert_eq!(record_tag("abc"), b"<record Id=\"abc\">".to_vec());
    assert_eq!(record_tag("ü"), "<record Id=\"ü\">".as_bytes().to_vec());
    assert_eq!(record_end(), b"</record>");
}

#[test]
fn find_gives_the_first_occurrence() {
    assert_eq!(find(b"abcabc", b"bc"), Some(1));
    assert_eq!(find(b"abcabc", b"abcabc"), Some(0));
    assert_eq!(find(b"abcabc", b"c"), Some(2));
    assert_eq!(find(b"abcabc", b"cb"), None);
    assert_eq!(find(b"abcabc", b"abcabca"), None);
    assert_eq!(find(b"aab", b"ab"), Some(1));
    assert_eq!(find(b"abc", b""), Some(0));
    assert_eq!(find(b"", b""), Some(0));
    assert_eq!(find(b"", b"a"), None);
    assert_eq!(find(b"ABC", b"abc"), None);
}

#[test]
fn locate_finds_the_payload_between_the_tags() {
    let text = b"<collection name=\"A\"><record Id=\"1\">one</record><record Id=\"2\">two</record></collection><collection name=\"B\"><record Id=\"1\">three</record>";
    let (s, e) = locate(text, "A", "1").unwrap();
    assert_eq!(&text[s..e], b"one");
    let (s, e) = locate(text, "A", "2").unwrap();
    assert_eq!(&text[s..e], b"two");
    let (s, e) = locate(text, "B", "1").unwrap();
    assert_eq!(&text[s..e], b"three");
    // A record is sought behind the collection's tag, wherever the collection ends.
    let (s, e) = locate(text, "A", "1").unwrap();
    assert_eq!((s, e), (36, 39));
    assert_eq!(locate(text, "B", "2"), None);
    assert_eq!(locate(text, "C", "1"), None);
    assert_eq!(locate(text, "a", "1"), None);
    assert_eq!(locate(b"<collection name=\"A\"><record Id=\"1\">one", "A", "1"), None);
    let empty = b"<collection name=\"A\"><record Id=\"1\"></record>";
    let (s, e) = locate(empty, "A", "1").unwrap();
    assert_eq!(s, e);
}

#[test]
fn replace_range_keeps_what_is_outside() {
    assert_eq!(replace_range(b"hello world", 6, 11, b"there"), b"hello there".to_vec());
    assert_eq!(replace_range(b"hello world", 0, 5, b""), b" world".to_vec());
    assert_eq!(replace_range(b"hello", 2, 2, b"--"), b"he--llo".to_vec());
    assert_eq!(replace_range(b"", 0, 0, b"x"), b"x".to_vec());
    assert_eq!(replace_range(b"abc", 0, 3, b"xyz!"), b"xyz!".to_vec());
}

#[test]
fn numbers_are_written_in_decimal() {
    assert_eq!(decimal_text(0), "0");
    assert_eq!(decimal_text(7), "7");
    assert_eq!(decimal_text(10), "10");
    assert_eq!(decimal_text(1234567890), "1234567890");
    assert_eq!(decimal_text(u64::MAX), "18446744073709551615");
    for n in [9u64, 99, 100, 101, 4096, 1_000_000_007] {
        assert_eq!(decimal_text(n), n.to_string());
        assert_eq!(parse_i64(&decimal_text(n)), Some(n as i64));
    }
}

#[test]
fn decimal_text_is_read_as_an_integer() {
    assert_eq!(parse_i64("0"), Some(0));
    assert_eq!(parse_i64("-0"), Some(0));
    assert_eq!(parse_i64("+0"), Some(0));
    assert_eq!(parse_i64("007"), Some(7));
    assert_eq!(parse_i64("-42"), Some(-42));
    assert_eq!(parse_i64("9223372036854775807"), Some(i64::MAX));
    assert_eq!(parse_i64("9223372036854775808"), None);
    assert_eq!(parse_i64("-9223372036854775808"), Some(i64::MIN));
    assert_eq!(parse_i64("-9223372036854775809"), None);
    assert_eq!(parse_i64("00000000000000000000000000000000000000012"), Some(12));
    assert_eq!(parse_i64("99999999999999999999999999"), None);
    assert_eq!(parse_i64(""), None);
    assert_eq!(parse_i64("-"), None);
    assert_eq!(parse_i64("+"), None);
    assert_eq!(parse_i64("--1"), None);
    assert_eq!(parse_i64("1-"), None);
    assert_eq!(parse_i64("1 "), None);
    assert_eq!(parse_i64("1_000"), None);
    assert_eq!(parse_i64("١٢"), None);
    for text in ["12", "-12", "+12", "abc", "", "-", "1e3", "0x10", " 1", "9223372036854775808"] {
        assert_eq!(parse_i64(text), text.parse::<i64>().ok());
    }
}

#[test]
fn digits_alone_are_read_as_a_number() {
    assert_eq!(parse_digits("0"), Some(0));
    assert_eq!(parse_digits("007"), Some(7));
    assert_eq!(parse_digits("9223372036854775807"), Some(i64::MAX));
    assert_eq!(parse_digits("9223372036854775808"), None);
    assert_eq!(parse_digits("18446744073709551616"), None);
    assert_eq!(parse_digits(""), None);
    assert_eq!(parse_digits("+5"), None);
    assert_eq!(parse_digits("-5"), None);
    assert_eq!(parse_digits("5 "), None);
    assert_eq!(parse_digits("5a"), None);
    assert_eq!(parse_digits("١٢"), None);
}
