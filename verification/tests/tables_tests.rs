use sota_save::tables::{parse_exp_table, parse_values, trim};

#[test]
fn spaces_around_a_text_are_trimmed() {
    assert_eq!(trim("  a b \t\r\n"), "a b");
    assert_eq!(trim("a"), "a");
    assert_eq!(trim(""), "");
    assert_eq!(trim(" \n "), "");
    assert_eq!(trim("\u{a0}x "), "\u{a0}x");
}

#[test]
fn values_are_listed_between_brackets() {
    assert_eq!(parse_values("[1, 2, 3]"), Some(vec![1, 2, 3]));
    assert_eq!(parse_values("  [\n  0,\n  -5,\n  +7,\n]\n"), Some(vec![0, -5, 7]));
    assert_eq!(parse_values("[]"), Some(vec![]));
    assert_eq!(parse_values("[ ]"), Some(vec![]));
    assert_eq!(parse_values("[9223372036854775807,-9223372036854775808]"), Some(vec![i64::MAX, i64::MIN]));
    assert_eq!(parse_values("[1,,2]"), None);
    assert_eq!(parse_values("[,]"), None);
    assert_eq!(parse_values("[1 2]"), None);
    assert_eq!(parse_values("[1.5]"), None);
    assert_eq!(parse_values("[9223372036854775808]"), None);
    assert_eq!(parse_values("1, 2"), None);
    assert_eq!(parse_values("[1, 2"), None);
    assert_eq!(parse_values("1, 2]"), None);
    assert_eq!(parse_values("["), None);
    assert_eq!(parse_values(""), None);
    assert_eq!(parse_values("[1] x"), None);
}

#[test]
fn a_table_is_read_from_its_text() {
    let values: Vec<i64> = (0..200).map(|i| i * i).collect();
    let mut text = String::from("[\n");
    for v in &values {
        text.push_str(&format!("  {},\n", v));
    }
    text.push_str("]\n");
    let table = parse_exp_table(&text).unwrap();
    assert_eq!(table.thresholds(), &values[..]);
    assert_eq!(table.level_of(10), Some(4));
    assert!(parse_exp_table("[1, 2, 3]").is_none());
    assert!(parse_exp_table("nothing").is_none());
    let mut falling = values.clone();
    falling[10] = 0;
    let text = format!("{:?}", falling);
    assert!(parse_exp_table(&text).is_none());
    let text = format!("{:?}", values);
    assert!(parse_exp_table(&text).is_some());
}
