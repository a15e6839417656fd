use regex::Regex;
use sota_save::search::len_utf8;
use sota_save::util::{
    find_ignore_case, offset, offset_of_address, replace_decimal,
    timestamp_to_string, AppState, Search, SkillCategory,
};

#[test]
fn test_replace_decimal() {
    assert_eq!("123.4", replace_decimal("123.4"));
    assert_eq!("123.4", replace_decimal("123,4"));
    assert_eq!("123.", replace_decimal("123,"));
    assert_eq!(".4", replace_decimal(",4"));
    assert_eq!("123.4", replace_decimal("123\u{66b}4"));
    assert_eq!("123.", replace_decimal("123\u{66b}"));
    assert_eq!(".4", replace_decimal("\u{66b}4"));
}

#[test]
fn test_find_ignore_case() {
    let text = "Test for 'tschüß' in this text";
    let result = find_ignore_case(text, "TSCHÜSS");
    assert!(result.is_some());

    let range = result.unwrap();
    assert!(range.start == 10);

    let len = "tschüß".len();
    assert!(range.end == range.start + len);

    let text = "Is 'TSCHÜSS' present?";
    let result = find_ignore_case(text, "tschüß");
    assert!(result.is_some());

    let range = result.unwrap();
    assert!(range.start == 4);

    let len = "TSCHÜSS".len();
    assert!(range.end == range.start + len);

    let text = "Find 'ghi\u{307}j'";
    let result = find_ignore_case(text, "ghİj");
    assert!(result.is_some());

    let range = result.unwrap();
    assert!(range.start == 6);

    let len = "ghi\u{307}j".len();
    assert!(range.end == range.start + len);

    let text = "Abc aBc abC";
    let result = find_ignore_case(text, "abc");
    assert!(result.is_some());

    let range = result.unwrap();
    assert!(range.start == 0 && range.end == 3);

    let text = "cbA cBa abC";
    let result = find_ignore_case(text, "abc");
    assert!(result.is_some());

    let range = result.unwrap();
    assert!(range.start == 8 && range.end == 11);
}

#[test]
fn find_ignore_case_finds_nothing_in_or_for_an_empty_text() {
    assert_eq!(find_ignore_case("", "a"), None);
    assert_eq!(find_ignore_case("a", ""), None);
    assert_eq!(find_ignore_case("abc", "d"), None);
    assert_eq!(find_ignore_case("ab", "abc"), None);
}

#[test]
fn find_ignore_case_never_looks_back() {
    // The second `a` ends the match that the first began, and is not tried as a beginning.
    assert_eq!(find_ignore_case("aab", "ab"), None);
    assert_eq!(find_ignore_case("aabab", "ab"), Some(3..5));
    assert_eq!(find_ignore_case("xab", "AB"), Some(1..3));
}

#[test]
fn offset_of_address_is_the_distance_inside_the_text() {
    assert_eq!(offset_of_address(100, 10, 100), Some(0));
    assert_eq!(offset_of_address(100, 10, 109), Some(9));
    assert_eq!(offset_of_address(100, 10, 110), None);
    assert_eq!(offset_of_address(100, 10, 99), None);
    assert_eq!(offset_of_address(100, 0, 100), None);
    assert_eq!(offset_of_address(usize::MAX - 1, 5, usize::MAX), Some(1));
}

#[test]
fn offset_finds_a_slice_inside_its_text() {
    let text = "one two three";
    assert_eq!(offset(text, &text[4..7]), Some(4));
    assert_eq!(offset(text, &text[0..0]), Some(0));
    assert_eq!(offset(text, text), Some(0));
    let other = String::from("two");
    assert_eq!(offset(text, &other), None);
    assert_eq!(offset(&text[4..7], text), None);
}

#[test]
fn len_utf8_counts_bytes() {
    for c in ['a', '\u{7f}', '\u{80}', 'ü', '\u{7ff}', '\u{800}', '€', '\u{ffff}', '\u{10000}', '😀'] {
        assert_eq!(len_utf8(c), c.len_utf8());
    }
}

#[test]
fn app_state_starts_idle_and_enabled() {
    let state = AppState::default();
    assert!(!state.busy.load(std::sync::atomic::Ordering::Relaxed));
    assert!(state.enabled.load(std::sync::atomic::Ordering::Relaxed));
}

#[test]
fn replace_decimal_changes_only_the_first_mark() {
    assert_eq!("", replace_decimal(""));
    assert_eq!("1.234,5", replace_decimal("1,234,5"));
    assert_eq!("1.234\u{66b}5", replace_decimal("1\u{66b}234\u{66b}5"));
    assert_eq!("1.234.5", replace_decimal("1.234,5").replace(',', "."));
    assert_eq!("ü.ß", replace_decimal("ü,ß"));
}

#[test]
fn search_for_a_string_as_it_stands() {
    let search = Search::String { find: String::from("o w"), ignore_case: false };
    assert_eq!(search.find_in("hello world"), Some(4..7));
    assert_eq!(search.find_in("hello World"), None);
    assert_eq!(search.find_in("hello  world"), None);
    let search = Search::String { find: String::from("ß"), ignore_case: false };
    assert_eq!(search.find_in("tschüß!"), Some(6..8));
    let search = Search::String { find: String::new(), ignore_case: false };
    assert_eq!(search.find_in("abc"), Some(0..0));
    assert_eq!(search.find_in(""), Some(0..0));
}

#[test]
fn search_for_a_string_without_regard_to_case() {
    let search = Search::String { find: String::from("WORLD"), ignore_case: true };
    assert_eq!(search.find_in("hello world"), Some(6..11));
    assert_eq!(search.find_in("hello"), None);
    let search = search.clone();
    assert_eq!(search.find_in("World"), Some(0..5));
}

#[test]
fn search_for_a_regular_expression() {
    let search = Search::Regex(Regex::new(r"\d+").unwrap());
    assert_eq!(search.find_in("abc 123 def 45"), Some(4..7));
    assert_eq!(search.find_in("abc"), None);
    let search = Search::Regex(Regex::new(r"x*").unwrap());
    assert_eq!(search.find_in("abc"), Some(0..0));
}

#[test]
fn timestamps_are_written_as_date_and_time() {
    assert_eq!(timestamp_to_string(None), Some(String::new()));
    assert_eq!(timestamp_to_string(Some(0)), Some(String::from("1970-01-01 00:00:00")));
    assert_eq!(timestamp_to_string(Some(1431648000)), Some(String::from("2015-05-15 00:00:00")));
    assert_eq!(
        timestamp_to_string(Some(1431648000 + 3661)),
        Some(String::from("2015-05-15 01:01:01"))
    );
    assert_eq!(timestamp_to_string(Some(-1)), Some(String::from("1969-12-31 23:59:59")));
}

#[test]
fn timestamps_out_of_range_have_no_text() {
    assert_eq!(timestamp_to_string(Some(i64::MAX)), None);
    assert_eq!(timestamp_to_string(Some(i64::MIN)), None);
}

#[test]
fn skill_categories_are_two() {
    assert!(SkillCategory::Adventurer != SkillCategory::Producer);
    assert_eq!(SkillCategory::Adventurer.clone(), SkillCategory::Adventurer);
}
