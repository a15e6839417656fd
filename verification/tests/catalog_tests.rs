use num_format::Locale;
use sota_save::locale::{get_locale, locale_for, with_dashes};
use sota_save::skills::{lines, parse_skill_group, split};
use sota_save::util::{f64_to_string, trim_number};

#[test]
fn lines_end_with_a_line_feed() {
    assert_eq!(lines("a\nb"), vec!["a", "b"]);
    assert_eq!(lines("a\nb\n"), vec!["a", "b"]);
    assert_eq!(lines("a\r\nb\r"), vec!["a", "b\r"]);
    assert_eq!(lines("\n"), vec![""]);
    assert_eq!(lines("\r\n\n"), vec!["", ""]);
    assert_eq!(lines(""), Vec::<String>::new());
    assert_eq!(lines("ü,ß\näö"), vec!["ü,ß", "äö"]);
    for text in ["", "a", "a\n", "\na", "a\r\n\r\nb", "a\rb\n", "\r", "x\n\n\ny"] {
        let expected: Vec<String> = text.lines().map(String::from).collect();
        assert_eq!(lines(text), expected);
    }
}

#[test]
fn split_gives_the_parts_between_the_separators() {
    assert_eq!(split("a,b,c", ','), vec!["a", "b", "c"]);
    assert_eq!(split("", ','), vec![""]);
    assert_eq!(split(",", ','), vec!["", ""]);
    assert_eq!(split("a,,b,", ','), vec!["a", "", "b", ""]);
    assert_eq!(split("abc", ','), vec!["abc"]);
    for text in ["", "a", ",a", "a,", "ä,ö,ü", ",,,"] {
        let expected: Vec<String> = text.split(',').map(String::from).collect();
        assert_eq!(split(text, ','), expected);
    }
}

#[test]
fn the_catalog_groups_the_skills_of_its_lines() {
    let text = "Blades,Thrust,1.0,12\nBlades,Riposte,2.5,13\r\nBludgeons,Crush,1,20,extra\n";
    let groups = parse_skill_group(text).unwrap();
    assert_eq!(groups.len(), 2);
    assert_eq!(groups[0].name, "Blades");
    assert_eq!(groups[0].skills.len(), 2);
    assert_eq!(groups[0].skills[0].name, "Thrust");
    assert_eq!(groups[0].skills[0].mul, "1.0");
    assert_eq!(groups[0].skills[0].mul.parse::<f64>().unwrap(), 1.0);
    assert_eq!(groups[0].skills[0].id, 12);
    assert_eq!(groups[0].skills[1].name, "Riposte");
    assert_eq!(groups[0].skills[1].mul.parse::<f64>().unwrap(), 2.5);
    assert_eq!(groups[0].skills[1].id, 13);
    assert_eq!(groups[1].name, "Bludgeons");
    assert_eq!(groups[1].skills.len(), 1);
    assert_eq!(groups[1].skills[0].name, "Crush");
    assert_eq!(groups[1].skills[0].id, 20);
}

#[test]
fn a_group_that_comes_again_is_a_new_group() {
    let groups = parse_skill_group("A,a,1,1\nB,b,1,2\nA,c,1,3").unwrap();
    let names: Vec<&str> = groups.iter().map(|g| g.name.as_str()).collect();
    assert_eq!(names, vec!["A", "B", "A"]);
    assert_eq!(groups[2].skills[0].name, "c");
}

#[test]
fn skills_without_a_group_are_left_out() {
    let groups = parse_skill_group(",a,1,1\n,b,1,2\nA,c,1,3\n,d,1,4").unwrap();
    assert_eq!(groups.len(), 1);
    assert_eq!(groups[0].name, "A");
    assert_eq!(groups[0].skills.len(), 1);
    assert!(parse_skill_group("").unwrap().is_empty());
    assert!(parse_skill_group(",a,1,1").unwrap().is_empty());
}

#[test]
fn a_line_that_states_no_skill_fails_the_catalog() {
    assert!(parse_skill_group("A,a,1").is_none());
    assert!(parse_skill_group("A,a,1,x").is_none());
    assert!(parse_skill_group("A,a,1,-1").is_none());
    assert!(parse_skill_group("A,a,1,").is_none());
    assert!(parse_skill_group("A,a,1,1\n\nA,b,1,2").is_none());
    assert!(parse_skill_group("A,a,1,18446744073709551616").is_none());
    assert!(parse_skill_group("A,a,1,18446744073709551615").is_some());
    assert!(parse_skill_group("A,a,1,+7").is_some());
    assert!(parse_skill_group("A,a,1,7\r").is_none());
    assert!(parse_skill_group("A,a,1,7\r\n").is_some());
}

#[test]
fn underscores_become_dashes() {
    assert_eq!(with_dashes("en_US"), "en-US");
    assert_eq!(with_dashes("_a__b_"), "-a--b-");
    assert_eq!(with_dashes(""), "");
    assert_eq!(with_dashes("zh-Hant_HK"), "zh-Hant-HK");
    assert_eq!(with_dashes("ä_ö"), "ä-ö");
}

fn names() -> Vec<String> {
    Locale::available_names().iter().map(|n| n.to_string()).collect()
}

#[test]
fn the_locale_is_chosen_by_name_or_by_what_is_left_of_it() {
    let names = names();
    assert_eq!(locale_for("en", &names), Locale::en);
    assert_eq!(locale_for("en_US", &names), Locale::en);
    assert_eq!(locale_for("EN-gb", &names), Locale::en_GB);
    assert_eq!(locale_for("de_AT", &names), Locale::de_AT);
    assert_eq!(locale_for("de-DE", &names), Locale::de);
    assert_eq!(locale_for("fr-FR-x-private", &names), Locale::fr);
    assert_eq!(locale_for("zh_Hant_HK", &names), Locale::zh_Hant_HK);
    assert_eq!(locale_for("en-US-POSIX", &names), Locale::en_US_POSIX);
    assert_eq!(locale_for("xx-YY", &names), Locale::en);
    assert_eq!(locale_for("", &names), Locale::en);
    assert_eq!(locale_for("-", &names), Locale::en);
    assert_eq!(locale_for("de--", &names), Locale::de);
}

#[test]
fn the_locale_is_chosen_from_the_names_given() {
    let few = vec![String::from("de"), String::from("nothing"), String::from("fr-CA")];
    assert_eq!(locale_for("de-AT", &few), Locale::de);
    assert_eq!(locale_for("fr_ca", &few), Locale::fr_CA);
    assert_eq!(locale_for("fr", &few), Locale::en);
    assert_eq!(locale_for("NOTHING", &few), Locale::en);
    assert_eq!(locale_for("de", &Vec::new()), Locale::en);
}

#[test]
fn the_system_has_some_locale() {
    let locale = get_locale();
    assert!(Locale::available_names().contains(&locale.name()));
}

#[test]
fn number_text_loses_its_trailing_zeros() {
    assert_eq!(trim_number("1.500000", ","), "1,5");
    assert_eq!(trim_number("0.000000", "."), "0");
    assert_eq!(trim_number("100.000000", ","), "100");
    assert_eq!(trim_number("3.141593", "٫"), "3٫141593");
    assert_eq!(trim_number("-0.500000", "."), "-0.5");
    assert_eq!(trim_number("", "."), "");
    assert_eq!(trim_number("1000", "."), "1");
    assert_eq!(trim_number("..", ","), "");
    assert_eq!(trim_number("1.0.0", ","), "1,0");
    assert_eq!(trim_number("1.5", ""), "15");
    assert_eq!(trim_number("0.100200", "::"), "0::1002");
}

#[test]
fn number_text_has_the_decimal_separator_of_the_locale() {
    assert_eq!(f64_to_string("1.500000", Locale::en), "1.5");
    assert_eq!(f64_to_string("1.500000", Locale::de), "1,5");
    assert_eq!(f64_to_string("1.500000", Locale::ar), "1٫5");
    assert_eq!(f64_to_string("2.000000", Locale::de), "2");
}

#[test]
fn number_text_of_floats() {
    for value in [0.0f64, 1.0, -1.0, 1.5, 0.1, 123456.789, 1e-7, 1e10, 0.000001, 2.5000004, -0.0] {
        let fixed = format!("{:.6}", value);
        let expected = fixed.trim_end_matches('0').trim_end_matches('.').replacen('.', ",", 1);
        assert_eq!(trim_number(&fixed, ","), expected);
        assert_eq!(f64_to_string(&fixed, Locale::de), expected);
    }
}
