use serde_json::Value;
use sota_save::inventory::{get_name, read_item, read_items, write_item, write_items, Durability, Item};

fn json(text: &str) -> Value {
    serde_json::from_str(text).unwrap()
}

const STORE: &str = r#"{"x":1,"in":{
    "i1":{"in":{"an":"Items/Weapons/LongSword","qn":2,"hp":10.5,"php":20},"o":true},
    "i2":{"in":{"an":"Items/Misc/Bag","qn":1,"bag":0}},
    "i3":{"in":{"an":"Items/Misc/NoCount"}},
    "i4":{"in":{"qn":3}},
    "i5":{"in":{"an":"NoSlash","qn":3}},
    "i6":{"in":{"an":"a/b","qn":-3}},
    "i7":{"in":{"an":"a/b","qn":1.5}},
    "i8":{"an":"a/b","qn":1},
    "i9":{"in":{"an":7,"qn":1}},
    "j1":{"in":{"an":"a/","qn":0,"hp":1,"php":"2"}},
    "j2":{"in":{"an":"/ü","qn":18446744073709551615,"hp":1}},
    "j3":7
}}"#;

fn by_id(items: &[Item], id: &str) -> Item {
    items.iter().find(|item| item.id == id).unwrap().clone()
}

#[test]
fn display_name_follows_the_last_slash() {
    let v = json("\"Items/Weapons/LongSword\"");
    assert_eq!(get_name(Some(&v)), Some(String::from("LongSword")));
    assert_eq!(get_name(Some(&json("\"a/\""))), Some(String::new()));
    assert_eq!(get_name(Some(&json("\"/\""))), Some(String::new()));
    assert_eq!(get_name(Some(&json("\"ä/ö/ü\""))), Some(String::from("ü")));
    assert_eq!(get_name(Some(&json("\"LongSword\""))), None);
    assert_eq!(get_name(Some(&json("\"\""))), None);
    assert_eq!(get_name(Some(&json("5"))), None);
    assert_eq!(get_name(None), None);
}

#[test]
fn durability_needs_both_numbers() {
    let d = Durability::new(&json(r#"{"hp":10.5,"php":20}"#)).unwrap();
    assert_eq!(d.minor.as_f64(), Some(10.5));
    assert_eq!(d.major.as_f64(), Some(20.0));
    assert_eq!(d.major, json("20"));
    assert!(Durability::new(&json(r#"{"hp":10.5}"#)).is_none());
    assert!(Durability::new(&json(r#"{"php":10.5}"#)).is_none());
    assert!(Durability::new(&json(r#"{"hp":"1","php":2}"#)).is_none());
    assert!(Durability::new(&json(r#"{"hp":1,"php":null}"#)).is_none());
    assert!(Durability::new(&json("[1,2]")).is_none());
}

#[test]
fn an_item_is_read_from_its_entry() {
    let entry = json(r#"{"in":{"an":"Items/Weapons/LongSword","qn":2,"hp":10.5,"php":20}}"#);
    let item = read_item("i1", &entry).unwrap();
    assert_eq!(item.id, "i1");
    assert_eq!(item.name, "LongSword");
    assert_eq!(item.cnt, 2);
    assert!(!item.bag);
    let dur = item.dur.unwrap();
    assert_eq!(dur.minor.as_f64(), Some(10.5));
    assert_eq!(dur.major.as_f64(), Some(20.0));
    let entry = json(r#"{"in":{"an":"Items/Weapons/LongSword","hp":10.5,"php":20}}"#);
    assert!(read_item("i1", &entry).is_none());
}

#[test]
fn items_without_name_or_count_are_left_out() {
    let items = read_items(&json(STORE));
    let mut ids: Vec<String> = items.iter().map(|item| item.id.clone()).collect();
    ids.sort();
    assert_eq!(ids, vec!["i1", "i2", "j1", "j2"]);
    let sword = by_id(&items, "i1");
    assert_eq!(sword.name, "LongSword");
    assert_eq!(sword.cnt, 2);
    assert!(sword.dur.is_some());
    assert!(!sword.bag);
    let bag = by_id(&items, "i2");
    assert_eq!(bag.name, "Bag");
    assert!(bag.dur.is_none());
    assert!(bag.bag);
    let j1 = by_id(&items, "j1");
    assert_eq!(j1.name, "");
    assert_eq!(j1.cnt, 0);
    assert!(j1.dur.is_none());
    let j2 = by_id(&items, "j2");
    assert_eq!(j2.name, "ü");
    assert_eq!(j2.cnt, u64::MAX);
    assert!(j2.dur.is_none());
}

#[test]
fn a_store_without_entries_has_no_items() {
    assert!(read_items(&json("{}")).is_empty());
    assert!(read_items(&json(r#"{"in":{}}"#)).is_empty());
    assert!(read_items(&json(r#"{"in":[1,2]}"#)).is_empty());
    assert!(read_items(&json("7")).is_empty());
}

#[test]
fn count_and_durability_are_written_into_the_entry() {
    let mut store = json(STORE);
    let mut sword = by_id(&read_items(&store), "i1");
    sword.cnt = 5;
    sword.dur = Some(Durability { minor: Value::from(7.25), major: Value::from(30.0) });
    sword.name = String::from("ignored");
    write_item(&mut store, &sword);
    let mut expected = json(STORE);
    expected["in"]["i1"]["in"]["qn"] = json("5");
    expected["in"]["i1"]["in"]["hp"] = json("7.25");
    expected["in"]["i1"]["in"]["php"] = json("30.0");
    assert_eq!(store, expected);
}

#[test]
fn an_item_without_durability_keeps_what_the_entry_holds() {
    let mut store = json(STORE);
    let mut sword = by_id(&read_items(&store), "i1");
    sword.cnt = 9;
    sword.dur = None;
    let mut bag = by_id(&read_items(&store), "i2");
    bag.cnt = 4;
    write_items(&mut store, &vec![sword.clone(), bag, sword]);
    let mut expected = json(STORE);
    expected["in"]["i1"]["in"]["qn"] = json("9");
    expected["in"]["i2"]["in"]["qn"] = json("4");
    assert_eq!(store, expected);
    let before = store.clone();
    write_items(&mut store, &vec![]);
    assert_eq!(store, before);
}

#[test]
fn reading_and_writing_back_changes_no_value() {
    let mut store = json(STORE);
    let items = read_items(&store);
    write_items(&mut store, &items);
    assert_eq!(store, json(STORE));
}
