use serde_json::Value;
use sota_save::exp_table::ExpTable;
use sota_save::game_data::{
    find_date, get_avatar_id, get_backpack_id, get_json, get_skill_exp, get_skill_lvl, set_json,
    to_i64, GameData, LoadError, StoreError,
};

const USER: &str = "000000000000000000000001";

fn thresholds() -> Vec<i64> {
    let mut v = vec![100, 250, 500];
    for i in 3..200 {
        v.push(500 + (i as i64 - 2) * 1000);
    }
    v
}

fn table() -> ExpTable {
    ExpTable::new(thresholds()).unwrap()
}

fn record(collection: &str, id: &str, payload: &str) -> String {
    format!(
        "<collection name=\"{}\"><record Id=\"{}\">{}</record></collection>\n",
        collection, id, payload
    )
}

const SHEET: &str =
    r#"{"ae":"1000","pe":600,"sk2":{"12":{"m":3,"t":"2020-01-02T03:04:05","x":5000}},"zz":[1.5,true,null]}"#;
const STORE: &str = r#"{"in":{"i1":{"in":{"an":"Items/Weapons/LongSword","qn":2,"hp":10.5,"php":20}},"i2":{"in":{"an":"Items/Misc/Bag","qn":1,"bag":0}},"i3":{"in":{"an":"Items/Misc/NoCount"}}}}"#;
const GOLD: &str = r#"{"g":1000}"#;

fn save_text(user: &str, character: &str, sheet: &str, store: &str, gold: &str) -> String {
    let mut text = String::from("<?xml version=\"1.0\"?>\n<database>\n");
    text.push_str(&record("User", USER, user));
    text.push_str(&record("Character", "av1", character));
    text.push_str(&record("CharacterSheet", "av1", sheet));
    text.push_str(&record("ItemStore", "bp1", store));
    text.push_str(&record("UserGold", USER, gold));
    text.push_str("</database>\n");
    text
}

fn sample_text() -> String {
    save_text(r#"{"dc":"av1"}"#, r#"{"mainbp":"bp1"}"#, SHEET, STORE, GOLD)
}

fn load(text: &str) -> Result<GameData, LoadError> {
    GameData::load(text.as_bytes().to_vec(), table(), table())
}

fn sample() -> GameData {
    match load(&sample_text()) {
        Ok(data) => data,
        Err(e) => panic!("sample does not load: {}", e.message()),
    }
}

fn load_error(text: &str) -> LoadError {
    match load(text) {
        Ok(_) => panic!("loaded"),
        Err(e) => e,
    }
}

fn json(text: &str) -> Value {
    serde_json::from_str(text).unwrap()
}

#[test]
fn get_json_reads_the_payload_of_the_record() {
    let text = sample_text();
    let v = get_json(text.as_bytes(), "UserGold", USER).unwrap();
    assert_eq!(v, json(GOLD));
    let v = get_json(text.as_bytes(), "CharacterSheet", "av1").unwrap();
    assert_eq!(v, json(SHEET));
}

#[test]
fn get_json_fails_without_its_markers() {
    let text = sample_text();
    assert!(get_json(text.as_bytes(), "Nothing", USER).is_none());
    assert!(get_json(text.as_bytes(), "UserGold", "nobody").is_none());
    let cut = "<collection name=\"UserGold\"><record Id=\"a\">{\"g\":1}";
    assert!(get_json(cut.as_bytes(), "UserGold", "a").is_none());
    let bad = "<collection name=\"UserGold\"><record Id=\"a\">{\"g\":</record>";
    assert!(get_json(bad.as_bytes(), "UserGold", "a").is_none());
}

#[test]
fn get_json_takes_the_first_record_behind_the_collection() {
    let text = "<record Id=\"a\">1</record><collection name=\"C\"><record Id=\"a\">2</record><record Id=\"a\">3</record>";
    assert_eq!(get_json(text.as_bytes(), "C", "a").unwrap(), json("2"));
}

#[test]
fn set_json_replaces_only_the_payload() {
    let text = sample_text();
    let out = set_json(text.as_bytes(), "UserGold", USER, &json(r#"{"g":2500,"h":[1,2]}"#)).unwrap();
    let expected = text.replace(GOLD, r#"{"g":2500,"h":[1,2]}"#);
    assert_eq!(String::from_utf8(out).unwrap(), expected);
}

#[test]
fn set_json_fails_where_the_record_is_missing() {
    let text = sample_text();
    assert!(set_json(text.as_bytes(), "UserGold", "nobody", &json("1")).is_none());
    assert!(set_json(text.as_bytes(), "Nothing", USER, &json("1")).is_none());
}

#[test]
fn ids_come_from_the_user_and_character_records() {
    let text = sample_text();
    assert_eq!(get_avatar_id(text.as_bytes()).unwrap(), "av1");
    assert_eq!(get_backpack_id(text.as_bytes(), "av1").unwrap(), "bp1");
    assert!(get_backpack_id(text.as_bytes(), "av2").is_none());
    let text = save_text(r#"{"dc":5}"#, r#"{"mainbp":"bp1"}"#, SHEET, STORE, GOLD);
    assert!(get_avatar_id(text.as_bytes()).is_none());
}

#[test]
fn to_i64_reads_numbers_and_decimal_strings() {
    assert_eq!(to_i64(&json("12")), Some(12));
    assert_eq!(to_i64(&json("-12")), Some(-12));
    assert_eq!(to_i64(&json("\"12\"")), Some(12));
    assert_eq!(to_i64(&json("\"-12\"")), None);
    assert_eq!(to_i64(&json("\"+12\"")), None);
    assert_eq!(to_i64(&json("\"0012\"")), Some(12));
    assert_eq!(to_i64(&json("\"9223372036854775807\"")), Some(i64::MAX));
    assert_eq!(to_i64(&json("\"-9223372036854775808\"")), None);
    assert_eq!(to_i64(&json("-9223372036854775808")), Some(i64::MIN));
    assert_eq!(to_i64(&json("\"9223372036854775808\"")), None);
    assert_eq!(to_i64(&json("\"-9223372036854775809\"")), None);
    assert_eq!(to_i64(&json("\"\"")), None);
    assert_eq!(to_i64(&json("\"-\"")), None);
    assert_eq!(to_i64(&json("\"+\"")), None);
    assert_eq!(to_i64(&json("\" 12\"")), None);
    assert_eq!(to_i64(&json("\"12a\"")), None);
    assert_eq!(to_i64(&json("\"1.5\"")), None);
    assert_eq!(to_i64(&json("1.5")), None);
    assert_eq!(to_i64(&json("18446744073709551615")), None);
    assert_eq!(to_i64(&json("true")), None);
    assert_eq!(to_i64(&json("null")), None);
    assert_eq!(to_i64(&json("[1]")), None);
}

#[test]
fn find_date_gives_a_time_of_some_skill() {
    let skills = json(r#"{"1":{"m":1},"2":{"t":"T2"},"3":7}"#);
    assert_eq!(find_date(&skills), Some(json("\"T2\"")));
    let skills = json(r#"{"1":{"m":1},"3":7}"#);
    assert_eq!(find_date(&skills), None);
    assert_eq!(find_date(&json("{}")), None);
    assert_eq!(find_date(&json("[{\"t\":1}]")), None);
}

#[test]
fn load_takes_a_complete_save() {
    let data = sample();
    assert_eq!(data.get_gold(), Some(1000));
    assert_eq!(data.get_adv_lvl(), Some(3));
    assert_eq!(data.get_prd_lvl(), Some(3));
    assert_eq!(data.get_skill_lvl(12, |exp| exp), Some(7));
}

#[test]
fn load_names_what_is_wrong() {
    let user = r#"{"dc":"av1"}"#;
    let character = r#"{"mainbp":"bp1"}"#;
    assert_eq!(load_error(""), LoadError::NoAvatar);
    assert_eq!(load_error(&save_text(r#"{"dd":"av1"}"#, character, SHEET, STORE, GOLD)), LoadError::NoAvatar);
    assert_eq!(load_error(&save_text(user, r#"{"mainbp":1}"#, SHEET, STORE, GOLD)), LoadError::NoBackpack);
    assert_eq!(load_error(&save_text(user, character, "{", STORE, GOLD)), LoadError::NoCharacterSheet);
    assert_eq!(load_error(&save_text(user, character, "[1]", STORE, GOLD)), LoadError::BadCharacterSheet);
    assert_eq!(load_error(&save_text(user, character, SHEET, "nothing", GOLD)), LoadError::NoInventory);
    assert_eq!(load_error(&save_text(user, character, SHEET, "\"x\"", GOLD)), LoadError::BadInventory);
    assert_eq!(load_error(&save_text(user, character, SHEET, STORE, "")), LoadError::NoGold);
    assert_eq!(load_error(&save_text(user, character, SHEET, STORE, "7")), LoadError::BadGold);
    assert_eq!(
        load_error(&save_text(user, character, r#"{"ae":"many","sk2":{"1":{"t":1}}}"#, STORE, GOLD)),
        LoadError::BadAdventurerExp
    );
    assert_eq!(
        load_error(&save_text(user, character, r#"{"sk2":{"1":{"t":1}}}"#, STORE, GOLD)),
        LoadError::BadAdventurerExp
    );
    for ae in [r#""-5""#, r#""+5""#, r#""""#, r#""5 ""#, r#""9223372036854775808""#, "1.5", "null"] {
        let sheet = format!(r#"{{"ae":{},"sk2":{{"1":{{"t":1}}}}}}"#, ae);
        assert_eq!(load_error(&save_text(user, character, &sheet, STORE, GOLD)), LoadError::BadAdventurerExp);
    }
    for ae in [r#""5""#, r#""0005""#, r#""9223372036854775807""#, "5", "-5"] {
        let sheet = format!(r#"{{"ae":{},"sk2":{{"1":{{"t":1}}}}}}"#, ae);
        assert!(load(&save_text(user, character, &sheet, STORE, GOLD)).is_ok());
    }
    assert_eq!(load_error(&save_text(user, character, r#"{"ae":1}"#, STORE, GOLD)), LoadError::NoSkills);
    assert_eq!(load_error(&save_text(user, character, r#"{"ae":1,"sk2":[]}"#, STORE, GOLD)), LoadError::BadSkills);
    assert_eq!(
        load_error(&save_text(user, character, r#"{"ae":1,"sk2":{"1":{"m":1}}}"#, STORE, GOLD)),
        LoadError::NoDate
    );
}

#[test]
fn load_reports_the_first_thing_that_is_wrong() {
    let text = save_text(r#"{"dc":"av1"}"#, r#"{"nothing":1}"#, "[", "[", "[");
    assert_eq!(load_error(&text), LoadError::NoBackpack);
    let text = save_text(r#"{"dc":"av1"}"#, r#"{"mainbp":"bp1"}"#, "[]", "[", "[");
    assert_eq!(load_error(&text), LoadError::BadCharacterSheet);
    let text = save_text(r#"{"dc":"av1"}"#, r#"{"mainbp":"bp1"}"#, r#"{"sk2":1}"#, STORE, "[]");
    assert_eq!(load_error(&text), LoadError::BadGold);
}

#[test]
fn load_error_messages() {
    assert_eq!(LoadError::NoAvatar.message(), "Unable to determine the current avatar");
    assert_eq!(LoadError::NoBackpack.message(), "Unable to find the avatar's backpack");
    assert_eq!(LoadError::NoCharacterSheet.message(), "Unable to find character sheet");
    assert_eq!(LoadError::BadCharacterSheet.message(), "Error reading character sheet");
    assert_eq!(LoadError::NoInventory.message(), "Unable to find inventory");
    assert_eq!(LoadError::BadInventory.message(), "Error reading inventory");
    assert_eq!(LoadError::NoGold.message(), "Unable to find user gold");
    assert_eq!(LoadError::BadGold.message(), "Error reading user gold");
    assert_eq!(LoadError::BadAdventurerExp.message(), "Unable to parse adventurer experience");
    assert_eq!(LoadError::NoSkills.message(), "Unable to find skills");
    assert_eq!(LoadError::BadSkills.message(), "Error reading skills");
    assert_eq!(LoadError::NoDate.message(), "Unable to parse the date/time");
}

#[test]
fn store_of_an_unchanged_document_keeps_text_and_values() {
    let text = sample_text();
    let data = sample();
    let out = String::from_utf8(data.store().unwrap()).unwrap();
    // Outside the three payloads every byte is as it was.
    let expected = text
        .replace(SHEET, &json(SHEET).to_string())
        .replace(STORE, &json(STORE).to_string())
        .replace(GOLD, &json(GOLD).to_string());
    assert_eq!(out, expected);
    // Inside them the values are the same.
    assert_eq!(get_json(out.as_bytes(), "CharacterSheet", "av1").unwrap(), json(SHEET));
    assert_eq!(get_json(out.as_bytes(), "ItemStore", "bp1").unwrap(), json(STORE));
    assert_eq!(get_json(out.as_bytes(), "UserGold", USER).unwrap(), json(GOLD));
    let again = load(&out).ok().unwrap();
    assert_eq!(again.get_gold(), Some(1000));
    assert_eq!(again.get_adv_lvl(), Some(3));
    assert_eq!(again.get_skill_lvl(12, |exp| exp), Some(7));
    assert_eq!(again.get_inventory_items().len(), 2);
}

#[test]
fn store_twice_gives_the_same_text() {
    let data = sample();
    let first = data.store().unwrap();
    let second = data.store().unwrap();
    assert_eq!(first, second);
    let again = load(&String::from_utf8(first.clone()).unwrap()).ok().unwrap();
    assert_eq!(again.store().unwrap(), first);
}

#[test]
fn gold_is_set_and_stored() {
    let text = sample_text();
    let mut data = sample();
    assert_eq!(data.get_gold(), Some(1000));
    data.set_gold(2500);
    assert_eq!(data.get_gold(), Some(2500));
    let out = String::from_utf8(data.store().unwrap()).unwrap();
    let expected = text
        .replace(SHEET, &json(SHEET).to_string())
        .replace(STORE, &json(STORE).to_string())
        .replace(GOLD, r#"{"g":2500}"#);
    assert_eq!(out, expected);
    let again = load(&out).ok().unwrap();
    assert_eq!(again.get_gold(), Some(2500));
}

#[test]
fn gold_is_none_where_the_record_states_none() {
    let text = save_text(r#"{"dc":"av1"}"#, r#"{"mainbp":"bp1"}"#, SHEET, STORE, r#"{"h":1}"#);
    let mut data = load(&text).ok().unwrap();
    assert_eq!(data.get_gold(), None);
    data.set_gold(-7);
    assert_eq!(data.get_gold(), Some(-7));
    let text = save_text(r#"{"dc":"av1"}"#, r#"{"mainbp":"bp1"}"#, SHEET, STORE, r#"{"g":[1]}"#);
    assert_eq!(load(&text).ok().unwrap().get_gold(), None);
    let text = save_text(r#"{"dc":"av1"}"#, r#"{"mainbp":"bp1"}"#, SHEET, STORE, r#"{"g":"77"}"#);
    assert_eq!(load(&text).ok().unwrap().get_gold(), Some(77));
    let text = save_text(r#"{"dc":"av1"}"#, r#"{"mainbp":"bp1"}"#, SHEET, STORE, r#"{"g":4294967298}"#);
    assert_eq!(load(&text).ok().unwrap().get_gold(), Some(4294967298));
    let text = save_text(r#"{"dc":"av1"}"#, r#"{"mainbp":"bp1"}"#, SHEET, STORE, r#"{"g":"-77"}"#);
    assert_eq!(load(&text).ok().unwrap().get_gold(), None);
    let text = save_text(r#"{"dc":"av1"}"#, r#"{"mainbp":"bp1"}"#, SHEET, STORE, r#"{"g":-77}"#);
    assert_eq!(load(&text).ok().unwrap().get_gold(), Some(-77));
    let text = save_text(r#"{"dc":"av1"}"#, r#"{"mainbp":"bp1"}"#, SHEET, STORE, r#"{"g":1.5}"#);
    assert_eq!(load(&text).ok().unwrap().get_gold(), None);
    let text = save_text(r#"{"dc":"av1"}"#, r#"{"mainbp":"bp1"}"#, SHEET, STORE, r#"{"g":null}"#);
    assert_eq!(load(&text).ok().unwrap().get_gold(), None);
}

#[test]
fn levels_are_set_by_their_thresholds() {
    let mut data = sample();
    let t = thresholds();
    for lvl in 1..=200 {
        data.set_adv_lvl(lvl);
        assert_eq!(data.get_adv_lvl(), Some(lvl));
        data.set_prd_lvl(lvl);
        assert_eq!(data.get_prd_lvl(), Some(lvl));
        data.set_skill_lvl(12, lvl, |exp| exp);
        assert_eq!(data.get_skill_lvl(12, |exp| exp), Some(lvl));
    }
    data.set_adv_lvl(2);
    data.set_prd_lvl(200);
    let out = data.store().unwrap();
    let sheet = get_json(&out, "CharacterSheet", "av1").unwrap();
    assert_eq!(sheet["ae"], json("250"));
    assert_eq!(sheet["pe"], Value::from(t[199]));
    assert_eq!(sheet["zz"], json("[1.5,true,null]"));
}

#[test]
fn producer_level_is_none_without_producer_experience() {
    let sheet = r#"{"ae":99,"sk2":{"1":{"t":1}}}"#;
    let text = save_text(r#"{"dc":"av1"}"#, r#"{"mainbp":"bp1"}"#, sheet, STORE, GOLD);
    let mut data = load(&text).ok().unwrap();
    assert_eq!(data.get_prd_lvl(), None);
    assert_eq!(data.get_adv_lvl(), None);
    data.set_prd_lvl(1);
    assert_eq!(data.get_prd_lvl(), Some(1));
}

#[test]
fn skill_level_with_a_multiplier() {
    let mut data = sample();
    let mul = 2.5f64;
    data.set_skill_lvl(12, 3, |exp| (exp as f64 * mul) as i64);
    assert_eq!(data.get_skill_lvl(12, |exp| exp), Some(3));
    assert_eq!(data.get_skill_lvl(12, |exp| (exp as f64 / mul) as i64), Some(3));
    let out = data.store().unwrap();
    let sheet = get_json(&out, "CharacterSheet", "av1").unwrap();
    assert_eq!(sheet["sk2"]["12"], json(r#"{"m":3,"t":"2020-01-02T03:04:05","x":1250}"#));
    assert_eq!(get_skill_exp(&sheet["sk2"], 12), Some(1250));
    assert_eq!(get_skill_lvl(&sheet["sk2"], 12, &table(), |exp| (exp as f64 / mul) as i64), Some(3));
    assert_eq!(get_skill_lvl(&sheet["sk2"], 12, &table(), |exp| exp / 20), None);
}

#[test]
fn skill_level_zero_removes_the_skill() {
    let mut data = sample();
    assert!(data.can_set_skill(12));
    data.set_skill_lvl(12, 0, |exp| exp);
    assert_eq!(data.get_skill_lvl(12, |exp| exp), None);
    let out = data.store().unwrap();
    let sheet = get_json(&out, "CharacterSheet", "av1").unwrap();
    assert_eq!(sheet["sk2"], json("{}"));
    // Removing what is not there changes nothing.
    data.set_skill_lvl(13, 0, |exp| exp);
    assert_eq!(data.store().unwrap(), out);
}

#[test]
fn a_new_skill_starts_without_mastery_at_the_documents_time() {
    let mut data = sample();
    assert_eq!(data.get_skill_lvl(40, |exp| exp), None);
    assert!(data.can_set_skill(40));
    data.set_skill_lvl(40, 2, |exp| exp);
    assert_eq!(data.get_skill_lvl(40, |exp| exp), Some(2));
    assert_eq!(data.get_skill_lvl(12, |exp| exp), Some(7));
    let out = data.store().unwrap();
    let sheet = get_json(&out, "CharacterSheet", "av1").unwrap();
    assert_eq!(sheet["sk2"]["40"], json(r#"{"m":0,"t":"2020-01-02T03:04:05","x":250}"#));
    assert_eq!(sheet["sk2"]["12"], json(r#"{"m":3,"t":"2020-01-02T03:04:05","x":5000}"#));
}

#[test]
fn a_skill_that_is_no_object_cannot_be_set() {
    let sheet = r#"{"ae":1,"sk2":{"1":{"t":1},"2":7,"3":null}}"#;
    let text = save_text(r#"{"dc":"av1"}"#, r#"{"mainbp":"bp1"}"#, sheet, STORE, GOLD);
    let mut data = load(&text).ok().unwrap();
    assert!(data.can_set_skill(1));
    assert!(!data.can_set_skill(2));
    assert!(data.can_set_skill(3));
    data.set_skill_lvl(3, 1, |exp| exp);
    let out = data.store().unwrap();
    let sheet = get_json(&out, "CharacterSheet", "av1").unwrap();
    assert_eq!(sheet["sk2"]["3"], json(r#"{"x":100}"#));
}

#[test]
fn inventory_is_read_and_written_through_the_document() {
    let mut data = sample();
    let mut items = data.get_inventory_items();
    items.sort_by(|a, b| a.id.cmp(&b.id));
    assert_eq!(items.len(), 2);
    assert_eq!(items[0].id, "i1");
    assert_eq!(items[0].name, "LongSword");
    assert_eq!(items[0].cnt, 2);
    assert_eq!(items[1].name, "Bag");
    assert!(items[1].bag);
    assert!(data.can_set_item("i1"));
    assert!(data.can_set_item("i3"));
    assert!(!data.can_set_item("nothing"));
    items[0].cnt = 40;
    items[0].dur.as_mut().unwrap().minor = Value::from(3.5);
    data.set_inventory_items(&items);
    let out = data.store().unwrap();
    let store = get_json(&out, "ItemStore", "bp1").unwrap();
    let mut expected = json(STORE);
    expected["in"]["i1"]["in"]["qn"] = json("40");
    expected["in"]["i1"]["in"]["hp"] = json("3.5");
    assert_eq!(store, expected);
    let again = load(&String::from_utf8(out).unwrap()).ok().unwrap();
    let mut items = again.get_inventory_items();
    items.sort_by(|a, b| a.id.cmp(&b.id));
    assert_eq!(items[0].cnt, 40);
}

#[test]
fn store_error_messages() {
    assert_eq!(StoreError::CharacterSheet.message(), "Unable to set CharacterSheet");
    assert_eq!(StoreError::ItemStore.message(), "Unable to set ItemStore");
    assert_eq!(StoreError::UserGold.message(), "Unable to set UserGold");
}

#[test]
fn a_terminator_inside_a_string_breaks_the_stored_text() {
    // The escape keeps the closing tag out of the text that is loaded, but not
    // out of the text that is written.
    let sheet = r#"{"ae":1,"note":"\u003c/record>","sk2":{"1":{"t":1}}}"#;
    let text = save_text(r#"{"dc":"av1"}"#, r#"{"mainbp":"bp1"}"#, sheet, STORE, GOLD);
    let data = load(&text).ok().unwrap();
    let out = String::from_utf8(data.store().unwrap()).unwrap();
    assert!(out.contains(r#""note":"</record>""#));
    assert_eq!(load_error(&out), LoadError::NoCharacterSheet);
}
