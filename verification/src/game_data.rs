//! The save-game document: loading it from the text of a save file, reading and
//! changing gold, experience, skills and inventory, and writing the changes back
//! into the text.

use crate::decimal::{decimal, decimal_text, digits_i64, lemma_decimal_injective, parse_digits};
use crate::exp_table::{level_for, lemma_level_of_threshold, valid_table, ExpTable, LEVEL_COUNT};
use crate::inventory::{
    is_projection, item_map, item_views, item_writable, read_items, with_items, write_items,
};
pub use crate::inventory::{Durability, Item};
use crate::json::{
    as_i64, as_str, from_i64, get, int_i64, is_null, is_object, json_of, json_parsed, json_text, member,
    member_names, members, null, parse, remove_member, set_member, takes_members, to_text,
    with_member, without_member, Json, Number,
};
use crate::locator::{locate, payload_range, record_payload, replace_range, splice};
use serde_json::Value;
use vstd::prelude::*;
use vstd::string::*;
use vstd::utf8::encode_utf8;

verus! {

/// The integer that a JSON value stands for as an amount of experience or gold: a
/// number that is an integer within `i64`, or a string of digits that write one.
pub open spec fn integer_of(j: Json) -> Option<i64> {
    match j {
        Json::Number(_) => int_i64(j),
        Json::String(s) => digits_i64(s),
        _ => None,
    }
}

/// The integer under `key` in `j`, where there is one.
pub open spec fn integer_member(j: Json, key: Seq<char>) -> Option<i64> {
    match member(j, key) {
        Some(x) => integer_of(x),
        None => None,
    }
}

/// The string under `key` in `j`, where there is one.
pub open spec fn string_member(j: Json, key: Seq<char>) -> Option<Seq<char>> {
    match member(j, key) {
        Some(Json::String(s)) => Some(s),
        _ => None,
    }
}

/// The integer that `v` stands for: that of a number, or of a string of digits.
pub fn to_i64(v: &Value) -> (r: Option<i64>)
    ensures
        r == integer_of(json_of(*v)),
{
    match as_str(v) {
        Some(text) => parse_digits(text),
        None => as_i64(v),
    }
}

/// The JSON value that the record `id` of the collection `collection` holds in
/// `text`: what its payload reads as. There is none where the record is not found
/// or its payload is no JSON.
pub open spec fn record_json(text: Seq<u8>, collection: Seq<u8>, id: Seq<u8>) -> Option<Json> {
    match record_payload(text, collection, id) {
        Some(payload) => json_parsed(payload),
        None => None,
    }
}

/// `text` with the payload of the record `id` of the collection `collection`
/// replaced by the compact text of `j`, and every other byte as it was. There is
/// none where the record is not found.
pub open spec fn record_replaced(text: Seq<u8>, collection: Seq<u8>, id: Seq<u8>, j: Json) -> Option<
    Seq<u8>,
> {
    match payload_range(text, collection, id) {
        Some((start, end)) => Some(splice(text, start, end, json_text(j))),
        None => None,
    }
}

/// Reads the JSON value of the record `id` of the collection `collection`.
pub fn get_json(text: &[u8], collection: &str, id: &str) -> (r: Option<Value>)
    ensures
        match r {
            Some(v) => record_json(text@, collection.spec_bytes(), id.spec_bytes()) == Some(
                json_of(v),
            ),
            None => record_json(text@, collection.spec_bytes(), id.spec_bytes()) is None,
        },
{
    match locate(text, collection, id) {
        Some((start, end)) => parse(vstd::slice::slice_subrange(text, start, end)),
        None => None,
    }
}

/// Gives `text` with `val`, written compactly, in place of the payload of the
/// record `id` of the collection `collection`.
pub fn set_json(text: &[u8], collection: &str, id: &str, val: &Value) -> (r: Option<Vec<u8>>)
    ensures
        match r {
            Some(out) => record_replaced(
                text@,
                collection.spec_bytes(),
                id.spec_bytes(),
                json_of(*val),
            ) == Some(out@),
            None => record_replaced(text@, collection.spec_bytes(), id.spec_bytes(), json_of(*val))
                is None,
        },
{
    match locate(text, collection, id) {
        Some((start, end)) => {
            let payload = to_text(val);
            Some(replace_range(text, start, end, payload.as_slice()))
        },
        None => None,
    }
}

/// The id of the avatar: the string under `dc` in the user's record.
pub open spec fn avatar_id(text: Seq<u8>) -> Option<Seq<char>> {
    match record_json(text, "User".spec_bytes(), "000000000000000000000001".spec_bytes()) {
        Some(j) => string_member(j, "dc"@),
        None => None,
    }
}

/// The id of the avatar's backpack: the string under `mainbp` in the avatar's
/// record of the collection of characters.
pub open spec fn backpack_id(text: Seq<u8>, avatar: Seq<u8>) -> Option<Seq<char>> {
    match record_json(text, "Character".spec_bytes(), avatar) {
        Some(j) => string_member(j, "mainbp"@),
        None => None,
    }
}

/// The string under `key` in `v`, where there is one.
fn get_string(v: &Value, key: &str) -> (r: Option<String>)
    ensures
        match r {
            Some(s) => string_member(json_of(*v), key@) == Some(s@),
            None => string_member(json_of(*v), key@) is None,
        },
{
    match get(v, key) {
        Some(x) => match as_str(x) {
            Some(s) => Some(s.to_owned()),
            None => None,
        },
        None => None,
    }
}

/// Reads the id of the avatar from the user's record.
pub fn get_avatar_id(text: &[u8]) -> (r: Option<String>)
    ensures
        match r {
            Some(id) => avatar_id(text@) == Some(id@),
            None => avatar_id(text@) is None,
        },
{
    match get_json(text, "User", "000000000000000000000001") {
        Some(json) => get_string(&json, "dc"),
        None => None,
    }
}

/// Reads the id of the backpack from the avatar's record.
pub fn get_backpack_id(text: &[u8], avatar: &str) -> (r: Option<String>)
    ensures
        match r {
            Some(id) => backpack_id(text@, avatar.spec_bytes()) == Some(id@),
            None => backpack_id(text@, avatar.spec_bytes()) is None,
        },
{
    match get_json(text, "Character", avatar) {
        Some(json) => get_string(&json, "mainbp"),
        None => None,
    }
}

/// `date` is the value under `t` of some member of `skills`.
pub open spec fn is_date_of(skills: Json, date: Json) -> bool {
    exists|k: Seq<char>| #[trigger]
        members(skills).dom().contains(k) && member(members(skills)[k], "t"@) == Some(date)
}

/// Some member of `skills` has a value under `t`.
pub open spec fn has_date(skills: Json) -> bool {
    exists|k: Seq<char>| #[trigger]
        members(skills).dom().contains(k) && member(members(skills)[k], "t"@) is Some
}

/// Looks through the members of `val` for one that has a value under `t`, and
/// gives that value. The members come in no stated order, and the first that has
/// one decides.
pub fn find_date(val: &Value) -> (r: Option<Value>)
    ensures
        match r {
            Some(d) => is_date_of(json_of(*val), json_of(d)),
            None => !has_date(json_of(*val)),
        },
{
    let names = member_names(val);
    let mut i: usize = 0;
    while i < names.len()
        invariant
            i <= names@.len(),
            forall|k: Seq<char>|
                members(json_of(*val)).dom().contains(k) <==> exists|n: int|
                    0 <= n < names@.len() && (#[trigger] names@[n])@ == k,
            forall|n: int|
                0 <= n < i ==> member(members(json_of(*val))[(#[trigger] names@[n])@], "t"@)
                    is None,
        decreases names@.len() - i,
    {
        let name = names[i].as_str();
        assert(members(json_of(*val)).dom().contains(names@[i as int]@));
        match get(val, name) {
            Some(entry) => match get(entry, "t") {
                Some(date) => {
                    return Some(date.clone());
                },
                None => {},
            },
            None => {},
        }
        i = i + 1;
    }
    None
}

/// Why a save file could not be loaded.
#[derive(Clone, Copy, Debug, PartialEq, Eq, Structural)]
pub enum LoadError {
    /// The user's record is not found, is no JSON, or names no avatar.
    NoAvatar,
    /// The avatar's record is not found, is no JSON, or names no backpack.
    NoBackpack,
    /// The character sheet is not found or is no JSON.
    NoCharacterSheet,
    /// The character sheet is no object.
    BadCharacterSheet,
    /// The item store is not found or is no JSON.
    NoInventory,
    /// The item store is no object.
    BadInventory,
    /// The record of the gold is not found or is no JSON.
    NoGold,
    /// The record of the gold is no object.
    BadGold,
    /// The character sheet states no adventurer experience that is an integer.
    BadAdventurerExp,
    /// The character sheet has no skills.
    NoSkills,
    /// The skills are no object.
    BadSkills,
    /// No skill states a time.
    NoDate,
}

impl LoadError {
    /// What to tell the user.
    pub open spec fn message_text(self) -> Seq<char> {
        match self {
            LoadError::NoAvatar => "Unable to determine the current avatar"@,
            LoadError::NoBackpack => "Unable to find the avatar's backpack"@,
            LoadError::NoCharacterSheet => "Unable to find character sheet"@,
            LoadError::BadCharacterSheet => "Error reading character sheet"@,
            LoadError::NoInventory => "Unable to find inventory"@,
            LoadError::BadInventory => "Error reading inventory"@,
            LoadError::NoGold => "Unable to find user gold"@,
            LoadError::BadGold => "Error reading user gold"@,
            LoadError::BadAdventurerExp => "Unable to parse adventurer experience"@,
            LoadError::NoSkills => "Unable to find skills"@,
            LoadError::BadSkills => "Error reading skills"@,
            LoadError::NoDate => "Unable to parse the date/time"@,
        }
    }

    /// What to tell the user.
    pub fn message(&self) -> (r: &'static str)
        ensures
            r@ == self.message_text(),
    {
        match self {
            LoadError::NoAvatar => "Unable to determine the current avatar",
            LoadError::NoBackpack => "Unable to find the avatar's backpack",
            LoadError::NoCharacterSheet => "Unable to find character sheet",
            LoadError::BadCharacterSheet => "Error reading character sheet",
            LoadError::NoInventory => "Unable to find inventory",
            LoadError::BadInventory => "Error reading inventory",
            LoadError::NoGold => "Unable to find user gold",
            LoadError::BadGold => "Error reading user gold",
            LoadError::BadAdventurerExp => "Unable to parse adventurer experience",
            LoadError::NoSkills => "Unable to find skills",
            LoadError::BadSkills => "Error reading skills",
            LoadError::NoDate => "Unable to parse the date/time",
        }
    }
}

/// Why the text of a save file could not be written: the record named is no
/// longer found in the text.
#[derive(Clone, Copy, Debug, PartialEq, Eq, Structural)]
pub enum StoreError {
    CharacterSheet,
    ItemStore,
    UserGold,
}

impl StoreError {
    /// What to tell the user.
    pub open spec fn message_text(self) -> Seq<char> {
        match self {
            StoreError::CharacterSheet => "Unable to set CharacterSheet"@,
            StoreError::ItemStore => "Unable to set ItemStore"@,
            StoreError::UserGold => "Unable to set UserGold"@,
        }
    }

    /// What to tell the user.
    pub fn message(&self) -> (r: &'static str)
        ensures
            r@ == self.message_text(),
    {
        match self {
            StoreError::CharacterSheet => "Unable to set CharacterSheet",
            StoreError::ItemStore => "Unable to set ItemStore",
            StoreError::UserGold => "Unable to set UserGold",
        }
    }
}

/// What loading reads out of the text of a save file.
pub ghost struct Sections {
    pub avatar: Seq<char>,
    pub backpack: Seq<char>,
    pub character: Json,
    pub inventory: Json,
    pub gold: Json,
}

/// What loading makes of `text`: the sections, or the first thing that is wrong.
/// The steps are, in order: the avatar's id from the user's record; the
/// backpack's id from the avatar's record; the character sheet, under the
/// avatar's id, which must be an object; the item store, under the backpack's id,
/// which must be an object; the gold, under the user's id, which must be an
/// object; the adventurer experience of the sheet, which must be an integer; the
/// skills of the sheet, which must be an object; and a time in one of the skills.
pub open spec fn load_outcome(text: Seq<u8>) -> Result<Sections, LoadError> {
    let user = "000000000000000000000001".spec_bytes();
    let avatar = avatar_id(text);
    let backpack = backpack_id(text, encode_utf8(avatar->Some_0));
    let character = record_json(text, "CharacterSheet".spec_bytes(), encode_utf8(avatar->Some_0));
    let inventory = record_json(text, "ItemStore".spec_bytes(), encode_utf8(backpack->Some_0));
    let gold = record_json(text, "UserGold".spec_bytes(), user);
    let skills = member(character->Some_0, "sk2"@);
    if avatar is None {
        Err(LoadError::NoAvatar)
    } else if backpack is None {
        Err(LoadError::NoBackpack)
    } else if character is None {
        Err(LoadError::NoCharacterSheet)
    } else if !(character->Some_0 is Object) {
        Err(LoadError::BadCharacterSheet)
    } else if inventory is None {
        Err(LoadError::NoInventory)
    } else if !(inventory->Some_0 is Object) {
        Err(LoadError::BadInventory)
    } else if gold is None {
        Err(LoadError::NoGold)
    } else if !(gold->Some_0 is Object) {
        Err(LoadError::BadGold)
    } else if integer_member(character->Some_0, "ae"@) is None {
        Err(LoadError::BadAdventurerExp)
    } else if skills is None {
        Err(LoadError::NoSkills)
    } else if !(skills->Some_0 is Object) {
        Err(LoadError::BadSkills)
    } else if !has_date(skills->Some_0) {
        Err(LoadError::NoDate)
    } else {
        Ok(
            Sections {
                avatar: avatar->Some_0,
                backpack: backpack->Some_0,
                character: character->Some_0,
                inventory: inventory->Some_0,
                gold: gold->Some_0,
            },
        )
    }
}

/// The key under which the skills hold the skill `id`: the id in decimal.
pub open spec fn skill_key(id: u64) -> Seq<char> {
    decimal(id as nat)
}

/// The experience that `skills` hold for the skill `id`: the integer under `x` of
/// the skill's entry.
pub open spec fn skill_exp(skills: Json, id: u64) -> Option<i64> {
    match member(skills, skill_key(id)) {
        Some(entry) => integer_member(entry, "x"@),
        None => None,
    }
}

/// The entry of a skill that is new: no mastery, the time `date`, and the
/// experience `exp`.
pub open spec fn new_skill(date: Json, exp: i64) -> Json {
    with_member(
        with_member(with_member(Json::Null, "m"@, Json::Number(Number::Int(0))), "t"@, date),
        "x"@,
        Json::Number(Number::Int(exp as int)),
    )
}

/// `skills` with the experience of the skill `id` set to `exp`: an entry that is
/// there gets `exp` under `x` and keeps the rest; where there is none, a new one
/// is made, with the time `date`.
pub open spec fn skills_with_exp(skills: Json, date: Json, id: u64, exp: i64) -> Json {
    match member(skills, skill_key(id)) {
        Some(entry) => with_member(
            skills,
            skill_key(id),
            with_member(entry, "x"@, Json::Number(Number::Int(exp as int))),
        ),
        None => with_member(skills, skill_key(id), new_skill(date, exp)),
    }
}

/// The entry of the skill `id`, if there is one, can take an experience: it is an
/// object, or null.
pub open spec fn skill_writable(skills: Json, id: u64) -> bool {
    match member(skills, skill_key(id)) {
        Some(entry) => takes_members(entry),
        None => true,
    }
}

/// Model of a loaded save file.
pub ghost struct Document {
    /// The text of the save file as it was loaded.
    pub text: Seq<u8>,
    /// The id of the avatar.
    pub avatar: Seq<char>,
    /// The id of the avatar's backpack.
    pub backpack: Seq<char>,
    /// The character sheet.
    pub character: Json,
    /// The item store.
    pub inventory: Json,
    /// The record of the gold.
    pub gold: Json,
    /// The time that a new skill gets.
    pub date: Json,
    /// The thresholds of the adventurer and producer levels.
    pub level_exp: Seq<i64>,
    /// The thresholds of the skill levels, before a skill's multiplier.
    pub skill_exp: Seq<i64>,
}

impl Document {
    /// What every loaded document satisfies, and every change keeps: the three
    /// sections are objects, the sheet states an adventurer experience and holds
    /// the skills as an object, and the tables are valid.
    pub open spec fn wf(self) -> bool {
        &&& self.character is Object
        &&& self.inventory is Object
        &&& self.gold is Object
        &&& integer_member(self.character, "ae"@) is Some
        &&& member(self.character, "sk2"@) matches Some(skills) && skills is Object
        &&& valid_table(self.level_exp)
        &&& valid_table(self.skill_exp)
    }

    /// The skills of the character sheet.
    pub open spec fn skills(self) -> Json {
        member(self.character, "sk2"@)->Some_0
    }

    /// The gold: the integer under `g`.
    pub open spec fn gold_amount(self) -> Option<i64> {
        integer_member(self.gold, "g"@)
    }

    /// The document with `gold` as its gold.
    pub open spec fn with_gold(self, gold: i32) -> Document {
        Document {
            gold: with_member(self.gold, "g"@, Json::Number(Number::Int(gold as int))),
            ..self
        }
    }

    /// The adventurer level: the level that the experience under `ae` reaches.
    pub open spec fn adv_lvl(self) -> Option<i32> {
        match integer_member(self.character, "ae"@) {
            Some(exp) => level_for(self.level_exp, exp),
            None => None,
        }
    }

    /// The producer level: the level that the experience under `pe` reaches.
    pub open spec fn prd_lvl(self) -> Option<i32> {
        match integer_member(self.character, "pe"@) {
            Some(exp) => level_for(self.level_exp, exp),
            None => None,
        }
    }

    /// The document with the threshold of the level `lvl` as its adventurer
    /// experience.
    pub open spec fn with_adv_lvl(self, lvl: i32) -> Document {
        Document {
            character: with_member(
                self.character,
                "ae"@,
                Json::Number(Number::Int(self.level_exp[lvl - 1] as int)),
            ),
            ..self
        }
    }

    /// The document with the threshold of the level `lvl` as its producer
    /// experience.
    pub open spec fn with_prd_lvl(self, lvl: i32) -> Document {
        Document {
            character: with_member(
                self.character,
                "pe"@,
                Json::Number(Number::Int(self.level_exp[lvl - 1] as int)),
            ),
            ..self
        }
    }

    /// The document with `exp` as the experience of the skill `id`.
    pub open spec fn with_skill_exp(self, id: u64, exp: i64) -> Document {
        Document {
            character: with_member(
                self.character,
                "sk2"@,
                skills_with_exp(self.skills(), self.date, id, exp),
            ),
            ..self
        }
    }

    /// The document without the skill `id`.
    pub open spec fn without_skill(self, id: u64) -> Document {
        Document {
            character: with_member(
                self.character,
                "sk2"@,
                without_member(self.skills(), skill_key(id)),
            ),
            ..self
        }
    }

    /// The document with `items` written into its item store.
    pub open spec fn with_items(self, items: Seq<Item>) -> Document {
        Document { inventory: with_items(self.inventory, item_views(items)), ..self }
    }

    /// The text with the three sections written into it, or the first record that
    /// is not found. The character sheet goes in first, then the item store into
    /// the text that results, then the gold into the text that results from that.
    pub open spec fn stored_text(self) -> Result<Seq<u8>, StoreError> {
        match record_replaced(
            self.text,
            "CharacterSheet".spec_bytes(),
            encode_utf8(self.avatar),
            self.character,
        ) {
            None => Err(StoreError::CharacterSheet),
            Some(first) => match record_replaced(
                first,
                "ItemStore".spec_bytes(),
                encode_utf8(self.backpack),
                self.inventory,
            ) {
                None => Err(StoreError::ItemStore),
                Some(second) => match record_replaced(
                    second,
                    "UserGold".spec_bytes(),
                    "000000000000000000000001".spec_bytes(),
                    self.gold,
                ) {
                    None => Err(StoreError::UserGold),
                    Some(third) => Ok(third),
                },
            },
        }
    }
}

/// The experience that `skills` hold for the skill `id`.
pub fn get_skill_exp(skills: &Value, id: u64) -> (r: Option<i64>)
    ensures
        r == skill_exp(json_of(*skills), id),
{
    let key = decimal_text(id);
    match get(skills, key.as_str()) {
        Some(skill) => match get(skill, "x") {
            Some(exp) => to_i64(exp),
            None => None,
        },
        None => None,
    }
}

/// The level of the skill `id`: the level that its experience reaches in `table`
/// once `unscale` has taken the skill's multiplier out of it. There is none where
/// the skill is absent, states no experience, or lies below the first threshold.
pub fn get_skill_lvl<F: Fn(i64) -> i64>(skills: &Value, id: u64, table: &ExpTable, unscale: F) -> (r:
    Option<i32>)
    requires
        skill_exp(json_of(*skills), id) matches Some(raw) ==> unscale.requires((raw,)),
    ensures
        match skill_exp(json_of(*skills), id) {
            Some(raw) => exists|exp: i64|
                unscale.ensures((raw,), exp) && r == level_for(table@, exp),
            None => r is None,
        },
{
    match get_skill_exp(skills, id) {
        Some(raw) => {
            let exp = unscale(raw);
            table.level_of(exp)
        },
        None => None,
    }
}

/// A save file that was loaded: its text, the three sections that can be changed,
/// and the tables that turn experience into levels.
pub struct GameData {
    text: Vec<u8>,
    avatar: String,
    backpack: String,
    character: Value,
    inventory: Value,
    gold: Value,
    date: Value,
    level_exp: ExpTable,
    skill_exp: ExpTable,
}

impl View for GameData {
    type V = Document;

    closed spec fn view(&self) -> Document {
        Document {
            text: self.text@,
            avatar: self.avatar@,
            backpack: self.backpack@,
            character: json_of(self.character),
            inventory: json_of(self.inventory),
            gold: json_of(self.gold),
            date: json_of(self.date),
            level_exp: self.level_exp@,
            skill_exp: self.skill_exp@,
        }
    }
}

impl GameData {
    /// The document is well formed. This holds of every document there is.
    #[verifier::type_invariant]
    closed spec fn inv(self) -> bool {
        self@.wf()
    }

    /// Loads the save file whose text is `text`. `level_exp` holds the thresholds
    /// of the adventurer and producer levels, `skill_exp` those of the skill
    /// levels. Nothing is loaded unless everything is in order.
    pub fn load(text: Vec<u8>, level_exp: ExpTable, skill_exp: ExpTable) -> (r: Result<
        GameData,
        LoadError,
    >)
        ensures
            match r {
                Ok(data) => {
                    &&& load_outcome(text@) matches Ok(sections)
                    &&& data@.text == text@
                    &&& data@.avatar == sections.avatar
                    &&& data@.backpack == sections.backpack
                    &&& data@.character == sections.character
                    &&& data@.inventory == sections.inventory
                    &&& data@.gold == sections.gold
                    &&& is_date_of(data@.skills(), data@.date)
                    &&& data@.level_exp == level_exp@
                    &&& data@.skill_exp == skill_exp@
                    &&& data@.wf()
                },
                Err(e) => load_outcome(text@) == Err::<Sections, LoadError>(e),
            },
    {
        let avatar = match get_avatar_id(text.as_slice()) {
            Some(id) => id,
            None => { return Err(LoadError::NoAvatar); },
        };
        let backpack = match get_backpack_id(text.as_slice(), avatar.as_str()) {
            Some(id) => id,
            None => { return Err(LoadError::NoBackpack); },
        };
        let character = match get_json(text.as_slice(), "CharacterSheet", avatar.as_str()) {
            Some(v) => v,
            None => { return Err(LoadError::NoCharacterSheet); },
        };
        if !is_object(&character) {
            return Err(LoadError::BadCharacterSheet);
        }
        let inventory = match get_json(text.as_slice(), "ItemStore", backpack.as_str()) {
            Some(v) => v,
            None => { return Err(LoadError::NoInventory); },
        };
        if !is_object(&inventory) {
            return Err(LoadError::BadInventory);
        }
        let gold = match get_json(text.as_slice(), "UserGold", "000000000000000000000001") {
            Some(v) => v,
            None => { return Err(LoadError::NoGold); },
        };
        if !is_object(&gold) {
            return Err(LoadError::BadGold);
        }
        let adventurer = match get(&character, "ae") {
            Some(exp) => to_i64(exp),
            None => None,
        };
        if adventurer.is_none() {
            return Err(LoadError::BadAdventurerExp);
        }
        let date = match get(&character, "sk2") {
            Some(skills) => {
                if !is_object(skills) {
                    return Err(LoadError::BadSkills);
                }
                match find_date(skills) {
                    Some(date) => date,
                    None => { return Err(LoadError::NoDate); },
                }
            },
            None => { return Err(LoadError::NoSkills); },
        };
        let _ = level_exp.thresholds();
        let _ = skill_exp.thresholds();
        Ok(
            GameData {
                text,
                avatar,
                backpack,
                character,
                inventory,
                gold,
                date,
                level_exp,
                skill_exp,
            },
        )
    }

    /// Gives the text of the save file with the three sections written into it,
    /// each in place of the payload of its record, and every other byte as it was
    /// loaded.
    pub fn store(&self) -> (r: Result<Vec<u8>, StoreError>)
        ensures
            match r {
                Ok(out) => self@.stored_text() == Ok::<Seq<u8>, StoreError>(out@),
                Err(e) => self@.stored_text() == Err::<Seq<u8>, StoreError>(e),
            },
    {
        let first = match set_json(
            self.text.as_slice(),
            "CharacterSheet",
            self.avatar.as_str(),
            &self.character,
        ) {
            Some(out) => out,
            None => { return Err(StoreError::CharacterSheet); },
        };
        let second = match set_json(
            first.as_slice(),
            "ItemStore",
            self.backpack.as_str(),
            &self.inventory,
        ) {
            Some(out) => out,
            None => { return Err(StoreError::ItemStore); },
        };
        match set_json(second.as_slice(), "UserGold", "000000000000000000000001", &self.gold) {
            Some(out) => Ok(out),
            None => Err(StoreError::UserGold),
        }
    }

    /// The gold as the record states it, or none where the record states none
    /// that is an integer.
    pub fn get_gold(&self) -> (r: Option<i64>)
        ensures
            r == self@.gold_amount(),
    {
        match get(&self.gold, "g") {
            Some(gold) => to_i64(gold),
            None => None,
        }
    }

    /// Sets the gold.
    pub fn set_gold(&mut self, gold: i32)
        ensures
            final(self)@ == old(self)@.with_gold(gold),
            final(self)@.wf(),
    {
        proof {
            use_type_invariant(&*self);
        }
        let mut record = self.gold.clone();
        set_member(&mut record, "g", from_i64(gold as i64));
        self.gold = record;
    }

    /// The level of the skill `id`, with `unscale` taking the skill's multiplier
    /// out of its experience.
    pub fn get_skill_lvl<F: Fn(i64) -> i64>(&self, id: u64, unscale: F) -> (r: Option<i32>)
        requires
            skill_exp(self@.skills(), id) matches Some(raw) ==> unscale.requires((raw,)),
        ensures
            match skill_exp(self@.skills(), id) {
                Some(raw) => exists|exp: i64|
                    unscale.ensures((raw,), exp) && r == level_for(self@.skill_exp, exp),
                None => r is None,
            },
    {
        proof {
            use_type_invariant(self);
        }
        get_skill_lvl(get(&self.character, "sk2").unwrap(), id, &self.skill_exp, unscale)
    }

    /// Tells whether the skill `id` can be given a level: whether it is absent, or
    /// its entry is an object or null.
    pub fn can_set_skill(&self, id: u64) -> (r: bool)
        ensures
            r == skill_writable(self@.skills(), id),
    {
        proof {
            use_type_invariant(self);
        }
        let key = decimal_text(id);
        match get(get(&self.character, "sk2").unwrap(), key.as_str()) {
            Some(entry) => is_object(entry) || is_null(entry),
            None => true,
        }
    }

    /// Sets the level of the skill `id`. Level 0 removes the skill. Any other
    /// level gives it the experience that `scale` makes of the level's
    /// threshold, by the skill's multiplier; a skill that was absent starts with
    /// no mastery and the document's time.
    pub fn set_skill_lvl<F: Fn(i64) -> i64>(&mut self, id: u64, lvl: i32, scale: F)
        requires
            0 <= lvl <= LEVEL_COUNT,
            lvl > 0 ==> skill_writable(old(self)@.skills(), id),
            lvl > 0 ==> scale.requires((old(self)@.skill_exp[lvl - 1],)),
        ensures
            lvl == 0 ==> final(self)@ == old(self)@.without_skill(id),
            lvl > 0 ==> exists|exp: i64|
                scale.ensures((old(self)@.skill_exp[lvl - 1],), exp) && final(self)@ == old(
                    self,
                )@.with_skill_exp(id, exp),
            final(self)@.wf(),
    {
        if lvl == 0 {
            self.remove_skill(id);
        } else {
            let exp = scale(self.skill_exp.threshold(lvl));
            self.set_skill_exp(id, exp);
        }
    }

    /// The adventurer level, or none where the experience lies below the first
    /// threshold.
    pub fn get_adv_lvl(&self) -> (r: Option<i32>)
        ensures
            r == self@.adv_lvl(),
    {
        match self.get_adv_exp() {
            Some(exp) => self.level_exp.level_of(exp),
            None => None,
        }
    }

    /// Sets the adventurer level: the experience becomes the threshold of `lvl`.
    pub fn set_adv_lvl(&mut self, lvl: i32)
        requires
            1 <= lvl <= LEVEL_COUNT,
        ensures
            final(self)@ == old(self)@.with_adv_lvl(lvl),
            final(self)@.wf(),
    {
        let exp = self.level_exp.threshold(lvl);
        self.set_adv_exp(exp);
    }

    /// The producer level, or none where the sheet states no producer experience
    /// that is an integer, or the experience lies below the first threshold.
    pub fn get_prd_lvl(&self) -> (r: Option<i32>)
        ensures
            r == self@.prd_lvl(),
    {
        match self.get_prd_exp() {
            Some(exp) => self.level_exp.level_of(exp),
            None => None,
        }
    }

    /// Sets the producer level: the experience becomes the threshold of `lvl`.
    pub fn set_prd_lvl(&mut self, lvl: i32)
        requires
            1 <= lvl <= LEVEL_COUNT,
        ensures
            final(self)@ == old(self)@.with_prd_lvl(lvl),
            final(self)@.wf(),
    {
        let exp = self.level_exp.threshold(lvl);
        self.set_prd_exp(exp);
    }

    /// The items of the inventory, each entry of the store once, in no stated
    /// order. An entry without a name or a quantity is left out.
    pub fn get_inventory_items(&self) -> (r: Vec<Item>)
        ensures
            is_projection(item_views(r@), item_map(self@.inventory)),
    {
        read_items(&self.inventory)
    }

    /// Tells whether the item with the id `id` can be written: whether the store
    /// has an entry for it whose inner object is an object or null.
    pub fn can_set_item(&self, id: &str) -> (r: bool)
        ensures
            r == item_writable(self@.inventory, id@),
    {
        match get(&self.inventory, "in") {
            Some(store) => match get(store, id) {
                Some(entry) => match get(entry, "in") {
                    Some(inner) => is_object(inner) || is_null(inner),
                    None => false,
                },
                None => false,
            },
            None => false,
        }
    }

    /// Writes the counts of `items`, and their durabilities where they have one,
    /// into the entries of the store. Each item must have its entry.
    pub fn set_inventory_items(&mut self, items: &Vec<Item>)
        requires
            forall|i: int|
                0 <= i < items@.len() ==> item_writable(
                    old(self)@.inventory,
                    (#[trigger] items@[i])@.id,
                ),
        ensures
            final(self)@ == old(self)@.with_items(items@),
            final(self)@.wf(),
    {
        proof {
            use_type_invariant(&*self);
        }
        let mut inventory = self.inventory.clone();
        write_items(&mut inventory, items);
        proof {
            lemma_with_items_is_object(json_of(self.inventory), item_views(items@));
        }
        self.inventory = inventory;
    }

    /// Sets the experience of the skill `id`, and makes the skill where it is
    /// absent.
    fn set_skill_exp(&mut self, id: u64, exp: i64)
        requires
            skill_writable(old(self)@.skills(), id),
        ensures
            final(self)@ == old(self)@.with_skill_exp(id, exp),
            final(self)@.wf(),
    {
        proof {
            use_type_invariant(&*self);
        }
        let key = decimal_text(id);
        let mut skills = get(&self.character, "sk2").unwrap().clone();
        let skill = match get(&skills, key.as_str()) {
            Some(skill) => {
                let mut skill = skill.clone();
                set_member(&mut skill, "x", from_i64(exp));
                skill
            },
            None => {
                let mut skill = null();
                set_member(&mut skill, "m", from_i64(0));
                set_member(&mut skill, "t", self.date.clone());
                set_member(&mut skill, "x", from_i64(exp));
                skill
            },
        };
        set_member(&mut skills, key.as_str(), skill);
        proof {
            lemma_keeps_adventurer_exp(json_of(self.character), json_of(skills));
        }
        let mut character = self.character.clone();
        set_member(&mut character, "sk2", skills);
        self.character = character;
    }

    /// Removes the skill `id`, if it is there.
    fn remove_skill(&mut self, id: u64)
        ensures
            final(self)@ == old(self)@.without_skill(id),
            final(self)@.wf(),
    {
        proof {
            use_type_invariant(&*self);
        }
        let key = decimal_text(id);
        let mut skills = get(&self.character, "sk2").unwrap().clone();
        remove_member(&mut skills, key.as_str());
        proof {
            lemma_keeps_adventurer_exp(json_of(self.character), json_of(skills));
        }
        let mut character = self.character.clone();
        set_member(&mut character, "sk2", skills);
        self.character = character;
    }

    /// The adventurer experience.
    fn get_adv_exp(&self) -> (r: Option<i64>)
        ensures
            r == integer_member(self@.character, "ae"@),
    {
        match get(&self.character, "ae") {
            Some(exp) => to_i64(exp),
            None => None,
        }
    }

    /// Sets the adventurer experience.
    fn set_adv_exp(&mut self, exp: i64)
        ensures
            final(self)@ == (Document {
                character: with_member(
                    old(self)@.character,
                    "ae"@,
                    Json::Number(Number::Int(exp as int)),
                ),
                ..old(self)@
            }),
            final(self)@.wf(),
    {
        proof {
            use_type_invariant(&*self);
            lemma_key_names();
        }
        let mut character = self.character.clone();
        set_member(&mut character, "ae", from_i64(exp));
        self.character = character;
    }

    /// The producer experience, where the sheet states one.
    fn get_prd_exp(&self) -> (r: Option<i64>)
        ensures
            r == integer_member(self@.character, "pe"@),
    {
        match get(&self.character, "pe") {
            Some(exp) => to_i64(exp),
            None => None,
        }
    }

    /// Sets the producer experience.
    fn set_prd_exp(&mut self, exp: i64)
        ensures
            final(self)@ == (Document {
                character: with_member(
                    old(self)@.character,
                    "pe"@,
                    Json::Number(Number::Int(exp as int)),
                ),
                ..old(self)@
            }),
            final(self)@.wf(),
    {
        proof {
            use_type_invariant(&*self);
            lemma_key_names();
        }
        let mut character = self.character.clone();
        set_member(&mut character, "pe", from_i64(exp));
        self.character = character;
    }
}

/// The keys of the character sheet that this library writes differ from each
/// other.
pub proof fn lemma_key_names()
    ensures
        "ae"@ != "pe"@,
        "ae"@ != "sk2"@,
        "pe"@ != "sk2"@,
{
    reveal_strlit("ae");
    reveal_strlit("pe");
    reveal_strlit("sk2");
    assert("ae"@.len() == 2);
    assert("sk2"@.len() == 3);
    assert("ae"@[0] == 'a');
    assert("pe"@[0] == 'p');
}

/// Putting new skills into a character sheet leaves its adventurer experience as
/// it is.
proof fn lemma_keeps_adventurer_exp(character: Json, skills: Json)
    ensures
        integer_member(with_member(character, "sk2"@, skills), "ae"@) == integer_member(
            character,
            "ae"@,
        ),
{
    lemma_key_names();
}

/// An item store stays an object whatever is written into it.
proof fn lemma_with_items_is_object(inventory: Json, items: Seq<crate::inventory::ItemView>)
    requires
        inventory is Object,
    ensures
        with_items(inventory, items) is Object,
    decreases items.len(),
{
    if items.len() > 0 {
        lemma_with_items_is_object(inventory, items.drop_last());
    }
}

/// The keys of a skill's entry differ from each other.
pub proof fn lemma_skill_keys()
    ensures
        "m"@ != "t"@,
        "m"@ != "x"@,
        "t"@ != "x"@,
{
    reveal_strlit("m");
    reveal_strlit("t");
    reveal_strlit("x");
    assert("m"@[0] == 'm');
    assert("t"@[0] == 't');
    assert("x"@[0] == 'x');
}

/// Setting the adventurer level and reading it gives the level back, provided the
/// next level asks for strictly more experience than this one.
pub proof fn lemma_adv_lvl_inverse(d: Document, lvl: i32)
    requires
        d.wf(),
        1 <= lvl <= LEVEL_COUNT,
        lvl < LEVEL_COUNT ==> d.level_exp[lvl - 1] < d.level_exp[lvl as int],
    ensures
        d.with_adv_lvl(lvl).adv_lvl() == Some(lvl),
        d.with_adv_lvl(lvl).wf(),
{
    lemma_key_names();
    lemma_level_of_threshold(d.level_exp, lvl as int);
}

/// Setting the producer level and reading it gives the level back, provided the
/// next level asks for strictly more experience than this one.
pub proof fn lemma_prd_lvl_inverse(d: Document, lvl: i32)
    requires
        d.wf(),
        1 <= lvl <= LEVEL_COUNT,
        lvl < LEVEL_COUNT ==> d.level_exp[lvl - 1] < d.level_exp[lvl as int],
    ensures
        d.with_prd_lvl(lvl).prd_lvl() == Some(lvl),
        d.with_prd_lvl(lvl).wf(),
{
    lemma_key_names();
    lemma_level_of_threshold(d.level_exp, lvl as int);
}

/// Giving a skill the threshold of a level as its experience, unscaled, and
/// looking that experience up gives the level back, provided the next level asks
/// for strictly more experience than this one.
pub proof fn lemma_skill_lvl_inverse(d: Document, id: u64, lvl: i32)
    requires
        d.wf(),
        1 <= lvl <= LEVEL_COUNT,
        lvl < LEVEL_COUNT ==> d.skill_exp[lvl - 1] < d.skill_exp[lvl as int],
    ensures
        skill_exp(d.with_skill_exp(id, d.skill_exp[lvl - 1]).skills(), id) == Some(
            d.skill_exp[lvl - 1],
        ),
        level_for(d.skill_exp, d.skill_exp[lvl - 1]) == Some(lvl),
{
    lemma_skill_keys();
    lemma_level_of_threshold(d.skill_exp, lvl as int);
}

/// A skill that was removed has no experience, and so no level.
pub proof fn lemma_removed_skill_is_absent(d: Document, id: u64)
    requires
        d.wf(),
    ensures
        member(d.without_skill(id).skills(), skill_key(id)) is None,
        skill_exp(d.without_skill(id).skills(), id) is None,
        d.without_skill(id).wf(),
{
    lemma_key_names();
}

/// Setting the experience of a skill that was absent makes an entry with no
/// mastery, the document's time, and that experience.
pub proof fn lemma_created_skill(d: Document, id: u64, exp: i64)
    requires
        d.wf(),
        member(d.skills(), skill_key(id)) is None,
    ensures
        member(d.with_skill_exp(id, exp).skills(), skill_key(id)) matches Some(entry) && {
            &&& member(entry, "m"@) == Some(Json::Number(Number::Int(0)))
            &&& member(entry, "t"@) == Some(d.date)
            &&& member(entry, "x"@) == Some(Json::Number(Number::Int(exp as int)))
            &&& members(entry).dom() =~= set!["m"@, "t"@, "x"@]
        },
        d.with_skill_exp(id, exp).wf(),
{
    lemma_key_names();
    lemma_skill_keys();
}

/// Setting the experience of a skill that was there changes only what its entry
/// holds under `x`.
pub proof fn lemma_updated_skill(d: Document, id: u64, exp: i64)
    requires
        d.wf(),
        member(d.skills(), skill_key(id)) is Some,
    ensures
        member(d.with_skill_exp(id, exp).skills(), skill_key(id)) == Some(
            with_member(
                member(d.skills(), skill_key(id))->Some_0,
                "x"@,
                Json::Number(Number::Int(exp as int)),
            ),
        ),
        skill_exp(d.with_skill_exp(id, exp).skills(), id) == Some(exp),
{
}

/// Setting or removing one skill leaves every other skill as it was.
pub proof fn lemma_other_skills_untouched(d: Document, id: u64, other: u64, exp: i64)
    requires
        d.wf(),
        id != other,
    ensures
        member(d.with_skill_exp(id, exp).skills(), skill_key(other)) == member(
            d.skills(),
            skill_key(other),
        ),
        member(d.without_skill(id).skills(), skill_key(other)) == member(
            d.skills(),
            skill_key(other),
        ),
{
    lemma_decimal_injective(id as nat, other as nat);
}

/// The gold that was set is the gold that is read.
pub proof fn lemma_gold_inverse(d: Document, gold: i32)
    requires
        d.wf(),
    ensures
        d.with_gold(gold).gold_amount() == Some(gold as i64),
        d.with_gold(gold).wf(),
{
}

/// Storing is a function of the document: two stores of a document that was not
/// changed in between give the same outcome.
pub proof fn lemma_store_repeats(
    d: Document,
    first: Result<Seq<u8>, StoreError>,
    second: Result<Seq<u8>, StoreError>,
)
    requires
        first == d.stored_text(),
        second == d.stored_text(),
    ensures
        first == second,
{
}

} // verus!
