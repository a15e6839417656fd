//! Storing a document and loading what was stored.
//!
//! The text that is stored is the text that was loaded with the payloads of the
//! three sections replaced. Loading it gives the sections that were stored, and
//! storing those into it changes nothing. This rests on what the format takes
//! for granted, stated here as conditions: the ids of avatar and backpack go
//! into a tag without `<` or `>`; no payload holds the closing tag or, in full,
//! one of the tags by which the records are found; and the text that is written
//! for a section reads back as that section.

use crate::game_data::{
    avatar_id, backpack_id, has_date, load_outcome, record_json, record_replaced, Document,
    LoadError, Sections, StoreError,
};
use crate::json::{json_parsed, json_text, Json};
use crate::locator::{
    collection_tag_bytes, payload_range, record_end_bytes, record_payload, record_tag_bytes, splice,
};
use crate::splicing::{
    contains, lemma_record_survives_splice, lemma_splice_same, lemma_splices_commute,
    lemma_written_payload_is_found, moved_range, plain, GT, LT,
};
use vstd::prelude::*;
use vstd::string::*;
use vstd::utf8::{encode_utf8, is_ascii_chars, is_ascii_chars_encode_utf8};

verus! {

/// The id of the user's record, and of the record of the gold.
pub open spec fn user_bytes() -> Seq<u8> {
    "000000000000000000000001".spec_bytes()
}

/// The record `id` of the collection `collection` is one of the five that
/// loading reads, for the avatar `avatar` and the backpack `backpack`.
pub open spec fn is_record(
    collection: Seq<u8>,
    id: Seq<u8>,
    avatar: Seq<u8>,
    backpack: Seq<u8>,
) -> bool {
    ||| collection == "User".spec_bytes() && id == user_bytes()
    ||| collection == "Character".spec_bytes() && id == avatar
    ||| collection == "CharacterSheet".spec_bytes() && id == avatar
    ||| collection == "ItemStore".spec_bytes() && id == backpack
    ||| collection == "UserGold".spec_bytes() && id == user_bytes()
}

/// `payload` holds none of the tags, in full, by which the five records are
/// found.
pub open spec fn tags_absent(payload: Seq<u8>, avatar: Seq<u8>, backpack: Seq<u8>) -> bool {
    &&& !contains(payload, collection_tag_bytes("User".spec_bytes()))
    &&& !contains(payload, collection_tag_bytes("Character".spec_bytes()))
    &&& !contains(payload, collection_tag_bytes("CharacterSheet".spec_bytes()))
    &&& !contains(payload, collection_tag_bytes("ItemStore".spec_bytes()))
    &&& !contains(payload, collection_tag_bytes("UserGold".spec_bytes()))
    &&& !contains(payload, record_tag_bytes(user_bytes()))
    &&& !contains(payload, record_tag_bytes(avatar))
    &&& !contains(payload, record_tag_bytes(backpack))
}

/// The text that is written for `j` reads back as `j`, and holds neither the
/// closing tag nor one of the tags by which the records are found.
pub open spec fn faithful(j: Json, avatar: Seq<u8>, backpack: Seq<u8>) -> bool {
    &&& json_parsed(json_text(j)) == Some(j)
    &&& !contains(json_text(j), record_end_bytes())
    &&& tags_absent(json_text(j), avatar, backpack)
}

/// The record is found in `text`, its payload holds none of the tags and reads
/// as `value`.
pub open spec fn record_holds(
    text: Seq<u8>,
    collection: Seq<u8>,
    id: Seq<u8>,
    value: Json,
    avatar: Seq<u8>,
    backpack: Seq<u8>,
) -> bool {
    record_payload(text, collection, id) matches Some(payload) && tags_absent(
        payload,
        avatar,
        backpack,
    ) && json_parsed(payload) == Some(value)
}

/// The record is found in `text`, and its payload is the text written for
/// `value`.
pub open spec fn record_written(
    text: Seq<u8>,
    collection: Seq<u8>,
    id: Seq<u8>,
    value: Json,
) -> bool {
    record_payload(text, collection, id) == Some(json_text(value))
}

/// Where the payload of the record begins.
pub open spec fn start_of(text: Seq<u8>, collection: Seq<u8>, id: Seq<u8>) -> int {
    payload_range(text, collection, id)->Some_0.0
}

/// Where the payload of the record begins and ends.
pub open spec fn range_of(text: Seq<u8>, collection: Seq<u8>, id: Seq<u8>) -> (int, int) {
    payload_range(text, collection, id)->Some_0
}

/// The payload that lay at `was` in a text of the length `text_len` lies at `now`
/// once the range from `start` to `end` is replaced by `len` bytes: it lies
/// wholly before that range, or is that range, or lies wholly behind it.
pub open spec fn follows(
    now: (int, int),
    was: (int, int),
    start: int,
    end: int,
    len: int,
    text_len: int,
) -> bool {
    &&& now == moved_range(was, start, end, len)
    &&& 0 <= was.0 <= was.1 <= text_len
    &&& 0 <= start <= end <= text_len
    &&& was.0 < start ==> was.1 <= start
    &&& was.0 <= start || was.0 > end
    &&& was.0 == start ==> was.1 == end
}

/// `text` with two ranges that lie apart replaced, the later one first.
pub open spec fn splice_two(
    text: Seq<u8>,
    first: (int, int),
    pa: Seq<u8>,
    second: (int, int),
    pb: Seq<u8>,
) -> Seq<u8> {
    if first.0 >= second.0 {
        splice(splice(text, first.0, first.1, pa), second.0, second.1, pb)
    } else {
        splice(splice(text, second.0, second.1, pb), first.0, first.1, pa)
    }
}

/// `text` with three ranges that lie apart replaced, the last one first and the
/// first one last, so that each range is replaced where it lies in `text`.
pub open spec fn splice_three(
    text: Seq<u8>,
    first: (int, int),
    pa: Seq<u8>,
    second: (int, int),
    pb: Seq<u8>,
    third: (int, int),
    pc: Seq<u8>,
) -> Seq<u8> {
    if first.0 >= second.0 && first.0 >= third.0 {
        splice_two(splice(text, first.0, first.1, pa), second, pb, third, pc)
    } else if second.0 >= first.0 && second.0 >= third.0 {
        splice_two(splice(text, second.0, second.1, pb), first, pa, third, pc)
    } else {
        splice_two(splice(text, third.0, third.1, pc), first, pa, second, pb)
    }
}

/// The text of the document with the payloads of its three sections, where they
/// lie in that text, replaced by the texts written for the sections.
pub open spec fn replaced_at_once(d: Document) -> Seq<u8> {
    let avatar = encode_utf8(d.avatar);
    let backpack = encode_utf8(d.backpack);
    splice_three(
        d.text,
        range_of(d.text, "CharacterSheet".spec_bytes(), avatar),
        json_text(d.character),
        range_of(d.text, "ItemStore".spec_bytes(), backpack),
        json_text(d.inventory),
        range_of(d.text, "UserGold".spec_bytes(), user_bytes()),
        json_text(d.gold),
    )
}

/// The five records that loading reads are found in `text`, none of their
/// payloads holds one of the tags, and they read as `user`, `person` and the
/// three sections.
pub open spec fn records_hold(text: Seq<u8>, user: Json, person: Json, sections: Sections) -> bool {
    let avatar = encode_utf8(sections.avatar);
    let backpack = encode_utf8(sections.backpack);
    &&& record_holds(text, "User".spec_bytes(), user_bytes(), user, avatar, backpack)
    &&& record_holds(text, "Character".spec_bytes(), avatar, person, avatar, backpack)
    &&& record_holds(
        text,
        "CharacterSheet".spec_bytes(),
        avatar,
        sections.character,
        avatar,
        backpack,
    )
    &&& record_holds(
        text,
        "ItemStore".spec_bytes(),
        backpack,
        sections.inventory,
        avatar,
        backpack,
    )
    &&& record_holds(text, "UserGold".spec_bytes(), user_bytes(), sections.gold, avatar, backpack)
}

/// The three sections are written into `text`.
pub open spec fn sections_written(text: Seq<u8>, sections: Sections) -> bool {
    let avatar = encode_utf8(sections.avatar);
    let backpack = encode_utf8(sections.backpack);
    &&& record_written(text, "CharacterSheet".spec_bytes(), avatar, sections.character)
    &&& record_written(text, "ItemStore".spec_bytes(), backpack, sections.inventory)
    &&& record_written(text, "UserGold".spec_bytes(), user_bytes(), sections.gold)
}

/// The payloads of the three sections begin at three places, and neither the
/// user's record nor the avatar's shares its payload with one of them.
pub open spec fn apart(text: Seq<u8>, avatar: Seq<u8>, backpack: Seq<u8>) -> bool {
    let user = start_of(text, "User".spec_bytes(), user_bytes());
    let person = start_of(text, "Character".spec_bytes(), avatar);
    let sheet = start_of(text, "CharacterSheet".spec_bytes(), avatar);
    let store = start_of(text, "ItemStore".spec_bytes(), backpack);
    let gold = start_of(text, "UserGold".spec_bytes(), user_bytes());
    &&& sheet != store
    &&& sheet != gold
    &&& store != gold
    &&& user != sheet
    &&& user != store
    &&& user != gold
    &&& person != sheet
    &&& person != store
    &&& person != gold
}

/// The sections of a document.
pub open spec fn sections_of(d: Document) -> Sections {
    Sections {
        avatar: d.avatar,
        backpack: d.backpack,
        character: d.character,
        inventory: d.inventory,
        gold: d.gold,
    }
}

/// The payload of the record, where the record is found, holds none of the tags.
pub open spec fn payload_quiet(
    text: Seq<u8>,
    collection: Seq<u8>,
    id: Seq<u8>,
    avatar: Seq<u8>,
    backpack: Seq<u8>,
) -> bool {
    record_payload(text, collection, id) matches Some(payload) ==> tags_absent(
        payload,
        avatar,
        backpack,
    )
}

/// What the theorems of this module ask of the text of a document and of its
/// sections: the ids of avatar and backpack are plain; no payload of the five
/// records holds one of the tags; and the three sections are written
/// faithfully.
pub open spec fn sound(d: Document) -> bool {
    let avatar = encode_utf8(d.avatar);
    let backpack = encode_utf8(d.backpack);
    &&& plain(avatar)
    &&& plain(backpack)
    &&& faithful(d.character, avatar, backpack)
    &&& faithful(d.inventory, avatar, backpack)
    &&& faithful(d.gold, avatar, backpack)
    &&& payload_quiet(d.text, "User".spec_bytes(), user_bytes(), avatar, backpack)
    &&& payload_quiet(d.text, "Character".spec_bytes(), avatar, avatar, backpack)
    &&& payload_quiet(d.text, "CharacterSheet".spec_bytes(), avatar, avatar, backpack)
    &&& payload_quiet(d.text, "ItemStore".spec_bytes(), backpack, avatar, backpack)
    &&& payload_quiet(d.text, "UserGold".spec_bytes(), user_bytes(), avatar, backpack)
}

/// The document is as it was loaded, and sound.
pub open spec fn settled(d: Document) -> bool {
    load_outcome(d.text) == Ok::<Sections, LoadError>(sections_of(d)) && sound(d)
}

/// The names of the collections and the id of the user are plain.
pub proof fn lemma_names_are_plain()
    ensures
        plain("User".spec_bytes()),
        plain("Character".spec_bytes()),
        plain("CharacterSheet".spec_bytes()),
        plain("ItemStore".spec_bytes()),
        plain("UserGold".spec_bytes()),
        plain(user_bytes()),
{
    reveal_strlit("User");
    reveal_strlit("Character");
    reveal_strlit("CharacterSheet");
    reveal_strlit("ItemStore");
    reveal_strlit("UserGold");
    reveal_strlit("000000000000000000000001");
    lemma_ascii_is_plain("User"@);
    lemma_ascii_is_plain("Character"@);
    lemma_ascii_is_plain("CharacterSheet"@);
    lemma_ascii_is_plain("ItemStore"@);
    lemma_ascii_is_plain("UserGold"@);
    lemma_ascii_is_plain("000000000000000000000001"@);
}

/// Letters and digits are plain.
proof fn lemma_ascii_is_plain(s: Seq<char>)
    requires
        forall|i: int|
            0 <= i < s.len() ==> '0' <= #[trigger] s[i] <= 'z' && s[i] != '<' && s[i] != '>',
    ensures
        plain(encode_utf8(s)),
{
    assert(is_ascii_chars(s));
    is_ascii_chars_encode_utf8(s);
    assert forall|i: int| 0 <= i < encode_utf8(s).len() implies encode_utf8(s)[i] != LT
        && encode_utf8(s)[i] != GT by {
        assert(s[i] as u8 == encode_utf8(s)[i]);
    }
}

/// Writing a value into a record and reading the record gives what the text that
/// was written reads as, provided that text holds no closing tag.
pub proof fn lemma_set_then_get(text: Seq<u8>, collection: Seq<u8>, id: Seq<u8>, value: Json)
    requires
        payload_range(text, collection, id) is Some,
        !contains(json_text(value), record_end_bytes()),
    ensures
        record_replaced(text, collection, id, value) matches Some(new) && record_written(
            new,
            collection,
            id,
            value,
        ) && record_json(new, collection, id) == json_parsed(json_text(value)),
{
    lemma_written_payload_is_found(text, collection, id, json_text(value));
}

/// What writing the value `target` into one of the five records does to another
/// of them, or to the same: the record is found where it was, or moved by the
/// change in length; it holds what it held, unless it shares the payload that
/// was written, in which case it holds what was written.
pub proof fn lemma_record_after_write(
    text: Seq<u8>,
    target_collection: Seq<u8>,
    target_id: Seq<u8>,
    target: Json,
    collection: Seq<u8>,
    id: Seq<u8>,
    value: Json,
    avatar: Seq<u8>,
    backpack: Seq<u8>,
)
    requires
        plain(avatar),
        plain(backpack),
        is_record(target_collection, target_id, avatar, backpack),
        is_record(collection, id, avatar, backpack),
        faithful(target, avatar, backpack),
        payload_quiet(text, target_collection, target_id, avatar, backpack),
        payload_range(text, target_collection, target_id) is Some,
        record_holds(text, collection, id, value, avatar, backpack),
    ensures
        record_replaced(text, target_collection, target_id, target) matches Some(new) && ({
            let (start, end) = payload_range(text, target_collection, target_id)->Some_0;
            let at = start_of(text, collection, id);
            &&& 0 <= start <= end
            &&& at <= start || at > end
            &&& follows(
                range_of(new, collection, id),
                range_of(text, collection, id),
                start,
                end,
                json_text(target).len() as int,
                text.len() as int,
            )
            &&& record_holds(
                new,
                collection,
                id,
                if at == start {
                    target
                } else {
                    value
                },
                avatar,
                backpack,
            )
            &&& at == start ==> record_written(new, collection, id, target)
            &&& at != start && record_written(text, collection, id, value) ==> record_written(
                new,
                collection,
                id,
                value,
            )
            &&& record_holds(text, target_collection, target_id, target, avatar, backpack) ==> {
                &&& record_holds(new, collection, id, value, avatar, backpack)
                &&& record_written(text, collection, id, value) ==> record_written(
                    new,
                    collection,
                    id,
                    value,
                )
            }
            &&& record_written(text, target_collection, target_id, target) ==> new == text
        }),
{
    lemma_names_are_plain();
    let (start, end) = payload_range(text, target_collection, target_id)->Some_0;
    lemma_record_survives_splice(
        text,
        target_collection,
        target_id,
        json_text(target),
        collection,
        id,
    );
    if record_written(text, target_collection, target_id, target) {
        lemma_splice_same(text, start, end);
    }
}

/// Writing a section that the text already reads as keeps what the five records
/// hold, writes the section, and keeps the sections that were written before.
proof fn lemma_write_section(
    text: Seq<u8>,
    user: Json,
    person: Json,
    sections: Sections,
    target_collection: Seq<u8>,
    target_id: Seq<u8>,
    target: Json,
)
    requires
        records_hold(text, user, person, sections),
        plain(encode_utf8(sections.avatar)),
        plain(encode_utf8(sections.backpack)),
        is_record(
            target_collection,
            target_id,
            encode_utf8(sections.avatar),
            encode_utf8(sections.backpack),
        ),
        faithful(target, encode_utf8(sections.avatar), encode_utf8(sections.backpack)),
        record_holds(
            text,
            target_collection,
            target_id,
            target,
            encode_utf8(sections.avatar),
            encode_utf8(sections.backpack),
        ),
    ensures
        record_replaced(text, target_collection, target_id, target) matches Some(new) && {
            let avatar = encode_utf8(sections.avatar);
            let backpack = encode_utf8(sections.backpack);
            &&& records_hold(new, user, person, sections)
            &&& record_written(new, target_collection, target_id, target)
            &&& record_written(text, target_collection, target_id, target) ==> new == text
            &&& record_written(text, "CharacterSheet".spec_bytes(), avatar, sections.character)
                ==> record_written(new, "CharacterSheet".spec_bytes(), avatar, sections.character)
            &&& record_written(text, "ItemStore".spec_bytes(), backpack, sections.inventory)
                ==> record_written(new, "ItemStore".spec_bytes(), backpack, sections.inventory)
            &&& record_written(text, "UserGold".spec_bytes(), user_bytes(), sections.gold)
                ==> record_written(new, "UserGold".spec_bytes(), user_bytes(), sections.gold)
        },
{
    let avatar = encode_utf8(sections.avatar);
    let backpack = encode_utf8(sections.backpack);
    let tc = target_collection;
    let tid = target_id;
    lemma_record_after_write(text, tc, tid, target, "User".spec_bytes(), user_bytes(), user, avatar, backpack);
    lemma_record_after_write(text, tc, tid, target, "Character".spec_bytes(), avatar, person, avatar, backpack);
    lemma_record_after_write(
        text,
        tc,
        tid,
        target,
        "CharacterSheet".spec_bytes(),
        avatar,
        sections.character,
        avatar,
        backpack,
    );
    lemma_record_after_write(
        text,
        tc,
        tid,
        target,
        "ItemStore".spec_bytes(),
        backpack,
        sections.inventory,
        avatar,
        backpack,
    );
    lemma_record_after_write(
        text,
        tc,
        tid,
        target,
        "UserGold".spec_bytes(),
        user_bytes(),
        sections.gold,
        avatar,
        backpack,
    );
    lemma_record_after_write(text, tc, tid, target, tc, tid, target, avatar, backpack);
}

/// Writing a section into a text in which the records lie apart keeps what the
/// other four records hold, and keeps the records apart.
proof fn lemma_write_changed_section(
    text: Seq<u8>,
    user: Json,
    person: Json,
    held: Sections,
    target_collection: Seq<u8>,
    target_id: Seq<u8>,
    target: Json,
)
    requires
        records_hold(text, user, person, held),
        apart(text, encode_utf8(held.avatar), encode_utf8(held.backpack)),
        plain(encode_utf8(held.avatar)),
        plain(encode_utf8(held.backpack)),
        faithful(target, encode_utf8(held.avatar), encode_utf8(held.backpack)),
        ({
            ||| target_collection == "CharacterSheet".spec_bytes() && target_id == encode_utf8(
                held.avatar,
            )
            ||| target_collection == "ItemStore".spec_bytes() && target_id == encode_utf8(
                held.backpack,
            )
            ||| target_collection == "UserGold".spec_bytes() && target_id == user_bytes()
        }),
    ensures
        record_replaced(text, target_collection, target_id, target) matches Some(new) && {
            let avatar = encode_utf8(held.avatar);
            let backpack = encode_utf8(held.backpack);
            &&& apart(new, avatar, backpack)
            &&& records_hold(
                new,
                user,
                person,
                Sections {
                    character: if target_collection == "CharacterSheet".spec_bytes() {
                        target
                    } else {
                        held.character
                    },
                    inventory: if target_collection == "ItemStore".spec_bytes() {
                        target
                    } else {
                        held.inventory
                    },
                    gold: if target_collection == "UserGold".spec_bytes() {
                        target
                    } else {
                        held.gold
                    },
                    ..held
                },
            )
            &&& record_written(new, target_collection, target_id, target)
            &&& new == splice(
                text,
                range_of(text, target_collection, target_id).0,
                range_of(text, target_collection, target_id).1,
                json_text(target),
            )
            &&& follows(
                range_of(new, "CharacterSheet".spec_bytes(), avatar),
                range_of(text, "CharacterSheet".spec_bytes(), avatar),
                range_of(text, target_collection, target_id).0,
                range_of(text, target_collection, target_id).1,
                json_text(target).len() as int,
                text.len() as int,
            )
            &&& follows(
                range_of(new, "ItemStore".spec_bytes(), backpack),
                range_of(text, "ItemStore".spec_bytes(), backpack),
                range_of(text, target_collection, target_id).0,
                range_of(text, target_collection, target_id).1,
                json_text(target).len() as int,
                text.len() as int,
            )
            &&& follows(
                range_of(new, "UserGold".spec_bytes(), user_bytes()),
                range_of(text, "UserGold".spec_bytes(), user_bytes()),
                range_of(text, target_collection, target_id).0,
                range_of(text, target_collection, target_id).1,
                json_text(target).len() as int,
                text.len() as int,
            )
            &&& target_collection != "CharacterSheet".spec_bytes() && record_written(
                text,
                "CharacterSheet".spec_bytes(),
                avatar,
                held.character,
            ) ==> record_written(new, "CharacterSheet".spec_bytes(), avatar, held.character)
            &&& target_collection != "ItemStore".spec_bytes() && record_written(
                text,
                "ItemStore".spec_bytes(),
                backpack,
                held.inventory,
            ) ==> record_written(new, "ItemStore".spec_bytes(), backpack, held.inventory)
        },
{
    lemma_collections_differ();
    let avatar = encode_utf8(held.avatar);
    let backpack = encode_utf8(held.backpack);
    let tc = target_collection;
    let tid = target_id;
    lemma_record_after_write(text, tc, tid, target, "User".spec_bytes(), user_bytes(), user, avatar, backpack);
    lemma_record_after_write(text, tc, tid, target, "Character".spec_bytes(), avatar, person, avatar, backpack);
    lemma_record_after_write(
        text,
        tc,
        tid,
        target,
        "CharacterSheet".spec_bytes(),
        avatar,
        held.character,
        avatar,
        backpack,
    );
    lemma_record_after_write(
        text,
        tc,
        tid,
        target,
        "ItemStore".spec_bytes(),
        backpack,
        held.inventory,
        avatar,
        backpack,
    );
    lemma_record_after_write(
        text,
        tc,
        tid,
        target,
        "UserGold".spec_bytes(),
        user_bytes(),
        held.gold,
        avatar,
        backpack,
    );
}

/// The names of the three collections that are written differ from each other.
proof fn lemma_collections_differ()
    ensures
        "CharacterSheet".spec_bytes() != "ItemStore".spec_bytes(),
        "CharacterSheet".spec_bytes() != "UserGold".spec_bytes(),
        "ItemStore".spec_bytes() != "UserGold".spec_bytes(),
{
    reveal_strlit("CharacterSheet");
    reveal_strlit("ItemStore");
    reveal_strlit("UserGold");
    let a = "CharacterSheet"@;
    let b = "ItemStore"@;
    let c = "UserGold"@;
    assert(is_ascii_chars(a));
    assert(is_ascii_chars(b));
    assert(is_ascii_chars(c));
    is_ascii_chars_encode_utf8(a);
    is_ascii_chars_encode_utf8(b);
    is_ascii_chars_encode_utf8(c);
    assert(a[0] as u8 == encode_utf8(a)[0]);
    assert(b[0] as u8 == encode_utf8(b)[0]);
    assert(c[0] as u8 == encode_utf8(c)[0]);
}

/// What loading makes of a text depends only on what the five records read as.
proof fn lemma_load_by_records(
    first: Seq<u8>,
    second: Seq<u8>,
    user: Json,
    person: Json,
    sections: Sections,
)
    requires
        records_hold(first, user, person, sections),
        records_hold(second, user, person, sections),
        load_outcome(first) == Ok::<Sections, LoadError>(sections),
    ensures
        load_outcome(second) == Ok::<Sections, LoadError>(sections),
{
    assert(record_json(first, "User".spec_bytes(), user_bytes()) == Some(user));
    assert(record_json(second, "User".spec_bytes(), user_bytes()) == Some(user));
    assert(avatar_id(first) == Some(sections.avatar));
    assert(avatar_id(second) == Some(sections.avatar));
    let avatar = encode_utf8(sections.avatar);
    assert(record_json(first, "Character".spec_bytes(), avatar) == Some(person));
    assert(record_json(second, "Character".spec_bytes(), avatar) == Some(person));
    assert(backpack_id(first, avatar) == Some(sections.backpack));
    assert(backpack_id(second, avatar) == Some(sections.backpack));
}

/// Storing a document that was loaded and not changed, and loading what was
/// stored, gives the sections of the document again; and storing those into the
/// text that was stored gives that text again.
#[verifier::rlimit(50)]
pub proof fn lemma_store_then_load(d: Document)
    requires
        settled(d),
    ensures
        d.stored_text() matches Ok(out) && {
            &&& load_outcome(out) == Ok::<Sections, LoadError>(sections_of(d))
            &&& sections_written(out, sections_of(d))
            &&& (Document { text: out, ..d }).stored_text() == Ok::<Seq<u8>, StoreError>(out)
        },
{
    lemma_names_are_plain();
    let sections = sections_of(d);
    let avatar = encode_utf8(d.avatar);
    let backpack = encode_utf8(d.backpack);
    let uid = user_bytes();
    let user = record_json(d.text, "User".spec_bytes(), uid)->Some_0;
    assert(avatar_id(d.text) == Some(d.avatar));
    let person = record_json(d.text, "Character".spec_bytes(), avatar)->Some_0;
    assert(backpack_id(d.text, avatar) == Some(d.backpack));
    assert(records_hold(d.text, user, person, sections));
    lemma_write_section(
        d.text,
        user,
        person,
        sections,
        "CharacterSheet".spec_bytes(),
        avatar,
        d.character,
    );
    let first = record_replaced(d.text, "CharacterSheet".spec_bytes(), avatar, d.character)->Some_0;
    lemma_write_section(
        first,
        user,
        person,
        sections,
        "ItemStore".spec_bytes(),
        backpack,
        d.inventory,
    );
    let second = record_replaced(first, "ItemStore".spec_bytes(), backpack, d.inventory)->Some_0;
    lemma_write_section(second, user, person, sections, "UserGold".spec_bytes(), uid, d.gold);
    let out = record_replaced(second, "UserGold".spec_bytes(), uid, d.gold)->Some_0;
    assert(d.stored_text() == Ok::<Seq<u8>, StoreError>(out));
    lemma_load_by_records(d.text, out, user, person, sections);
    // Storing into what was stored.
    lemma_write_section(
        out,
        user,
        person,
        sections,
        "CharacterSheet".spec_bytes(),
        avatar,
        d.character,
    );
    lemma_write_section(
        out,
        user,
        person,
        sections,
        "ItemStore".spec_bytes(),
        backpack,
        d.inventory,
    );
    lemma_write_section(out, user, person, sections, "UserGold".spec_bytes(), uid, d.gold);
}

/// Storing a document whose sections were changed since it was loaded, and
/// loading what was stored, gives the changed sections: each of the three
/// records reads as the section that was written into it, and the records of
/// the user and of the avatar read as before. This asks, besides soundness,
/// that the five records lie apart in the text that was loaded.
#[verifier::rlimit(50)]
pub proof fn lemma_store_changes_then_load(d: Document, was: Sections)
    requires
        load_outcome(d.text) == Ok::<Sections, LoadError>(was),
        was.avatar == d.avatar,
        was.backpack == d.backpack,
        sound(d),
        apart(d.text, encode_utf8(d.avatar), encode_utf8(d.backpack)),
    ensures
        d.stored_text() matches Ok(out) && {
            let avatar = encode_utf8(d.avatar);
            let backpack = encode_utf8(d.backpack);
            &&& avatar_id(out) == Some(d.avatar)
            &&& backpack_id(out, avatar) == Some(d.backpack)
            &&& record_json(out, "CharacterSheet".spec_bytes(), avatar) == Some(d.character)
            &&& record_json(out, "ItemStore".spec_bytes(), backpack) == Some(d.inventory)
            &&& record_json(out, "UserGold".spec_bytes(), user_bytes()) == Some(d.gold)
            &&& sections_written(out, sections_of(d))
            &&& d.wf() && has_date(d.skills()) ==> load_outcome(out) == Ok::<Sections, LoadError>(
                sections_of(d),
            )
        },
{
    lemma_names_are_plain();
    let avatar = encode_utf8(d.avatar);
    let backpack = encode_utf8(d.backpack);
    let uid = user_bytes();
    let user = record_json(d.text, "User".spec_bytes(), uid)->Some_0;
    assert(avatar_id(d.text) == Some(d.avatar));
    let person = record_json(d.text, "Character".spec_bytes(), avatar)->Some_0;
    assert(backpack_id(d.text, avatar) == Some(d.backpack));
    assert(records_hold(d.text, user, person, was));
    lemma_write_changed_section(
        d.text,
        user,
        person,
        was,
        "CharacterSheet".spec_bytes(),
        avatar,
        d.character,
    );
    let first = record_replaced(d.text, "CharacterSheet".spec_bytes(), avatar, d.character)->Some_0;
    let held1 = Sections { character: d.character, ..was };
    lemma_collections_differ();
    assert(records_hold(first, user, person, held1));
    lemma_write_changed_section(
        first,
        user,
        person,
        held1,
        "ItemStore".spec_bytes(),
        backpack,
        d.inventory,
    );
    let second = record_replaced(first, "ItemStore".spec_bytes(), backpack, d.inventory)->Some_0;
    let held2 = Sections { inventory: d.inventory, ..held1 };
    assert(records_hold(second, user, person, held2));
    lemma_write_changed_section(second, user, person, held2, "UserGold".spec_bytes(), uid, d.gold);
    let out = record_replaced(second, "UserGold".spec_bytes(), uid, d.gold)->Some_0;
    assert(d.stored_text() == Ok::<Seq<u8>, StoreError>(out));
    assert(records_hold(out, user, person, sections_of(d)));
    assert(record_json(out, "User".spec_bytes(), uid) == Some(user));
    assert(record_json(out, "Character".spec_bytes(), avatar) == Some(person));
}

/// What is stored is the text that was loaded with the payloads of the three
/// sections replaced where they lie in that text; every other byte is kept, in
/// its order. This asks that the document is sound and that the five records lie
/// apart in the text that was loaded.
#[verifier::rlimit(50)]
pub proof fn lemma_store_replaces_three_ranges(d: Document, was: Sections)
    requires
        load_outcome(d.text) == Ok::<Sections, LoadError>(was),
        was.avatar == d.avatar,
        was.backpack == d.backpack,
        sound(d),
        apart(d.text, encode_utf8(d.avatar), encode_utf8(d.backpack)),
    ensures
        d.stored_text() == Ok::<Seq<u8>, StoreError>(replaced_at_once(d)),
{
    lemma_names_are_plain();
    lemma_collections_differ();
    let avatar = encode_utf8(d.avatar);
    let backpack = encode_utf8(d.backpack);
    let uid = user_bytes();
    let user = record_json(d.text, "User".spec_bytes(), uid)->Some_0;
    assert(avatar_id(d.text) == Some(d.avatar));
    let person = record_json(d.text, "Character".spec_bytes(), avatar)->Some_0;
    assert(backpack_id(d.text, avatar) == Some(d.backpack));
    assert(records_hold(d.text, user, person, was));
    let text = d.text;
    let j1 = json_text(d.character);
    let j2 = json_text(d.inventory);
    let j3 = json_text(d.gold);
    let (s1, e1) = range_of(text, "CharacterSheet".spec_bytes(), avatar);
    let (s2, e2) = range_of(text, "ItemStore".spec_bytes(), backpack);
    let (s3, e3) = range_of(text, "UserGold".spec_bytes(), uid);
    lemma_write_changed_section(
        text,
        user,
        person,
        was,
        "CharacterSheet".spec_bytes(),
        avatar,
        d.character,
    );
    let first = splice(text, s1, e1, j1);
    let held1 = Sections { character: d.character, ..was };
    assert(records_hold(first, user, person, held1));
    let (s21, e21) = range_of(first, "ItemStore".spec_bytes(), backpack);
    let (s31, e31) = range_of(first, "UserGold".spec_bytes(), uid);
    lemma_write_changed_section(
        first,
        user,
        person,
        held1,
        "ItemStore".spec_bytes(),
        backpack,
        d.inventory,
    );
    let second = splice(first, s21, e21, j2);
    let held2 = Sections { inventory: d.inventory, ..held1 };
    assert(records_hold(second, user, person, held2));
    let (s32, e32) = range_of(second, "UserGold".spec_bytes(), uid);
    lemma_write_changed_section(second, user, person, held2, "UserGold".spec_bytes(), uid, d.gold);
    let out = splice(second, s32, e32, j3);
    assert(d.stored_text() == Ok::<Seq<u8>, StoreError>(out));
    let d1 = s1 + j1.len() - e1;
    if s1 > s2 && s2 > s3 {
    } else if s1 > s3 && s3 > s2 {
        lemma_splices_commute(first, s2, e2, j2, s3, e3, j3);
    } else if s2 > s1 && s1 > s3 {
        lemma_splices_commute(text, s1, e1, j1, s2, e2, j2);
    } else if s2 > s3 && s3 > s1 {
        lemma_splices_commute(text, s1, e1, j1, s2, e2, j2);
        lemma_splices_commute(splice(text, s2, e2, j2), s1, e1, j1, s3, e3, j3);
    } else if s3 > s1 && s1 > s2 {
        lemma_splices_commute(first, s2, e2, j2, s3 + d1, e3 + d1, j3);
        lemma_splices_commute(text, s1, e1, j1, s3, e3, j3);
    } else {
        lemma_splices_commute(first, s2 + d1, e2 + d1, j2, s3 + d1, e3 + d1, j3);
        lemma_splices_commute(text, s1, e1, j1, s3, e3, j3);
        lemma_splices_commute(splice(text, s3, e3, j3), s1, e1, j1, s2, e2, j2);
    }
}

/// A byte outside the range that is replaced is kept: before the range at its
/// index, behind it moved by the change in length.
pub proof fn lemma_splice_keeps_byte(text: Seq<u8>, range: (int, int), p: Seq<u8>, i: int)
    requires
        0 <= range.0 <= range.1 <= text.len(),
        0 <= i < text.len(),
        !(range.0 <= i < range.1),
    ensures
        ({
            let out = splice(text, range.0, range.1, p);
            let at = i + shift_by(range, p, i);
            &&& out.len() == text.len() + p.len() - (range.1 - range.0)
            &&& 0 <= at < out.len()
            &&& out[at] == text[i]
            &&& i < range.0 ==> at < range.0
            &&& range.1 <= i ==> at >= range.0 + p.len()
        }),
{
}

/// By how much the replacement of `range` by `p` moves the byte at `i`.
pub open spec fn shift_by(range: (int, int), p: Seq<u8>, i: int) -> int {
    if range.1 <= i {
        p.len() - (range.1 - range.0)
    } else {
        0
    }
}

/// Replacing two ranges that lie apart keeps every byte outside them.
pub proof fn lemma_two_splices_keep_byte(
    text: Seq<u8>,
    first: (int, int),
    pa: Seq<u8>,
    second: (int, int),
    pb: Seq<u8>,
    i: int,
)
    requires
        0 <= first.0 <= first.1 <= text.len(),
        0 <= second.0 <= second.1 <= text.len(),
        first.1 <= second.0 || second.1 <= first.0,
        first.0 != second.0,
        0 <= i < text.len(),
        !(first.0 <= i < first.1),
        !(second.0 <= i < second.1),
    ensures
        ({
            let out = splice_two(text, first, pa, second, pb);
            let at = i + shift_by(first, pa, i) + shift_by(second, pb, i);
            &&& out.len() == text.len() + pa.len() - (first.1 - first.0) + pb.len() - (second.1
                - second.0)
            &&& 0 <= at < out.len()
            &&& out[at] == text[i]
        }),
{
    if first.0 >= second.0 {
        lemma_splice_keeps_byte(text, first, pa, i);
        let mid = splice(text, first.0, first.1, pa);
        lemma_splice_keeps_byte(mid, second, pb, i + shift_by(first, pa, i));
    } else {
        lemma_splice_keeps_byte(text, second, pb, i);
        let mid = splice(text, second.0, second.1, pb);
        lemma_splice_keeps_byte(mid, first, pa, i + shift_by(second, pb, i));
    }
}

/// Replacing three ranges that lie apart keeps every byte outside them: a byte
/// before all of them stays at its index, and a byte behind one or more of them
/// moves by the changes in length that those brought.
pub proof fn lemma_three_splices_keep_byte(
    text: Seq<u8>,
    first: (int, int),
    pa: Seq<u8>,
    second: (int, int),
    pb: Seq<u8>,
    third: (int, int),
    pc: Seq<u8>,
    i: int,
)
    requires
        0 <= first.0 <= first.1 <= text.len(),
        0 <= second.0 <= second.1 <= text.len(),
        0 <= third.0 <= third.1 <= text.len(),
        first.1 <= second.0 || second.1 <= first.0,
        first.1 <= third.0 || third.1 <= first.0,
        second.1 <= third.0 || third.1 <= second.0,
        first.0 != second.0 && first.0 != third.0 && second.0 != third.0,
        0 <= i < text.len(),
        !(first.0 <= i < first.1),
        !(second.0 <= i < second.1),
        !(third.0 <= i < third.1),
    ensures
        ({
            let out = splice_three(text, first, pa, second, pb, third, pc);
            let at = i + shift_by(first, pa, i) + shift_by(second, pb, i) + shift_by(third, pc, i);
            &&& out.len() == text.len() + pa.len() - (first.1 - first.0) + pb.len() - (second.1
                - second.0) + pc.len() - (third.1 - third.0)
            &&& 0 <= at < out.len()
            &&& out[at] == text[i]
        }),
{
    if first.0 >= second.0 && first.0 >= third.0 {
        lemma_splice_keeps_byte(text, first, pa, i);
        let mid = splice(text, first.0, first.1, pa);
        lemma_two_splices_keep_byte(mid, second, pb, third, pc, i + shift_by(first, pa, i));
    } else if second.0 >= first.0 && second.0 >= third.0 {
        lemma_splice_keeps_byte(text, second, pb, i);
        let mid = splice(text, second.0, second.1, pb);
        lemma_two_splices_keep_byte(mid, first, pa, third, pc, i + shift_by(second, pb, i));
    } else {
        lemma_splice_keeps_byte(text, third, pc, i);
        let mid = splice(text, third.0, third.1, pc);
        lemma_two_splices_keep_byte(mid, first, pa, second, pb, i + shift_by(third, pc, i));
    }
}

} // verus!
