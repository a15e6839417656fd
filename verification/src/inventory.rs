//! The inventory as a list of items: reading the items out of the JSON of the
//! item store, and writing counts and durabilities back into it.
//!
//! The store holds, under `in`, a map from item ids to entries. An entry wraps,
//! again under `in`, the object that describes the item: `an` is the path of its
//! asset, `qn` its quantity, `hp` and `php` its current and greatest durability,
//! and `bag`, where present, marks a bag.

use crate::json::{
    as_str, as_u64, from_u64, get, int_u64, is_number, json_of, member, member_names,
    members, set_member, takes_members, with_member, Json, Number,
};
use serde_json::Value;
use vstd::prelude::*;
use vstd::string::*;

verus! {

/// The durability of an item, as the two JSON numbers that the store holds.
#[derive(PartialEq, Clone)]
pub struct Durability {
    /// The current durability.
    pub minor: Value,
    /// The greatest durability.
    pub major: Value,
}

/// An item of the inventory.
#[derive(Clone)]
pub struct Item {
    /// The id of this instance: its key in the store.
    pub id: String,
    /// The display name: what follows the last `/` of the asset's path.
    pub name: String,
    /// How many there are.
    pub cnt: u64,
    /// The durability, where the item has one.
    pub dur: Option<Durability>,
    /// Whether the item is a bag.
    pub bag: bool,
}

/// Model of an item.
pub ghost struct ItemView {
    pub id: Seq<char>,
    pub name: Seq<char>,
    pub cnt: u64,
    pub dur: Option<(Json, Json)>,
    pub bag: bool,
}

impl View for Durability {
    type V = (Json, Json);

    open spec fn view(&self) -> (Json, Json) {
        (json_of(self.minor), json_of(self.major))
    }
}

impl View for Item {
    type V = ItemView;

    open spec fn view(&self) -> ItemView {
        ItemView {
            id: self.id@,
            name: self.name@,
            cnt: self.cnt,
            dur: match self.dur {
                Some(d) => Some(d@),
                None => None,
            },
            bag: self.bag,
        }
    }
}

/// The models of a list of items.
pub open spec fn item_views(items: Seq<Item>) -> Seq<ItemView> {
    items.map_values(|item: Item| item@)
}

/// The index of the last `/` of `s`.
pub open spec fn last_slash(s: Seq<char>) -> Option<int>
    decreases s.len(),
{
    if s.len() == 0 {
        None
    } else if s.last() == '/' {
        Some(s.len() - 1)
    } else {
        last_slash(s.drop_last())
    }
}

/// The display name that the asset path `path` gives: what follows its last `/`.
/// A path without `/` gives none.
pub open spec fn display_name(path: Seq<char>) -> Option<Seq<char>> {
    match last_slash(path) {
        Some(p) => Some(path.skip(p + 1)),
        None => None,
    }
}

/// The display name that the value `j` gives, where it is a string with a `/`.
pub open spec fn name_of(j: Option<Json>) -> Option<Seq<char>> {
    match j {
        Some(Json::String(path)) => display_name(path),
        _ => None,
    }
}

/// The durability that the object `inner` states: its values under `hp` and
/// `php`, where both are there and both are numbers.
pub open spec fn durability_of(inner: Json) -> Option<(Json, Json)> {
    match (member(inner, "hp"@), member(inner, "php"@)) {
        (Some(minor), Some(major)) => if minor is Number && major is Number {
            Some((minor, major))
        } else {
            None
        },
        _ => None,
    }
}

/// The item that the entry `entry` under the key `key` describes. There is none
/// where the entry lacks its inner object, a name or a quantity.
pub open spec fn item_of(key: Seq<char>, entry: Json) -> Option<ItemView> {
    match member(entry, "in"@) {
        Some(inner) => match (name_of(member(inner, "an"@)), member(inner, "qn"@)) {
            (Some(name), Some(quantity)) => match int_u64(quantity) {
                Some(cnt) => Some(
                    ItemView {
                        id: key,
                        name,
                        cnt,
                        dur: durability_of(inner),
                        bag: member(inner, "bag"@) is Some,
                    },
                ),
                None => None,
            },
            _ => None,
        },
        None => None,
    }
}

/// The entries of the store `inventory`, by item id.
pub open spec fn item_map(inventory: Json) -> Map<Seq<char>, Json> {
    match member(inventory, "in"@) {
        Some(items) => members(items),
        None => Map::empty(),
    }
}

/// `items` lists, once each and in some order, the items that the entries of
/// `map` describe, and nothing else.
pub open spec fn is_projection(items: Seq<ItemView>, map: Map<Seq<char>, Json>) -> bool {
    &&& forall|i: int|
        0 <= i < items.len() ==> map.dom().contains((#[trigger] items[i]).id) && item_of(
            items[i].id,
            map[items[i].id],
        ) == Some(items[i])
    &&& forall|k: Seq<char>|
        map.dom().contains(k) && (#[trigger] item_of(k, map[k])) is Some ==> exists|i: int|
            0 <= i < items.len() && (#[trigger] items[i]).id == k
    &&& forall|i: int, j: int|
        0 <= i < j < items.len() ==> (#[trigger] items[i]).id != (#[trigger] items[j]).id
}

/// The entry for `id` can take a count and a durability: it is there, and its
/// inner object is an object, or null.
pub open spec fn item_writable(inventory: Json, id: Seq<char>) -> bool {
    &&& item_map(inventory).dom().contains(id)
    &&& member(item_map(inventory)[id], "in"@) matches Some(inner) && takes_members(inner)
}

/// The store `inventory` once the count of `item`, and its durability where it
/// has one, are written into the entry of that item.
pub open spec fn with_item(inventory: Json, item: ItemView) -> Json {
    let items = member(inventory, "in"@)->Some_0;
    let entry = members(items)[item.id];
    let inner = member(entry, "in"@)->Some_0;
    let counted = with_member(inner, "qn"@, Json::Number(Number::Int(item.cnt as int)));
    let updated = match item.dur {
        Some((minor, major)) => with_member(with_member(counted, "hp"@, minor), "php"@, major),
        None => counted,
    };
    with_member(inventory, "in"@, with_member(items, item.id, with_member(entry, "in"@, updated)))
}

/// The store `inventory` once each of `items` is written into it, in order.
pub open spec fn with_items(inventory: Json, items: Seq<ItemView>) -> Json
    decreases items.len(),
{
    if items.len() == 0 {
        inventory
    } else {
        with_item(with_items(inventory, items.drop_last()), items.last())
    }
}

/// Writing an item leaves every entry that could be written writable.
pub proof fn lemma_with_item_keeps_writable(inventory: Json, item: ItemView, id: Seq<char>)
    requires
        item_writable(inventory, item.id),
        item_writable(inventory, id),
    ensures
        item_writable(with_item(inventory, item), id),
        item_map(with_item(inventory, item)).dom() == item_map(inventory).dom(),
{
    let after = with_item(inventory, item);
    assert(member(after, "in"@) is Some);
    assert(item_map(after).dom() =~= item_map(inventory).dom());
}

/// The keys of an item's inner object differ from each other.
pub proof fn lemma_item_keys()
    ensures
        "an"@ != "qn"@,
        "an"@ != "hp"@,
        "an"@ != "php"@,
        "an"@ != "bag"@,
        "qn"@ != "hp"@,
        "qn"@ != "php"@,
        "qn"@ != "bag"@,
        "hp"@ != "php"@,
        "hp"@ != "bag"@,
        "php"@ != "bag"@,
{
    reveal_strlit("an");
    reveal_strlit("qn");
    reveal_strlit("hp");
    reveal_strlit("php");
    reveal_strlit("bag");
    assert("an"@[0] == 'a' && "qn"@[0] == 'q' && "hp"@[0] == 'h' && "php"@[0] == 'p' && "bag"@[0]
        == 'b');
    assert("an"@.len() == 2 && "qn"@.len() == 2 && "hp"@.len() == 2 && "php"@.len() == 3
        && "bag"@.len() == 3);
}

/// An item that was written is read with the count that was written, and with
/// the durability that was written where one was; its name, and whether it is a
/// bag, are as before. An item that was not read before is not read after
/// either, unless it lacked nothing but a count.
pub proof fn lemma_written_item_is_read(inventory: Json, item: ItemView, before: ItemView)
    requires
        item_writable(inventory, item.id),
        item_of(item.id, item_map(inventory)[item.id]) == Some(before),
        item.dur matches Some((minor, major)) ==> minor is Number && major is Number,
    ensures
        item_map(with_item(inventory, item)).dom().contains(item.id),
        item_of(item.id, item_map(with_item(inventory, item))[item.id]) == Some(
            ItemView {
                cnt: item.cnt,
                dur: match item.dur {
                    Some(d) => Some(d),
                    None => before.dur,
                },
                ..before
            },
        ),
{
    lemma_item_keys();
    let after = with_item(inventory, item);
    assert(member(after, "in"@) is Some);
}

/// Writing an item leaves the entries of all other items as they were.
pub proof fn lemma_other_items_untouched(inventory: Json, item: ItemView, other: Seq<char>)
    requires
        item_writable(inventory, item.id),
        other != item.id,
    ensures
        item_map(with_item(inventory, item)).dom().contains(other) == item_map(
            inventory,
        ).dom().contains(other),
        item_map(with_item(inventory, item))[other] == item_map(inventory)[other],
{
    let after = with_item(inventory, item);
    assert(member(after, "in"@) is Some);
}

impl Durability {
    /// The durability that `val` states under `hp` and `php`.
    pub fn new(val: &Value) -> (r: Option<Durability>)
        ensures
            match r {
                Some(d) => durability_of(json_of(*val)) == Some(d@),
                None => durability_of(json_of(*val)) is None,
            },
    {
        let minor = match get(val, "hp") {
            Some(v) => v,
            None => { return None; },
        };
        let major = match get(val, "php") {
            Some(v) => v,
            None => { return None; },
        };
        if is_number(minor) && is_number(major) {
            Some(Durability { minor: minor.clone(), major: major.clone() })
        } else {
            None
        }
    }
}

/// The display name that an asset's path gives: what follows its last `/`.
pub fn get_name(val: Option<&Value>) -> (r: Option<String>)
    ensures
        match r {
            Some(name) => name_of(
                match val {
                    Some(v) => Some(json_of(*v)),
                    None => None,
                },
            ) == Some(name@),
            None => name_of(
                match val {
                    Some(v) => Some(json_of(*v)),
                    None => None,
                },
            ) is None,
        },
{
    let text = match val {
        Some(v) => match as_str(v) {
            Some(text) => text,
            None => { return None; },
        },
        None => { return None; },
    };
    let len: usize = text.unicode_len();
    let mut last: Option<usize> = None;
    let mut i: usize = 0;
    proof {
        assert(text@.take(0) =~= Seq::<char>::empty());
    }
    for c in it: text.chars()
        invariant
            i == it.index(),
            it.seq() == text@,
            len == text@.len(),
            match last {
                Some(p) => last_slash(text@.take(i as int)) == Some(p as int) && p < i,
                None => last_slash(text@.take(i as int)) is None,
            },
    {
        proof {
            assert(text@.take(i + 1).drop_last() =~= text@.take(i as int));
            assert(text@.take(i + 1).last() == c);
        }
        if c == '/' {
            last = Some(i);
        }
        i = i + 1;
    }
    proof {
        assert(text@.take(len as int) =~= text@);
    }
    match last {
        Some(p) => {
            let name = text.substring_char(p + 1, len).to_owned();
            assert(name@ =~= text@.skip(p + 1));
            Some(name)
        },
        None => None,
    }
}

/// Reads the item that the entry `entry` under the key `key` describes.
pub fn read_item(key: &str, entry: &Value) -> (r: Option<Item>)
    ensures
        match r {
            Some(item) => item_of(key@, json_of(*entry)) == Some(item@),
            None => item_of(key@, json_of(*entry)) is None,
        },
{
    let inner = match get(entry, "in") {
        Some(v) => v,
        None => { return None; },
    };
    let name = match get_name(get(inner, "an")) {
        Some(name) => name,
        None => { return None; },
    };
    let cnt = match get(inner, "qn") {
        Some(v) => match as_u64(v) {
            Some(cnt) => cnt,
            None => { return None; },
        },
        None => { return None; },
    };
    let dur = Durability::new(inner);
    let bag = get(inner, "bag").is_some();
    Some(Item { id: key.to_owned(), name, cnt, dur, bag })
}

/// Reads the items of the store `inventory`. An entry that lacks its inner
/// object, a name or a quantity is left out; a store without a map of entries
/// holds no items.
pub fn read_items(inventory: &Value) -> (r: Vec<Item>)
    ensures
        is_projection(item_views(r@), item_map(json_of(*inventory))),
{
    let mut out: Vec<Item> = Vec::new();
    let store = match get(inventory, "in") {
        Some(v) => v,
        None => { return out; },
    };
    let ghost map = item_map(json_of(*inventory));
    let names = member_names(store);
    let mut n: usize = 0;
    while n < names.len()
        invariant
            n <= names@.len(),
            map == members(json_of(*store)),
            forall|k: Seq<char>|
                map.dom().contains(k) <==> exists|m: int|
                    0 <= m < names@.len() && (#[trigger] names@[m])@ == k,
            forall|a: int, b: int| 0 <= a < b < names@.len() ==> names@[a]@ != names@[b]@,
            forall|i: int|
                0 <= i < out@.len() ==> map.dom().contains((#[trigger] out@[i])@.id) && item_of(
                    out@[i]@.id,
                    map[out@[i]@.id],
                ) == Some(out@[i]@),
            forall|i: int|
                0 <= i < out@.len() ==> exists|m: int|
                    0 <= m < n && (#[trigger] names@[m])@ == (#[trigger] out@[i])@.id,
            forall|m: int|
                0 <= m < n && item_of((#[trigger] names@[m])@, map[names@[m]@]) is Some
                    ==> exists|i: int| 0 <= i < out@.len() && (#[trigger] out@[i])@.id == names@[m]@,
            forall|i: int, j: int|
                0 <= i < j < out@.len() ==> (#[trigger] out@[i])@.id != (#[trigger] out@[j])@.id,
        decreases names@.len() - n,
    {
        let key = names[n].as_str();
        assert(map.dom().contains(names@[n as int]@));
        let ghost before = out@;
        match get(store, key) {
            Some(entry) => match read_item(key, entry) {
                Some(item) => {
                    out.push(item);
                    proof {
                        let last = before.len() as int;
                        assert(out@[last]@.id == names@[n as int]@);
                        assert forall|i: int| 0 <= i < out@.len() implies exists|m: int|
                            0 <= m < n + 1 && (#[trigger] names@[m])@ == (#[trigger] out@[i])@.id by {
                            if i < last {
                                assert(out@[i] == before[i]);
                                let m = choose|m: int|
                                    0 <= m < n && (#[trigger] names@[m])@ == before[i]@.id;
                                assert(names@[m]@ == out@[i]@.id);
                            } else {
                                assert(names@[n as int]@ == out@[i]@.id);
                            }
                        }
                        assert forall|i: int, j: int| 0 <= i < j < out@.len() implies (
                        #[trigger] out@[i])@.id != (#[trigger] out@[j])@.id by {
                            if j == last {
                                assert(out@[i] == before[i]);
                                let m = choose|m: int|
                                    0 <= m < n && (#[trigger] names@[m])@ == before[i]@.id;
                                assert(names@[m]@ != names@[n as int]@);
                            } else {
                                assert(out@[i] == before[i]);
                                assert(out@[j] == before[j]);
                            }
                        }
                        assert forall|m: int|
                            0 <= m < n + 1 && item_of((#[trigger] names@[m])@, map[names@[m]@])
                                is Some implies exists|i: int|
                            0 <= i < out@.len() && (#[trigger] out@[i])@.id == names@[m]@ by {
                            if m < n {
                                let i = choose|i: int|
                                    0 <= i < before.len() && (#[trigger] before[i])@.id
                                        == names@[m]@;
                                assert(out@[i] == before[i]);
                            } else {
                                assert(out@[last]@.id == names@[m]@);
                            }
                        }
                        assert forall|i: int| 0 <= i < out@.len() implies map.dom().contains(
                            (#[trigger] out@[i])@.id,
                        ) && item_of(out@[i]@.id, map[out@[i]@.id]) == Some(out@[i]@) by {
                            if i < last {
                                assert(out@[i] == before[i]);
                            }
                        }
                    }
                },
                None => {},
            },
            None => {},
        }
        n = n + 1;
    }
    proof {
        let views = item_views(out@);
        assert forall|k: Seq<char>|
            map.dom().contains(k) && (#[trigger] item_of(k, map[k])) is Some implies exists|i: int|
            0 <= i < views.len() && (#[trigger] views[i]).id == k by {
            let m = choose|m: int| 0 <= m < names@.len() && (#[trigger] names@[m])@ == k;
            let i = choose|i: int| 0 <= i < out@.len() && (#[trigger] out@[i])@.id == names@[m]@;
            assert(views[i].id == k);
        }
        assert forall|i: int| 0 <= i < views.len() implies map.dom().contains(
            (#[trigger] views[i]).id,
        ) && item_of(views[i].id, map[views[i].id]) == Some(views[i]) by {
            assert(views[i] == out@[i]@);
        }
        assert forall|i: int, j: int| 0 <= i < j < views.len() implies (#[trigger] views[i]).id != (
        #[trigger] views[j]).id by {
            assert(views[i] == out@[i]@);
            assert(views[j] == out@[j]@);
        }
    }
    out
}

/// Writes the count of `item`, and its durability where it has one, into the
/// entry of that item.
pub fn write_item(inventory: &mut Value, item: &Item)
    requires
        item_writable(json_of(*old(inventory)), item@.id),
    ensures
        json_of(*final(inventory)) == with_item(json_of(*old(inventory)), item@),
{
    let mut items = get(inventory, "in").unwrap().clone();
    let mut entry = get(&items, item.id.as_str()).unwrap().clone();
    let mut inner = get(&entry, "in").unwrap().clone();
    set_member(&mut inner, "qn", from_u64(item.cnt));
    match &item.dur {
        Some(dur) => {
            set_member(&mut inner, "hp", dur.minor.clone());
            set_member(&mut inner, "php", dur.major.clone());
        },
        None => {},
    }
    set_member(&mut entry, "in", inner);
    set_member(&mut items, item.id.as_str(), entry);
    set_member(inventory, "in", items);
}

/// Writes each of `items` into the store, in order.
pub fn write_items(inventory: &mut Value, items: &Vec<Item>)
    requires
        forall|i: int|
            0 <= i < items@.len() ==> item_writable(
                json_of(*old(inventory)),
                (#[trigger] items@[i])@.id,
            ),
    ensures
        json_of(*final(inventory)) == with_items(json_of(*old(inventory)), item_views(items@)),
{
    let ghost views = item_views(items@);
    let mut k: usize = 0;
    while k < items.len()
        invariant
            k <= items@.len(),
            views == item_views(items@),
            json_of(*inventory) == with_items(json_of(*old(inventory)), views.take(k as int)),
            forall|i: int|
                0 <= i < items@.len() ==> item_writable(
                    json_of(*inventory),
                    (#[trigger] items@[i])@.id,
                ),
        decreases items@.len() - k,
    {
        let ghost before = json_of(*inventory);
        write_item(inventory, &items[k]);
        proof {
            assert(views.take(k + 1).drop_last() =~= views.take(k as int));
            assert(views.take(k + 1).last() == items@[k as int]@);
            assert forall|i: int| 0 <= i < items@.len() implies item_writable(
                json_of(*inventory),
                (#[trigger] items@[i])@.id,
            ) by {
                lemma_with_item_keeps_writable(before, items@[k as int]@, items@[i]@.id);
            }
        }
        k = k + 1;
    }
    proof {
        assert(views.take(items@.len() as int) =~= views);
    }
}

} // verus!
