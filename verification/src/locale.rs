//! Choosing the locale by which numbers are shown.
//!
//! The system names the user's locale; `num_format` knows a list of locales by
//! name. The locale chosen is the one whose name is the system's, case apart, or
//! else the one named by what is left of the system's name when its last part,
//! from the last `-` on, is taken away, and so on; English where nothing fits.

use crate::search::{str_upper, upper_of_text};
use num_format::Locale;
use vstd::prelude::*;
use vstd::string::*;

verus! {

#[verifier::external_type_specification]
#[verifier::external_body]
pub struct ExLocale(num_format::Locale);

/// The name of a locale: what `Locale::name` gives.
pub uninterp spec fn locale_name(locale: Locale) -> Seq<char>;

/// The name of the locale that `Locale::from_name` gives for a name, where it
/// knows the name.
pub uninterp spec fn locale_by_name(name: Seq<char>) -> Option<Seq<char>>;

/// The decimal separator of a locale: what `Locale::decimal` gives.
pub uninterp spec fn locale_decimal(locale: Locale) -> Seq<char>;

/// Calls `Locale::decimal`. Trusted: the separator is a function of the locale
/// alone, named `locale_decimal`.
#[verifier::external_body]
pub(crate) fn decimal_of(locale: &Locale) -> (r: &'static str)
    ensures
        r@ == locale_decimal(*locale),
{
    locale.decimal()
}

/// Calls `Locale::available_names` and copies the names. Nothing is stated of
/// them.
#[verifier::external_body]
fn available_names() -> Vec<String> {
    Locale::available_names().iter().map(|name| name.to_string()).collect()
}

/// Calls `Locale::from_name`. Trusted: which locale it gives, if any, is a
/// function of the name alone, named `locale_by_name`.
#[verifier::external_body]
fn from_name(name: &str) -> (r: Option<Locale>)
    ensures
        match r {
            Some(locale) => locale_by_name(name@) == Some(locale_name(locale)),
            None => locale_by_name(name@) is None,
        },
{
    Locale::from_name(name).ok()
}

/// Gives `Locale::en`. Trusted: its name is `en`.
#[verifier::external_body]
fn english() -> (r: Locale)
    ensures
        locale_name(r) == "en"@,
{
    Locale::en
}

/// Calls `sys_locale::get_locale`. Nothing is stated of the name: it is the
/// system's to give.
#[verifier::external_body]
fn system_locale() -> Option<String> {
    sys_locale::get_locale()
}

/// `s` with every `_` replaced by `-`.
pub open spec fn dashed(s: Seq<char>) -> Seq<char> {
    s.map_values(
        |c: char|
            if c == '_' {
                '-'
            } else {
                c
            },
    )
}

/// The index of the last `-` of `s`.
pub open spec fn last_dash(s: Seq<char>) -> Option<int>
    decreases s.len(),
{
    if s.len() == 0 {
        None
    } else if s.last() == '-' {
        Some(s.len() - 1)
    } else {
        last_dash(s.drop_last())
    }
}

/// The index of the first of `names` at or behind `from` that is `key` in upper
/// case.
pub open spec fn name_index_from(names: Seq<Seq<char>>, key: Seq<char>, from: int) -> Option<int>
    decreases names.len() - from,
{
    if from < 0 || from >= names.len() {
        None
    } else if str_upper(names[from]) == key {
        Some(from)
    } else {
        name_index_from(names, key, from + 1)
    }
}

/// The name of the locale that `names` hold for `key`: that of the name which is
/// `key` in upper case, where `from_name` knows it.
pub open spec fn locale_at(names: Seq<Seq<char>>, key: Seq<char>) -> Option<Seq<char>> {
    match name_index_from(names, key, 0) {
        Some(i) => locale_by_name(names[i]),
        None => None,
    }
}

/// The name of the locale chosen for `key`, a name in upper case: the locale that
/// `names` hold for it, or else the one chosen for `key` without its last part,
/// or else English.
pub open spec fn chosen(names: Seq<Seq<char>>, key: Seq<char>) -> Seq<char>
    decreases key.len(),
{
    match locale_at(names, key) {
        Some(name) => name,
        None => match last_dash(key) {
            Some(p) => {
                if 0 <= p < key.len() {
                    chosen(names, key.take(p))
                } else {
                    "en"@
                }
            },
            None => "en"@,
        },
    }
}

/// The characters of the names.
pub open spec fn name_views(names: Seq<String>) -> Seq<Seq<char>> {
    names.map_values(|name: String| name@)
}

/// `text` with every `_` replaced by `-`.
pub fn with_dashes(text: &str) -> (r: String)
    ensures
        r@ == dashed(text@),
{
    let len: usize = text.unicode_len();
    let mut out = String::new();
    let mut done: usize = 0;
    let mut i: usize = 0;
    proof {
        reveal_strlit("-");
    }
    for c in it: text.chars()
        invariant
            i == it.index(),
            it.seq() == text@,
            len == text@.len(),
            done <= i,
            out@ == dashed(text@).take(done as int),
            forall|j: int| done <= j < i ==> text@[j] != '_',
            "-"@ == seq!['-'],
    {
        if c == '_' {
            out.append(text.substring_char(done, i));
            out.append("-");
            assert(out@ =~= dashed(text@).take(i + 1));
            done = i + 1;
        }
        i = i + 1;
    }
    out.append(text.substring_char(done, len));
    assert(out@ =~= dashed(text@));
    out
}

/// Tells whether the first `len` characters of `key` are the characters `name`.
fn is_prefix(name: &Vec<char>, key: &Vec<char>, len: usize) -> (r: bool)
    requires
        len <= key@.len(),
    ensures
        r == (name@ == key@.take(len as int)),
{
    if name.len() != len {
        return false;
    }
    let mut i: usize = 0;
    while i < len
        invariant
            i <= len,
            len == name@.len(),
            len <= key@.len(),
            forall|j: int| 0 <= j < i ==> name@[j] == key@[j],
        decreases len - i,
    {
        if name[i] != key[i] {
            assert(key@.take(len as int)[i as int] != name@[i as int]);
            return false;
        }
        i = i + 1;
    }
    assert(name@ =~= key@.take(len as int));
    true
}

/// The index of the last `-` among the first `len` characters of `key`.
fn find_last_dash(key: &Vec<char>, len: usize) -> (r: Option<usize>)
    requires
        len <= key@.len(),
    ensures
        match r {
            Some(p) => last_dash(key@.take(len as int)) == Some(p as int) && p < len,
            None => last_dash(key@.take(len as int)) is None,
        },
{
    let mut i: usize = len;
    while i > 0
        invariant
            i <= len <= key@.len(),
            last_dash(key@.take(len as int)) == last_dash(key@.take(i as int)),
        decreases i,
    {
        proof {
            assert(key@.take(i as int).drop_last() =~= key@.take(i - 1));
            assert(key@.take(i as int).last() == key@[i - 1]);
        }
        if key[i - 1] == '-' {
            return Some(i - 1);
        }
        i = i - 1;
    }
    None
}

/// Looks among `names`, whose upper-case forms are `uppers`, for the one that is
/// the first `len` characters of `key`, and gives the locale of that name.
fn lookup(names: &Vec<String>, uppers: &Vec<Vec<char>>, key: &Vec<char>, len: usize) -> (r: Option<
    Locale,
>)
    requires
        len <= key@.len(),
        uppers@.len() == names@.len(),
        forall|j: int|
            0 <= j < uppers@.len() ==> (#[trigger] uppers@[j])@ == str_upper(
                name_views(names@)[j],
            ),
    ensures
        match r {
            Some(locale) => locale_at(name_views(names@), key@.take(len as int)) == Some(
                locale_name(locale),
            ),
            None => locale_at(name_views(names@), key@.take(len as int)) is None,
        },
{
    let ghost views = name_views(names@);
    let ghost part = key@.take(len as int);
    let mut i: usize = 0;
    while i < uppers.len()
        invariant
            i <= uppers@.len(),
            len <= key@.len(),
            part == key@.take(len as int),
            uppers@.len() == names@.len(),
            views == name_views(names@),
            forall|j: int|
                0 <= j < uppers@.len() ==> (#[trigger] uppers@[j])@ == str_upper(views[j]),
            name_index_from(views, part, 0) == name_index_from(views, part, i as int),
        decreases uppers@.len() - i,
    {
        if is_prefix(&uppers[i], key, len) {
            assert(str_upper(views[i as int]) == part);
            assert(views[i as int] == names@[i as int]@);
            return from_name(names[i].as_str());
        }
        i = i + 1;
    }
    None
}

/// Chooses the locale for the name `name` from the locales that `names` list.
pub fn locale_for(name: &str, names: &Vec<String>) -> (r: Locale)
    ensures
        locale_name(r) == chosen(name_views(names@), str_upper(dashed(name@))),
{
    let dashes = with_dashes(name);
    let key = upper_of_text(dashes.as_str());
    let ghost views = name_views(names@);
    let mut uppers: Vec<Vec<char>> = Vec::new();
    let mut n: usize = 0;
    while n < names.len()
        invariant
            n <= names@.len(),
            uppers@.len() == n,
            views == name_views(names@),
            forall|j: int| 0 <= j < n ==> (#[trigger] uppers@[j])@ == str_upper(views[j]),
        decreases names@.len() - n,
    {
        proof {
            assert(views[n as int] == names@[n as int]@);
        }
        uppers.push(upper_of_text(names[n].as_str()));
        n = n + 1;
    }
    let mut len: usize = key.len();
    proof {
        assert(key@.take(len as int) =~= key@);
    }
    loop
        invariant
            len <= key@.len(),
            uppers@.len() == names@.len(),
            views == name_views(names@),
            forall|j: int|
                0 <= j < uppers@.len() ==> (#[trigger] uppers@[j])@ == str_upper(views[j]),
            chosen(views, key@) == chosen(views, key@.take(len as int)),
            key@ == str_upper(dashed(name@)),
        decreases len,
    {
        let ghost part = key@.take(len as int);
        match lookup(names, &uppers, &key, len) {
            Some(locale) => {
                return locale;
            },
            None => {},
        }
        match find_last_dash(&key, len) {
            Some(p) => {
                proof {
                    assert(part.take(p as int) =~= key@.take(p as int));
                }
                len = p;
            },
            None => {
                return english();
            },
        }
    }
}

/// The name of the locale chosen for what the system gave: for the name that it
/// gave, among the names `names`, or English where it gave none.
pub open spec fn system_choice(system: Option<Seq<char>>, names: Seq<Seq<char>>) -> Seq<char> {
    match system {
        Some(name) => chosen(names, str_upper(dashed(name))),
        None => "en"@,
    }
}

/// What `name_index_from` finds lies in `names`, at or behind `from`.
proof fn lemma_name_index_in_range(names: Seq<Seq<char>>, key: Seq<char>, from: int)
    requires
        0 <= from,
    ensures
        name_index_from(names, key, from) matches Some(i) ==> from <= i < names.len(),
    decreases names.len() - from,
{
    if from < names.len() && str_upper(names[from]) != key {
        lemma_name_index_in_range(names, key, from + 1);
    }
}

/// The locale chosen is English, or one that `from_name` gives for one of the
/// names.
pub proof fn lemma_chosen_is_known(names: Seq<Seq<char>>, key: Seq<char>)
    ensures
        chosen(names, key) == "en"@ || exists|i: int|
            0 <= i < names.len() && #[trigger] locale_by_name(names[i]) == Some(chosen(names, key)),
    decreases key.len(),
{
    lemma_name_index_in_range(names, key, 0);
    match locale_at(names, key) {
        Some(name) => {
            let i = name_index_from(names, key, 0)->Some_0;
            assert(locale_by_name(names[i]) == Some(chosen(names, key)));
        },
        None => match last_dash(key) {
            Some(p) => {
                if 0 <= p < key.len() {
                    lemma_chosen_is_known(names, key.take(p));
                }
            },
            None => {},
        },
    }
}

/// The locale of the system, for showing numbers: the one chosen for the name
/// that the system gives, among the names that `num_format` lists, or English
/// where the system gives none. What the system gives is not known beforehand,
/// so the locale is known only to be chosen in this way for some name, and so
/// to be English or a locale that `from_name` gives.
pub fn get_locale() -> (r: Locale)
    ensures
        exists|system: Option<Seq<char>>, names: Seq<Seq<char>>|
            locale_name(r) == #[trigger] system_choice(system, names),
        locale_name(r) == "en"@ || exists|name: Seq<char>| #[trigger]
            locale_by_name(name) == Some(locale_name(r)),
{
    match system_locale() {
        Some(name) => {
            let names = available_names();
            let locale = locale_for(name.as_str(), &names);
            proof {
                let views = name_views(names@);
                let key = str_upper(dashed(name@));
                assert(locale_name(locale) == system_choice(Some(name@), views));
                lemma_chosen_is_known(views, key);
                if locale_name(locale) != "en"@ {
                    let i = choose|i: int|
                        0 <= i < views.len() && #[trigger] locale_by_name(views[i]) == Some(
                            chosen(views, key),
                        );
                    assert(locale_by_name(views[i]) == Some(locale_name(locale)));
                }
            }
            locale
        },
        None => {
            let locale = english();
            proof {
                assert(locale_name(locale) == system_choice(
                    None::<Seq<char>>,
                    Seq::<Seq<char>>::empty(),
                ));
            }
            locale
        },
    }
}

} // verus!
