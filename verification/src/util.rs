//! Helpers around the document: the text of numbers and times, and the state
//! that an application shares between its parts.

pub use crate::locale::get_locale;
use crate::locale::{decimal_of, locale_decimal};
use num_format::Locale;
use std::fmt::Write;
pub use crate::search::{find_ignore_case, Search};
pub use crate::skills::{parse_skill_group, Skill, SkillGroup};
use std::sync::atomic::AtomicBool;
use vstd::prelude::*;
use vstd::string::*;

verus! {

/// Flags that the parts of an application share.
pub struct AppState {
    /// Show the "progress" cursor.
    pub busy: AtomicBool,
    /// Enable or disable the whole user interface.
    pub enabled: AtomicBool,
}

impl Default for AppState {
    /// The state at start: not busy, and enabled.
    fn default() -> (r: Self) {
        AppState { busy: AtomicBool::new(false), enabled: AtomicBool::new(true) }
    }
}

/// The two kinds of skills.
#[derive(Clone, Copy, Debug, PartialEq, Eq, Structural)]
pub enum SkillCategory {
    Adventurer,
    Producer,
}

/// A comma, or the Arabic decimal separator.
pub open spec fn is_decimal_mark(c: char) -> bool {
    c == ',' || c == '\u{66b}'
}

/// The index of the first decimal mark of `s` at or behind `from`.
pub open spec fn first_mark_from(s: Seq<char>, from: int) -> Option<int>
    decreases s.len() - from,
{
    if from < 0 || from >= s.len() {
        None
    } else if is_decimal_mark(s[from]) {
        Some(from)
    } else {
        first_mark_from(s, from + 1)
    }
}

/// `s` with its first decimal mark, if it has one, replaced by a period.
pub open spec fn decimal_replaced(s: Seq<char>) -> Seq<char> {
    match first_mark_from(s, 0) {
        Some(i) => s.update(i, '.'),
        None => s,
    }
}

/// An index that holds a decimal mark, with none before it back to `from`, is the
/// first from there; the length of `s` stands for there being none.
proof fn lemma_first_mark(s: Seq<char>, from: int, i: int)
    requires
        0 <= from <= i <= s.len(),
        forall|j: int| from <= j < i ==> !is_decimal_mark(s[j]),
        i < s.len() ==> is_decimal_mark(s[i]),
    ensures
        first_mark_from(s, from) == if i < s.len() {
            Some(i)
        } else {
            None
        },
    decreases i - from,
{
    if from < i {
        lemma_first_mark(s, from + 1, i);
    }
}

/// Replaces the first comma or Arabic decimal separator of `text` by a period,
/// and leaves the rest as it is.
pub fn replace_decimal(text: &str) -> (r: String)
    ensures
        r@ == decimal_replaced(text@),
{
    let len: usize = text.unicode_len();
    let mut i: usize = 0;
    let mut found: Option<usize> = None;
    for c in it: text.chars()
        invariant
            i == it.index(),
            it.seq() == text@,
            len == text@.len(),
            found is None ==> forall|j: int| 0 <= j < i ==> !is_decimal_mark(text@[j]),
            found matches Some(k) ==> k < i && is_decimal_mark(text@[k as int]) && forall|j: int|
                0 <= j < k ==> !is_decimal_mark(text@[j]),
    {
        if found.is_none() && (c == ',' || c == '\u{66b}') {
            found = Some(i);
        }
        i = i + 1;
    }
    match found {
        Some(k) => {
            proof {
                lemma_first_mark(text@, 0, k as int);
                reveal_strlit(".");
            }
            let mut out = text.substring_char(0, k).to_owned();
            out.append(".");
            out.append(text.substring_char(k + 1, len));
            assert(out@ =~= text@.update(k as int, '.'));
            out
        },
        None => {
            proof {
                lemma_first_mark(text@, 0, len as int);
            }
            text.to_owned()
        },
    }
}

/// The distance from `text_addr` to `sub_addr`, where `sub_addr` lies within the
/// `text_len` bytes from `text_addr` on.
pub open spec fn offset_between(text_addr: int, text_len: int, sub_addr: int) -> Option<int> {
    if text_addr <= sub_addr < text_addr + text_len {
        Some(sub_addr - text_addr)
    } else {
        None
    }
}

/// The byte distance from the address `text_addr` of a text of `text_len` bytes
/// to the address `sub_addr`, where that address lies inside the text.
pub fn offset_of_address(text_addr: usize, text_len: usize, sub_addr: usize) -> (r: Option<usize>)
    ensures
        match r {
            Some(d) => offset_between(text_addr as int, text_len as int, sub_addr as int) == Some(
                d as int,
            ),
            None => offset_between(text_addr as int, text_len as int, sub_addr as int) is None,
        },
{
    if sub_addr >= text_addr && sub_addr - text_addr < text_len {
        Some(sub_addr - text_addr)
    } else {
        None
    }
}

/// Calls `str::as_ptr` and gives the address as a number. Nothing is stated of
/// it: where a text lies in memory is up to the machine.
#[verifier::external_body]
fn address(text: &str) -> usize {
    text.as_ptr() as usize
}

/// The byte distance between `text` and `sub`, where `sub` begins inside `text`.
/// Which texts lie inside which is a matter of where they are in memory, so the
/// outcome is known only to lie inside `text`; `offset_of_address` says what it
/// is for given addresses.
pub fn offset(text: &str, sub: &str) -> (r: Option<usize>)
    ensures
        r matches Some(d) ==> d < text.spec_bytes().len(),
{
    offset_of_address(address(text), text.len(), address(sub))
}

/// The text that `chrono` writes for the time `ts` seconds after the beginning of
/// 1970 in the format `format`: none where the time is out of its range, or the
/// format is none that `chrono` can write the time in.
pub uninterp spec fn timestamp_text(ts: i64, format: Seq<char>) -> Option<Seq<char>>;

/// Calls `DateTime::from_timestamp` and writes what `format` of `chrono` makes of
/// its result. Trusted: the text is a function of `ts` and `format` alone, named
/// `timestamp_text`; there is none where the time is out of range or writing
/// fails.
#[verifier::external_body]
fn format_timestamp(ts: i64, format: &str) -> (r: Option<String>)
    ensures
        match r {
            Some(text) => timestamp_text(ts, format@) == Some(text@),
            None => timestamp_text(ts, format@) is None,
        },
{
    let time = chrono::DateTime::from_timestamp(ts, 0)?;
    let mut text = String::new();
    write!(text, "{}", time.naive_utc().format(format)).ok().map(|_| text)
}

/// The date and time of a timestamp, as text: year, month, day, hour, minute and
/// second. No timestamp gives the empty text; a timestamp that has no date
/// gives none.
pub fn timestamp_to_string(ts: Option<i64>) -> (r: Option<String>)
    ensures
        match ts {
            Some(t) => match r {
                Some(text) => timestamp_text(t, "%Y-%m-%d %H:%M:%S"@) == Some(text@),
                None => timestamp_text(t, "%Y-%m-%d %H:%M:%S"@) is None,
            },
            None => r matches Some(text) && text@ == Seq::<char>::empty(),
        },
{
    match ts {
        Some(t) => format_timestamp(t, "%Y-%m-%d %H:%M:%S"),
        None => Some(String::new()),
    }
}

/// `s` without the characters `c` that end it.
pub open spec fn trimmed_end(s: Seq<char>, c: char) -> Seq<char>
    decreases s.len(),
{
    if s.len() > 0 && s.last() == c {
        trimmed_end(s.drop_last(), c)
    } else {
        s
    }
}

/// The index of the first `c` of `s` at or behind `from`.
pub open spec fn first_index_from(s: Seq<char>, c: char, from: int) -> Option<int>
    decreases s.len() - from,
{
    if from < 0 || from >= s.len() {
        None
    } else if s[from] == c {
        Some(from)
    } else {
        first_index_from(s, c, from + 1)
    }
}

/// `s` with its first `c`, if it has one, replaced by `with`.
pub open spec fn first_replaced(s: Seq<char>, c: char, with: Seq<char>) -> Seq<char> {
    match first_index_from(s, c, 0) {
        Some(p) => s.take(p) + with + s.skip(p + 1),
        None => s,
    }
}

/// The text for display of a number that is written with a fixed number of
/// decimals: without the zeros that end it, without the period that then ends
/// it, and with `decimal` in place of the period that is left.
pub open spec fn number_text(fixed: Seq<char>, decimal: Seq<char>) -> Seq<char> {
    first_replaced(trimmed_end(trimmed_end(fixed, '0'), '.'), '.', decimal)
}

/// Trimming a text with one more character: the character goes with the rest if
/// it is `c`, and stays with all before it if not.
proof fn lemma_trimmed_end_step(s: Seq<char>, c: char, k: int)
    requires
        0 <= k < s.len(),
    ensures
        trimmed_end(s.take(k + 1), c) == if s[k] == c {
            trimmed_end(s.take(k), c)
        } else {
            s.take(k + 1)
        },
{
    assert(s.take(k + 1).drop_last() =~= s.take(k));
    assert(s.take(k + 1).last() == s[k]);
}

/// An index that holds `c`, with none before it back to `from`, is the first from
/// there; the length of `s` stands for there being none.
pub proof fn lemma_first_index(s: Seq<char>, c: char, from: int, i: int)
    requires
        0 <= from <= i <= s.len(),
        forall|j: int| from <= j < i ==> s[j] != c,
        i < s.len() ==> s[i] == c,
    ensures
        first_index_from(s, c, from) == if i < s.len() {
            Some(i)
        } else {
            None
        },
    decreases i - from,
{
    if from < i {
        lemma_first_index(s, c, from + 1, i);
    }
}

/// Makes the text for display of a number out of its text with a fixed number
/// of decimals, `fixed`, as the locale `locale` shows numbers: the zeros that end
/// it go, then the period that ends it, and the period that is left becomes the
/// decimal separator of the locale.
pub fn f64_to_string(fixed: &str, locale: Locale) -> (r: String)
    ensures
        r@ == number_text(fixed@, locale_decimal(locale)),
{
    trim_number(fixed, decimal_of(&locale))
}

/// Makes the text for display of a number out of its text with a fixed number
/// of decimals, `fixed`: the zeros that end it go, then the period that ends it,
/// and the period that is left becomes `decimal`.
pub fn trim_number(fixed: &str, decimal: &str) -> (r: String)
    ensures
        r@ == number_text(fixed@, decimal@),
{
    let len: usize = fixed.unicode_len();
    let mut kept: usize = 0;
    let mut bare: usize = 0;
    let mut undotted: usize = 0;
    let mut dot: Option<usize> = None;
    let mut i: usize = 0;
    proof {
        assert(fixed@.take(0) =~= Seq::<char>::empty());
    }
    for c in it: fixed.chars()
        invariant
            i == it.index(),
            it.seq() == fixed@,
            len == fixed@.len(),
            kept <= i,
            bare <= kept,
            undotted <= i,
            trimmed_end(fixed@.take(i as int), '0') == fixed@.take(kept as int),
            trimmed_end(fixed@.take(kept as int), '.') == fixed@.take(bare as int),
            trimmed_end(fixed@.take(i as int), '.') == fixed@.take(undotted as int),
            match dot {
                Some(p) => p < i && fixed@[p as int] == '.' && forall|j: int|
                    0 <= j < p ==> fixed@[j] != '.',
                None => forall|j: int| 0 <= j < i ==> fixed@[j] != '.',
            },
    {
        proof {
            lemma_trimmed_end_step(fixed@, '0', i as int);
            lemma_trimmed_end_step(fixed@, '.', i as int);
        }
        if c == '.' {
            if dot.is_none() {
                dot = Some(i);
            }
        } else {
            undotted = i + 1;
        }
        if c != '0' {
            kept = i + 1;
            bare = undotted;
        }
        i = i + 1;
    }
    proof {
        assert(fixed@.take(len as int) =~= fixed@);
    }
    let ghost short = fixed@.take(bare as int);
    match dot {
        Some(p) => {
            if p < bare {
                proof {
                    assert forall|j: int| 0 <= j < p implies short[j] != '.' by {
                        assert(short[j] == fixed@[j]);
                    }
                    lemma_first_index(short, '.', 0, p as int);
                }
                let mut out = fixed.substring_char(0, p).to_owned();
                out.append(decimal);
                out.append(fixed.substring_char(p + 1, bare));
                assert(out@ =~= short.take(p as int) + decimal@ + short.skip(p + 1));
                out
            } else {
                proof {
                    assert forall|j: int| 0 <= j < bare implies short[j] != '.' by {
                        assert(short[j] == fixed@[j]);
                    }
                    lemma_first_index(short, '.', 0, bare as int);
                }
                let out = fixed.substring_char(0, bare).to_owned();
                assert(out@ =~= short);
                out
            }
        },
        None => {
            proof {
                assert forall|j: int| 0 <= j < bare implies short[j] != '.' by {
                    assert(short[j] == fixed@[j]);
                }
                lemma_first_index(short, '.', 0, bare as int);
            }
            let out = fixed.substring_char(0, bare).to_owned();
            assert(out@ =~= short);
            out
        },
    }
}

} // verus!
