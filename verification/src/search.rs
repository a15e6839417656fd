//! Looking for a text in a text: as it stands, without regard to case, or by a
//! regular expression. What is found is given as the bytes that hold it.

use crate::locator::{find, first_occurrence, lemma_first_occurrence_from};
use core::ops::Range;
use regex::Regex;
use vstd::prelude::*;
use vstd::string::*;
use vstd::utf8::{encode_scalar, encode_utf8};

verus! {

/// The number of bytes that `c` takes in UTF-8.
pub open spec fn utf8_width(c: char) -> int {
    encode_scalar(c as u32).len() as int
}

/// The number of bytes that the characters `s` take in UTF-8.
pub open spec fn byte_len(s: Seq<char>) -> int
    decreases s.len(),
{
    if s.len() == 0 {
        0
    } else {
        byte_len(s.drop_last()) + utf8_width(s.last())
    }
}

/// The encoding of a text with one more character is the encoding of the text
/// followed by that of the character.
proof fn lemma_encode_push(s: Seq<char>, c: char)
    ensures
        encode_utf8(s.push(c)) == encode_utf8(s) + encode_scalar(c as u32),
    decreases s.len(),
{
    let t = s.push(c);
    if s.len() == 0 {
        assert(t.drop_first() =~= Seq::<char>::empty());
        assert(encode_utf8(t.drop_first()) =~= Seq::<u8>::empty());
        assert(encode_utf8(s) =~= Seq::<u8>::empty());
        assert(encode_utf8(t) == encode_scalar(t[0] as u32) + encode_utf8(t.drop_first()));
        assert(encode_utf8(t) =~= encode_utf8(s) + encode_scalar(c as u32));
    } else {
        lemma_encode_push(s.drop_first(), c);
        assert(t.drop_first() =~= s.drop_first().push(c));
        assert(encode_utf8(t) == encode_scalar(t[0] as u32) + encode_utf8(t.drop_first()));
        assert(encode_utf8(s) == encode_scalar(s[0] as u32) + encode_utf8(s.drop_first()));
        assert(encode_utf8(t) =~= encode_utf8(s) + encode_scalar(c as u32));
    }
}

/// `byte_len` counts the bytes of the UTF-8 encoding, and grows with the text.
pub proof fn lemma_byte_len(s: Seq<char>, k: int)
    requires
        0 <= k <= s.len(),
    ensures
        byte_len(s) == encode_utf8(s).len(),
        0 <= byte_len(s.take(k)) <= byte_len(s),
    decreases s.len() - k,
{
    lemma_byte_len_is_encoded(s);
    lemma_byte_len_is_encoded(s.take(k));
    if k < s.len() {
        lemma_byte_len(s, k + 1);
        assert(s.take(k + 1).drop_last() =~= s.take(k));
    } else {
        assert(s.take(k) =~= s);
    }
}

/// `byte_len` counts the bytes of the UTF-8 encoding.
proof fn lemma_byte_len_is_encoded(s: Seq<char>)
    ensures
        byte_len(s) == encode_utf8(s).len(),
    decreases s.len(),
{
    if s.len() > 0 {
        lemma_byte_len_is_encoded(s.drop_last());
        lemma_encode_push(s.drop_last(), s.last());
        assert(s.drop_last().push(s.last()) =~= s);
    }
}

/// The number of bytes that `c` takes in UTF-8.
pub fn len_utf8(c: char) -> (r: usize)
    ensures
        r == utf8_width(c),
        1 <= r <= 4,
{
    let code: u32 = c as u32;
    if code < 0x80 {
        1
    } else if code < 0x800 {
        2
    } else if code < 0x10000 {
        3
    } else {
        4
    }
}

/// What `char::to_uppercase` gives for a character.
pub uninterp spec fn char_upper(c: char) -> Seq<char>;

/// What `str::to_uppercase` gives for a text.
pub uninterp spec fn str_upper(s: Seq<char>) -> Seq<char>;

/// Calls `char::to_uppercase` and collects what it yields. Trusted: the
/// characters are a function of `c` alone, named `char_upper`.
#[verifier::external_body]
fn upper_of_char(c: char) -> (r: Vec<char>)
    ensures
        r@ == char_upper(c),
{
    c.to_uppercase().collect()
}

/// Calls `str::to_uppercase` and collects the characters of the result. Trusted:
/// they are a function of the text alone, named `str_upper`.
#[verifier::external_body]
pub(crate) fn upper_of_text(text: &str) -> (r: Vec<char>)
    ensures
        r@ == str_upper(text@),
{
    text.to_uppercase().chars().collect()
}

/// Where a scan for a text stands: how many characters of the text sought are
/// matched, and the bytes at which the match begins and, so far, ends. The scan
/// is over once all characters are matched.
pub ghost struct Scan {
    pub matched: int,
    pub start: int,
    pub end: int,
}

/// The scan after one more character `upper` of the upper-cased text, which ends
/// at the byte `next`. A character that fits extends the match; any other drops
/// it, and the next match can begin only behind that character.
pub open spec fn scan_step(scan: Scan, find: Seq<char>, next: int, upper: char) -> Scan {
    if scan.matched >= find.len() {
        scan
    } else if upper == find[scan.matched] {
        Scan { matched: scan.matched + 1, start: scan.start, end: next }
    } else {
        Scan { matched: 0, start: next, end: next }
    }
}

/// The scan after the characters `uppers`, all of which end at the byte `next`.
pub open spec fn scan_chars(scan: Scan, find: Seq<char>, next: int, uppers: Seq<char>) -> Scan
    decreases uppers.len(),
{
    if uppers.len() == 0 {
        scan
    } else {
        scan_step(scan_chars(scan, find, next, uppers.drop_last()), find, next, uppers.last())
    }
}

/// The scan after the whole of `text`, each character taken in upper case and by
/// the byte at which it ends.
pub open spec fn scan_text(text: Seq<char>, find: Seq<char>) -> Scan
    decreases text.len(),
{
    if text.len() == 0 {
        Scan { matched: 0, start: 0, end: 0 }
    } else {
        scan_chars(
            scan_text(text.drop_last(), find),
            find,
            byte_len(text),
            char_upper(text.last()),
        )
    }
}

/// The bytes of `text` in which a scan finds `find`, both taken in upper case.
/// The scan goes through `text` once and never looks back: a character that does
/// not fit drops the match and is itself not tried as the beginning of one.
pub open spec fn ignore_case_match(text: Seq<char>, find: Seq<char>) -> Option<(int, int)> {
    let scan = scan_text(text, str_upper(find));
    if text.len() == 0 || find.len() == 0 || scan.matched < str_upper(find).len() {
        None
    } else {
        Some((scan.start, scan.end))
    }
}

/// Looks for `find` in `text` without regard to case, and gives the bytes of
/// `text` that hold the match.
pub fn find_ignore_case(text: &str, find: &str) -> (r: Option<Range<usize>>)
    ensures
        match r {
            Some(range) => ignore_case_match(text@, find@) == Some(
                (range.start as int, range.end as int),
            ),
            None => ignore_case_match(text@, find@) is None,
        },
{
    if text.is_empty() || find.is_empty() {
        return None;
    }
    let find = upper_of_text(find);
    let total: usize = text.as_bytes().len();
    let chars: usize = text.unicode_len();
    let mut matched: usize = 0;
    let mut start: usize = 0;
    let mut end: usize = 0;
    let mut pos: usize = 0;
    let mut i: usize = 0;
    proof {
        assert(text@.take(0) =~= Seq::<char>::empty());
    }
    for c in it: text.chars()
        invariant
            i == it.index(),
            it.seq() == text@,
            total == text.spec_bytes().len(),
            chars == text@.len(),
            pos == byte_len(text@.take(i as int)),
            matched <= find@.len(),
            scan_text(text@.take(i as int), find@) == (Scan {
                matched: matched as int,
                start: start as int,
                end: end as int,
            }),
    {
        proof {
            lemma_byte_len(text@, i + 1);
            assert(text@.take(i + 1).drop_last() =~= text@.take(i as int));
            assert(text@.take(i + 1).last() == c);
        }
        pos = pos + len_utf8(c);
        let ghost before = scan_text(text@.take(i as int), find@);
        if matched < find.len() {
            let upper = upper_of_char(c);
            let mut k: usize = 0;
            proof {
                assert(upper@.take(0) =~= Seq::<char>::empty());
            }
            while k < upper.len()
                invariant
                    k <= upper@.len(),
                    matched <= find@.len(),
                    scan_chars(before, find@, pos as int, upper@.take(k as int)) == (Scan {
                        matched: matched as int,
                        start: start as int,
                        end: end as int,
                    }),
                decreases upper@.len() - k,
            {
                proof {
                    assert(upper@.take(k + 1).drop_last() =~= upper@.take(k as int));
                    assert(upper@.take(k + 1).last() == upper@[k as int]);
                }
                if matched < find.len() {
                    if upper[k] == find[matched] {
                        matched = matched + 1;
                        end = pos;
                    } else {
                        matched = 0;
                        start = pos;
                        end = pos;
                    }
                }
                k = k + 1;
            }
            proof {
                assert(upper@.take(upper@.len() as int) =~= upper@);
            }
        } else {
            proof {
                lemma_scan_over(before, find@, pos as int, char_upper(c));
            }
        }
        i = i + 1;
    }
    proof {
        assert(text@.take(text@.len() as int) =~= text@);
    }
    if matched < find.len() {
        None
    } else {
        Some(start..end)
    }
}

/// A scan that is over stays as it is.
proof fn lemma_scan_over(scan: Scan, find: Seq<char>, next: int, uppers: Seq<char>)
    requires
        scan.matched >= find.len(),
    ensures
        scan_chars(scan, find, next, uppers) == scan,
    decreases uppers.len(),
{
    if uppers.len() > 0 {
        lemma_scan_over(scan, find, next, uppers.drop_last());
    }
}

#[verifier::external_type_specification]
#[verifier::external_body]
pub struct ExRegex(regex::Regex);

/// `clone` of `regex::Regex`. Nothing is stated of the copy.
pub assume_specification[ <regex::Regex as Clone>::clone ](pattern: &regex::Regex) -> (r:
    regex::Regex)
;

/// The bytes of a text at which `Regex::find` has the first match of an
/// expression begin and end.
pub uninterp spec fn regex_match(pattern: regex::Regex, text: Seq<char>) -> Option<(usize, usize)>;

/// Calls `Regex::find` and gives the byte offsets at which the match begins and
/// ends. Trusted: they are a function of the expression and the text alone,
/// named `regex_match`; the match begins no later than it ends, and ends inside
/// the text.
#[verifier::external_body]
fn regex_find(regex: &Regex, text: &str) -> (r: Option<(usize, usize)>)
    ensures
        r == regex_match(*regex, text@),
        r matches Some((start, end)) ==> start <= end <= text.spec_bytes().len(),
{
    regex.find(text).map(|m| (m.start(), m.end()))
}

/// What to look for in a text.
#[derive(Clone)]
pub enum Search {
    /// Search for the specified string.
    String { find: String, ignore_case: bool },
    /// Use a regular expression for pattern matching.
    Regex(Regex),
}

impl Search {
    /// The bytes of `text` that hold the first match. A string is sought as it
    /// stands, or by `find_ignore_case` where case is to be ignored; a regular
    /// expression gives the match that `regex_match` names.
    pub fn find_in(&self, text: &str) -> (r: Option<Range<usize>>)
        ensures
            match *self {
                Search::String { find, ignore_case } => if ignore_case {
                    match r {
                        Some(range) => ignore_case_match(text@, find@) == Some(
                            (range.start as int, range.end as int),
                        ),
                        None => ignore_case_match(text@, find@) is None,
                    }
                } else {
                    match r {
                        Some(range) => first_occurrence(text.spec_bytes(), encode_utf8(find@))
                            == Some(range.start as int) && range.end == range.start
                            + encode_utf8(find@).len(),
                        None => first_occurrence(text.spec_bytes(), encode_utf8(find@)) is None,
                    }
                },
                Search::Regex(pattern) => match regex_match(pattern, text@) {
                    Some((start, end)) => r matches Some(range) && range.start == start
                        && range.end == end && start <= end <= text.spec_bytes().len(),
                    None => r is None,
                },
            },
    {
        match self {
            Search::String { find: sought, ignore_case } => {
                if *ignore_case {
                    find_ignore_case(text, sought.as_str())
                } else {
                    let needle = sought.as_str().as_bytes();
                    let hay = text.as_bytes();
                    let total: usize = hay.len();
                    match find(hay, needle) {
                        Some(pos) => {
                            proof {
                                lemma_first_occurrence_from(hay@, needle@, 0);
                            }
                            Some(pos..pos + needle.len())
                        },
                        None => None,
                    }
                }
            },
            Search::Regex(regex) => {
                match regex_find(regex, text) {
                    Some((start, end)) => Some(start..end),
                    None => None,
                }
            },
        }
    }
}

} // verus!
