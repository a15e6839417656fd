//! Reading a table of thresholds from its text.
//!
//! The text lists the thresholds between brackets, parted by commas, as in
//! `[0, 100, 250]`. Blanks and line breaks around the brackets and around each
//! number do not count, and a comma may follow the last number.

use crate::decimal::{decimal_i64, parse_i64};
use crate::exp_table::{valid_table, ExpTable};
use crate::skills::{chars_of, split, split_at, text_views};
use vstd::prelude::*;
use vstd::string::*;

verus! {

/// A blank, a tab, a line feed or a carriage return.
pub open spec fn is_space(c: char) -> bool {
    c == ' ' || c == '\t' || c == '\n' || c == '\r'
}

/// `s` without the spaces that begin it.
pub open spec fn without_leading_spaces(s: Seq<char>) -> Seq<char>
    decreases s.len(),
{
    if s.len() > 0 && is_space(s[0]) {
        without_leading_spaces(s.drop_first())
    } else {
        s
    }
}

/// `s` without the spaces that end it.
pub open spec fn without_trailing_spaces(s: Seq<char>) -> Seq<char>
    decreases s.len(),
{
    if s.len() > 0 && is_space(s.last()) {
        without_trailing_spaces(s.drop_last())
    } else {
        s
    }
}

/// `s` without the spaces that begin and end it.
pub open spec fn trimmed(s: Seq<char>) -> Seq<char> {
    without_trailing_spaces(without_leading_spaces(s))
}

/// The fields of a list: the parts between its commas, without the last part
/// where that holds nothing but spaces.
pub open spec fn list_fields(inner: Seq<char>) -> Seq<Seq<char>> {
    let fields = split_at(inner, ',');
    if fields.len() > 0 && trimmed(fields.last()).len() == 0 {
        fields.drop_last()
    } else {
        fields
    }
}

/// The numbers that the fields write, where each of them, trimmed, writes an
/// integer within `i64`.
pub open spec fn field_values(fields: Seq<Seq<char>>) -> Option<Seq<i64>>
    decreases fields.len(),
{
    if fields.len() == 0 {
        Some(Seq::empty())
    } else {
        match (field_values(fields.drop_last()), decimal_i64(trimmed(fields.last()))) {
            (Some(values), Some(value)) => Some(values.push(value)),
            _ => None,
        }
    }
}

/// The numbers that the text of a table lists: the text, trimmed, must begin
/// with `[` and end with `]`, and each field between must write an integer.
pub open spec fn listed_values(text: Seq<char>) -> Option<Seq<i64>> {
    let list = trimmed(text);
    if list.len() >= 2 && list[0] == '[' && list.last() == ']' {
        field_values(list_fields(list.subrange(1, list.len() - 1)))
    } else {
        None
    }
}

/// The bounds of `text` without the spaces that begin and end it.
fn trim_bounds(chars: &Vec<char>) -> (r: (usize, usize))
    ensures
        r.0 <= r.1 <= chars@.len(),
        trimmed(chars@) == chars@.subrange(r.0 as int, r.1 as int),
{
    let len: usize = chars.len();
    let mut lo: usize = 0;
    proof {
        assert(chars@.skip(0) =~= chars@);
    }
    while lo < len && (chars[lo] == ' ' || chars[lo] == '\t' || chars[lo] == '\n' || chars[lo]
        == '\r')
        invariant
            lo <= len,
            len == chars@.len(),
            without_leading_spaces(chars@) == without_leading_spaces(chars@.skip(lo as int)),
        decreases len - lo,
    {
        proof {
            assert(chars@.skip(lo as int).drop_first() =~= chars@.skip(lo + 1));
        }
        lo = lo + 1;
    }
    let ghost rest = chars@.skip(lo as int);
    assert(without_leading_spaces(chars@) == rest);
    let mut hi: usize = len;
    proof {
        assert(chars@.subrange(lo as int, len as int) =~= rest);
    }
    while hi > lo && (chars[hi - 1] == ' ' || chars[hi - 1] == '\t' || chars[hi - 1] == '\n'
        || chars[hi - 1] == '\r')
        invariant
            lo <= hi <= len,
            len == chars@.len(),
            without_trailing_spaces(rest) == without_trailing_spaces(
                chars@.subrange(lo as int, hi as int),
            ),
        decreases hi - lo,
    {
        proof {
            assert(chars@.subrange(lo as int, hi as int).drop_last() =~= chars@.subrange(
                lo as int,
                hi - 1,
            ));
        }
        hi = hi - 1;
    }
    (lo, hi)
}

/// `text` without the spaces that begin and end it.
pub fn trim(text: &str) -> (r: &str)
    ensures
        r@ == trimmed(text@),
{
    let chars = chars_of(text);
    let (lo, hi) = trim_bounds(&chars);
    text.substring_char(lo, hi)
}

/// Reads the numbers that the text of a table lists.
pub fn parse_values(text: &str) -> (r: Option<Vec<i64>>)
    ensures
        match r {
            Some(values) => listed_values(text@) == Some(values@),
            None => listed_values(text@) is None,
        },
{
    let chars = chars_of(text);
    let (lo, hi) = trim_bounds(&chars);
    if hi - lo < 2 || chars[lo] != '[' || chars[hi - 1] != ']' {
        return None;
    }
    let ghost list = trimmed(text@);
    let inner = text.substring_char(lo + 1, hi - 1);
    proof {
        assert(inner@ =~= list.subrange(1, list.len() - 1));
    }
    let fields = split(inner, ',');
    let ghost all = text_views(fields@);
    let mut count: usize = fields.len();
    if count > 0 {
        let last = trim(fields[count - 1].as_str());
        proof {
            assert(all[count - 1] == fields@[count - 1]@);
        }
        if last.unicode_len() == 0 {
            count = count - 1;
        }
    }
    let ghost wanted = list_fields(inner@);
    proof {
        assert(wanted =~= all.take(count as int));
    }
    let mut values: Vec<i64> = Vec::new();
    let mut n: usize = 0;
    proof {
        assert(wanted.take(0) =~= Seq::<Seq<char>>::empty());
        assert(listed_values(text@) == field_values(wanted));
    }
    while n < count
        invariant
            n <= count <= fields@.len(),
            listed_values(text@) == field_values(wanted),
            all == text_views(fields@),
            wanted == all.take(count as int),
            field_values(wanted.take(n as int)) == Some(values@),
        decreases count - n,
    {
        proof {
            assert(wanted.take(n + 1).drop_last() =~= wanted.take(n as int));
            assert(wanted.take(n + 1).last() == fields@[n as int]@);
        }
        match parse_i64(trim(fields[n].as_str())) {
            Some(value) => {
                values.push(value);
            },
            None => {
                proof {
                    lemma_field_values_fail(wanted, n + 1);
                }
                return None;
            },
        }
        n = n + 1;
    }
    proof {
        assert(wanted.take(count as int) =~= wanted);
    }
    Some(values)
}

/// Where a field writes no integer, the fields up to it and all fields after it
/// have no values.
proof fn lemma_field_values_fail(fields: Seq<Seq<char>>, k: int)
    requires
        0 <= k <= fields.len(),
        field_values(fields.take(k)) is None,
    ensures
        field_values(fields) is None,
    decreases fields.len() - k,
{
    if k < fields.len() {
        assert(fields.take(k + 1).drop_last() =~= fields.take(k));
        lemma_field_values_fail(fields, k + 1);
    } else {
        assert(fields.take(k) =~= fields);
    }
}

/// Reads a table of thresholds from its text: there is one where the text lists
/// numbers, and those make a valid table.
pub fn parse_exp_table(text: &str) -> (r: Option<ExpTable>)
    ensures
        match r {
            Some(table) => listed_values(text@) == Some(table@) && valid_table(table@),
            None => !(listed_values(text@) matches Some(values) && valid_table(values)),
        },
{
    match parse_values(text) {
        Some(values) => ExpTable::new(values),
        None => None,
    }
}

} // verus!
