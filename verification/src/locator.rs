//! Finding a record's payload in the tagged text of a save file.
//!
//! The text is taken as bytes and searched for three literal markers, each the
//! first of its kind behind the one before: the tag that opens a collection, the
//! tag that opens a record, and the tag that closes a record. The payload is what
//! stands between the last two. Nothing else of the text is read.

use vstd::prelude::*;
use vstd::string::*;

verus! {

/// `needle` stands in `hay` at index `i`.
pub open spec fn occurs_at(hay: Seq<u8>, needle: Seq<u8>, i: int) -> bool {
    &&& 0 <= i
    &&& i + needle.len() <= hay.len()
    &&& hay.subrange(i, i + needle.len()) == needle
}

/// The first index at or behind `from` at which `needle` stands in `hay`.
pub open spec fn first_occurrence_from(hay: Seq<u8>, needle: Seq<u8>, from: int) -> Option<int>
    decreases hay.len() + 1 - from,
{
    if from < 0 || from + needle.len() > hay.len() {
        None
    } else if occurs_at(hay, needle, from) {
        Some(from)
    } else {
        first_occurrence_from(hay, needle, from + 1)
    }
}

/// The first index at which `needle` stands in `hay`.
pub open spec fn first_occurrence(hay: Seq<u8>, needle: Seq<u8>) -> Option<int> {
    first_occurrence_from(hay, needle, 0)
}

/// An index at which `needle` stands, with none before it back to `from`, is the
/// first occurrence from there.
pub proof fn lemma_first_occurrence_is(hay: Seq<u8>, needle: Seq<u8>, from: int, i: int)
    requires
        0 <= from <= i,
        occurs_at(hay, needle, i),
        forall|j: int| from <= j < i ==> !occurs_at(hay, needle, j),
    ensures
        first_occurrence_from(hay, needle, from) == Some(i),
    decreases i - from,
{
    if from < i {
        lemma_first_occurrence_is(hay, needle, from + 1, i);
    }
}

/// Where `needle` stands nowhere at or behind `from`, there is no first
/// occurrence from there.
pub proof fn lemma_first_occurrence_none(hay: Seq<u8>, needle: Seq<u8>, from: int)
    requires
        forall|j: int| from <= j ==> !occurs_at(hay, needle, j),
    ensures
        first_occurrence_from(hay, needle, from) is None,
    decreases hay.len() + 1 - from,
{
    if !(from < 0 || from + needle.len() > hay.len()) {
        lemma_first_occurrence_none(hay, needle, from + 1);
    }
}

/// What `first_occurrence_from` returns is an occurrence, and the first from
/// `from`; where it returns nothing there is none.
pub proof fn lemma_first_occurrence_from(hay: Seq<u8>, needle: Seq<u8>, from: int)
    requires
        0 <= from,
    ensures
        match first_occurrence_from(hay, needle, from) {
            Some(i) => from <= i && occurs_at(hay, needle, i) && forall|j: int|
                from <= j < i ==> !occurs_at(hay, needle, j),
            None => forall|j: int| from <= j ==> !occurs_at(hay, needle, j),
        },
    decreases hay.len() + 1 - from,
{
    if from + needle.len() > hay.len() {
    } else if occurs_at(hay, needle, from) {
    } else {
        lemma_first_occurrence_from(hay, needle, from + 1);
    }
}

/// Tells whether `needle` stands in `hay` at index `i`.
fn matches_at(hay: &[u8], needle: &[u8], i: usize) -> (r: bool)
    requires
        i + needle@.len() <= hay@.len(),
    ensures
        r == occurs_at(hay@, needle@, i as int),
{
    let n: usize = needle.len();
    let h: usize = hay.len();
    let mut k: usize = 0;
    while k < n
        invariant
            k <= n,
            n == needle@.len(),
            h == hay@.len(),
            i + n <= h,
            forall|j: int| 0 <= j < k ==> hay@[i + j] == needle@[j],
        decreases n - k,
    {
        if hay[i + k] != needle[k] {
            assert(hay@.subrange(i as int, i + needle@.len())[k as int] != needle@[k as int]);
            return false;
        }
        k = k + 1;
    }
    assert(hay@.subrange(i as int, i + needle@.len()) =~= needle@);
    true
}

/// The first index at or behind `from` at which `needle` stands in `hay`, bytes
/// compared as they are.
pub fn find_from(hay: &[u8], needle: &[u8], from: usize) -> (r: Option<usize>)
    ensures
        match r {
            Some(i) => first_occurrence_from(hay@, needle@, from as int) == Some(i as int),
            None => first_occurrence_from(hay@, needle@, from as int) is None,
        },
{
    if needle.len() > hay.len() || from > hay.len() - needle.len() {
        return None;
    }
    let last: usize = hay.len() - needle.len();
    let mut i: usize = from;
    loop
        invariant
            from <= i <= last,
            last == hay@.len() - needle@.len(),
            forall|j: int| from <= j < i ==> !occurs_at(hay@, needle@, j),
        decreases last - i,
    {
        if matches_at(hay, needle, i) {
            proof {
                lemma_first_occurrence_is(hay@, needle@, from as int, i as int);
            }
            return Some(i);
        }
        if i == last {
            proof {
                lemma_first_occurrence_none(hay@, needle@, from as int);
            }
            return None;
        }
        i = i + 1;
    }
}

/// The first index at which `needle` stands in `hay`, bytes compared as they are.
pub fn find(hay: &[u8], needle: &[u8]) -> (r: Option<usize>)
    ensures
        match r {
            Some(i) => first_occurrence(hay@, needle@) == Some(i as int),
            None => first_occurrence(hay@, needle@) is None,
        },
{
    find_from(hay, needle, 0)
}

/// The tag that opens the collection called `name`.
pub open spec fn collection_tag_bytes(name: Seq<u8>) -> Seq<u8> {
    "<collection name=\"".spec_bytes() + name + "\">".spec_bytes()
}

/// The tag that opens the record with the id `id`.
pub open spec fn record_tag_bytes(id: Seq<u8>) -> Seq<u8> {
    "<record Id=\"".spec_bytes() + id + "\">".spec_bytes()
}

/// The tag that closes a record.
pub open spec fn record_end_bytes() -> Seq<u8> {
    "</record>".spec_bytes()
}

/// The tag that opens the collection called `collection`. The name goes into the
/// tag as it is.
pub fn collection_tag(collection: &str) -> (r: Vec<u8>)
    ensures
        r@ == collection_tag_bytes(collection.spec_bytes()),
{
    let mut tag: Vec<u8> = Vec::new();
    tag.extend_from_slice("<collection name=\"".as_bytes());
    tag.extend_from_slice(collection.as_bytes());
    tag.extend_from_slice("\">".as_bytes());
    tag
}

/// The tag that opens the record with the id `id`. The id goes into the tag as it
/// is.
pub fn record_tag(id: &str) -> (r: Vec<u8>)
    ensures
        r@ == record_tag_bytes(id.spec_bytes()),
{
    let mut tag: Vec<u8> = Vec::new();
    tag.extend_from_slice("<record Id=\"".as_bytes());
    tag.extend_from_slice(id.as_bytes());
    tag.extend_from_slice("\">".as_bytes());
    tag
}

/// The tag that closes a record.
pub fn record_end() -> (r: &'static [u8])
    ensures
        r@ == record_end_bytes(),
{
    "</record>".as_bytes()
}

/// Where the payload of the record `id` of the collection `collection` stands in
/// `text`: from the index behind the record's opening tag up to the index of the
/// closing tag that follows. The collection's tag is the first in the text, the
/// record's tag the first behind it, the closing tag the first behind that.
pub open spec fn payload_range(text: Seq<u8>, collection: Seq<u8>, id: Seq<u8>) -> Option<
    (int, int),
> {
    let ctag = collection_tag_bytes(collection);
    let rtag = record_tag_bytes(id);
    match first_occurrence_from(text, ctag, 0) {
        None => None,
        Some(c) => match first_occurrence_from(text, rtag, c + ctag.len()) {
            None => None,
            Some(r) => match first_occurrence_from(text, record_end_bytes(), r + rtag.len()) {
                None => None,
                Some(e) => Some((r + rtag.len(), e)),
            },
        },
    }
}

/// The payload of the record `id` of the collection `collection`, where the
/// record is found.
pub open spec fn record_payload(text: Seq<u8>, collection: Seq<u8>, id: Seq<u8>) -> Option<
    Seq<u8>,
> {
    match payload_range(text, collection, id) {
        Some((start, end)) => Some(text.subrange(start, end)),
        None => None,
    }
}

/// `text` with the bytes from `start` up to `end` replaced by `payload`.
pub open spec fn splice(text: Seq<u8>, start: int, end: int, payload: Seq<u8>) -> Seq<u8> {
    text.subrange(0, start) + payload + text.subrange(end, text.len() as int)
}

/// Finds the payload of the record `id` of the collection `collection`, as the
/// indices of its first byte and of the first byte behind it.
pub fn locate(text: &[u8], collection: &str, id: &str) -> (r: Option<(usize, usize)>)
    ensures
        match r {
            Some((start, end)) => payload_range(text@, collection.spec_bytes(), id.spec_bytes())
                == Some((start as int, end as int)) && start <= end <= text@.len(),
            None => payload_range(text@, collection.spec_bytes(), id.spec_bytes()) is None,
        },
{
    let len: usize = text.len();
    let ctag = collection_tag(collection);
    let c = match find_from(text, ctag.as_slice(), 0) {
        Some(c) => c,
        None => { return None; },
    };
    proof {
        lemma_first_occurrence_from(text@, ctag@, 0);
    }
    let rtag = record_tag(id);
    let r = match find_from(text, rtag.as_slice(), c + ctag.len()) {
        Some(r) => r,
        None => { return None; },
    };
    proof {
        lemma_first_occurrence_from(text@, rtag@, c + ctag@.len());
    }
    let start: usize = r + rtag.len();
    let e = match find_from(text, record_end(), start) {
        Some(e) => e,
        None => { return None; },
    };
    proof {
        lemma_first_occurrence_from(text@, record_end_bytes(), start as int);
    }
    Some((start, e))
}

/// Gives `text` with the bytes from `start` up to `end` replaced by `payload`.
pub fn replace_range(text: &[u8], start: usize, end: usize, payload: &[u8]) -> (r: Vec<u8>)
    requires
        start <= end <= text@.len(),
    ensures
        r@ == splice(text@, start as int, end as int, payload@),
{
    let mut out: Vec<u8> = Vec::new();
    out.extend_from_slice(vstd::slice::slice_subrange(text, 0, start));
    out.extend_from_slice(payload);
    out.extend_from_slice(vstd::slice::slice_subrange(text, end, text.len()));
    out
}

} // verus!
