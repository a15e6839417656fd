//! What replacing one payload does to the rest of the text.
//!
//! The markers of the format begin with `<`, end with `>`, and hold neither byte
//! in between, so a marker cannot reach from a tag into a payload or from a
//! payload into the closing tag behind it. Where a payload holds no marker in
//! full, replacing it therefore moves the markers behind it and changes nothing
//! else: the record that was written is found with its new payload, and every
//! other record is found again with the payload it had.

use crate::locator::{
    collection_tag_bytes, first_occurrence_from, lemma_first_occurrence_from,
    lemma_first_occurrence_is, lemma_first_occurrence_none, occurs_at, payload_range,
    record_end_bytes, record_payload, record_tag_bytes, splice,
};
use vstd::prelude::*;
use vstd::string::*;
use vstd::utf8::{encode_utf8, is_ascii_chars, is_ascii_chars_encode_utf8};

verus! {

/// The byte `<`.
pub const LT: u8 = 0x3c;

/// The byte `>`.
pub const GT: u8 = 0x3e;

/// The byte `b` stands nowhere in `s`.
pub open spec fn lacks(s: Seq<u8>, b: u8) -> bool {
    forall|i: int| 0 <= i < s.len() ==> s[i] != b
}

/// Neither `<` nor `>` stands in `s`: it can go into a tag as a name or an id
/// without making the tag look like two.
pub open spec fn plain(s: Seq<u8>) -> bool {
    lacks(s, LT) && lacks(s, GT)
}

/// `m` begins with `<`, ends with `>`, and holds neither byte in between.
pub open spec fn is_marker(m: Seq<u8>) -> bool {
    &&& m.len() >= 2
    &&& m[0] == LT
    &&& m[m.len() - 1] == GT
    &&& forall|i: int| 0 < i < m.len() ==> m[i] != LT
    &&& forall|i: int| 0 <= i < m.len() - 1 ==> m[i] != GT
}

/// Every byte outside the range that `splice` replaces is kept, those before it
/// at their index and those behind it moved by the change in length.
pub proof fn lemma_splice_keeps_outside(text: Seq<u8>, start: int, end: int, payload: Seq<u8>)
    requires
        0 <= start <= end <= text.len(),
    ensures
        splice(text, start, end, payload).len() == text.len() - (end - start) + payload.len(),
        forall|i: int| 0 <= i < start ==> splice(text, start, end, payload)[i] == text[i],
        forall|i: int|
            0 <= i < payload.len() ==> splice(text, start, end, payload)[start + i] == payload[i],
        forall|i: int|
            end <= i < text.len() ==> splice(text, start, end, payload)[i - end + start
                + payload.len()] == text[i],
{
}

/// Replacing a range by what it holds changes nothing.
pub proof fn lemma_splice_same(text: Seq<u8>, start: int, end: int)
    requires
        0 <= start <= end <= text.len(),
    ensures
        splice(text, start, end, text.subrange(start, end)) == text,
{
    assert(splice(text, start, end, text.subrange(start, end)) =~= text);
}

/// The bytes of the literal parts of the tags.
proof fn lemma_opening_bytes()
    ensures
        "<collection name=\"".spec_bytes().len() == 18,
        "<collection name=\"".spec_bytes()[0] == LT,
        forall|i: int| 0 < i < 18 ==> "<collection name=\"".spec_bytes()[i] != LT,
        forall|i: int| 0 <= i < 18 ==> "<collection name=\"".spec_bytes()[i] != GT,
        "<record Id=\"".spec_bytes().len() == 12,
        "<record Id=\"".spec_bytes()[0] == LT,
        forall|i: int| 0 < i < 12 ==> "<record Id=\"".spec_bytes()[i] != LT,
        forall|i: int| 0 <= i < 12 ==> "<record Id=\"".spec_bytes()[i] != GT,
        "\">".spec_bytes().len() == 2,
        "\">".spec_bytes()[0] == 0x22,
        "\">".spec_bytes()[1] == GT,
{
    reveal_strlit("<collection name=\"");
    reveal_strlit("<record Id=\"");
    reveal_strlit("\">");
    let a = "<collection name=\""@;
    let b = "<record Id=\""@;
    let c = "\">"@;
    assert(is_ascii_chars(a));
    assert(is_ascii_chars(b));
    assert(is_ascii_chars(c));
    is_ascii_chars_encode_utf8(a);
    is_ascii_chars_encode_utf8(b);
    is_ascii_chars_encode_utf8(c);
    assert forall|i: int| 0 < i < 18 implies "<collection name=\"".spec_bytes()[i] != LT by {
        assert(a[i] as u8 == encode_utf8(a)[i]);
    }
    assert forall|i: int| 0 <= i < 18 implies "<collection name=\"".spec_bytes()[i] != GT by {
        assert(a[i] as u8 == encode_utf8(a)[i]);
    }
    assert forall|i: int| 0 < i < 12 implies "<record Id=\"".spec_bytes()[i] != LT by {
        assert(b[i] as u8 == encode_utf8(b)[i]);
    }
    assert forall|i: int| 0 <= i < 12 implies "<record Id=\"".spec_bytes()[i] != GT by {
        assert(b[i] as u8 == encode_utf8(b)[i]);
    }
    assert(a[0] as u8 == encode_utf8(a)[0]);
    assert(b[0] as u8 == encode_utf8(b)[0]);
    assert(c[0] as u8 == encode_utf8(c)[0]);
    assert(c[1] as u8 == encode_utf8(c)[1]);
}

/// The tag that opens a collection is a marker, where the name is plain.
pub proof fn lemma_collection_tag_is_marker(name: Seq<u8>)
    requires
        plain(name),
    ensures
        is_marker(collection_tag_bytes(name)),
{
    lemma_opening_bytes();
    let open = "<collection name=\"".spec_bytes();
    let close = "\">".spec_bytes();
    let m = collection_tag_bytes(name);
    assert(m.len() == 18 + name.len() + 2);
    assert forall|i: int| 0 <= i < m.len() implies m[i] == if i < 18 {
        open[i]
    } else if i < 18 + name.len() {
        name[i - 18]
    } else {
        close[i - 18 - name.len()]
    } by {}
}

/// The tag that opens a record is a marker, where the id is plain.
pub proof fn lemma_record_tag_is_marker(id: Seq<u8>)
    requires
        plain(id),
    ensures
        is_marker(record_tag_bytes(id)),
{
    lemma_opening_bytes();
    let open = "<record Id=\"".spec_bytes();
    let close = "\">".spec_bytes();
    let m = record_tag_bytes(id);
    assert(m.len() == 12 + id.len() + 2);
    assert forall|i: int| 0 <= i < m.len() implies m[i] == if i < 12 {
        open[i]
    } else if i < 12 + id.len() {
        id[i - 12]
    } else {
        close[i - 12 - id.len()]
    } by {}
}

/// The tag that closes a record is a marker.
pub proof fn lemma_record_end_is_marker()
    ensures
        is_marker(record_end_bytes()),
{
    reveal_strlit("</record>");
    let a = "</record>"@;
    assert(is_ascii_chars(a));
    is_ascii_chars_encode_utf8(a);
    let m = record_end_bytes();
    assert(m.len() == 9);
    assert forall|i: int| 0 <= i < 9 implies m[i] == a[i] as u8 by {}
}

/// `needle` stands somewhere in `hay`.
pub open spec fn contains(hay: Seq<u8>, needle: Seq<u8>) -> bool {
    exists|i: int| occurs_at(hay, needle, i)
}

/// Where a range of `text` begins behind a `>` and ends before a `<`, and the
/// payload put in its place does not hold the marker `m`, that marker stands in
/// the new text either wholly before the range or wholly behind the payload.
pub proof fn lemma_marker_avoids_payload(
    text: Seq<u8>,
    start: int,
    end: int,
    payload: Seq<u8>,
    m: Seq<u8>,
    i: int,
)
    requires
        1 <= start <= end < text.len(),
        text[start - 1] == GT,
        text[end] == LT,
        !contains(payload, m),
        is_marker(m),
        occurs_at(splice(text, start, end, payload), m, i),
    ensures
        i + m.len() <= start || i >= start + payload.len(),
{
    let new = splice(text, start, end, payload);
    if i < start && i + m.len() > start {
        let k = start - 1 - i;
        assert(new.subrange(i, i + m.len())[k] == m[k]);
        assert(new[start - 1] == text[start - 1]);
    } else if start <= i < start + payload.len() {
        if i + m.len() <= start + payload.len() {
            assert(payload.subrange(i - start, i - start + m.len()) =~= new.subrange(
                i,
                i + m.len(),
            ));
            assert(occurs_at(payload, m, i - start));
        } else {
            let k = start + payload.len() - i;
            assert(new.subrange(i, i + m.len())[k] == m[k]);
            assert(new[start + payload.len()] == text[end]);
        }
    }
}

/// A marker that stands before the range stands there in the new text too, and a
/// marker that stands behind it stands in the new text moved by the change in
/// length; and the other way round.
pub proof fn lemma_occurrence_moves(
    text: Seq<u8>,
    start: int,
    end: int,
    payload: Seq<u8>,
    m: Seq<u8>,
    i: int,
)
    requires
        0 <= start <= end <= text.len(),
        0 <= i,
    ensures
        i + m.len() <= start ==> (occurs_at(text, m, i) <==> occurs_at(
            splice(text, start, end, payload),
            m,
            i,
        )),
        i >= end ==> (occurs_at(text, m, i) <==> occurs_at(
            splice(text, start, end, payload),
            m,
            i - end + start + payload.len(),
        )),
{
    let new = splice(text, start, end, payload);
    let d = start + payload.len() - end;
    if i + m.len() <= start {
        assert(text.subrange(i, i + m.len()) =~= new.subrange(i, i + m.len()));
    }
    if i >= end {
        if i + m.len() <= text.len() {
            assert(text.subrange(i, i + m.len()) =~= new.subrange(i + d, i + d + m.len()));
        }
    }
}

/// Where an index of the old text lies in the new one: as it was up to the
/// beginning of the range, moved by the change in length behind it.
pub open spec fn moved(at: int, start: int, end: int, len: int) -> int {
    if at <= start {
        at
    } else {
        at - end + start + len
    }
}

/// Where a payload of the old text lies in the new one: as it was before the
/// range, grown or shrunk to the new length if it is the range, and moved by the
/// change in length behind it.
pub open spec fn moved_range(at: (int, int), start: int, end: int, len: int) -> (int, int) {
    if at.0 < start {
        at
    } else if at.0 == start {
        (start, start + len)
    } else {
        (at.0 - end + start + len, at.1 - end + start + len)
    }
}

/// Where the beginning of a marker of length `mlen` lies in the new text.
pub open spec fn moved_marker(at: int, mlen: int, start: int, end: int, len: int) -> int {
    if at + mlen <= start {
        at
    } else {
        at - end + start + len
    }
}

/// The first marker at or behind an index is, in the new text, the same marker
/// at its new place, sought from the new place of that index.
pub proof fn lemma_first_marker_moves(
    text: Seq<u8>,
    start: int,
    end: int,
    payload: Seq<u8>,
    m: Seq<u8>,
    from: int,
)
    requires
        1 <= start <= end < text.len(),
        text[start - 1] == GT,
        text[end] == LT,
        !contains(payload, m),
        !contains(text.subrange(start, end), m),
        is_marker(m),
        0 <= from,
        from <= start || from >= end,
    ensures
        first_occurrence_from(
            splice(text, start, end, payload),
            m,
            moved(from, start, end, payload.len() as int),
        ) == match first_occurrence_from(text, m, from) {
            Some(i) => Some(moved_marker(i, m.len() as int, start, end, payload.len() as int)),
            None => None,
        },
        first_occurrence_from(text, m, from) matches Some(i) ==> i + m.len() <= start || i >= end,
{
    let new = splice(text, start, end, payload);
    let len = payload.len() as int;
    let d = start + len - end;
    let from2 = moved(from, start, end, len);
    lemma_first_occurrence_from(text, m, from);
    lemma_splice_same(text, start, end);
    assert forall|j: int| from2 <= j && occurs_at(new, m, j) implies ({
        let old_j = if j + m.len() <= start {
            j
        } else {
            j - d
        };
        from <= old_j && occurs_at(text, m, old_j) && j == moved_marker(
            old_j,
            m.len() as int,
            start,
            end,
            len,
        )
    }) by {
        lemma_marker_avoids_payload(text, start, end, payload, m, j);
        if j + m.len() <= start {
            lemma_occurrence_moves(text, start, end, payload, m, j);
        } else {
            lemma_occurrence_moves(text, start, end, payload, m, j - d);
        }
    }
    match first_occurrence_from(text, m, from) {
        Some(i) => {
            lemma_marker_avoids_payload(text, start, end, text.subrange(start, end), m, i);
            lemma_occurrence_moves(text, start, end, payload, m, i);
            let i2 = moved_marker(i, m.len() as int, start, end, len);
            assert(occurs_at(new, m, i2));
            assert forall|j: int| from2 <= j < i2 implies !occurs_at(new, m, j) by {
                if occurs_at(new, m, j) {
                    let old_j = if j + m.len() <= start {
                        j
                    } else {
                        j - d
                    };
                    assert(from <= old_j < i);
                }
            }
            lemma_first_occurrence_is(new, m, from2, i2);
        },
        None => {
            assert forall|j: int| from2 <= j implies !occurs_at(new, m, j) by {
                if occurs_at(new, m, j) {
                    let old_j = if j + m.len() <= start {
                        j
                    } else {
                        j - d
                    };
                    assert(occurs_at(text, m, old_j));
                }
            }
            lemma_first_occurrence_none(new, m, from2);
        },
    }
}

/// A payload holds no closing tag: the closing tag that ends it is the first
/// behind its beginning.
pub proof fn lemma_payload_holds_no_end(text: Seq<u8>, start: int, end: int)
    requires
        0 <= start,
        first_occurrence_from(text, record_end_bytes(), start) == Some(end),
    ensures
        start <= end < text.len(),
        text[end] == LT,
        !contains(text.subrange(start, end), record_end_bytes()),
{
    let rend = record_end_bytes();
    lemma_record_end_is_marker();
    lemma_first_occurrence_from(text, rend, start);
    assert(text.subrange(end, end + rend.len())[0] == rend[0]);
    let old = text.subrange(start, end);
    assert forall|j: int| !occurs_at(old, rend, j) by {
        if occurs_at(old, rend, j) {
            assert(old.subrange(j, j + rend.len()) =~= text.subrange(
                start + j,
                start + j + rend.len(),
            ));
            assert(occurs_at(text, rend, start + j));
        }
    }
}

/// The payload that is written into a record is the payload that is found under
/// that record, provided it holds no closing tag. Nothing is asked of the names,
/// the ids or the payload that was there.
pub proof fn lemma_written_payload_is_found(
    text: Seq<u8>,
    collection: Seq<u8>,
    id: Seq<u8>,
    payload: Seq<u8>,
)
    requires
        payload_range(text, collection, id) is Some,
        !contains(payload, record_end_bytes()),
    ensures
        ({
            let (start, end) = payload_range(text, collection, id)->Some_0;
            let new = splice(text, start, end, payload);
            &&& 0 <= start <= end <= text.len()
            &&& payload_range(new, collection, id) == Some((start, start + payload.len()))
            &&& record_payload(new, collection, id) == Some(payload)
        }),
{
    let ctag = collection_tag_bytes(collection);
    let rtag = record_tag_bytes(id);
    let rend = record_end_bytes();
    lemma_record_end_is_marker();
    let c0 = first_occurrence_from(text, ctag, 0)->Some_0;
    lemma_first_occurrence_from(text, ctag, 0);
    let from = c0 + ctag.len();
    let r0 = first_occurrence_from(text, rtag, from)->Some_0;
    lemma_first_occurrence_from(text, rtag, from);
    let start = r0 + rtag.len();
    let end = first_occurrence_from(text, rend, start)->Some_0;
    lemma_payload_holds_no_end(text, start, end);
    lemma_first_occurrence_from(text, rend, start);
    let new = splice(text, start, end, payload);
    let len = payload.len() as int;
    // The tags stand before the payload, where nothing has changed.
    lemma_occurrence_moves(text, start, end, payload, ctag, c0);
    assert forall|j: int| 0 <= j < c0 implies !occurs_at(new, ctag, j) by {
        lemma_occurrence_moves(text, start, end, payload, ctag, j);
    }
    lemma_first_occurrence_is(new, ctag, 0, c0);
    lemma_occurrence_moves(text, start, end, payload, rtag, r0);
    assert forall|j: int| from <= j < r0 implies !occurs_at(new, rtag, j) by {
        lemma_occurrence_moves(text, start, end, payload, rtag, j);
    }
    lemma_first_occurrence_is(new, rtag, from, r0);
    // The closing tag stands behind the new payload, and nowhere in it.
    lemma_occurrence_moves(text, start, end, payload, rend, end);
    assert forall|j: int| start <= j < start + len implies !occurs_at(new, rend, j) by {
        if occurs_at(new, rend, j) {
            if j + rend.len() <= start + len {
                assert(payload.subrange(j - start, j - start + rend.len()) =~= new.subrange(
                    j,
                    j + rend.len(),
                ));
                assert(occurs_at(payload, rend, j - start));
            } else {
                let k = start + len - j;
                assert(new.subrange(j, j + rend.len())[k] == rend[k]);
                assert(new[start + len] == text[end]);
            }
        }
    }
    lemma_first_occurrence_is(new, rend, start, start + len);
    assert(new.subrange(start, start + len) =~= payload);
}

/// Replacing the payload of one record leaves every other record to be found,
/// with the payload it had; a record that shares the payload that was replaced
/// is found with the new one. This holds where the names and ids are plain, the
/// new payload holds neither the closing tag nor a tag of the record sought, the
/// payload that was there holds no tag of the record sought, and the payload of
/// the record sought holds no tag of the record that is written.
pub proof fn lemma_record_survives_splice(
    text: Seq<u8>,
    target_collection: Seq<u8>,
    target_id: Seq<u8>,
    payload: Seq<u8>,
    collection: Seq<u8>,
    id: Seq<u8>,
)
    requires
        plain(target_id),
        plain(collection),
        plain(id),
        !contains(payload, record_end_bytes()),
        !contains(payload, collection_tag_bytes(collection)),
        !contains(payload, record_tag_bytes(id)),
        record_payload(text, target_collection, target_id) matches Some(old) && !contains(
            old,
            collection_tag_bytes(collection),
        ) && !contains(old, record_tag_bytes(id)),
        record_payload(text, collection, id) matches Some(other) && !contains(
            other,
            record_tag_bytes(target_id),
        ),
    ensures
        ({
            let (start, end) = payload_range(text, target_collection, target_id)->Some_0;
            let (start2, end2) = payload_range(text, collection, id)->Some_0;
            let new = splice(text, start, end, payload);
            &&& 0 <= start <= end <= text.len()
            &&& 0 <= start2 <= end2 <= text.len()
            &&& start2 <= start || start2 > end
            &&& payload_range(new, collection, id) == Some(
                moved_range((start2, end2), start, end, payload.len() as int),
            )
            &&& start2 < start ==> end2 <= start
            &&& record_payload(new, collection, id) == Some(
                if start2 == start {
                    payload
                } else {
                    text.subrange(start2, end2)
                },
            )
            &&& start2 == start ==> end2 == end
        }),
{
    let ctag0 = collection_tag_bytes(target_collection);
    let rtag0 = record_tag_bytes(target_id);
    let ctag = collection_tag_bytes(collection);
    let rtag = record_tag_bytes(id);
    let rend = record_end_bytes();
    lemma_record_tag_is_marker(target_id);
    lemma_collection_tag_is_marker(collection);
    lemma_record_tag_is_marker(id);
    lemma_record_end_is_marker();
    // The range that is replaced.
    let c0 = first_occurrence_from(text, ctag0, 0)->Some_0;
    lemma_first_occurrence_from(text, ctag0, 0);
    let r0 = first_occurrence_from(text, rtag0, c0 + ctag0.len())->Some_0;
    lemma_first_occurrence_from(text, rtag0, c0 + ctag0.len());
    let start = r0 + rtag0.len();
    let end = first_occurrence_from(text, rend, start)->Some_0;
    lemma_first_occurrence_from(text, rend, start);
    lemma_payload_holds_no_end(text, start, end);
    assert(text.subrange(r0, r0 + rtag0.len())[rtag0.len() - 1] == rtag0[rtag0.len() - 1]);
    assert(text[start - 1] == GT);
    let len = payload.len() as int;
    let new = splice(text, start, end, payload);
    // The record that is sought.
    let c1 = first_occurrence_from(text, ctag, 0)->Some_0;
    lemma_first_marker_moves(text, start, end, payload, ctag, 0);
    let from1 = c1 + ctag.len();
    assert(moved(from1, start, end, len) == moved_marker(c1, ctag.len() as int, start, end, len)
        + ctag.len());
    let r1 = first_occurrence_from(text, rtag, from1)->Some_0;
    lemma_first_occurrence_from(text, rtag, from1);
    lemma_first_marker_moves(text, start, end, payload, rtag, from1);
    let start2 = r1 + rtag.len();
    assert(moved(start2, start, end, len) == moved_marker(r1, rtag.len() as int, start, end, len)
        + rtag.len());
    let end2 = first_occurrence_from(text, rend, start2)->Some_0;
    lemma_first_occurrence_from(text, rend, start2);
    lemma_first_marker_moves(text, start, end, payload, rend, start2);
    let a = moved(start2, start, end, len);
    let b = moved_marker(end2, rend.len() as int, start, end, len);
    assert(payload_range(new, collection, id) == Some((a, b)));
    if start2 == start {
        assert(new.subrange(a, b) =~= payload);
    } else if start2 < start {
        if end2 >= end {
            assert(text.subrange(r1, r1 + rtag.len())[rtag.len() - 1] == rtag[rtag.len() - 1]);
            assert(text[start2 - 1] == GT);
            if r0 < start2 {
                let k = start2 - 1 - r0;
                assert(text.subrange(r0, r0 + rtag0.len())[k] == rtag0[k]);
                assert(false);
            }
            let other = text.subrange(start2, end2);
            assert(other.subrange(r0 - start2, r0 - start2 + rtag0.len()) =~= text.subrange(
                r0,
                r0 + rtag0.len(),
            ));
            assert(occurs_at(other, rtag0, r0 - start2));
            assert(false);
        }
        assert(new.subrange(a, b) =~= text.subrange(start2, end2));
    } else {
        assert(new.subrange(a, b) =~= text.subrange(start2, end2));
    }
}

/// Two replacements at ranges of which one lies before the other can be made in
/// either order: made second, the later range has moved by the change in length
/// that the earlier replacement brought.
pub proof fn lemma_splices_commute(
    text: Seq<u8>,
    a1: int,
    a2: int,
    pa: Seq<u8>,
    b1: int,
    b2: int,
    pb: Seq<u8>,
)
    requires
        0 <= a1 <= a2 <= b1 <= b2 <= text.len(),
    ensures
        splice(
            splice(text, a1, a2, pa),
            b1 - a2 + a1 + pa.len(),
            b2 - a2 + a1 + pa.len(),
            pb,
        ) == splice(splice(text, b1, b2, pb), a1, a2, pa),
{
    let d = a1 + pa.len() - a2;
    assert(splice(splice(text, a1, a2, pa), b1 + d, b2 + d, pb) =~= splice(
        splice(text, b1, b2, pb),
        a1,
        a2,
        pa,
    ));
}

} // verus!
