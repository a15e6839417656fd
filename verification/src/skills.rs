//! The catalog of skills: reading it from its text.
//!
//! The catalog has one line for each skill, with fields parted by commas: the
//! group that the skill belongs to, the name of the skill, its multiplier, and
//! its id. Skills of one group follow each other.

use crate::decimal::{decimal_u64, parse_u64};
use crate::util::{first_index_from, lemma_first_index};
use vstd::prelude::*;
use vstd::string::*;

verus! {

/// A skill of the catalog.
#[derive(Clone, Default)]
pub struct Skill {
    /// The name of the skill.
    pub name: String,
    /// The multiplier of the skill, as the catalog writes it.
    pub mul: String,
    /// The id of the skill.
    pub id: u64,
}

/// A group of skills.
#[derive(Default)]
pub struct SkillGroup {
    /// The name of the group.
    pub name: String,
    /// The skills of the group, in the order of the catalog.
    pub skills: Vec<Skill>,
}

/// Model of a skill.
pub ghost struct SkillView {
    pub name: Seq<char>,
    pub mul: Seq<char>,
    pub id: u64,
}

/// Model of a group of skills.
pub ghost struct SkillGroupView {
    pub name: Seq<char>,
    pub skills: Seq<SkillView>,
}

impl View for Skill {
    type V = SkillView;

    open spec fn view(&self) -> SkillView {
        SkillView { name: self.name@, mul: self.mul@, id: self.id }
    }
}

impl View for SkillGroup {
    type V = SkillGroupView;

    open spec fn view(&self) -> SkillGroupView {
        SkillGroupView {
            name: self.name@,
            skills: self.skills@.map_values(|skill: Skill| skill@),
        }
    }
}

/// The models of a list of groups.
pub open spec fn group_views(groups: Seq<SkillGroup>) -> Seq<SkillGroupView> {
    groups.map_values(|group: SkillGroup| group@)
}

/// The characters of a list of texts.
pub open spec fn text_views(texts: Seq<String>) -> Seq<Seq<char>> {
    texts.map_values(|text: String| text@)
}

/// `line` without the carriage return that ends it, if one does.
pub open spec fn without_return(line: Seq<char>) -> Seq<char> {
    if line.len() > 0 && line.last() == '\r' {
        line.drop_last()
    } else {
        line
    }
}

/// The lines of `s`. A line ends with a line feed, or with a carriage return and
/// a line feed, neither of which belongs to the line; the last line may end with
/// the text.
pub open spec fn lines_of(s: Seq<char>) -> Seq<Seq<char>>
    decreases s.len(),
{
    if s.len() == 0 {
        Seq::empty()
    } else {
        match first_index_from(s, '\n', 0) {
            Some(i) => {
                if 0 <= i < s.len() {
                    seq![without_return(s.take(i))] + lines_of(s.skip(i + 1))
                } else {
                    seq![s]
                }
            },
            None => seq![s],
        }
    }
}

/// The parts of `s` between the characters `sep`.
pub open spec fn split_at(s: Seq<char>, sep: char) -> Seq<Seq<char>>
    decreases s.len(),
{
    match first_index_from(s, sep, 0) {
        Some(i) => {
            if 0 <= i < s.len() {
                seq![s.take(i)] + split_at(s.skip(i + 1), sep)
            } else {
                seq![s]
            }
        },
        None => seq![s],
    }
}

/// The group and the skill that a line states: its first four fields are the
/// group, the name, the multiplier and the id, which must be a number. A line
/// with fewer fields or another id states none.
pub open spec fn line_entry(line: Seq<char>) -> Option<(Seq<char>, SkillView)> {
    let fields = split_at(line, ',');
    if fields.len() < 4 {
        None
    } else {
        match decimal_u64(fields[3]) {
            Some(id) => Some((fields[0], SkillView { name: fields[1], mul: fields[2], id })),
            None => None,
        }
    }
}

/// The groups that are complete, and the group that is being filled.
pub ghost struct Grouping {
    pub done: Seq<SkillGroupView>,
    pub current: SkillGroupView,
}

/// The groups once the complete ones are joined by the one being filled, which
/// counts only if it has a name.
pub open spec fn closed(g: Grouping) -> Seq<SkillGroupView> {
    if g.current.name.len() > 0 {
        g.done.push(g.current)
    } else {
        g.done
    }
}

/// The grouping after one more skill of the group `group`: a skill of another
/// group than the one being filled completes that one and begins a new one.
pub open spec fn with_entry(g: Grouping, group: Seq<char>, skill: SkillView) -> Grouping {
    if group != g.current.name {
        Grouping {
            done: closed(g),
            current: SkillGroupView { name: group, skills: seq![skill] },
        }
    } else {
        Grouping {
            done: g.done,
            current: SkillGroupView { name: g.current.name, skills: g.current.skills.push(skill) },
        }
    }
}

/// The grouping after the lines `lines`, where each of them states a skill.
pub open spec fn grouping_of(lines: Seq<Seq<char>>) -> Option<Grouping>
    decreases lines.len(),
{
    if lines.len() == 0 {
        Some(
            Grouping {
                done: Seq::empty(),
                current: SkillGroupView { name: Seq::empty(), skills: Seq::empty() },
            },
        )
    } else {
        match (grouping_of(lines.drop_last()), line_entry(lines.last())) {
            (Some(g), Some((group, skill))) => Some(with_entry(g, group, skill)),
            _ => None,
        }
    }
}

/// The groups of skills that the catalog `text` lists, where each of its lines
/// states a skill.
pub open spec fn catalog(text: Seq<char>) -> Option<Seq<SkillGroupView>> {
    match grouping_of(lines_of(text)) {
        Some(g) => Some(closed(g)),
        None => None,
    }
}

/// Copies the characters of `text`.
pub(crate) fn chars_of(text: &str) -> (r: Vec<char>)
    ensures
        r@ == text@,
{
    let mut out: Vec<char> = Vec::new();
    proof {
        assert(text@.take(0) =~= Seq::<char>::empty());
    }
    for c in it: text.chars()
        invariant
            it.seq() == text@,
            out@ == text@.take(it.index() as int),
    {
        proof {
            assert(text@.take(it.index() + 1) =~= text@.take(it.index() as int).push(c));
        }
        out.push(c);
    }
    proof {
        assert(text@.take(text@.len() as int) =~= text@);
    }
    out
}

/// The index of the first `c` among `chars[from..]`, or the length of `chars`.
fn index_of(chars: &Vec<char>, c: char, from: usize) -> (r: usize)
    requires
        from <= chars@.len(),
    ensures
        from <= r <= chars@.len(),
        forall|j: int| from <= j < r ==> chars@[j] != c,
        r < chars@.len() ==> chars@[r as int] == c,
{
    let mut i: usize = from;
    while i < chars.len() && chars[i] != c
        invariant
            from <= i <= chars@.len(),
            forall|j: int| from <= j < i ==> chars@[j] != c,
        decreases chars@.len() - i,
    {
        i = i + 1;
    }
    i
}

/// The lines of `text`.
pub fn lines(text: &str) -> (r: Vec<String>)
    ensures
        text_views(r@) == lines_of(text@),
{
    let chars = chars_of(text);
    let len: usize = chars.len();
    let mut out: Vec<String> = Vec::new();
    let mut pos: usize = 0;
    proof {
        assert(text@.skip(0) =~= text@);
    }
    while pos < len
        invariant
            pos <= len,
            len == text@.len(),
            chars@ == text@,
            lines_of(text@) == text_views(out@) + lines_of(text@.skip(pos as int)),
        decreases len - pos,
    {
        let end = index_of(&chars, '\n', pos);
        let ghost rest = text@.skip(pos as int);
        proof {
            assert forall|j: int| 0 <= j < end - pos implies rest[j] != '\n' by {
                assert(rest[j] == text@[pos + j]);
            }
            lemma_first_index(rest, '\n', 0, end - pos);
        }
        if end < len {
            let stop: usize = if end > pos && chars[end - 1] == '\r' {
                end - 1
            } else {
                end
            };
            let line = text.substring_char(pos, stop).to_owned();
            proof {
                assert(rest.take(end - pos) =~= text@.subrange(pos as int, end as int));
                assert(line@ =~= without_return(rest.take(end - pos)));
                assert(rest.skip(end - pos + 1) =~= text@.skip(end + 1));
                assert(text_views(out@.push(line)) =~= text_views(out@) + seq![line@]);
            }
            out.push(line);
            pos = end + 1;
        } else {
            let line = text.substring_char(pos, len).to_owned();
            proof {
                assert(line@ =~= rest);
                assert(text@.skip(len as int) =~= Seq::<char>::empty());
                assert(text_views(out@.push(line)) =~= text_views(out@) + seq![line@]);
            }
            out.push(line);
            pos = len;
        }
    }
    proof {
        assert(text@.skip(len as int) =~= Seq::<char>::empty());
    }
    out
}

/// The parts of `text` between the characters `sep`.
pub fn split(text: &str, sep: char) -> (r: Vec<String>)
    ensures
        text_views(r@) == split_at(text@, sep),
{
    let chars = chars_of(text);
    let len: usize = chars.len();
    let mut out: Vec<String> = Vec::new();
    let mut pos: usize = 0;
    proof {
        assert(text@.skip(0) =~= text@);
    }
    loop
        invariant
            pos <= len,
            len == text@.len(),
            chars@ == text@,
            split_at(text@, sep) == text_views(out@) + split_at(text@.skip(pos as int), sep),
        decreases len - pos,
    {
        let end = index_of(&chars, sep, pos);
        let ghost rest = text@.skip(pos as int);
        proof {
            assert forall|j: int| 0 <= j < end - pos implies rest[j] != sep by {
                assert(rest[j] == text@[pos + j]);
            }
            lemma_first_index(rest, sep, 0, end - pos);
        }
        let part = text.substring_char(pos, end).to_owned();
        proof {
            assert(text_views(out@.push(part)) =~= text_views(out@) + seq![part@]);
        }
        if end < len {
            proof {
                assert(part@ =~= rest.take(end - pos));
                assert(rest.skip(end - pos + 1) =~= text@.skip(end + 1));
            }
            out.push(part);
            pos = end + 1;
        } else {
            proof {
                assert(part@ =~= rest);
            }
            out.push(part);
            return out;
        }
    }
}

/// Reads the catalog of skills from its text. There is none where a line has
/// fewer than four fields or its id is no number.
pub fn parse_skill_group(text: &str) -> (r: Option<Vec<SkillGroup>>)
    ensures
        match r {
            Some(groups) => catalog(text@) == Some(group_views(groups@)),
            None => catalog(text@) is None,
        },
{
    let all = lines(text);
    let ghost all_views = text_views(all@);
    let mut done: Vec<SkillGroup> = Vec::new();
    let mut name = String::new();
    let mut skills: Vec<Skill> = Vec::new();
    let mut n: usize = 0;
    proof {
        assert(all_views.take(0) =~= Seq::<Seq<char>>::empty());
        assert(group_views(done@) =~= Seq::<SkillGroupView>::empty());
        assert(skills@.map_values(|skill: Skill| skill@) =~= Seq::<SkillView>::empty());
    }
    while n < all.len()
        invariant
            n <= all@.len(),
            all_views == text_views(all@),
            all_views == lines_of(text@),
            grouping_of(all_views.take(n as int)) == Some(
                Grouping {
                    done: group_views(done@),
                    current: SkillGroupView {
                        name: name@,
                        skills: skills@.map_values(|skill: Skill| skill@),
                    },
                },
            ),
        decreases all@.len() - n,
    {
        let ghost before = grouping_of(all_views.take(n as int))->Some_0;
        proof {
            assert(all_views.take(n + 1).drop_last() =~= all_views.take(n as int));
            assert(all_views.take(n + 1).last() == all@[n as int]@);
        }
        let fields = split(all[n].as_str(), ',');
        if fields.len() < 4 {
            proof {
                lemma_grouping_fails(all_views, n + 1);
            }
            return None;
        }
        let id = match parse_u64(fields[3].as_str()) {
            Some(id) => id,
            None => {
                proof {
                    lemma_grouping_fails(all_views, n + 1);
                }
                return None;
            },
        };
        let skill = Skill { name: fields[1].clone(), mul: fields[2].clone(), id };
        let ghost fields_views = text_views(fields@);
        proof {
            assert(fields_views[0] == fields@[0]@);
            assert(fields_views[1] == fields@[1]@);
            assert(fields_views[2] == fields@[2]@);
            assert(fields_views[3] == fields@[3]@);
        }
        if fields[0] != name {
            if name.as_str().unicode_len() > 0 {
                let group = SkillGroup { name, skills };
                proof {
                    assert(group_views(done@.push(group)) =~= group_views(done@).push(group@));
                }
                done.push(group);
            }
            name = fields[0].clone();
            skills = Vec::new();
            proof {
                assert(skills@.push(skill).map_values(|skill: Skill| skill@) =~= seq![skill@]);
            }
            skills.push(skill);
        } else {
            proof {
                assert(skills@.push(skill).map_values(|skill: Skill| skill@) =~= skills@.map_values(
                    |skill: Skill| skill@,
                ).push(skill@));
            }
            skills.push(skill);
        }
        n = n + 1;
    }
    proof {
        assert(all_views.take(all@.len() as int) =~= all_views);
    }
    if name.as_str().unicode_len() > 0 {
        let group = SkillGroup { name, skills };
        proof {
            assert(group_views(done@.push(group)) =~= group_views(done@).push(group@));
        }
        done.push(group);
    }
    Some(done)
}

/// Where a line states no skill, the lines up to it and all lines after it have
/// no grouping.
proof fn lemma_grouping_fails(lines: Seq<Seq<char>>, k: int)
    requires
        0 <= k <= lines.len(),
        grouping_of(lines.take(k)) is None,
    ensures
        grouping_of(lines) is None,
    decreases lines.len() - k,
{
    if k < lines.len() {
        assert(lines.take(k + 1).drop_last() =~= lines.take(k));
        lemma_grouping_fails(lines, k + 1);
    } else {
        assert(lines.take(k) =~= lines);
    }
}

} // verus!
