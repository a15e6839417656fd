//! Experience thresholds and the floor lookup that turns experience into a level.
//!
//! A table lists, for each level, the least experience that reaches it. The level
//! that stands for an amount of experience is one more than the greatest index
//! whose threshold does not exceed that amount.

use vstd::prelude::*;

verus! {

/// Number of levels, and so of thresholds, in every experience table.
pub const LEVEL_COUNT: usize = 200;

/// `s` never decreases from one index to the next.
pub open spec fn ascending(s: Seq<i64>) -> bool {
    forall|i: int, j: int| 0 <= i <= j < s.len() ==> s[i] <= s[j]
}

/// The greatest index of `s` whose entry does not exceed `value`, if there is one.
pub open spec fn floor_index(s: Seq<i64>, value: i64) -> Option<int>
    decreases s.len(),
{
    if s.len() == 0 {
        None
    } else if s.last() <= value {
        Some(s.len() - 1)
    } else {
        floor_index(s.drop_last(), value)
    }
}

/// The level that `exp` reaches in the table `s`: one more than its floor index.
pub open spec fn level_for(s: Seq<i64>, exp: i64) -> Option<i32> {
    match floor_index(s, exp) {
        Some(i) => Some((i + 1) as i32),
        None => None,
    }
}

/// `floor_index` finds the one index that holds an entry up to `value` and has
/// only greater entries behind it.
pub proof fn lemma_floor_index_is_greatest(s: Seq<i64>, value: i64, i: int)
    requires
        0 <= i < s.len(),
        s[i] <= value,
        forall|j: int| i < j < s.len() ==> s[j] > value,
    ensures
        floor_index(s, value) == Some(i),
    decreases s.len(),
{
    if s.last() <= value {
    } else {
        lemma_floor_index_is_greatest(s.drop_last(), value, i);
    }
}

/// `floor_index` finds nothing exactly when every entry exceeds `value`.
pub proof fn lemma_floor_index_none(s: Seq<i64>, value: i64)
    ensures
        floor_index(s, value) is None <==> (forall|j: int| 0 <= j < s.len() ==> s[j] > value),
    decreases s.len(),
{
    if s.len() > 0 {
        lemma_floor_index_none(s.drop_last(), value);
        if s.last() > value {
            if forall|j: int| 0 <= j < s.drop_last().len() ==> s.drop_last()[j] > value {
                assert forall|j: int| 0 <= j < s.len() implies s[j] > value by {
                    if j < s.len() - 1 {
                        assert(s.drop_last()[j] > value);
                    }
                }
            } else {
                let j = choose|j: int| 0 <= j < s.drop_last().len() && !(s.drop_last()[j] > value);
                assert(!(s[j] > value));
            }
        } else {
            assert(!(s[s.len() - 1] > value));
        }
    }
}

/// What `floor_index` returns lies inside `s`, holds an entry up to `value`, and
/// has only greater entries behind it.
pub proof fn lemma_floor_index_some(s: Seq<i64>, value: i64)
    requires
        floor_index(s, value) is Some,
    ensures
        0 <= floor_index(s, value)->Some_0 < s.len(),
        s[floor_index(s, value)->Some_0] <= value,
        forall|j: int| floor_index(s, value)->Some_0 < j < s.len() ==> s[j] > value,
    decreases s.len(),
{
    if s.last() <= value {
    } else {
        lemma_floor_index_some(s.drop_last(), value);
        let i = floor_index(s.drop_last(), value)->Some_0;
        assert(s.drop_last()[i] == s[i]);
        assert forall|j: int| i < j < s.len() implies s[j] > value by {
            if j < s.len() - 1 {
                assert(s.drop_last()[j] > value);
            }
        }
    }
}

/// Floor lookup: the greatest index of the ascending `values` whose entry does not
/// exceed `value`, or `None` where `value` lies below all of them.
pub fn find_min(value: i64, values: &[i64]) -> (r: Option<usize>)
    requires
        ascending(values@),
    ensures
        match r {
            Some(i) => floor_index(values@, value) == Some(i as int),
            None => floor_index(values@, value) is None,
        },
{
    let mut lo: usize = 0;
    let mut hi: usize = values.len();
    while lo < hi
        invariant
            lo <= hi <= values.len(),
            ascending(values@),
            forall|j: int| 0 <= j < lo ==> values@[j] <= value,
            forall|j: int| hi <= j < values.len() ==> values@[j] > value,
        decreases hi - lo,
    {
        let mid: usize = lo + (hi - lo) / 2;
        if values[mid] <= value {
            lo = mid + 1;
        } else {
            hi = mid;
        }
    }
    if lo > 0 {
        proof {
            lemma_floor_index_is_greatest(values@, value, lo - 1);
        }
        Some(lo - 1)
    } else {
        proof {
            lemma_floor_index_none(values@, value);
        }
        None
    }
}

/// An experience table: `LEVEL_COUNT` thresholds that never decrease.
pub struct ExpTable {
    values: Vec<i64>,
}

impl View for ExpTable {
    type V = Seq<i64>;

    closed spec fn view(&self) -> Seq<i64> {
        self.values@
    }
}

/// What a sequence of thresholds must satisfy to be an experience table.
pub open spec fn valid_table(s: Seq<i64>) -> bool {
    s.len() == LEVEL_COUNT && ascending(s)
}

impl ExpTable {
    /// The table is valid. This holds of every table there is.
    #[verifier::type_invariant]
    pub closed spec fn wf(self) -> bool {
        valid_table(self.values@)
    }

    /// Accepts `values` as a table when there are `LEVEL_COUNT` of them and none
    /// is smaller than the one before it.
    pub fn new(values: Vec<i64>) -> (r: Option<ExpTable>)
        ensures
            r is Some <==> valid_table(values@),
            r matches Some(t) ==> t@ == values@,
    {
        if values.len() != LEVEL_COUNT {
            return None;
        }
        let mut i: usize = 1;
        while i < values.len()
            invariant
                1 <= i <= values.len(),
                forall|a: int, b: int| 0 <= a <= b < i ==> values@[a] <= values@[b],
            decreases values.len() - i,
        {
            if values[i - 1] > values[i] {
                return None;
            }
            i = i + 1;
        }
        Some(ExpTable { values })
    }

    /// The thresholds, in level order.
    pub fn thresholds(&self) -> (r: &[i64])
        ensures
            r@ == self@,
            valid_table(r@),
    {
        proof {
            use_type_invariant(self);
        }
        self.values.as_slice()
    }

    /// The level that `exp` reaches, or `None` where `exp` lies below the first
    /// threshold.
    pub fn level_of(&self, exp: i64) -> (r: Option<i32>)
        ensures
            r == level_for(self@, exp),
    {
        proof {
            use_type_invariant(self);
        }
        match find_min(exp, self.values.as_slice()) {
            Some(idx) => {
                proof {
                    lemma_floor_index_some(self.values@, exp);
                }
                Some(idx as i32 + 1)
            },
            None => None,
        }
    }

    /// The least experience that reaches level `lvl`.
    pub fn threshold(&self, lvl: i32) -> (r: i64)
        requires
            1 <= lvl <= LEVEL_COUNT,
        ensures
            r == self@[lvl - 1],
    {
        proof {
            use_type_invariant(self);
        }
        self.values[(lvl - 1) as usize]
    }
}

/// Looking up the threshold of a level gives that level back, provided the next
/// level asks for strictly more experience. Where two neighbouring levels share a
/// threshold, the lookup gives the higher of them.
pub proof fn lemma_level_of_threshold(s: Seq<i64>, lvl: int)
    requires
        valid_table(s),
        1 <= lvl <= LEVEL_COUNT,
        lvl < LEVEL_COUNT ==> s[lvl - 1] < s[lvl],
    ensures
        level_for(s, s[lvl - 1]) == Some(lvl as i32),
{
    assert forall|j: int| lvl - 1 < j < s.len() implies #[trigger] s[j] > s[lvl - 1] by {
        assert(s[lvl] <= s[j]);
    }
    lemma_floor_index_is_greatest(s, s[lvl - 1], lvl - 1);
}

/// Looking up the threshold of a level never gives a lower level.
pub proof fn lemma_level_of_threshold_at_least(s: Seq<i64>, lvl: int)
    requires
        valid_table(s),
        1 <= lvl <= LEVEL_COUNT,
    ensures
        level_for(s, s[lvl - 1]) matches Some(l) && lvl <= l <= LEVEL_COUNT && s[l - 1] == s[lvl
            - 1],
{
    lemma_floor_index_none(s, s[lvl - 1]);
    lemma_floor_index_some(s, s[lvl - 1]);
    let i = floor_index(s, s[lvl - 1])->Some_0;
    if i < lvl - 1 {
        assert(s[lvl - 1] > s[lvl - 1]);
    }
}

} // verus!
