//! An unpacked game state: one flag per category and the upper-section
//! points, with the order in which states are ranked.
use vstd::prelude::*;
use std::cmp::Ordering;
use vstd::std_specs::cmp::PartialEqSpecImpl;
use vstd::std_specs::cmp::PartialOrdSpecImpl;
use vstd::std_specs::cmp::PartialOrdSpec;
use crate::game::rules::upper_points;

verus! {

/// Which of the thirteen categories are filled, and the upper-section points.
#[derive(Copy, Clone, Eq, Debug)]
pub struct State {
    pub fields: [bool; 13],
    pub upper: u8,
}

/// How `a` ranks against `b` from category `i` on: the first category filled
/// in one state and open in the other decides (the filled one ranks lower);
/// if all agree, more upper points rank lower.
pub open spec fn rank_from(a: State, b: State, i: int) -> Ordering
    decreases 13 - i,
{
    if 0 <= i < 13 {
        if a.fields[i] && !b.fields[i] {
            Ordering::Less
        } else if !a.fields[i] && b.fields[i] {
            Ordering::Greater
        } else {
            rank_from(a, b, i + 1)
        }
    } else if a.upper > b.upper {
        Ordering::Less
    } else if a.upper < b.upper {
        Ordering::Greater
    } else {
        Ordering::Equal
    }
}

/// How `a` ranks against `b`.
pub open spec fn rank(a: State, b: State) -> Ordering {
    rank_from(a, b, 0)
}

/// Both states have the same flags and the same upper points.
pub open spec fn same_state(a: State, b: State) -> bool {
    a.fields@ == b.fields@ && a.upper == b.upper
}

proof fn lemma_rank_skip(a: State, b: State, i: int)
    requires
        0 <= i <= 13,
        forall|j: int| 0 <= j < i ==> a.fields[j] == b.fields[j],
    ensures
        rank(a, b) == rank_from(a, b, i),
    decreases i,
{
    if i > 0 {
        lemma_rank_skip(a, b, i - 1);
    }
}

proof fn lemma_rank_from_equal(a: State, b: State, i: int)
    requires
        0 <= i <= 13,
    ensures
        rank_from(a, b, i) == Ordering::Equal <==> (forall|j: int| i <= j < 13 ==> a.fields[j]
            == b.fields[j]) && a.upper == b.upper,
    decreases 13 - i,
{
    if i < 13 {
        lemma_rank_from_equal(a, b, i + 1);
        if (forall|j: int| i + 1 <= j < 13 ==> a.fields[j] == b.fields[j]) && a.fields[i]
            == b.fields[i] {
            assert forall|j: int| i <= j < 13 implies a.fields[j] == b.fields[j] by {
                if j > i {
                    assert(i + 1 <= j < 13);
                }
            }
        }
    }
}

proof fn lemma_rank_from_reverse(a: State, b: State, i: int)
    requires
        0 <= i <= 13,
    ensures
        rank_from(a, b, i) == Ordering::Less <==> rank_from(b, a, i) == Ordering::Greater,
    decreases 13 - i,
{
    if i < 13 {
        lemma_rank_from_reverse(a, b, i + 1);
    }
}

proof fn lemma_rank_from_transitive(a: State, b: State, c: State, i: int)
    requires
        0 <= i <= 13,
        rank_from(a, b, i) == Ordering::Less,
        rank_from(b, c, i) == Ordering::Less,
    ensures
        rank_from(a, c, i) == Ordering::Less,
    decreases 13 - i,
{
    if i < 13 {
        if a.fields[i] == b.fields[i] && b.fields[i] == c.fields[i] {
            lemma_rank_from_transitive(a, b, c, i + 1);
        }
    }
}

/// Two states rank equal exactly when they have the same flags and the same
/// upper points, which is what `==` compares.
pub proof fn lemma_rank_equal_iff_same(a: State, b: State)
    ensures
        rank(a, b) == Ordering::Equal <==> same_state(a, b),
{
    lemma_rank_from_equal(a, b, 0);
    if rank(a, b) == Ordering::Equal {
        assert(a.fields@ =~= b.fields@);
    }
}

/// Ranking `b` against `a` reverses ranking `a` against `b`.
pub proof fn lemma_rank_reverses(a: State, b: State)
    ensures
        rank(a, b) == Ordering::Less <==> rank(b, a) == Ordering::Greater,
        rank(a, b) == Ordering::Greater <==> rank(b, a) == Ordering::Less,
        rank(a, b) == Ordering::Equal <==> rank(b, a) == Ordering::Equal,
{
    lemma_rank_from_reverse(a, b, 0);
    lemma_rank_from_reverse(b, a, 0);
    lemma_rank_equal_iff_same(a, b);
    lemma_rank_equal_iff_same(b, a);
}

/// The ranking is transitive: it orders all states in one line.
pub proof fn lemma_rank_transitive(a: State, b: State, c: State)
    requires
        rank(a, b) == Ordering::Less,
        rank(b, c) == Ordering::Less,
    ensures
        rank(a, c) == Ordering::Less,
{
    lemma_rank_from_transitive(a, b, c, 0);
}

/// The category flags decide before the upper points: at the first category
/// filled in one state and open in the other, the state that has it filled
/// ranks lower, whatever the upper points of either state.
pub proof fn lemma_fields_rank_first(a: State, b: State, i: int)
    requires
        0 <= i < 13,
        forall|j: int| 0 <= j < i ==> a.fields[j] == b.fields[j],
    ensures
        a.fields[i] && !b.fields[i] ==> rank(a, b) == Ordering::Less,
        !a.fields[i] && b.fields[i] ==> rank(a, b) == Ordering::Greater,
{
    lemma_rank_skip(a, b, i);
}

/// When all category flags agree, the state with more upper points ranks
/// lower, and states with equal upper points rank equal.
pub proof fn lemma_upper_ranks_last(a: State, b: State)
    requires
        forall|j: int| 0 <= j < 13 ==> a.fields[j] == b.fields[j],
    ensures
        a.upper > b.upper ==> rank(a, b) == Ordering::Less,
        a.upper < b.upper ==> rank(a, b) == Ordering::Greater,
        a.upper == b.upper ==> rank(a, b) == Ordering::Equal,
{
    lemma_rank_skip(a, b, 13);
}

/// `partial_cmp` always answers, and answers what `cmp` does: the flags
/// decide first, then more upper points rank lower.
pub proof fn lemma_partial_cmp_is_cmp(a: State, b: State)
    ensures
        PartialOrdSpec::partial_cmp_spec(&a, &b) == Some(rank(a, b)),
        (forall|j: int| 0 <= j < 13 ==> a.fields[j] == b.fields[j]) ==> {
            &&& a.upper > b.upper ==> PartialOrdSpec::partial_cmp_spec(&a, &b) == Some(Ordering::Less)
            &&& a.upper < b.upper ==> PartialOrdSpec::partial_cmp_spec(&a, &b) == Some(Ordering::Greater)
            &&& a.upper == b.upper ==> PartialOrdSpec::partial_cmp_spec(&a, &b) == Some(Ordering::Equal)
        },
        forall|i: int|
            0 <= i < 13 && (forall|j: int| 0 <= j < i ==> a.fields[j] == b.fields[j]) && a.fields[i]
                && !b.fields[i] ==> PartialOrdSpec::partial_cmp_spec(&a, &b) == Some(Ordering::Less),
{
    if forall|j: int| 0 <= j < 13 ==> a.fields[j] == b.fields[j] {
        lemma_upper_ranks_last(a, b);
    }
    assert forall|i: int|
        0 <= i < 13 && (forall|j: int| 0 <= j < i ==> a.fields[j] == b.fields[j]) && a.fields[i]
            && !b.fields[i] implies rank(a, b) == Ordering::Less by {
        lemma_fields_rank_first(a, b, i);
    }
}

impl PartialEq for State {
    fn eq(&self, other: &Self) -> (r: bool) {
        let mut i: usize = 0;
        while i < 13
            invariant
                i <= 13,
                forall|j: int| 0 <= j < i ==> self.fields[j] == other.fields[j],
            decreases 13 - i,
        {
            if self.fields[i] != other.fields[i] {
                return false;
            }
            i += 1;
        }
        proof {
            assert(self.fields@ =~= other.fields@);
        }
        return self.upper == other.upper;
    }
}

impl PartialEqSpecImpl for State {
    open spec fn obeys_eq_spec() -> bool {
        true
    }

    open spec fn eq_spec(&self, other: &State) -> bool {
        same_state(*self, *other)
    }
}

impl PartialOrd for State {
    fn partial_cmp(&self, other: &Self) -> (r: Option<Ordering>) {
        Some(self.cmp(other))
    }
}

impl PartialOrdSpecImpl for State {
    open spec fn obeys_partial_cmp_spec() -> bool {
        true
    }

    open spec fn partial_cmp_spec(&self, other: &State) -> Option<Ordering> {
        Some(rank(*self, *other))
    }
}

impl State {
    /// How `self` ranks against `other`; the same order as `partial_cmp`.
    pub fn cmp(&self, other: &State) -> (r: Ordering)
        ensures
            r == rank(*self, *other),
    {
        let mut i: usize = 0;
        let ghost mut at: int = 0;
        while i < 13
            invariant
                i <= 13,
                at == i,
                forall|j: int| 0 <= j < i ==> self.fields[j] == other.fields[j],
            decreases 13 - i,
        {
            if self.fields[i] && !other.fields[i] {
                proof {
                    lemma_rank_skip(*self, *other, at);
                }
                return Ordering::Less;
            } else if !self.fields[i] && other.fields[i] {
                proof {
                    lemma_rank_skip(*self, *other, at);
                }
                return Ordering::Greater;
            }
            i += 1;
            proof {
                at = at + 1;
            }
        }
        proof {
            lemma_rank_skip(*self, *other, 13);
        }
        if self.upper > other.upper {
            return Ordering::Less;
        } else if self.upper < other.upper {
            return Ordering::Greater;
        }
        return Ordering::Equal;
    }
}

fn upper_score(roll: &[u8; 6], cat: usize) -> (r: u8)
    requires
        upper_points(*roll, cat as int) <= 255,
    ensures
        r == upper_points(*roll, cat as int),
{
    if cat <= 5 {
        roll[cat] * (cat + 1) as u8
    } else {
        0
    }
}

/// The state after `roll` is scored in category `cat`: the category is
/// marked filled and its upper points are added, capped at 63.
pub fn new_state(state: &State, roll: &[u8; 6], cat: usize) -> (r: State)
    requires
        cat < 13,
        upper_points(*roll, cat as int) <= 255,
        state.upper + upper_points(*roll, cat as int) <= 255,
    ensures
        r.fields@ == state.fields@.update(cat as int, true),
        r.upper == (if state.upper + upper_points(*roll, cat as int) < 63 {
            state.upper + upper_points(*roll, cat as int)
        } else {
            63
        }),
{
    let mut tmp = State { fields: state.fields, upper: state.upper };
    tmp.fields[cat] = true;
    let sum = tmp.upper + upper_score(roll, cat);
    tmp.upper = if sum < 63 {
        sum
    } else {
        63
    };
    tmp
}

} // verus!
