//! Scores of the thirteen categories.
//!
//! A roll is given by its counts: `roll[i]` is the number of dice showing
//! `i + 1` eyes. The categories are numbered 0 to 12: aces to sixes (0-5),
//! three of a kind (6), four of a kind (7), full house (8), small straight (9),
//! large straight (10), Yahtzee (11) and chance (12).
use vstd::prelude::*;
use crate::game::generators::{dice_count, is_roll};

verus! {

/// Total number of eyes shown by the dice of `roll`.
pub open spec fn eyes_total(roll: [u8; 6]) -> int {
    roll[0] * 1 + roll[1] * 2 + roll[2] * 3 + roll[3] * 4 + roll[4] * 5 + roll[5] * 6
}

/// Some face is shown by at least `n` dice.
pub open spec fn some_count_at_least(roll: [u8; 6], n: int) -> bool {
    roll[0] >= n || roll[1] >= n || roll[2] >= n || roll[3] >= n || roll[4] >= n || roll[5] >= n
}

/// Some face is shown by exactly `n` dice.
pub open spec fn some_count_is(roll: [u8; 6], n: int) -> bool {
    roll[0] == n || roll[1] == n || roll[2] == n || roll[3] == n || roll[4] == n || roll[5] == n
}

/// Four consecutive faces are all shown.
pub open spec fn has_small_straight(roll: [u8; 6]) -> bool {
    ||| (roll[0] >= 1 && roll[1] >= 1 && roll[2] >= 1 && roll[3] >= 1)
    ||| (roll[1] >= 1 && roll[2] >= 1 && roll[3] >= 1 && roll[4] >= 1)
    ||| (roll[2] >= 1 && roll[3] >= 1 && roll[4] >= 1 && roll[5] >= 1)
}

/// Five consecutive faces are each shown exactly once.
pub open spec fn has_large_straight(roll: [u8; 6]) -> bool {
    ||| (roll[0] == 1 && roll[1] == 1 && roll[2] == 1 && roll[3] == 1 && roll[4] == 1)
    ||| (roll[1] == 1 && roll[2] == 1 && roll[3] == 1 && roll[4] == 1 && roll[5] == 1)
}

/// Points of an upper-section category (0-5): the eyes of the dice that show
/// the category's face. Every other category counts 0 here.
pub open spec fn upper_points(roll: [u8; 6], cat: int) -> int {
    if 0 <= cat <= 5 {
        roll[cat] * (cat + 1)
    } else {
        0
    }
}

/// Points that `roll` scores in category `cat`; 0 for a number above 12.
pub open spec fn points(roll: [u8; 6], cat: int) -> int {
    if 0 <= cat <= 5 {
        upper_points(roll, cat)
    } else if cat == 6 {
        if some_count_at_least(roll, 3) { eyes_total(roll) } else { 0 }
    } else if cat == 7 {
        if some_count_at_least(roll, 4) { eyes_total(roll) } else { 0 }
    } else if cat == 8 {
        if some_count_is(roll, 3) && some_count_is(roll, 2) { 25 } else { 0 }
    } else if cat == 9 {
        if has_small_straight(roll) { 30 } else { 0 }
    } else if cat == 10 {
        if has_large_straight(roll) { 40 } else { 0 }
    } else if cat == 11 {
        if some_count_is(roll, 5) { 50 } else { 0 }
    } else if cat == 12 {
        eyes_total(roll)
    } else {
        0
    }
}

/// The upper-section points of `roll` in `cat` fit in a byte.
pub open spec fn upper_points_fit(roll: [u8; 6], cat: int) -> bool {
    upper_points(roll, cat) <= 255
}

/// Scoring `roll` in `cat` stays within a byte: the eyes are only added up
/// where the category counts them.
pub open spec fn points_fit(roll: [u8; 6], cat: int) -> bool {
    &&& upper_points_fit(roll, cat)
    &&& (cat == 12 || (cat == 6 && some_count_at_least(roll, 3)) || (cat == 7
        && some_count_at_least(roll, 4))) ==> eyes_total(roll) <= 255
}

/// Points that `roll` scores in an upper-section category `cat` (0-5);
/// 0 for any other category.
pub fn upper_score(roll: &[u8; 6], cat: u8) -> (r: u8)
    requires
        upper_points_fit(*roll, cat as int),
    ensures
        r == upper_points(*roll, cat as int),
{
    if cat <= 5 {
        roll[cat as usize] * (cat + 1)
    } else {
        0
    }
}

fn count_at_least(roll: &[u8; 6], n: u8) -> (r: bool)
    ensures
        r == some_count_at_least(*roll, n as int),
{
    let mut i: usize = 0;
    while i < 6
        invariant
            i <= 6,
            forall|j: int| 0 <= j < i ==> roll[j] < n,
        decreases 6 - i,
    {
        if roll[i] >= n {
            return true;
        }
        i += 1;
    }
    false
}

fn count_is(roll: &[u8; 6], n: u8) -> (r: bool)
    ensures
        r == some_count_is(*roll, n as int),
{
    let mut i: usize = 0;
    while i < 6
        invariant
            i <= 6,
            forall|j: int| 0 <= j < i ==> roll[j] != n,
        decreases 6 - i,
    {
        if roll[i] == n {
            return true;
        }
        i += 1;
    }
    false
}

fn eyes(roll: &[u8; 6]) -> (r: u8)
    requires
        eyes_total(*roll) <= 255,
    ensures
        r == eyes_total(*roll),
{
    let mut tmp: u8 = 0;
    let mut i: usize = 0;
    while i < 6
        invariant
            i <= 6,
            eyes_total(*roll) <= 255,
            tmp == (if i >= 1 { roll[0] * 1 } else { 0 }) + (if i >= 2 { roll[1] * 2 } else { 0 })
                + (if i >= 3 { roll[2] * 3 } else { 0 }) + (if i >= 4 { roll[3] * 4 } else { 0 })
                + (if i >= 5 { roll[4] * 5 } else { 0 }) + (if i >= 6 { roll[5] * 6 } else { 0 }),
        decreases 6 - i,
    {
        let w: u8 = (i + 1) as u8;
        assert(roll[i as int] * w <= eyes_total(*roll)) by (nonlinear_arith)
            requires
                0 <= i < 6,
                w == i + 1,
                eyes_total(*roll) == roll[0] * 1 + roll[1] * 2 + roll[2] * 3 + roll[3] * 4
                    + roll[4] * 5 + roll[5] * 6,
                0 <= roll[0] && 0 <= roll[1] && 0 <= roll[2] && 0 <= roll[3] && 0 <= roll[4]
                    && 0 <= roll[5],
        ;
        tmp = tmp + roll[i] * w;
        i += 1;
    }
    tmp
}

/// Scoring `roll` in `cat` stays within a byte (see `points_fit`).
pub fn score_fits(roll: &[u8; 6], cat: u8) -> (r: bool)
    ensures
        r == points_fit(*roll, cat as int),
{
    let mut total: u32 = 0;
    let mut i: usize = 0;
    while i < 6
        invariant
            i <= 6,
            total == (if i >= 1 { roll[0] * 1 } else { 0 }) + (if i >= 2 { roll[1] * 2 } else { 0 })
                + (if i >= 3 { roll[2] * 3 } else { 0 }) + (if i >= 4 { roll[3] * 4 } else { 0 })
                + (if i >= 5 { roll[4] * 5 } else { 0 }) + (if i >= 6 { roll[5] * 6 } else { 0 }),
            total <= 255 * 21,
        decreases 6 - i,
    {
        let w: u32 = (i + 1) as u32;
        let c: u32 = roll[i] as u32;
        assert(c * w <= 255 * w) by (nonlinear_arith)
            requires
                c <= 255,
                w >= 0,
        ;
        total = total + c * w;
        i += 1;
    }
    let upper_fits = if cat <= 5 {
        (roll[cat as usize] as u32) * (cat as u32 + 1) <= 255
    } else {
        true
    };
    let needs_total = cat == 12 || (cat == 6 && count_at_least(roll, 3)) || (cat == 7
        && count_at_least(roll, 4));
    upper_fits && (!needs_total || total <= 255)
}

/// Points that `roll` scores in category `cat`.
pub fn score(roll: &[u8; 6], cat: u8) -> (r: u8)
    requires
        points_fit(*roll, cat as int),
    ensures
        r == points(*roll, cat as int),
{
    if cat <= 5 {
        roll[cat as usize] * (cat + 1)
    } else if cat == 6 {
        if count_at_least(roll, 3) {
            eyes(roll)
        } else {
            0
        }
    } else if cat == 7 {
        if count_at_least(roll, 4) {
            eyes(roll)
        } else {
            0
        }
    } else if cat == 8 {
        if count_is(roll, 3) && count_is(roll, 2) {
            25
        } else {
            0
        }
    } else if cat == 9 {
        if (roll[0] >= 1 && roll[1] >= 1 && roll[2] >= 1 && roll[3] >= 1) || (roll[1] >= 1
            && roll[2] >= 1 && roll[3] >= 1 && roll[4] >= 1) || (roll[2] >= 1 && roll[3] >= 1
            && roll[4] >= 1 && roll[5] >= 1) {
            30
        } else {
            0
        }
    } else if cat == 10 {
        if (roll[0] == 1 && roll[1] == 1 && roll[2] == 1 && roll[3] == 1 && roll[4] == 1) || (
        roll[1] == 1 && roll[2] == 1 && roll[3] == 1 && roll[4] == 1 && roll[5] == 1) {
            40
        } else {
            0
        }
    } else if cat == 11 {
        if count_is(roll, 5) {
            50
        } else {
            0
        }
    } else if cat == 12 {
        eyes(roll)
    } else {
        0
    }
}

/// The six upper categories score the same under `score` and
/// `upper_score`; every other category has no upper points.
pub proof fn lemma_upper_categories_agree(roll: [u8; 6], cat: int)
    ensures
        0 <= cat <= 5 ==> points(roll, cat) == upper_points(roll, cat),
        !(0 <= cat <= 5) ==> upper_points(roll, cat) == 0,
{
}

/// A roll that counts for four of a kind counts the same for three of a
/// kind, and a Yahtzee counts for four of a kind; a large straight is also
/// a small straight; chance is never worth less than either "of a kind".
pub proof fn lemma_category_implications(roll: [u8; 6])
    ensures
        points(roll, 7) > 0 ==> points(roll, 6) == points(roll, 7),
        points(roll, 11) > 0 ==> points(roll, 7) == eyes_total(roll),
        points(roll, 10) > 0 ==> points(roll, 9) > 0,
        points(roll, 6) <= points(roll, 12),
        points(roll, 7) <= points(roll, 12),
{
}

/// Any roll of five dice can be scored in any category within a byte, and
/// scores at most 50.
pub proof fn lemma_roll_points_fit(roll: [u8; 6], cat: int)
    requires
        is_roll(roll),
    ensures
        points_fit(roll, cat),
        0 <= points(roll, cat) <= 50,
        eyes_total(roll) <= 30,
{
    assert(dice_count(roll) == 5);
    if 0 <= cat <= 5 {
        assert(roll[cat] <= 5);
        assert(roll[cat] * (cat + 1) <= 5 * 6) by (nonlinear_arith)
            requires
                0 <= roll[cat] <= 5,
                0 <= cat <= 5,
        ;
    }
}

/// Each upper category counts the dice showing its face times that face,
/// and the thirteen categories end at 12: a higher number scores nothing.
pub proof fn lemma_upper_and_unknown_categories(roll: [u8; 6], cat: int)
    ensures
        0 <= cat <= 5 ==> points(roll, cat) == roll[cat] * (cat + 1),
        (cat < 0 || cat > 12) ==> points(roll, cat) == 0,
{
}

/// Chance adds up the eyes of all dice.
pub proof fn lemma_chance_adds_all_eyes(roll: [u8; 6])
    ensures
        points(roll, 12) == roll[0] + 2 * roll[1] + 3 * roll[2] + 4 * roll[3] + 5 * roll[4] + 6
            * roll[5],
{
}

/// Three (four) of a kind scores the eyes of all dice when some face, any of
/// the six, shows at least three (four) dice, and nothing otherwise.
pub proof fn lemma_of_a_kind(roll: [u8; 6])
    ensures
        (exists|k: int| 0 <= k < 6 && roll[k] >= 3) ==> points(roll, 6) == points(roll, 12),
        (forall|k: int| 0 <= k < 6 ==> roll[k] < 3) ==> points(roll, 6) == 0,
        (exists|k: int| 0 <= k < 6 && roll[k] >= 4) ==> points(roll, 7) == points(roll, 12),
        (forall|k: int| 0 <= k < 6 ==> roll[k] < 4) ==> points(roll, 7) == 0,
{
    if exists|k: int| 0 <= k < 6 && roll[k] >= 3 {
        let k = choose|k: int| 0 <= k < 6 && roll[k] >= 3;
        assert(roll[k] >= 3);
    }
    if exists|k: int| 0 <= k < 6 && roll[k] >= 4 {
        let k = choose|k: int| 0 <= k < 6 && roll[k] >= 4;
        assert(roll[k] >= 4);
    }
    if forall|k: int| 0 <= k < 6 ==> roll[k] < 3 {
        assert(roll[0] < 3 && roll[1] < 3 && roll[2] < 3 && roll[3] < 3 && roll[4] < 3 && roll[5]
            < 3);
    }
    if forall|k: int| 0 <= k < 6 ==> roll[k] < 4 {
        assert(roll[0] < 4 && roll[1] < 4 && roll[2] < 4 && roll[3] < 4 && roll[4] < 4 && roll[5]
            < 4);
    }
}

/// A full house scores 25 exactly when one face shows three dice and one
/// face shows two, whichever faces they are; otherwise it scores 0.
pub proof fn lemma_full_house(roll: [u8; 6])
    ensures
        points(roll, 8) == 0 || points(roll, 8) == 25,
        points(roll, 8) == 25 <==> (exists|i: int| 0 <= i < 6 && roll[i] == 3) && (exists|j: int|
            0 <= j < 6 && roll[j] == 2),
        forall|i: int, j: int|
            0 <= i < 6 && 0 <= j < 6 && roll[i] == 3 && roll[j] == 2 ==> points(roll, 8) == 25,
        (forall|j: int| 0 <= j < 6 ==> roll[j] != 2) ==> points(roll, 8) == 0,
        (forall|i: int| 0 <= i < 6 ==> roll[i] != 3) ==> points(roll, 8) == 0,
{
    if points(roll, 8) == 25 {
        let i = if roll[0] == 3 { 0int } else if roll[1] == 3 { 1 } else if roll[2] == 3 { 2 } else if roll[3] == 3 { 3 } else if roll[4] == 3 { 4 } else { 5 };
        let j = if roll[0] == 2 { 0int } else if roll[1] == 2 { 1 } else if roll[2] == 2 { 2 } else if roll[3] == 2 { 3 } else if roll[4] == 2 { 4 } else { 5 };
        assert(roll[i] == 3 && roll[j] == 2);
    }
    if (exists|i: int| 0 <= i < 6 && roll[i] == 3) && (exists|j: int| 0 <= j < 6 && roll[j] == 2) {
        let i = choose|i: int| 0 <= i < 6 && roll[i] == 3;
        let j = choose|j: int| 0 <= j < 6 && roll[j] == 2;
        assert(roll[i] == 3 && roll[j] == 2);
    }
    if forall|j: int| 0 <= j < 6 ==> roll[j] != 2 {
        assert(roll[0] != 2 && roll[1] != 2 && roll[2] != 2 && roll[3] != 2 && roll[4] != 2 && roll[5]
            != 2);
    }
    if forall|i: int| 0 <= i < 6 ==> roll[i] != 3 {
        assert(roll[0] != 3 && roll[1] != 3 && roll[2] != 3 && roll[3] != 3 && roll[4] != 3 && roll[5]
            != 3);
    }
}

/// A small straight scores 30 exactly when four consecutive faces are all
/// shown: 1-4, 2-5 or 3-6, each window enough on its own; otherwise 0.
pub proof fn lemma_small_straight(roll: [u8; 6])
    ensures
        points(roll, 9) == 0 || points(roll, 9) == 30,
        forall|w: int|
            0 <= w <= 2 && #[trigger] roll[w] >= 1 && roll[w + 1] >= 1 && roll[w + 2] >= 1 && roll[w + 3] >= 1
                ==> points(roll, 9) == 30,
        points(roll, 9) == 30 ==> exists|w: int|
            0 <= w <= 2 && #[trigger] roll[w] >= 1 && roll[w + 1] >= 1 && roll[w + 2] >= 1 && roll[w + 3] >= 1,
{
    if points(roll, 9) == 30 {
        if roll[0] >= 1 && roll[1] >= 1 && roll[2] >= 1 && roll[3] >= 1 {
            let w = 0int;
            assert(roll[w + 1] >= 1 && roll[w + 2] >= 1 && roll[w + 3] >= 1);
        } else if roll[1] >= 1 && roll[2] >= 1 && roll[3] >= 1 && roll[4] >= 1 {
            let w = 1int;
            assert(roll[w + 1] >= 1 && roll[w + 2] >= 1 && roll[w + 3] >= 1);
        } else {
            let w = 2int;
            assert(roll[w + 1] >= 1 && roll[w + 2] >= 1 && roll[w + 3] >= 1);
        }
    }
}

/// A large straight scores 40 exactly when five consecutive faces (1-5 or
/// 2-6) each show one die; otherwise 0.
pub proof fn lemma_large_straight(roll: [u8; 6])
    ensures
        points(roll, 10) == 0 || points(roll, 10) == 40,
        forall|w: int|
            0 <= w <= 1 && #[trigger] roll[w] == 1 && roll[w + 1] == 1 && roll[w + 2] == 1 && roll[w + 3] == 1
                && roll[w + 4] == 1 ==> points(roll, 10) == 40,
        points(roll, 10) == 40 ==> exists|w: int|
            0 <= w <= 1 && #[trigger] roll[w] == 1 && roll[w + 1] == 1 && roll[w + 2] == 1 && roll[w + 3] == 1
                && roll[w + 4] == 1,
{
    if points(roll, 10) == 40 {
        if roll[0] == 1 && roll[1] == 1 && roll[2] == 1 && roll[3] == 1 && roll[4] == 1 {
            let w = 0int;
            assert(roll[w + 1] == 1 && roll[w + 2] == 1 && roll[w + 3] == 1 && roll[w + 4] == 1);
        } else {
            let w = 1int;
            assert(roll[w + 1] == 1 && roll[w + 2] == 1 && roll[w + 3] == 1 && roll[w + 4] == 1);
        }
    }
}

/// A Yahtzee scores 50 exactly when some face, any of the six, shows five
/// dice; otherwise 0.
pub proof fn lemma_yahtzee(roll: [u8; 6])
    ensures
        points(roll, 11) == 0 || points(roll, 11) == 50,
        forall|k: int| 0 <= k < 6 && roll[k] == 5 ==> points(roll, 11) == 50,
        points(roll, 11) == 50 ==> exists|k: int| 0 <= k < 6 && roll[k] == 5,
{
    if points(roll, 11) == 50 {
        let k = if roll[0] == 5 { 0int } else if roll[1] == 5 { 1 } else if roll[2] == 5 { 2 } else if roll[3] == 5 { 3 } else if roll[4] == 5 { 4 } else { 5 };
        assert(roll[k] == 5);
    }
}

/// Scoring stays within a byte exactly when the points it adds up do: an
/// upper category's count times its face, the total of all eyes for chance
/// and for a met "of a kind"; the fixed-value categories always fit.
pub proof fn lemma_points_fit_bounds(roll: [u8; 6], cat: int)
    ensures
        0 <= cat <= 5 ==> (points_fit(roll, cat) <==> roll[cat] * (cat + 1) <= 255),
        8 <= cat <= 11 ==> points_fit(roll, cat),
        cat == 12 ==> (points_fit(roll, cat) <==> roll[0] + 2 * roll[1] + 3 * roll[2] + 4
            * roll[3] + 5 * roll[4] + 6 * roll[5] <= 255),
{
}

} // verus!
