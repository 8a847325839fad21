//! The game state: which categories are filled and how many points the upper
//! section holds, packed into one `u32`.
//!
//! Bit `18 - f` is set once category `f` (0-12) is filled. The low six bits
//! count the upper-section points, capped at 63 (the bonus threshold).
pub mod generators;
pub mod rules;

use vstd::prelude::*;
use crate::game::rules::{upper_points, upper_points_fit, upper_score};

verus! {

/// The packed game state.
#[derive(Copy, Clone, PartialEq, Eq, Structural, Debug)]
pub struct Game(pub u32);

/// Bit `18 - field` of `state` is set.
pub open spec fn field_used(state: u32, field: u8) -> bool
    recommends
        field <= 18,
{
    (state >> ((18 - field) as u32)) & 1 == 1
}

/// The upper-section counter held in the low six bits.
pub open spec fn upper_total(state: u32) -> u32 {
    state & 63
}

/// The upper-section counter after adding `points`, capped at 63.
pub open spec fn capped_upper(state: u32, points: int) -> u32 {
    if upper_total(state) + points < 63 {
        (upper_total(state) + points) as u32
    } else {
        63
    }
}

/// The state after `roll` is scored in `cat`: the category's bit is set and
/// the capped new upper counter is or-ed into the low bits.
pub open spec fn advanced(state: u32, roll: [u8; 6], cat: u8) -> u32
    recommends
        cat <= 18,
{
    state | (1u32 << ((18 - cat) as u32)) | capped_upper(state, upper_points(roll, cat as int))
}

proof fn lemma_new_bit_set(s: u32, k: u32, u: u32)
    by (bit_vector)
    requires
        k < 32,
    ensures
        ((s | (1u32 << k) | u) >> k) & 1 == 1,
{
}

proof fn lemma_other_bit_kept(s: u32, k: u32, j: u32, u: u32)
    by (bit_vector)
    requires
        k < 32,
        6 <= j < 32,
        j != k,
        u < 64,
    ensures
        ((s | (1u32 << k) | u) >> j) & 1 == (s >> j) & 1,
{
}

proof fn lemma_low_bits(s: u32, k: u32, u: u32)
    by (bit_vector)
    requires
        6 <= k < 32,
        u < 64,
    ensures
        (s | (1u32 << k) | u) & 63 == (s & 63) | u,
{
}

proof fn lemma_or_bounds(a: u32, b: u32)
    by (bit_vector)
    requires
        a < 64,
        b < 64,
    ensures
        a | b < 64,
        a | b >= a,
        a | b >= b,
{
}

proof fn lemma_test_bit(s: u32, k: u32)
    by (bit_vector)
    requires
        k < 32,
    ensures
        (((s & (1u32 << k)) >> k) == 0) == ((s >> k) & 1 != 1),
{
}

proof fn lemma_zero_bits(k: u32)
    by (bit_vector)
    requires
        k < 32,
    ensures
        (0u32 >> k) & 1 != 1,
        0u32 & 63 == 0,
{
}

proof fn lemma_bit_kept_by_or(s: u32, k: u32, j: u32, u: u32)
    by (bit_vector)
    requires
        k < 32,
        j < 32,
    ensures
        (s >> j) & 1 == 1 ==> ((s | (1u32 << k) | u) >> j) & 1 == 1,
        (s | (1u32 << k) | u) & 63 >= s & 63,
        (s | (1u32 << k) | u) & 63 <= 63,
{
}

proof fn lemma_or_below_table(s: u32, k: u32, u: u32)
    by (bit_vector)
    requires
        s < 0x80000,
        k <= 18,
        u < 64,
    ensures
        s | (1u32 << k) | u < 0x80000,
{
}

/// A state that indexes the table of all 2^19 states still does so after
/// any category is scored.
pub proof fn lemma_advanced_in_table(state: u32, roll: [u8; 6], cat: u8)
    requires
        state < 0x80000,
        cat <= 18,
    ensures
        advanced(state, roll, cat) < 0x80000,
{
    lemma_or_below_table(state, (18 - cat) as u32, capped_upper(state, upper_points(roll, cat as int)));
}

/// Scoring category `cat` marks `cat` as filled and keeps every filled
/// category filled. For one of the thirteen categories it changes no other
/// category, and the upper counter becomes the old counter or-ed with the
/// capped new total, so it never decreases and never exceeds 63.
pub proof fn lemma_advanced_fields(state: u32, roll: [u8; 6], cat: u8)
    requires
        cat <= 18,
    ensures
        field_used(advanced(state, roll, cat), cat),
        forall|f: u8| f <= 18 && field_used(state, f) ==> field_used(advanced(state, roll, cat), f),
        upper_total(advanced(state, roll, cat)) >= upper_total(state),
        upper_total(advanced(state, roll, cat)) <= 63,
        cat <= 12 ==> forall|f: u8|
            f <= 12 && f != cat ==> field_used(advanced(state, roll, cat), f) == field_used(
                state,
                f,
            ),
        cat <= 12 ==> upper_total(advanced(state, roll, cat)) == upper_total(state)
            | capped_upper(state, upper_points(roll, cat as int)),
        cat <= 12 ==> upper_total(advanced(state, roll, cat)) >= capped_upper(
            state,
            upper_points(roll, cat as int),
        ),
{
    let shift: u32 = (18 - cat) as u32;
    let u = capped_upper(state, upper_points(roll, cat as int));
    assert(u < 64);
    lemma_new_bit_set(state, shift, u);
    assert forall|f: u8| f <= 18 && field_used(state, f) implies field_used(
        advanced(state, roll, cat),
        f,
    ) by {
        lemma_bit_kept_by_or(state, shift, (18 - f) as u32, u);
    }
    lemma_bit_kept_by_or(state, shift, 0, u);
    if cat <= 12 {
        assert forall|f: u8| f <= 12 && f != cat implies field_used(advanced(state, roll, cat), f)
            == field_used(state, f) by {
            lemma_other_bit_kept(state, shift, (18 - f) as u32, u);
        }
        lemma_low_bits(state, shift, u);
        assert(state & 63 < 64) by (bit_vector);
        lemma_or_bounds(state & 63, u);
    }
}

/// Category `f` is recorded in bit `18 - f`: it counts as filled exactly
/// when that bit is set.
pub proof fn lemma_field_used_is_bit(state: u32, f: u8)
    requires
        f <= 18,
    ensures
        field_used(state, f) <==> state & (1u32 << ((18 - f) as u32)) != 0,
{
    let k = (18 - f) as u32;
    assert(((state >> k) & 1 == 1) <==> (state & (1u32 << k) != 0)) by (bit_vector)
        requires
            k < 32,
    ;
}

/// Scoring sets exactly the category's bit among bits 6 to 18, and for one
/// of the thirteen categories the low six bits become the old counter or-ed
/// with `min(63, counter + points)`, where the points are the count of the
/// category's face times the face for categories 0 to 5 and 0 for the rest.
pub proof fn lemma_advanced_bits(state: u32, roll: [u8; 6], cat: u8)
    requires
        cat <= 12,
    ensures
        advanced(state, roll, cat) & (1u32 << ((18 - cat) as u32)) != 0,
        cat <= 5 ==> advanced(state, roll, cat) & 63 == (state & 63) | (if (state & 63) + roll[cat
            as int] * (cat + 1) < 63 {
            ((state & 63) + roll[cat as int] * (cat + 1)) as u32
        } else {
            63u32
        }),
        cat > 5 ==> advanced(state, roll, cat) & 63 == state & 63,
{
    lemma_advanced_fields(state, roll, cat);
    lemma_field_used_is_bit(advanced(state, roll, cat), cat);
    assert(state & 63 < 64) by (bit_vector);
    if cat > 5 {
        let s = state & 63;
        assert(s | s == s) by (bit_vector);
    }
}

impl Game {
    /// The start of a game: no category filled, no upper points.
    pub fn new() -> (g: Game)
        ensures
            g.0 == 0,
            forall|f: u8| f <= 18 ==> !field_used(g.0, f),
            upper_total(g.0) == 0,
    {
        proof {
            assert forall|f: u8| f <= 18 implies !field_used(0u32, f) by {
                lemma_zero_bits((18 - f) as u32);
            }
            lemma_zero_bits(0);
        }
        Game(0b000_0000_0000_0000)
    }

    /// The state after `roll` has been scored in category `cat`.
    pub fn next_turn(self, roll: &[u8; 6], cat: u8) -> (g: Game)
        requires
            cat <= 18,
            upper_points_fit(*roll, cat as int),
        ensures
            g.0 == advanced(self.0, *roll, cat),
            field_used(g.0, cat),
            cat <= 12 ==> forall|f: u8|
                f <= 12 && f != cat ==> field_used(g.0, f) == field_used(self.0, f),
            cat <= 12 ==> upper_total(g.0) == upper_total(self.0) | capped_upper(
                self.0,
                upper_points(*roll, cat as int),
            ),
            self.0 < 0x80000 ==> g.0 < 0x80000,
    {
        let Game(state) = self;
        let shift: u32 = (18 - cat) as u32;
        let mut tmp = state | (1u32 << shift);
        let curr_upper = state & 0b11_1111;
        assert(state & 63 < 64) by (bit_vector);
        let sum: u32 = curr_upper + upper_score(roll, cat) as u32;
        let next_upper: u32 = if sum < 63 {
            sum
        } else {
            63
        };
        tmp = tmp | next_upper;
        proof {
            assert(next_upper == capped_upper(state, upper_points(*roll, cat as int)));
            lemma_advanced_fields(state, *roll, cat);
            if state < 0x80000 {
                lemma_advanced_in_table(state, *roll, cat);
            }
        }
        Game(tmp)
    }

    /// Category `field` is still open.
    pub fn is_free(self, field: u8) -> (r: bool)
        requires
            field <= 18,
        ensures
            r == !field_used(self.0, field),
    {
        let Game(state) = self;
        let shift: u32 = (18 - field) as u32;
        proof {
            lemma_test_bit(state, shift);
        }
        ((state & (1u32 << shift)) >> shift) == 0
    }
}

} // verus!
