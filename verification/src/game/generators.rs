//! Enumeration of dice outcomes.
//!
//! Dice are given by their counts: `d[i]` is the number of dice showing
//! `i + 1` eyes. Lists of dice come out in ascending order when counts are
//! compared ones first, then twos, and so on.
use vstd::prelude::*;
use crate::game::{advanced, field_used, Game};
use crate::game::rules::{points, points_fit, score};

verus! {

/// Number of dice in `d`.
pub open spec fn dice_count(d: [u8; 6]) -> int {
    d[0] + d[1] + d[2] + d[3] + d[4] + d[5]
}

/// `d` is a full roll of five dice.
pub open spec fn is_roll(d: [u8; 6]) -> bool {
    dice_count(d) == 5
}

/// `d` can be kept between rolls: at most five dice.
pub open spec fn is_keep(d: [u8; 6]) -> bool {
    dice_count(d) <= 5
}

/// Each count of `d` is at least the matching count of `lo`.
pub open spec fn at_least(d: [u8; 6], lo: [u8; 6]) -> bool {
    d[0] >= lo[0] && d[1] >= lo[1] && d[2] >= lo[2] && d[3] >= lo[3] && d[4] >= lo[4] && d[5]
        >= lo[5]
}

/// Each count of `d` is at most the matching count of `hi`.
pub open spec fn at_most(d: [u8; 6], hi: [u8; 6]) -> bool {
    d[0] <= hi[0] && d[1] <= hi[1] && d[2] <= hi[2] && d[3] <= hi[3] && d[4] <= hi[4] && d[5]
        <= hi[5]
}

/// `d` comes strictly before the counts `c` when compared ones first.
pub open spec fn precedes(d: [u8; 6], c: (int, int, int, int, int, int)) -> bool {
    ||| d[0] < c.0
    ||| d[0] == c.0 && d[1] < c.1
    ||| d[0] == c.0 && d[1] == c.1 && d[2] < c.2
    ||| d[0] == c.0 && d[1] == c.1 && d[2] == c.2 && d[3] < c.3
    ||| d[0] == c.0 && d[1] == c.1 && d[2] == c.2 && d[3] == c.3 && d[4] < c.4
    ||| d[0] == c.0 && d[1] == c.1 && d[2] == c.2 && d[3] == c.3 && d[4] == c.4 && d[5] < c.5
}

/// `a` comes strictly before `b` when counts are compared ones first.
pub open spec fn dice_before(a: [u8; 6], b: [u8; 6]) -> bool {
    precedes(a, (b[0] as int, b[1] as int, b[2] as int, b[3] as int, b[4] as int, b[5] as int))
}

/// Every entry of `s` comes strictly before every later entry.
pub open spec fn ascending(s: Seq<[u8; 6]>) -> bool {
    forall|i: int, j: int| 0 <= i < j < s.len() ==> dice_before(s[i], s[j])
}

/// An ascending list holds no entry twice.
pub proof fn lemma_ascending_distinct(s: Seq<[u8; 6]>)
    requires
        ascending(s),
    ensures
        forall|i: int, j: int| 0 <= i < j < s.len() ==> s[i] != s[j],
{
    assert forall|i: int, j: int| 0 <= i < j < s.len() implies s[i] != s[j] by {
        assert(dice_before(s[i], s[j]));
    }
}

/// `v` lists, in ascending order, exactly the counts that satisfy `member`
/// and come before the cut `c`.
spec fn listed_below(
    v: Seq<[u8; 6]>,
    member: spec_fn([u8; 6]) -> bool,
    c: (int, int, int, int, int, int),
) -> bool {
    &&& forall|k: int| 0 <= k < v.len() ==> member(#[trigger] v[k]) && precedes(v[k], c)
    &&& forall|d: [u8; 6]| member(d) && #[trigger] precedes(d, c) ==> v.contains(d)
    &&& ascending(v)
}

proof fn lemma_same_cut(
    v: Seq<[u8; 6]>,
    member: spec_fn([u8; 6]) -> bool,
    c: (int, int, int, int, int, int),
    c2: (int, int, int, int, int, int),
)
    requires
        listed_below(v, member, c),
        forall|d: [u8; 6]| member(d) ==> precedes(d, c) == precedes(d, c2),
    ensures
        listed_below(v, member, c2),
{
    assert forall|d: [u8; 6]| member(d) && #[trigger] precedes(d, c2) implies v.contains(d) by {
        assert(precedes(d, c));
    }
}

/// Appending `e`, which lies at the cut `c`, moves the cut just past `e`.
proof fn lemma_push_at_cut(
    v: Seq<[u8; 6]>,
    member: spec_fn([u8; 6]) -> bool,
    c: (int, int, int, int, int, int),
    c2: (int, int, int, int, int, int),
    e: [u8; 6],
)
    requires
        listed_below(v, member, c),
        member(e),
        !precedes(e, c),
        precedes(e, c2),
        forall|d: [u8; 6]| member(d) && precedes(d, c2) && !precedes(d, c) ==> d == e,
        forall|d: [u8; 6]| precedes(d, c) ==> precedes(d, c2) && dice_before(d, e),
    ensures
        listed_below(v.push(e), member, c2),
{
    let w = v.push(e);
    assert(w[v.len() as int] == e);
    assert forall|d: [u8; 6]| member(d) && #[trigger] precedes(d, c2) implies w.contains(d) by {
        if precedes(d, c) {
            let k = choose|k: int| 0 <= k < v.len() && v[k] == d;
            assert(w[k] == d);
        } else {
            assert(w[v.len() as int] == d);
        }
    }
    assert forall|k: int| 0 <= k < w.len() implies member(#[trigger] w[k]) && precedes(w[k], c2) by {
        if k < v.len() {
            assert(w[k] == v[k]);
        }
    }
    assert forall|i: int, j: int| 0 <= i < j < w.len() implies dice_before(w[i], w[j]) by {
        assert(w[i] == v[i]);
        if j < v.len() {
            assert(w[j] == v[j]);
        }
    }
}

/// All full rolls whose counts are at least those of `lo`, in ascending
/// order: the ways to complete the kept dice `lo` to five dice.
pub fn rolls_at_least(lo: &[u8; 6]) -> (v: Vec<[u8; 6]>)
    ensures
        forall|k: int| 0 <= k < v.len() ==> is_roll(#[trigger] v[k]) && at_least(v[k], *lo),
        forall|d: [u8; 6]| is_roll(d) && at_least(d, *lo) ==> v@.contains(d),
        ascending(v@),
        is_keep(*lo) ==> v.len() > 0,
{
    let mut v: Vec<[u8; 6]> = Vec::new();
    let mut ones: u8 = lo[0];
    while ones <= 5
        invariant
            lo[0] <= ones,
            listed_below(v@, |d: [u8; 6]| is_roll(d) && at_least(d, *lo), (ones as int, 0, 0, 0, 0, 0)),
        decreases 256 - ones,
    {
        let mut twos: u8 = lo[1];
        proof {
            lemma_same_cut(v@, |d: [u8; 6]| is_roll(d) && at_least(d, *lo), (ones as int, 0, 0, 0, 0, 0), (ones as int, lo[1] as int, 0, 0, 0, 0));
        }
        while twos <= 5 - ones
            invariant
                ones <= 5,
                lo[0] <= ones,
                lo[1] <= twos,
                listed_below(v@, |d: [u8; 6]| is_roll(d) && at_least(d, *lo), (ones as int, twos as int, 0, 0, 0, 0)),
            decreases 256 - twos,
        {
            let mut threes: u8 = lo[2];
            proof {
                lemma_same_cut(v@, |d: [u8; 6]| is_roll(d) && at_least(d, *lo), (ones as int, twos as int, 0, 0, 0, 0), (ones as int, twos as int, lo[2] as int, 0, 0, 0));
            }
            while threes <= 5 - ones - twos
                invariant
                    ones + twos <= 5,
                    lo[0] <= ones,
                    lo[1] <= twos,
                    lo[2] <= threes,
                    listed_below(v@, |d: [u8; 6]| is_roll(d) && at_least(d, *lo), (ones as int, twos as int, threes as int, 0, 0, 0)),
                decreases 256 - threes,
            {
                let mut fours: u8 = lo[3];
                proof {
                    lemma_same_cut(v@, |d: [u8; 6]| is_roll(d) && at_least(d, *lo), (ones as int, twos as int, threes as int, 0, 0, 0), (ones as int, twos as int, threes as int, lo[3] as int, 0, 0));
                }
                while fours <= 5 - ones - twos - threes
                    invariant
                        ones + twos + threes <= 5,
                        lo[0] <= ones,
                        lo[1] <= twos,
                        lo[2] <= threes,
                        lo[3] <= fours,
                        listed_below(v@, |d: [u8; 6]| is_roll(d) && at_least(d, *lo), (ones as int, twos as int, threes as int, fours as int, 0, 0)),
                    decreases 256 - fours,
                {
                    let mut fives: u8 = lo[4];
                    proof {
                        lemma_same_cut(v@, |d: [u8; 6]| is_roll(d) && at_least(d, *lo), (ones as int, twos as int, threes as int, fours as int, 0, 0), (ones as int, twos as int, threes as int, fours as int, lo[4] as int, 0));
                    }
                    while fives <= 5 - ones - twos - threes - fours
                        invariant
                            ones + twos + threes + fours <= 5,
                            lo[0] <= ones,
                            lo[1] <= twos,
                            lo[2] <= threes,
                            lo[3] <= fours,
                            lo[4] <= fives,
                            listed_below(v@, |d: [u8; 6]| is_roll(d) && at_least(d, *lo), (ones as int, twos as int, threes as int, fours as int, fives as int, 0)),
                        decreases 256 - fives,
                    {
                        let sixes: u8 = 5 - ones - twos - threes - fours - fives;
                        let ghost c = (ones as int, twos as int, threes as int, fours as int, fives as int, 0int);
                        let ghost c2 = (ones as int, twos as int, threes as int, fours as int, fives + 1, 0int);
                        if sixes >= lo[5] {
                            let e: [u8; 6] = [ones, twos, threes, fours, fives, sixes];
                            proof {
                                assert forall|d: [u8; 6]| is_roll(d) && at_least(d, *lo) && precedes(d, c2) && !precedes(d, c) implies d == e by {
                                    assert(d =~= e);
                                }
                                lemma_push_at_cut(v@, |d: [u8; 6]| is_roll(d) && at_least(d, *lo), c, c2, e);
                            }
                            v.push(e);
                        } else {
                            proof {
                                lemma_same_cut(v@, |d: [u8; 6]| is_roll(d) && at_least(d, *lo), c, c2);
                            }
                        }
                        fives = fives + 1;
                    }
                    proof {
                        lemma_same_cut(v@, |d: [u8; 6]| is_roll(d) && at_least(d, *lo), (ones as int, twos as int, threes as int, fours as int, fives as int, 0), (ones as int, twos as int, threes as int, fours + 1, 0, 0));
                    }
                    fours = fours + 1;
                }
                proof {
                    lemma_same_cut(v@, |d: [u8; 6]| is_roll(d) && at_least(d, *lo), (ones as int, twos as int, threes as int, fours as int, 0, 0), (ones as int, twos as int, threes + 1, 0, 0, 0));
                }
                threes = threes + 1;
            }
            proof {
                lemma_same_cut(v@, |d: [u8; 6]| is_roll(d) && at_least(d, *lo), (ones as int, twos as int, threes as int, 0, 0, 0), (ones as int, twos + 1, 0, 0, 0, 0));
            }
            twos = twos + 1;
        }
        proof {
            lemma_same_cut(v@, |d: [u8; 6]| is_roll(d) && at_least(d, *lo), (ones as int, twos as int, 0, 0, 0, 0), (ones + 1, 0, 0, 0, 0, 0));
        }
        ones = ones + 1;
    }
    proof {
        assert forall|d: [u8; 6]| is_roll(d) && at_least(d, *lo) implies v@.contains(d) by {
            assert(precedes(d, (ones as int, 0, 0, 0, 0, 0)));
        }
        if is_keep(*lo) {
            let w: [u8; 6] = [lo[0], lo[1], lo[2], lo[3], lo[4], (lo[5] + 5 - dice_count(*lo)) as u8];
            assert(is_roll(w) && at_least(w, *lo));
            assert(v@.contains(w));
        }
    }
    v
}


/// All counts between `lo` and `hi`, bounds included, in ascending order.
pub fn counts_between(lo: &[u8; 6], hi: &[u8; 6]) -> (v: Vec<[u8; 6]>)
    ensures
        forall|k: int| 0 <= k < v.len() ==> at_least(#[trigger] v[k], *lo) && at_most(v[k], *hi),
        forall|x: [u8; 6]| at_least(x, *lo) && at_most(x, *hi) ==> v@.contains(x),
        ascending(v@),
{
    let mut v: Vec<[u8; 6]> = Vec::new();
    let mut n0: u16 = lo[0] as u16;
    proof {
        lemma_same_cut(v@, |x: [u8; 6]| at_least(x, *lo) && at_most(x, *hi), (0, 0, 0, 0, 0, 0), (lo[0] as int, 0, 0, 0, 0, 0));
    }
    while n0 <= hi[0] as u16
        invariant
            lo[0] <= n0,
            listed_below(v@, |x: [u8; 6]| at_least(x, *lo) && at_most(x, *hi), (n0 as int, 0, 0, 0, 0, 0)),
        decreases 256 - n0,
    {
        let mut n1: u16 = lo[1] as u16;
        proof {
            lemma_same_cut(v@, |x: [u8; 6]| at_least(x, *lo) && at_most(x, *hi), (n0 as int, 0, 0, 0, 0, 0), (n0 as int, lo[1] as int, 0, 0, 0, 0));
        }
        while n1 <= hi[1] as u16
            invariant
                lo[0] <= n0 <= hi[0],
                lo[1] <= n1,
                listed_below(v@, |x: [u8; 6]| at_least(x, *lo) && at_most(x, *hi), (n0 as int, n1 as int, 0, 0, 0, 0)),
            decreases 256 - n1,
        {
            let mut n2: u16 = lo[2] as u16;
            proof {
                lemma_same_cut(v@, |x: [u8; 6]| at_least(x, *lo) && at_most(x, *hi), (n0 as int, n1 as int, 0, 0, 0, 0), (n0 as int, n1 as int, lo[2] as int, 0, 0, 0));
            }
            while n2 <= hi[2] as u16
                invariant
                    lo[0] <= n0 <= hi[0],
                    lo[1] <= n1 <= hi[1],
                    lo[2] <= n2,
                    listed_below(v@, |x: [u8; 6]| at_least(x, *lo) && at_most(x, *hi), (n0 as int, n1 as int, n2 as int, 0, 0, 0)),
                decreases 256 - n2,
            {
                let mut n3: u16 = lo[3] as u16;
                proof {
                    lemma_same_cut(v@, |x: [u8; 6]| at_least(x, *lo) && at_most(x, *hi), (n0 as int, n1 as int, n2 as int, 0, 0, 0), (n0 as int, n1 as int, n2 as int, lo[3] as int, 0, 0));
                }
                while n3 <= hi[3] as u16
                    invariant
                        lo[0] <= n0 <= hi[0],
                        lo[1] <= n1 <= hi[1],
                        lo[2] <= n2 <= hi[2],
                        lo[3] <= n3,
                        listed_below(v@, |x: [u8; 6]| at_least(x, *lo) && at_most(x, *hi), (n0 as int, n1 as int, n2 as int, n3 as int, 0, 0)),
                    decreases 256 - n3,
                {
                    let mut n4: u16 = lo[4] as u16;
                    proof {
                        lemma_same_cut(v@, |x: [u8; 6]| at_least(x, *lo) && at_most(x, *hi), (n0 as int, n1 as int, n2 as int, n3 as int, 0, 0), (n0 as int, n1 as int, n2 as int, n3 as int, lo[4] as int, 0));
                    }
                    while n4 <= hi[4] as u16
                        invariant
                            lo[0] <= n0 <= hi[0],
                            lo[1] <= n1 <= hi[1],
                            lo[2] <= n2 <= hi[2],
                            lo[3] <= n3 <= hi[3],
                            lo[4] <= n4,
                            listed_below(v@, |x: [u8; 6]| at_least(x, *lo) && at_most(x, *hi), (n0 as int, n1 as int, n2 as int, n3 as int, n4 as int, 0)),
                        decreases 256 - n4,
                    {
                        let mut n5: u16 = lo[5] as u16;
                        proof {
                            lemma_same_cut(v@, |x: [u8; 6]| at_least(x, *lo) && at_most(x, *hi), (n0 as int, n1 as int, n2 as int, n3 as int, n4 as int, 0), (n0 as int, n1 as int, n2 as int, n3 as int, n4 as int, lo[5] as int));
                        }
                        while n5 <= hi[5] as u16
                            invariant
                                lo[0] <= n0 <= hi[0],
                                lo[1] <= n1 <= hi[1],
                                lo[2] <= n2 <= hi[2],
                                lo[3] <= n3 <= hi[3],
                                lo[4] <= n4 <= hi[4],
                                lo[5] <= n5,
                                listed_below(v@, |x: [u8; 6]| at_least(x, *lo) && at_most(x, *hi), (n0 as int, n1 as int, n2 as int, n3 as int, n4 as int, n5 as int)),
                            decreases 256 - n5,
                        {
                            let roll: [u8; 6] = [n0 as u8, n1 as u8, n2 as u8, n3 as u8, n4 as u8, n5 as u8];
                            proof {
                                let cut = (n0 as int, n1 as int, n2 as int, n3 as int, n4 as int, n5 as int);
                                let cut2 = (n0 as int, n1 as int, n2 as int, n3 as int, n4 as int, n5 + 1);
                                assert forall|x: [u8; 6]| at_least(x, *lo) && at_most(x, *hi) && precedes(x, cut2) && !precedes(x, cut) implies x == roll by {
                                    assert(x =~= roll);
                                }
                                lemma_push_at_cut(v@, |x: [u8; 6]| at_least(x, *lo) && at_most(x, *hi), cut, cut2, roll);
                            }
                            v.push(roll);
                            n5 = n5 + 1;
                        }
                        proof {
                            lemma_same_cut(v@, |x: [u8; 6]| at_least(x, *lo) && at_most(x, *hi), (n0 as int, n1 as int, n2 as int, n3 as int, n4 as int, n5 as int), (n0 as int, n1 as int, n2 as int, n3 as int, n4 + 1, 0));
                        }
                        n4 = n4 + 1;
                    }
                    proof {
                        lemma_same_cut(v@, |x: [u8; 6]| at_least(x, *lo) && at_most(x, *hi), (n0 as int, n1 as int, n2 as int, n3 as int, n4 as int, 0), (n0 as int, n1 as int, n2 as int, n3 + 1, 0, 0));
                    }
                    n3 = n3 + 1;
                }
                proof {
                    lemma_same_cut(v@, |x: [u8; 6]| at_least(x, *lo) && at_most(x, *hi), (n0 as int, n1 as int, n2 as int, n3 as int, 0, 0), (n0 as int, n1 as int, n2 + 1, 0, 0, 0));
                }
                n2 = n2 + 1;
            }
            proof {
                lemma_same_cut(v@, |x: [u8; 6]| at_least(x, *lo) && at_most(x, *hi), (n0 as int, n1 as int, n2 as int, 0, 0, 0), (n0 as int, n1 + 1, 0, 0, 0, 0));
            }
            n1 = n1 + 1;
        }
        proof {
            lemma_same_cut(v@, |x: [u8; 6]| at_least(x, *lo) && at_most(x, *hi), (n0 as int, n1 as int, 0, 0, 0, 0), (n0 + 1, 0, 0, 0, 0, 0));
        }
        n0 = n0 + 1;
    }
    proof {
        assert forall|x: [u8; 6]| at_least(x, *lo) && at_most(x, *hi) implies v@.contains(x) by {
            assert(precedes(x, (n0 as int, 0, 0, 0, 0, 0)));
        }
    }
    v
}

/// Every possible roll of five dice (252 of them), in ascending order.
pub fn generate_dice_roll_possibilities() -> (v: Vec<[u8; 6]>)
    ensures
        forall|k: int| 0 <= k < v.len() ==> is_roll(#[trigger] v[k]),
        forall|d: [u8; 6]| is_roll(d) ==> v@.contains(d),
        ascending(v@),
{
    rolls_at_least(&[0, 0, 0, 0, 0, 0])
}

/// Every set of at most five dice that can be kept between rolls (462 of
/// them, the empty one included), in ascending order.
pub fn generate_dice_keep_possibilities() -> (v: Vec<[u8; 6]>)
    ensures
        forall|k: int| 0 <= k < v.len() ==> is_keep(#[trigger] v[k]),
        forall|d: [u8; 6]| is_keep(d) ==> v@.contains(d),
        ascending(v@),
{
    let none: [u8; 6] = [0, 0, 0, 0, 0, 0];
    let five_each: [u8; 6] = [5, 5, 5, 5, 5, 5];
    let all = counts_between(&none, &five_each);
    let mut keeps: Vec<[u8; 6]> = Vec::new();
    let mut i: usize = 0;
    while i < all.len()
        invariant
            i <= all.len(),
            ascending(all@),
            forall|k: int| 0 <= k < all.len() ==> at_most(#[trigger] all[k], five_each),
            five_each@ == seq![5u8, 5u8, 5u8, 5u8, 5u8, 5u8],
            forall|k: int| 0 <= k < keeps.len() ==> is_keep(#[trigger] keeps[k]),
            forall|k: int, j: int|
                0 <= k < keeps.len() && i <= j < all.len() ==> dice_before(
                    #[trigger] keeps[k],
                    #[trigger] all[j],
                ),
            forall|j: int| 0 <= j < i && is_keep(#[trigger] all[j]) ==> keeps@.contains(all[j]),
            ascending(keeps@),
        decreases all.len() - i,
    {
        let d = all[i];
        if d[0] + d[1] + d[2] + d[3] + d[4] + d[5] <= 5 {
            let ghost before = keeps@;
            keeps.push(d);
            proof {
                assert(keeps@[before.len() as int] == d);
                assert forall|k: int, j: int|
                    0 <= k < keeps.len() && i + 1 <= j < all.len() implies dice_before(
                    #[trigger] keeps[k],
                    #[trigger] all[j],
                ) by {
                    if k < before.len() {
                        assert(keeps[k] == before[k]);
                    }
                }
                assert forall|j: int| 0 <= j < i + 1 && is_keep(#[trigger] all[j]) implies keeps@.contains(all[j]) by {
                    if j < i {
                        let k = choose|k: int| 0 <= k < before.len() && before[k] == all[j];
                        assert(keeps@[k] == all[j]);
                    }
                }
                assert forall|a: int, b: int| 0 <= a < b < keeps.len() implies dice_before(keeps[a], keeps[b]) by {
                    assert(keeps[a] == before[a]);
                    if b < before.len() {
                        assert(keeps[b] == before[b]);
                    }
                }
            }
        }
        i += 1;
    }
    proof {
        assert forall|d: [u8; 6]| is_keep(d) implies keeps@.contains(d) by {
            assert(at_least(d, none) && at_most(d, five_each));
            assert(all@.contains(d));
            let j = choose|j: int| 0 <= j < all.len() && all[j] == d;
        }
    }
    keeps
}

/// `d` keeps all of `kept` and adds some of the dice counted by `roll`.
pub open spec fn kept_from(d: [u8; 6], kept: [u8; 6], roll: [u8; 6]) -> bool {
    &&& at_least(d, kept)
    &&& d[0] <= kept[0] + roll[0] && d[1] <= kept[1] + roll[1] && d[2] <= kept[2] + roll[2]
    &&& d[3] <= kept[3] + roll[3] && d[4] <= kept[4] + roll[4] && d[5] <= kept[5] + roll[5]
}

/// The dice that can be held after `roll` was thrown beside the dice
/// `kept` before: `kept` together with any part of `roll`, in ascending
/// order.
pub fn keep_candidates(roll: &[u8; 6], kept: &[u8; 6]) -> (v: Vec<[u8; 6]>)
    requires
        roll[0] < 255 && roll[1] < 255 && roll[2] < 255 && roll[3] < 255 && roll[4] < 255 && roll[5]
            < 255,
        kept[0] + roll[0] <= 255 && kept[1] + roll[1] <= 255 && kept[2] + roll[2] <= 255 && kept[3]
            + roll[3] <= 255 && kept[4] + roll[4] <= 255 && kept[5] + roll[5] <= 255,
    ensures
        forall|k: int| 0 <= k < v.len() ==> kept_from(#[trigger] v[k], *kept, *roll),
        forall|d: [u8; 6]| kept_from(d, *kept, *roll) ==> v@.contains(d),
        ascending(v@),
        v@.contains(*kept),
{
    let hi: [u8; 6] = [
        kept[0] + roll[0],
        kept[1] + roll[1],
        kept[2] + roll[2],
        kept[3] + roll[3],
        kept[4] + roll[4],
        kept[5] + roll[5],
    ];
    let v = counts_between(kept, &hi);
    proof {
        assert forall|d: [u8; 6]| kept_from(d, *kept, *roll) implies v@.contains(d) by {
            assert(at_most(d, hi));
        }
        assert(kept_from(*kept, *kept, *roll));
    }
    v
}

/// Every full roll is also a set of dice that can be kept.
pub proof fn lemma_roll_is_keep(d: [u8; 6])
    requires
        is_roll(d),
    ensures
        is_keep(d),
{
}

/// What is held after a throw is a set of dice that can be kept, as long as
/// the dice held before and the dice thrown are at most five together.
pub proof fn lemma_candidates_are_keeps(d: [u8; 6], kept: [u8; 6], roll: [u8; 6])
    requires
        kept_from(d, kept, roll),
        dice_count(kept) + dice_count(roll) <= 5,
    ensures
        is_keep(d),
{
}

/// `a` comes before `b` exactly when, at the first count where they differ,
/// `a` has fewer dice.
pub proof fn lemma_dice_before_first_difference(a: [u8; 6], b: [u8; 6])
    ensures
        dice_before(a, b) <==> exists|k: int|
            0 <= k < 6 && (forall|j: int| 0 <= j < k ==> a[j] == b[j]) && #[trigger] a[k] < b[k],
{
    if dice_before(a, b) {
        let k = if a[0] != b[0] { 0int } else if a[1] != b[1] { 1 } else if a[2] != b[2] { 2 } else if a[3] != b[3] { 3 } else if a[4] != b[4] { 4 } else { 5 };
        assert(a[k] < b[k]);
    }
    if exists|k: int|
        0 <= k < 6 && (forall|j: int| 0 <= j < k ==> a[j] == b[j]) && #[trigger] a[k] < b[k] {
        let k = choose|k: int|
            0 <= k < 6 && (forall|j: int| 0 <= j < k ==> a[j] == b[j]) && #[trigger] a[k] < b[k];
        if k >= 1 { assert(a[0] == b[0]); }
        if k >= 2 { assert(a[1] == b[1]); }
        if k >= 3 { assert(a[2] == b[2]); }
        if k >= 4 { assert(a[3] == b[3]); }
        if k >= 5 { assert(a[4] == b[4]); }
    }
}

/// A roll has exactly five dice and a keep at most five, counting every face.
pub proof fn lemma_roll_and_keep_sizes(d: [u8; 6])
    ensures
        is_roll(d) <==> d[0] + d[1] + d[2] + d[3] + d[4] + d[5] == 5,
        is_keep(d) <==> d[0] + d[1] + d[2] + d[3] + d[4] + d[5] <= 5,
{
}

/// One way to score a roll: the open category `field`, the state after
/// scoring it, and the points it brings.
#[derive(Copy, Clone, Debug)]
pub struct ScoringOption {
    pub field: u8,
    pub next: Game,
    pub points: u8,
}

/// The ways to score `roll` in state `state`: one entry for each open
/// category, in ascending order of category.
pub fn scoring_options(state: Game, roll: &[u8; 6]) -> (v: Vec<ScoringOption>)
    requires
        forall|f: u8| f <= 12 && !field_used(state.0, f) ==> points_fit(*roll, f as int),
    ensures
        forall|k: int|
            0 <= k < v.len() ==> {
                let o = #[trigger] v[k];
                &&& o.field <= 12
                &&& !field_used(state.0, o.field)
                &&& o.next.0 == advanced(state.0, *roll, o.field)
                &&& o.points == points(*roll, o.field as int)
            },
        forall|f: u8|
            f <= 12 && !field_used(state.0, f) ==> exists|k: int|
                0 <= k < v.len() && (#[trigger] v[k]).field == f,
        forall|i: int, j: int| 0 <= i < j < v.len() ==> v[i].field < v[j].field,
{
    let mut v: Vec<ScoringOption> = Vec::new();
    let mut i: u8 = 0;
    while i < 13
        invariant
            i <= 13,
            forall|f: u8| f <= 12 && !field_used(state.0, f) ==> points_fit(*roll, f as int),
            forall|k: int|
                0 <= k < v.len() ==> {
                    let o = #[trigger] v[k];
                    &&& o.field < i
                    &&& !field_used(state.0, o.field)
                    &&& o.next.0 == advanced(state.0, *roll, o.field)
                    &&& o.points == points(*roll, o.field as int)
                },
            forall|f: u8|
                f < i && !field_used(state.0, f) ==> exists|k: int|
                    0 <= k < v.len() && (#[trigger] v[k]).field == f,
            forall|a: int, b: int| 0 <= a < b < v.len() ==> v[a].field < v[b].field,
        decreases 13 - i,
    {
        if state.is_free(i) {
            assert(points_fit(*roll, i as int));
            let next = state.next_turn(roll, i);
            let pts = score(roll, i);
            let ghost before = v@;
            v.push(ScoringOption { field: i, next, points: pts });
            proof {
                assert(v[before.len() as int].field == i);
                assert forall|f: u8| f < i + 1 && !field_used(state.0, f) implies exists|k: int|
                    0 <= k < v.len() && (#[trigger] v[k]).field == f by {
                    if f < i {
                        let k = choose|k: int| 0 <= k < before.len() && (#[trigger] before[k]).field == f;
                        assert(v[k] == before[k]);
                    } else {
                        assert(v[before.len() as int].field == f);
                    }
                }
                assert forall|k: int| 0 <= k < v.len() implies {
                    let o = #[trigger] v[k];
                    &&& o.field < i + 1
                    &&& !field_used(state.0, o.field)
                    &&& o.next.0 == advanced(state.0, *roll, o.field)
                    &&& o.points == points(*roll, o.field as int)
                } by {
                    if k < before.len() {
                        assert(v[k] == before[k]);
                    }
                }
            }
        }
        i += 1;
    }
    v
}

} // verus!
