//! Decoding of rolls typed in as digits.
use vstd::prelude::*;

verus! {

/// How many decimal digits of `n` equal `digit`.
pub open spec fn digit_count(n: nat, digit: nat) -> nat
    decreases n,
{
    if n == 0 {
        0
    } else {
        (if n % 10 == digit { 1nat } else { 0nat }) + digit_count(n / 10, digit)
    }
}

/// Number of decimal digits of `n` (none for 0).
pub open spec fn digit_length(n: nat) -> nat
    decreases n,
{
    if n == 0 {
        0
    } else {
        1 + digit_length(n / 10)
    }
}

proof fn lemma_digit_count_bounded(n: nat, digit: nat)
    ensures
        digit_count(n, digit) <= digit_length(n),
    decreases n,
{
    if n != 0 {
        lemma_digit_count_bounded(n / 10, digit);
    }
}

proof fn lemma_digit_length_u32(n: nat)
    requires
        n <= u32::MAX,
    ensures
        digit_length(n) <= 10,
{
    reveal_with_fuel(digit_length, 11);
    assert(n / 10 / 10 / 10 / 10 / 10 / 10 / 10 / 10 / 10 / 10 == 0);
}

/// Appending a decimal digit `x` to `n` counts one more `x` and leaves the
/// count of every other digit unchanged; 0 has no digits.
pub proof fn lemma_digit_count_append(n: nat, x: nat, digit: nat)
    requires
        x < 10,
        n * 10 + x > 0,
    ensures
        digit_count(n * 10 + x, digit) == digit_count(n, digit) + (if x == digit { 1nat } else { 0nat }),
        digit_count(0, digit) == 0,
{
    assert((n * 10 + x) % 10 == x);
    assert((n * 10 + x) / 10 == n);
}

/// The counts of a roll typed in as the digits of `input`: every digit
/// from 1 to 6 counts one die with that many eyes; 0, 7, 8 and 9 are
/// skipped.
pub fn key_conv(input: u32) -> (out: [u8; 6])
    ensures
        forall|i: int| 0 <= i < 6 ==> out[i] == digit_count(input as nat, (i + 1) as nat),
{
    let mut tmp = input;
    let mut out: [u8; 6] = [0u8; 6];
    proof {
        lemma_digit_length_u32(input as nat);
    }
    while tmp != 0
        invariant
            digit_length(input as nat) <= 10,
            forall|i: int|
                0 <= i < 6 ==> out[i] + digit_count(tmp as nat, (i + 1) as nat) == digit_count(
                    input as nat,
                    (i + 1) as nat,
                ),
        decreases tmp,
    {
        let tmp2 = (tmp % 10) as usize;
        let ghost old_out = out;
        proof {
            assert forall|i: int| 0 <= i < 6 implies #[trigger] digit_count(tmp as nat, (i + 1) as nat)
                == (if tmp % 10 == i + 1 { 1nat } else { 0nat }) + digit_count(
                (tmp / 10) as nat,
                (i + 1) as nat,
            ) by {}
        }
        if tmp2 > 0 && tmp2 <= 6 {
            proof {
                lemma_digit_count_bounded(input as nat, tmp2 as nat);
            }
            out[tmp2 - 1] += 1;
        }
        tmp /= 10;
    }
    out
}

} // verus!
