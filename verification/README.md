# yahtzeesolve

A Yahtzee solver whose game logic is verified with Verus.

- `src/game/rules.rs`: points of the thirteen categories.
- `src/game/mod.rs`: the game state packed into a `u32` (filled categories
  and the capped upper-section counter) and how scoring a roll changes it.
- `src/game/generators.rs`: every roll, every set of kept dice, the rolls
  completing a set of kept dice, the dice that can be held after a throw,
  and the ways to score a roll in the open categories.
- `src/state.rs`: an unpacked state and the order in which states rank.
- `src/input.rs`: decoding a roll typed in as digits.
- `app/`: the command-line program (`generate` and `play`); it holds the
  floating-point table of expected values, its file format and the threads
  that compute it.
