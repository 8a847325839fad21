use yahtzeesolve::game::generators::counts_between;
use yahtzeesolve::game::generators::generate_dice_keep_possibilities;
use yahtzeesolve::game::generators::generate_dice_roll_possibilities;
use yahtzeesolve::game::generators::keep_candidates;
use yahtzeesolve::game::generators::rolls_at_least;
use yahtzeesolve::game::generators::scoring_options;
use yahtzeesolve::game::Game;

#[test]
fn rolls_are_all_five_dice_outcomes_in_order() {
    let rolls = generate_dice_roll_possibilities();
    assert_eq!(rolls.len(), 252);
    assert_eq!(rolls[0], [0, 0, 0, 0, 0, 5]);
    assert_eq!(rolls[1], [0, 0, 0, 0, 1, 4]);
    assert_eq!(rolls[251], [5, 0, 0, 0, 0, 0]);
    for r in &rolls {
        assert_eq!(r.iter().map(|&x| x as u32).sum::<u32>(), 5);
    }
    for w in rolls.windows(2) {
        assert!(w[0] < w[1]);
    }
}

#[test]
fn keeps_are_all_sets_of_at_most_five_dice_in_order() {
    let keeps = generate_dice_keep_possibilities();
    assert_eq!(keeps.len(), 462);
    assert_eq!(keeps[0], [0, 0, 0, 0, 0, 0]);
    assert_eq!(keeps[1], [0, 0, 0, 0, 0, 1]);
    assert_eq!(keeps[461], [5, 0, 0, 0, 0, 0]);
    for k in &keeps {
        assert!(k.iter().map(|&x| x as u32).sum::<u32>() <= 5);
    }
    for w in keeps.windows(2) {
        assert!(w[0] < w[1]);
    }
    for r in generate_dice_roll_possibilities() {
        assert!(keeps.contains(&r));
    }
}

#[test]
fn completions_of_kept_dice() {
    assert_eq!(
        rolls_at_least(&[3, 0, 0, 0, 0, 1]),
        vec![
            [3, 0, 0, 0, 0, 2],
            [3, 0, 0, 0, 1, 1],
            [3, 0, 0, 1, 0, 1],
            [3, 0, 1, 0, 0, 1],
            [3, 1, 0, 0, 0, 1],
            [4, 0, 0, 0, 0, 1],
        ]
    );
    assert_eq!(rolls_at_least(&[1, 1, 1, 1, 1, 0]), vec![[1, 1, 1, 1, 1, 0]]);
    assert_eq!(rolls_at_least(&[0, 0, 0, 0, 0, 0]).len(), 252);
    assert_eq!(rolls_at_least(&[0, 0, 0, 0, 0, 0]), generate_dice_roll_possibilities());
    assert!(rolls_at_least(&[3, 3, 0, 0, 0, 0]).is_empty());
}

#[test]
fn candidates_after_a_throw() {
    let c = keep_candidates(&[0, 2, 0, 0, 0, 1], &[1, 0, 0, 0, 0, 0]);
    assert_eq!(
        c,
        vec![
            [1, 0, 0, 0, 0, 0],
            [1, 0, 0, 0, 0, 1],
            [1, 1, 0, 0, 0, 0],
            [1, 1, 0, 0, 0, 1],
            [1, 2, 0, 0, 0, 0],
            [1, 2, 0, 0, 0, 1],
        ]
    );
    assert_eq!(keep_candidates(&[1, 1, 1, 1, 1, 0], &[0; 6]).len(), 32);
    assert_eq!(keep_candidates(&[0; 6], &[2, 0, 0, 0, 0, 0]), vec![[2, 0, 0, 0, 0, 0]]);
}

#[test]
fn box_of_counts() {
    let v = counts_between(&[0, 0, 0, 0, 1, 0], &[0, 0, 0, 0, 2, 1]);
    assert_eq!(v, vec![[0, 0, 0, 0, 1, 0], [0, 0, 0, 0, 1, 1], [0, 0, 0, 0, 2, 0], [0, 0, 0, 0, 2, 1]]);
    assert!(counts_between(&[1, 0, 0, 0, 0, 0], &[0, 0, 0, 0, 0, 0]).is_empty());
    assert_eq!(counts_between(&[0; 6], &[5; 6]).len(), 46656);
}

#[test]
fn scoring_options_cover_the_open_fields() {
    let roll = [0, 0, 3, 0, 2, 0];
    let all = scoring_options(Game::new(), &roll);
    assert_eq!(all.len(), 13);
    for (k, o) in all.iter().enumerate() {
        assert_eq!(o.field as usize, k);
    }
    assert_eq!(all[8].points, 25);
    assert_eq!(all[6].points, 19);
    assert_eq!(all[2].points, 9);
    assert_eq!(all[2].next, Game((1 << 16) | 9));

    let g = Game::new().next_turn(&roll, 8).next_turn(&roll, 0);
    let left = scoring_options(g, &roll);
    assert_eq!(left.len(), 11);
    assert!(left.iter().all(|o| o.field != 8 && o.field != 0));
    assert_eq!(left[0].field, 1);

    let full = Game(0b111_1111_1111_1100_0000);
    assert!(scoring_options(full, &roll).is_empty());
}
