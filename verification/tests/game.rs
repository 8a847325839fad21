use yahtzeesolve::game::Game;

#[test]
fn test_next_turn() {
    assert!(
        Game(0b011_1111_1111_1100_0000).next_turn(&[5, 0, 0, 0, 0, 0], 0)
            == Game(0b111_1111_1111_1100_0101)
    );
    assert!(
        Game(0b011_1111_1111_1111_1111).next_turn(&[5, 0, 0, 0, 0, 0], 0)
            == Game(0b111_1111_1111_1111_1111)
    );
}

#[test]
fn new_game_has_every_field_free() {
    let g = Game::new();
    assert_eq!(g, Game(0));
    for f in 0..13u8 {
        assert!(g.is_free(f));
    }
}

#[test]
fn next_turn_fills_only_the_scored_field() {
    let g = Game::new().next_turn(&[0, 0, 1, 2, 1, 1], 9);
    assert_eq!(g, Game(1 << 9));
    for f in 0..13u8 {
        assert_eq!(g.is_free(f), f != 9);
    }
    let h = g.next_turn(&[0, 0, 0, 3, 2, 0], 3);
    assert_eq!(h, Game((1 << 9) | (1 << 15) | 12));
    assert!(!h.is_free(3));
    assert!(!h.is_free(9));
    assert!(h.is_free(4));
}

#[test]
fn upper_counter_is_capped_at_63() {
    let g = Game(60).next_turn(&[0, 0, 0, 0, 0, 5], 5);
    assert_eq!(g, Game((1 << 13) | 63));
}

#[test]
fn upper_counter_ors_in_the_new_total() {
    // 3 points, then one ace: the capped total 4 is or-ed into the counter
    let g = Game(3).next_turn(&[1, 0, 0, 0, 0, 4], 0);
    assert_eq!(g.0 & 63, 7);
}
