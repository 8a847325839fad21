use yahtzeesolve::game::rules::score;
use yahtzeesolve::game::rules::score_fits;
use yahtzeesolve::game::rules::upper_score;

#[test]
fn test_score() {
    assert!(score(&[5, 0, 0, 0, 0, 0], 0) == 5);
    assert!(score(&[0, 5, 0, 0, 0, 0], 0) == 0);
    assert!(score(&[3, 2, 0, 0, 0, 0], 6) == 7);
    assert!(score(&[2, 2, 1, 0, 0, 0], 6) == 0);
    assert!(score(&[4, 1, 0, 0, 0, 0], 7) == 6);
    assert!(score(&[3, 2, 0, 0, 0, 0], 7) == 0);
    assert!(score(&[3, 2, 0, 0, 0, 0], 8) == 25);
    assert!(score(&[2, 2, 1, 0, 0, 0], 8) == 0);
    assert!(score(&[1, 1, 2, 1, 0, 0], 9) == 30);
    assert!(score(&[1, 1, 0, 1, 2, 0], 9) == 0);
    assert!(score(&[1, 1, 1, 1, 1, 0], 10) == 40);
    assert!(score(&[1, 1, 1, 1, 0, 1], 10) == 0);
    assert!(score(&[5, 0, 0, 0, 0, 0], 11) == 50);
    assert!(score(&[4, 0, 0, 1, 0, 0], 11) == 0);
    assert!(score(&[1, 1, 1, 1, 1, 0], 12) == 15);
}

#[test]
fn test_upper_score() {
    assert!(upper_score(&[0, 0, 5, 0, 0, 0], 2) == 15);
    assert!(upper_score(&[0, 0, 5, 0, 0, 0], 7) == 0);
}

#[test]
fn upper_categories_score_like_upper_score() {
    let roll = [1, 0, 2, 0, 1, 1];
    for cat in 0..6u8 {
        assert_eq!(score(&roll, cat), upper_score(&roll, cat));
    }
    assert_eq!(score(&roll, 5), 6);
    assert_eq!(score(&roll, 2), 6);
    assert_eq!(upper_score(&roll, 12), 0);
}

#[test]
fn category_edge_cases() {
    // sixes: eyes times count
    assert_eq!(score(&[0, 0, 0, 0, 0, 5], 5), 30);
    // a Yahtzee counts for three and four of a kind and chance
    assert_eq!(score(&[0, 0, 0, 0, 0, 5], 6), 30);
    assert_eq!(score(&[0, 0, 0, 0, 0, 5], 7), 30);
    assert_eq!(score(&[0, 0, 0, 0, 0, 5], 12), 30);
    // a Yahtzee is not a full house
    assert_eq!(score(&[0, 0, 0, 0, 0, 5], 8), 0);
    // the high small and large straights
    assert_eq!(score(&[0, 0, 1, 1, 1, 2], 9), 30);
    assert_eq!(score(&[0, 1, 1, 1, 1, 1], 10), 40);
    assert_eq!(score(&[0, 1, 1, 1, 1, 1], 9), 30);
    // categories past 12 score nothing
    assert_eq!(score(&[1, 1, 1, 1, 1, 0], 13), 0);
    assert_eq!(score(&[1, 1, 1, 1, 1, 0], 200), 0);
}

#[test]
fn score_fits_checks_byte_range() {
    assert!(score_fits(&[1, 1, 1, 1, 1, 0], 12));
    assert!(!score_fits(&[0, 0, 0, 0, 0, 50], 12));
    assert!(!score_fits(&[0, 0, 0, 0, 0, 50], 5));
    // three and four of a kind add the eyes up when their face count is met
    assert!(!score_fits(&[0, 0, 0, 0, 2, 50], 6));
    assert!(!score_fits(&[0, 0, 0, 0, 3, 50], 7));
    assert!(score_fits(&[2, 2, 1, 0, 0, 0], 6));
    assert!(score_fits(&[0, 0, 0, 0, 0, 50], 8));
    assert!(score_fits(&[200, 0, 0, 0, 0, 0], 0));
}
