use std::cmp::Ordering;
use yahtzeesolve::state::new_state;
use yahtzeesolve::state::State;

fn empty() -> State {
    State { fields: [false; 13], upper: 0 }
}

#[test]
fn new_state_marks_field_and_adds_upper_points() {
    let s = new_state(&empty(), &[0, 0, 0, 4, 1, 0], 3);
    let mut fields = [false; 13];
    fields[3] = true;
    assert_eq!(s, State { fields, upper: 16 });
    let t = new_state(&s, &[0, 0, 0, 0, 0, 5], 5);
    assert_eq!(t.upper, 46);
    let u = new_state(&t, &[0, 0, 0, 0, 5, 0], 4);
    assert_eq!(u.upper, 63);
    let w = new_state(&u, &[0, 0, 0, 0, 5, 0], 12);
    assert_eq!(w.upper, 63);
    assert!(w.fields[12] && w.fields[4] && w.fields[5] && w.fields[3]);
    assert!(!w.fields[0]);
}

#[test]
fn equality_compares_fields_and_upper() {
    let a = empty();
    let mut b = empty();
    assert!(a == b);
    b.upper = 1;
    assert!(a != b);
    let mut c = empty();
    c.fields[12] = true;
    assert!(a != c);
}

#[test]
fn ranking_puts_filled_fields_first() {
    let a = empty();
    let mut b = empty();
    b.fields[0] = true;
    assert_eq!(b.cmp(&a), Ordering::Less);
    assert_eq!(a.cmp(&b), Ordering::Greater);
    assert_eq!(a.partial_cmp(&b), Some(Ordering::Greater));
    assert!(b < a);
    let mut c = empty();
    c.fields[1] = true;
    assert_eq!(b.cmp(&c), Ordering::Less);
    let mut d = b.clone();
    d.upper = 10;
    assert_eq!(d.cmp(&b), Ordering::Less);
    assert_eq!(b.cmp(&b.clone()), Ordering::Equal);
    // transitivity on a concrete chain
    assert_eq!(d.cmp(&c), Ordering::Less);
}
