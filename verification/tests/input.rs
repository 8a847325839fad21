use yahtzeesolve::input::key_conv;

#[test]
fn digits_become_counts() {
    assert_eq!(key_conv(11345), [2, 0, 1, 1, 1, 0]);
    assert_eq!(key_conv(66666), [0, 0, 0, 0, 0, 5]);
    assert_eq!(key_conv(0), [0; 6]);
    assert_eq!(key_conv(7089), [0; 6]);
    assert_eq!(key_conv(4294967295), [0, 2, 0, 2, 1, 1]);
    assert_eq!(key_conv(1111111111), [10, 0, 0, 0, 0, 0]);
}
