use snippets_loader::arith::floor_div_i128;

#[test]
fn floor_division() {
    assert_eq!(floor_div_i128(7, 2), 3);
    assert_eq!(floor_div_i128(8, 2), 4);
    assert_eq!(floor_div_i128(0, 5), 0);
    assert_eq!(floor_div_i128(-1, 3), -1);
    assert_eq!(floor_div_i128(-3, 3), -1);
    assert_eq!(floor_div_i128(-7, 2), -4);
    assert_eq!(floor_div_i128(-8, 2), -4);
    assert_eq!(floor_div_i128(-8, 1), -8);
    assert_eq!(floor_div_i128(1 << 126, 1 << 126), 1);
    assert_eq!(floor_div_i128(-(1 << 126), (1 << 126) + 1), -1);
}
