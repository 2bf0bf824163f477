use guessing_game::arith::{multiply, sum};

#[test]
fn sums_and_products() {
    assert_eq!(sum(10, 12), 22);
    assert_eq!(multiply(10, 12), 120);
    assert_eq!(sum(-3, 3), 0);
    assert_eq!(multiply(-3, 3), -9);
}
