use slabclip::scalar::{floor_div, greater, half_floor, lesser, Ratio, UNITS_PER_ONE};

#[test]
fn resolution_is_a_thousandth() {
    assert_eq!(UNITS_PER_ONE, 1000);
}

#[test]
fn half_floor_rounds_towards_minus_infinity() {
    assert_eq!(half_floor(7), 3);
    assert_eq!(half_floor(8), 4);
    assert_eq!(half_floor(0), 0);
    assert_eq!(half_floor(-1), -1);
    assert_eq!(half_floor(-7), -4);
    assert_eq!(half_floor(-8), -4);
    assert_eq!(half_floor(i64::MIN), i64::MIN / 2);
    assert_eq!(half_floor(i64::MAX), i64::MAX / 2);
}

#[test]
fn floor_div_rounds_towards_minus_infinity() {
    assert_eq!(floor_div(7, 2), 3);
    assert_eq!(floor_div(-7, 2), -4);
    assert_eq!(floor_div(-8, 2), -4);
    assert_eq!(floor_div(-1, 1000), -1);
    assert_eq!(floor_div(0, 3), 0);
    assert_eq!(floor_div(i128::MIN, 1), i128::MIN);
    assert_eq!(floor_div(i128::MIN, i128::MAX), -2);
}

#[test]
fn greater_and_lesser() {
    assert_eq!(greater(3, -4), 3);
    assert_eq!(greater(-4, 3), 3);
    assert_eq!(lesser(3, -4), -4);
    assert_eq!(lesser(-4, 3), -4);
    assert_eq!(greater(5, 5), 5);
    assert_eq!(lesser(5, 5), 5);
}

#[test]
fn from_quotient_moves_the_sign_to_the_numerator() {
    assert_eq!(Ratio::from_quotient(3, -6), Ratio { num: -3, den: 6 });
    assert_eq!(Ratio::from_quotient(-3, -6), Ratio { num: 3, den: 6 });
    assert_eq!(Ratio::from_quotient(3, 6), Ratio { num: 3, den: 6 });
    assert_eq!(Ratio::from_quotient(1, i64::MIN), Ratio { num: -1, den: 1 << 63 });
    assert_eq!(Ratio::from_quotient(i64::MAX, -1), Ratio { num: -i64::MAX, den: 1 });
}

#[test]
fn ratios_compare_as_numbers() {
    let half = Ratio { num: 1, den: 2 };
    let two_quarters = Ratio { num: 2, den: 4 };
    let third = Ratio { num: 1, den: 3 };
    assert!(half.is_same(&two_quarters));
    assert!(half != two_quarters);
    assert!(third.is_below(&half));
    assert!(!half.is_below(&third));
    assert!(!half.is_below(&two_quarters));
    assert!(!half.is_same(&third));
    let minus = Ratio { num: -1, den: 3 };
    assert!(minus.is_below(&third));
    assert!(minus.is_below(&Ratio::zero()));
}

#[test]
fn extreme_ratios_compare_without_overflow() {
    let big = Ratio { num: i64::MIN, den: u64::MAX };
    let small = Ratio { num: i64::MAX, den: u64::MAX };
    assert!(big.is_below(&small));
    assert!(Ratio::lowest().is_below(&big));
    assert!(small.is_below(&Ratio::highest()));
    assert!(Ratio::lowest().is_below(&Ratio::highest()));
    assert!(!Ratio::highest().is_same(&Ratio::lowest()));
}

#[test]
fn named_ratios() {
    assert_eq!(Ratio::lowest(), Ratio { num: i64::MIN, den: 1 });
    assert_eq!(Ratio::highest(), Ratio { num: i64::MAX, den: 1 });
    assert_eq!(Ratio::zero(), Ratio { num: 0, den: 1 });
    assert_eq!(Ratio::one(), Ratio { num: 1, den: 1 });
}

#[test]
fn clamp_unit_keeps_what_is_between_zero_and_one() {
    assert_eq!(Ratio { num: -1, den: 7 }.clamp_unit(), Ratio::zero());
    assert_eq!(Ratio { num: 8, den: 7 }.clamp_unit(), Ratio::one());
    assert_eq!(Ratio { num: 3, den: 7 }.clamp_unit(), Ratio { num: 3, den: 7 });
    assert_eq!(Ratio { num: 0, den: 7 }.clamp_unit(), Ratio { num: 0, den: 7 });
    assert_eq!(Ratio { num: 7, den: 7 }.clamp_unit(), Ratio { num: 7, den: 7 });
    assert_eq!(Ratio::lowest().clamp_unit(), Ratio::zero());
    assert_eq!(Ratio::highest().clamp_unit(), Ratio::one());
}

#[test]
fn scale_floor_rounds_down() {
    let third = Ratio { num: 1, den: 3 };
    assert_eq!(third.scale_floor(10), 3);
    assert_eq!(third.scale_floor(-10), -4);
    assert_eq!(third.scale_floor(9), 3);
    assert_eq!(Ratio::zero().scale_floor(i64::MIN), 0);
    assert_eq!(Ratio::one().scale_floor(i64::MIN), i64::MIN);
    assert_eq!(Ratio::one().scale_floor(i64::MAX), i64::MAX);
    let most = Ratio { num: i64::MAX, den: u64::MAX };
    assert_eq!(most.scale_floor(2), 0);
    assert_eq!(most.scale_floor(-2), -1);
}
