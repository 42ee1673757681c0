use lmc::numbers::{Flag, NumberError, ThreeDigitNumber, TwoDigitNumber};

fn three(v: i16) -> ThreeDigitNumber {
    ThreeDigitNumber::new(v).unwrap()
}

fn two(v: u8) -> TwoDigitNumber {
    TwoDigitNumber::new(v).unwrap()
}

#[test]
fn three_digit_new_accepts_every_value_in_range() {
    for v in 0..=999i16 {
        let n = three(v);
        assert_eq!(n.value(), v);
        assert_eq!(n.flag(), None);
    }
}

#[test]
fn three_digit_new_refuses_every_value_out_of_range() {
    for v in i16::MIN..=i16::MAX {
        if !(0..=999).contains(&v) {
            assert_eq!(
                ThreeDigitNumber::new(v),
                Err(NumberError::OutOfBounds(i64::from(v)))
            );
        }
    }
}

#[test]
fn three_digit_new_reports_the_offending_value() {
    assert_eq!(ThreeDigitNumber::new(1000), Err(NumberError::OutOfBounds(1000)));
    assert_eq!(ThreeDigitNumber::new(-1), Err(NumberError::OutOfBounds(-1)));
}

#[test]
fn three_digit_new_with_flag_keeps_the_flag() {
    let n = ThreeDigitNumber::new_with_flag(7, Some(Flag::NEG)).unwrap();
    assert_eq!(n.value(), 7);
    assert_eq!(n.flag(), Some(Flag::NEG));
    let n = ThreeDigitNumber::new_with_flag(999, Some(Flag::OVERFLOW)).unwrap();
    assert_eq!(n.value(), 999);
    assert_eq!(n.flag(), Some(Flag::OVERFLOW));
    assert_eq!(
        ThreeDigitNumber::new_with_flag(1000, Some(Flag::NEG)),
        Err(NumberError::OutOfBounds(1000))
    );
    assert_eq!(
        ThreeDigitNumber::new_with_flag(-5, None),
        Err(NumberError::OutOfBounds(-5))
    );
}

#[test]
fn three_digit_addition_is_modular_with_overflow_flag() {
    for a in 0..=999i16 {
        for b in 0..=999i16 {
            let sum = three(a).add(three(b)).unwrap();
            assert_eq!(sum.value(), (a + b) % 1000);
            let expected = if a + b > 999 { Some(Flag::OVERFLOW) } else { None };
            assert_eq!(sum.flag(), expected);
        }
    }
}

#[test]
fn three_digit_subtraction_is_modular_with_neg_flag() {
    for a in 0..=999i16 {
        for b in 0..=999i16 {
            let difference = three(a).sub(three(b)).unwrap();
            assert_eq!(difference.value(), (a - b).rem_euclid(1000));
            let expected = if a < b { Some(Flag::NEG) } else { None };
            assert_eq!(difference.flag(), expected);
        }
    }
}

#[test]
fn three_digit_add_exact_values() {
    let sum = three(999).add(three(2)).unwrap();
    assert_eq!(sum.value(), 1);
    assert_eq!(sum.flag(), Some(Flag::OVERFLOW));
    let sum = three(500).add(three(499)).unwrap();
    assert_eq!(sum.value(), 999);
    assert_eq!(sum.flag(), None);
    let sum = three(999).add(three(999)).unwrap();
    assert_eq!(sum.value(), 998);
    assert_eq!(sum.flag(), Some(Flag::OVERFLOW));
}

#[test]
fn three_digit_sub_exact_values() {
    let difference = three(3).sub(three(5)).unwrap();
    assert_eq!(difference.value(), 998);
    assert_eq!(difference.flag(), Some(Flag::NEG));
    let difference = three(5).sub(three(5)).unwrap();
    assert_eq!(difference.value(), 0);
    assert_eq!(difference.flag(), None);
    let difference = three(0).sub(three(999)).unwrap();
    assert_eq!(difference.value(), 1);
    assert_eq!(difference.flag(), Some(Flag::NEG));
}

#[test]
fn flags_of_operands_are_not_carried_over() {
    let a = ThreeDigitNumber::new_with_flag(1, Some(Flag::NEG)).unwrap();
    let b = ThreeDigitNumber::new_with_flag(2, Some(Flag::OVERFLOW)).unwrap();
    assert_eq!(a.add(b).unwrap(), three(3));
    assert_eq!(b.sub(a).unwrap(), three(1));
}

#[test]
fn three_digit_add_assign_and_sub_assign() {
    let mut n = three(990);
    n.add_assign(three(15));
    assert_eq!(n.value(), 5);
    assert_eq!(n.flag(), Some(Flag::OVERFLOW));
    n.sub_assign(three(6));
    assert_eq!(n.value(), 999);
    assert_eq!(n.flag(), Some(Flag::NEG));
    n.sub_assign(three(9));
    assert_eq!(n.value(), 990);
    assert_eq!(n.flag(), None);
}

#[test]
fn two_digit_new_accepts_and_refuses() {
    for v in 0..=99u8 {
        let n = two(v);
        assert_eq!(n.value(), v);
        assert_eq!(n.flag(), None);
    }
    for v in 100..=255u8 {
        assert_eq!(
            TwoDigitNumber::new(v),
            Err(NumberError::OutOfBounds(i64::from(v)))
        );
    }
    let n = TwoDigitNumber::new_with_flag(42, Some(Flag::OVERFLOW)).unwrap();
    assert_eq!(n.value(), 42);
    assert_eq!(n.flag(), Some(Flag::OVERFLOW));
    assert_eq!(
        TwoDigitNumber::new_with_flag(100, None),
        Err(NumberError::OutOfBounds(100))
    );
}

#[test]
fn two_digit_addition_wraps_past_ninety_nine() {
    for a in 0..=99u8 {
        for b in 0..=99u8 {
            let sum = two(a).add(two(b)).unwrap();
            assert_eq!(sum.value(), (a + b) % 100);
            let expected = if a + b > 99 { Some(Flag::OVERFLOW) } else { None };
            assert_eq!(sum.flag(), expected);
        }
    }
    let mut counter = two(99);
    counter.add_assign(two(1));
    assert_eq!(counter.value(), 0);
    assert_eq!(counter.flag(), Some(Flag::OVERFLOW));
}

#[test]
fn numbers_are_written_with_leading_zeros() {
    assert_eq!(three(0).to_string(), "000");
    assert_eq!(three(5).to_string(), "005");
    assert_eq!(three(42).to_string(), "042");
    assert_eq!(three(505).to_string(), "505");
    assert_eq!(three(999).to_string(), "999");
    assert_eq!(two(0).to_string(), "00");
    assert_eq!(two(7).to_string(), "07");
    assert_eq!(two(99).to_string(), "99");
    for v in 0..=999i16 {
        assert_eq!(three(v).to_string(), format!("{:03}", v));
    }
}

#[test]
fn flags_and_number_errors_are_written_out() {
    assert_eq!(Flag::NEG.to_string(), "NEG");
    assert_eq!(Flag::OVERFLOW.to_string(), "OVERFLOW");
    assert_eq!(
        NumberError::OutOfBounds(1000).to_string(),
        "number out of bounds: got 1000"
    );
    assert_eq!(
        NumberError::OutOfBounds(-1).to_string(),
        "number out of bounds: got -1"
    );
    assert_eq!(
        NumberError::OutOfBounds(i64::MIN).to_string(),
        "number out of bounds: got -9223372036854775808"
    );
    assert_eq!(
        NumberError::OutOfBounds(0).to_string(),
        "number out of bounds: got 0"
    );
}
