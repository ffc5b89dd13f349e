use calculator::ast::{divide, settle, Node};
use calculator::calculate;
use calculator::decimal::{scales_to, Decimal, MAX_MAGNITUDE, MAX_SCALE};
use calculator::error::CalcError;
use rust_decimal::MathematicalOps;

fn outside(d: Decimal) -> rust_decimal::Decimal {
    let mut x = rust_decimal::Decimal::from_parts(d.lo, d.mid, d.hi, d.negative, d.scale);
    x.set_sign_negative(d.negative);
    x
}

fn number(n: i64, scale: u32) -> Box<Node> {
    Box::new(Node::Number(Decimal::new(n, scale)))
}

#[test]
fn new_splits_the_magnitude_into_limbs() {
    assert_eq!(
        Decimal::new(1, 0),
        Decimal { negative: false, scale: 0, hi: 0, mid: 0, lo: 1 }
    );
    assert_eq!(
        Decimal::new(-5, 2),
        Decimal { negative: true, scale: 2, hi: 0, mid: 0, lo: 5 }
    );
    assert_eq!(
        Decimal::new(0x1_0000_0002, MAX_SCALE),
        Decimal { negative: false, scale: 28, hi: 0, mid: 1, lo: 2 }
    );
    assert_eq!(
        Decimal::new(i64::MAX, 0),
        Decimal { negative: false, scale: 0, hi: 0, mid: 0x7fff_ffff, lo: 0xffff_ffff }
    );
    assert_eq!(
        Decimal::new(i64::MIN, 0),
        Decimal { negative: true, scale: 0, hi: 0, mid: 0x8000_0000, lo: 0 }
    );
}

#[test]
fn new_agrees_with_the_decimal_crate() {
    for (n, scale) in [(0i64, 0u32), (3141, 3), (-3141, 3), (i64::MAX, 28), (i64::MIN, 5)] {
        assert_eq!(outside(Decimal::new(n, scale)), rust_decimal::Decimal::new(n, scale));
    }
}

#[test]
fn is_zero_looks_at_the_magnitude_only() {
    assert!(Decimal::new(0, 0).is_zero());
    assert!(Decimal::new(0, 7).is_zero());
    assert!(Decimal { negative: true, scale: 0, hi: 0, mid: 0, lo: 0 }.is_zero());
    assert!(!Decimal::new(1, 0).is_zero());
    assert!(!Decimal { negative: false, scale: 0, hi: 0, mid: 1, lo: 0 }.is_zero());
    assert!(!Decimal { negative: false, scale: 0, hi: 1, mid: 0, lo: 0 }.is_zero());
}

#[test]
fn to_text_writes_sign_and_scale() {
    assert_eq!(Decimal::new(150, 2).to_text(), "1.50");
    assert_eq!(Decimal::new(-7, 0).to_text(), "-7");
    assert_eq!(Decimal::new(5, 3).to_text(), "0.005");
    assert_eq!(Decimal { negative: true, scale: 0, hi: 0, mid: 0, lo: 0 }.to_text(), "-0");
}

#[test]
fn addition_is_exact_on_decimal_fractions() {
    assert_eq!(calculate("0.1 + 0.2"), Ok(Decimal::new(3, 1)));
    assert_eq!(outside(calculate("0.1 + 0.2").unwrap()).to_string(), "0.3");
}

#[test]
fn each_operator_computes() {
    assert_eq!(Node::Add(number(15, 1), number(25, 2)).evaluate(), Ok(Decimal::new(175, 2)));
    assert_eq!(Node::Sub(number(5, 0), number(3, 0)).evaluate(), Ok(Decimal::new(2, 0)));
    assert_eq!(Node::Sub(number(3, 0), number(5, 0)).evaluate(), Ok(Decimal::new(-2, 0)));
    assert_eq!(Node::Multiply(number(2, 0), number(3, 0)).evaluate(), Ok(Decimal::new(6, 0)));
    assert_eq!(Node::Multiply(number(15, 1), number(-2, 0)).evaluate(), Ok(Decimal::new(-30, 1)));
    assert_eq!(Node::Divide(number(6, 0), number(3, 0)).evaluate(), Ok(Decimal::new(2, 0)));
    assert_eq!(Node::Divide(number(1, 0), number(8, 0)).evaluate(), Ok(Decimal::new(125, 3)));
    assert_eq!(Node::Caret(number(2, 0), number(3, 0)).evaluate(), Ok(Decimal::new(8, 0)));
    assert_eq!(Node::Caret(number(2, 0), number(-1, 0)).evaluate(), Ok(Decimal::new(50, 2)));
    assert_eq!(Node::Negative(number(4, 1)).evaluate(), Ok(Decimal::new(-4, 1)));
    assert_eq!(Node::Negative(number(-4, 1)).evaluate(), Ok(Decimal::new(4, 1)));
}

#[test]
fn each_operator_agrees_with_the_decimal_crate() {
    let a = rust_decimal::Decimal::new(1234567, 3);
    let b = rust_decimal::Decimal::new(-89, 1);
    let left = || number(1234567, 3);
    let right = || number(-89, 1);
    assert_eq!(outside(Node::Add(left(), right()).evaluate().unwrap()), a + b);
    assert_eq!(outside(Node::Sub(left(), right()).evaluate().unwrap()), a - b);
    assert_eq!(outside(Node::Multiply(left(), right()).evaluate().unwrap()), a * b);
    let quotient = Node::Divide(left(), right()).evaluate().unwrap();
    assert_eq!(outside(quotient).to_string(), (a / b).to_string());
    assert_eq!(outside(Node::Negative(left()).evaluate().unwrap()), -a);
}

#[test]
fn one_third_is_rounded_at_the_largest_scale() {
    let third = calculate("1 / 3").unwrap();
    assert_eq!(third.scale, 28);
    assert_eq!(third.to_text(), "0.3333333333333333333333333333");
}

#[test]
fn a_fractional_power_is_approximated() {
    let root = calculate("2 ^ 0.5").unwrap();
    let expected = rust_decimal::Decimal::new(2, 0).powd(rust_decimal::Decimal::new(5, 1));
    assert_eq!(outside(root), expected);
    assert!(root.to_text().starts_with("1.41421356"));
}

#[test]
fn negating_zero_keeps_the_sign() {
    let zero = calculate("-0").unwrap();
    assert_eq!(zero, Decimal { negative: true, scale: 0, hi: 0, mid: 0, lo: 0 });
    assert_eq!(zero.to_text(), "-0");
    assert_eq!(calculate("-0 + 1"), Ok(Decimal::new(1, 0)));
}

#[test]
fn division_by_zero_is_an_error() {
    assert_eq!(calculate("1 / 0"), Err(CalcError::DivisionByZero));
    assert_eq!(calculate("1 / (2 - 2)"), Err(CalcError::DivisionByZero));
    assert_eq!(calculate("0 / 0.00"), Err(CalcError::DivisionByZero));
    assert_eq!(
        divide(Decimal::new(1, 0), Decimal::new(0, 0)),
        Err(CalcError::DivisionByZero)
    );
    assert_eq!(divide(Decimal::new(1, 0), Decimal::new(4, 0)), Ok(Decimal::new(25, 2)));
}

#[test]
fn overflow_is_an_error() {
    let largest = "79228162514264337593543950335";
    assert_eq!(
        calculate(largest),
        Ok(Decimal { negative: false, scale: 0, hi: u32::MAX, mid: u32::MAX, lo: u32::MAX })
    );
    assert_eq!(calculate(&format!("{largest} + 1")), Err(CalcError::Overflow));
    assert_eq!(calculate(&format!("-{largest} - 1")), Err(CalcError::Overflow));
    assert_eq!(calculate(&format!("{largest} * 2")), Err(CalcError::Overflow));
    assert_eq!(calculate(&format!("{largest} / 0.1")), Err(CalcError::Overflow));
    assert_eq!(calculate("10 ^ 29"), Err(CalcError::Overflow));
}

#[test]
fn settle_maps_a_missing_result_to_overflow() {
    assert_eq!(settle(None), Err(CalcError::Overflow));
    assert_eq!(settle(Some(Decimal::new(9, 1))), Ok(Decimal::new(9, 1)));
}

#[test]
fn the_left_operand_fails_first() {
    let zero_division = || Box::new(Node::Divide(number(1, 0), number(0, 0)));
    let overflow = || Box::new(Node::Caret(number(10, 0), number(29, 0)));
    assert_eq!(Node::Add(zero_division(), overflow()).evaluate(), Err(CalcError::DivisionByZero));
    assert_eq!(Node::Add(overflow(), zero_division()).evaluate(), Err(CalcError::Overflow));
    assert_eq!(Node::Sub(number(1, 0), overflow()).evaluate(), Err(CalcError::Overflow));
    assert_eq!(Node::Negative(zero_division()).evaluate(), Err(CalcError::DivisionByZero));
}

#[test]
fn subtraction_and_division_keep_the_order_of_their_operands() {
    assert_eq!(calculate("10 - 4"), Ok(Decimal::new(6, 0)));
    assert_eq!(calculate("4 - 10"), Ok(Decimal::new(-6, 0)));
    assert_eq!(outside(calculate("10 / 4").unwrap()), rust_decimal::Decimal::new(25, 1));
    assert_eq!(outside(calculate("4 / 10").unwrap()), rust_decimal::Decimal::new(4, 1));
}

#[test]
fn a_copy_of_a_tree_equals_it() {
    let tree = Node::Sub(
        Box::new(Node::Multiply(number(2, 0), Box::new(Node::Negative(number(3, 1))))),
        Box::new(Node::Caret(
            Box::new(Node::Divide(number(1, 0), number(4, 0))),
            Box::new(Node::Add(number(1, 0), number(1, 0))),
        )),
    );
    assert_eq!(tree.duplicate(), tree);
    assert_eq!(tree.clone(), tree);
    assert_eq!(tree.clone().evaluate(), tree.evaluate());
}

#[test]
fn equal_decimals_stand_for_the_same_number() {
    assert_eq!(Decimal::new(10, 1), Decimal::new(1, 0));
    assert_eq!(Decimal::new(1, 0), Decimal::new(100, 2));
    assert_eq!(Decimal::new(-2500, 3), Decimal::new(-25, 1));
    assert_eq!(Decimal::new(0, 0), Decimal::new(0, 28));
    assert_eq!(Decimal::new(0, 0), Decimal { negative: true, scale: 3, hi: 0, mid: 0, lo: 0 });
    assert_eq!(
        Decimal { negative: false, scale: 28, hi: 542101086, mid: 1042612833, lo: 268435456 },
        Decimal::new(1, 0)
    );
    assert_ne!(Decimal::new(1, 0), Decimal::new(-1, 0));
    assert_ne!(Decimal::new(25, 0), Decimal::new(25, 1));
    assert_ne!(Decimal::new(1, 0), Decimal::new(1, 28));
    assert_ne!(Decimal::new(0, 0), Decimal::new(1, 28));
    assert_ne!(
        Decimal { negative: false, scale: 0, hi: u32::MAX, mid: u32::MAX, lo: u32::MAX },
        Decimal { negative: false, scale: 1, hi: u32::MAX, mid: u32::MAX, lo: u32::MAX }
    );
    assert_ne!(
        Decimal { negative: false, scale: 0, hi: 1, mid: 0, lo: 0 },
        Decimal { negative: false, scale: 0, hi: 0, mid: 1, lo: 0 }
    );
}

#[test]
fn equality_agrees_with_the_decimal_crate() {
    let mut samples = Vec::new();
    for n in [0i64, 1, -1, 5, 10, 25, -25, 100, 1000, 12345, i64::MAX, i64::MIN] {
        for scale in [0u32, 1, 2, 3, 9, 10, 27, 28] {
            samples.push(Decimal::new(n, scale));
        }
    }
    samples.push(Decimal { negative: true, scale: 0, hi: 0, mid: 0, lo: 0 });
    samples.push(Decimal { negative: false, scale: 28, hi: 542101086, mid: 1042612833, lo: 268435456 });
    samples.push(Decimal { negative: false, scale: 0, hi: u32::MAX, mid: u32::MAX, lo: u32::MAX });
    samples.push(Decimal { negative: false, scale: 28, hi: u32::MAX, mid: u32::MAX, lo: u32::MAX });
    for a in &samples {
        for b in &samples {
            assert_eq!(a == b, outside(*a) == outside(*b), "{a:?} {b:?}");
        }
    }
}

#[test]
fn scales_to_multiplies_by_a_power_of_ten() {
    assert!(scales_to(1, 0, 1));
    assert!(scales_to(25, 2, 2500));
    assert!(!scales_to(25, 2, 250));
    assert!(!scales_to(25, 2, 25000));
    assert!(scales_to(1, 28, 10_000_000_000_000_000_000_000_000_000));
    assert!(!scales_to(8, 28, MAX_MAGNITUDE));
    assert!(!scales_to(1, u32::MAX, 1));
    assert_eq!(Decimal::new(i64::MIN, 3).limbs(), 1u128 << 63);
    assert_eq!(
        Decimal { negative: true, scale: 0, hi: u32::MAX, mid: u32::MAX, lo: u32::MAX }.limbs(),
        MAX_MAGNITUDE
    );
}

#[test]
fn results_compare_by_their_value() {
    assert_eq!(calculate("10 / 4"), Ok(Decimal::new(25, 1)));
    assert_eq!(calculate("2 ^ -1"), Ok(Decimal::new(5, 1)));
    assert_eq!(calculate("2 ^ (-1)"), Ok(Decimal::new(5, 1)));
    assert_eq!(calculate("1.50 + 1.5"), Ok(Decimal::new(3, 0)));
    assert_eq!(calculate("0 * -1"), Ok(Decimal::new(0, 0)));
}

#[test]
fn a_literal_is_read_from_its_digits() {
    let read = |text: &str| Decimal::from_literal(&text.chars().collect());
    assert_eq!(read("0"), Some(Decimal::new(0, 0)));
    assert_eq!(read("12.50").map(|d| (d.lo, d.scale, d.negative)), Some((1250, 2, false)));
    assert_eq!(read("5.").map(|d| (d.lo, d.scale)), Some((5, 0)));
    assert_eq!(read("99999999999999999").map(|d| d.limbs()), Some(99999999999999999));
    assert_eq!(read("0.0000000000000001").map(|d| (d.lo, d.scale)), Some((1, 16)));
    assert_eq!(
        read("79228162514264337593543950335").map(|d| d.limbs()),
        Some(MAX_MAGNITUDE)
    );
    assert_eq!(read("79228162514264337593543950336"), None);
    assert_eq!(
        read("0.12345678901234567890123456789").map(|d| d.to_text()),
        Some(String::from("0.1234567890123456789012345679"))
    );
}

#[test]
fn a_power_is_a_number_or_an_overflow() {
    let bases = [0i64, 1, 2, 3, 10, 15, 99, 12345, -1, -2, -15, i64::MAX];
    let exponents = [0i64, 1, 2, 5, 15, 25, 30, 100, -1, -2, -25, i64::MAX];
    for base in bases {
        for base_scale in [0u32, 1, 5, 28] {
            for exponent in exponents {
                for exponent_scale in [0u32, 1, 3, 28] {
                    let power = Node::Caret(number(base, base_scale), number(exponent, exponent_scale));
                    match power.evaluate() {
                        Ok(value) => assert!(value.scale <= MAX_SCALE),
                        Err(error) => assert_eq!(error, CalcError::Overflow),
                    }
                }
            }
        }
    }
}
