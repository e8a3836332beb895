use num_bigint::BigUint;
use quantex::{
    eval, fodl, parse_expr, CompoundUnit, EvalError, Expr, Num, QualifiedUnit, Rational, Sign,
    SiPrefix, SimpleUnit, Value,
};

fn unit(u: SimpleUnit) -> QualifiedUnit {
    QualifiedUnit { si_prefix: SiPrefix::NoPrefix, simple_unit: u, power: 1 }
}

fn fraction(top: u64, bottom: u64) -> Rational {
    Rational { sign: Sign::Plus, top: BigUint::from(top), bottom: BigUint::from(bottom) }
}

fn quantity(top: u64, u: Option<CompoundUnit>) -> Value {
    Value { num: Num { real: fraction(top, 1) }, unit: u }
}

fn run(text: &str) -> Result<Value, EvalError> {
    eval(parse_expr(text).unwrap())
}

#[test]
fn numbers() {
    assert_eq!(Value::from_int(5), eval(parse_expr("5").unwrap()).unwrap());
    assert_eq!(Value::from_int(5), eval(parse_expr("2+3").unwrap()).unwrap());
    assert_eq!(Value::from_int(6), eval(parse_expr("2*3").unwrap()).unwrap());
}

#[test]
fn single_number_is_five_over_one() {
    assert_eq!(run("5").unwrap(), quantity(5, None));
}

#[test]
fn sum_and_product_of_plain_numbers() {
    assert_eq!(run("2+3").unwrap(), quantity(5, None));
    assert_eq!(run("2*3").unwrap(), quantity(6, None));
    assert_eq!(run("2*3+4*5*6").unwrap(), quantity(126, None));
}

#[test]
fn meters() {
    let m = CompoundUnit { upper: vec![unit(SimpleUnit::Meter)], lower: vec![] };
    assert_eq!(run("3m").unwrap(), quantity(3, Some(m)));
}

#[test]
fn meters_per_second() {
    let v = run("3m/s").unwrap();
    let u = v.unit.unwrap();
    assert_eq!(u.upper, vec![unit(SimpleUnit::Meter)]);
    assert_eq!(u.lower, vec![unit(SimpleUnit::Second)]);
    let w = run("3m per s").unwrap();
    assert_eq!(w.unit.unwrap().lower, vec![unit(SimpleUnit::Second)]);
}

#[test]
fn squared_meters() {
    let v = run("2m^2").unwrap();
    let u = v.unit.unwrap();
    assert_eq!(u.upper.len(), 1);
    assert_eq!(u.upper[0].power, 2);
    assert_eq!(u.upper[0].simple_unit, SimpleUnit::Meter);
    assert_eq!(run("2s^-3").unwrap().unit.unwrap().upper[0].power, -3);
    assert_eq!(run("2s^-32768").unwrap().unit.unwrap().upper[0].power, -32768);
}

#[test]
fn milli_prefix_needs_a_following_unit() {
    let u = run("4ms").unwrap().unit.unwrap();
    assert_eq!(
        u.upper,
        vec![QualifiedUnit {
            si_prefix: SiPrefix::TenToThe(-3),
            simple_unit: SimpleUnit::Second,
            power: 1
        }]
    );
    let u = run("4mmm").unwrap().unit.unwrap();
    assert_eq!(u.upper.len(), 2);
    assert_eq!(u.upper[0].si_prefix, SiPrefix::TenToThe(-3));
    assert_eq!(u.upper[1], unit(SimpleUnit::Meter));
}

#[test]
fn parse_then_eval_is_repeatable() {
    for text in ["5", "2+3*4", "3m/s", "2m^2", "1+", "3x", "3m+2s"] {
        assert_eq!(parse_expr(text), parse_expr(text));
        if let (Ok(a), Ok(b)) = (parse_expr(text), parse_expr(text)) {
            assert_eq!(eval(a), eval(b));
        }
    }
}

#[test]
fn different_units_do_not_add_or_multiply() {
    let m = CompoundUnit { upper: vec![unit(SimpleUnit::Meter)], lower: vec![] };
    let s = CompoundUnit { upper: vec![unit(SimpleUnit::Second)], lower: vec![] };
    assert_eq!(run("3m+2s"), Err(EvalError::UnitMismatch(Some(m.clone()), Some(s.clone()))));
    assert_eq!(run("3m*2s"), Err(EvalError::UnitMismatch(Some(m.clone()), Some(s))));
    assert_eq!(run("3+2m"), Err(EvalError::UnitMismatch(None, Some(m))));
}

#[test]
fn same_units_add() {
    let m = CompoundUnit { upper: vec![unit(SimpleUnit::Meter)], lower: vec![] };
    assert_eq!(run("3m+4m").unwrap(), quantity(7, Some(m)));
}

#[test]
fn negative_or_unlike_fractions_are_unsupported() {
    let neg = Expr::Sum(vec![Expr::Value(Value::from_int(-1)), Expr::Value(Value::from_int(2))]);
    assert_eq!(eval(neg), Err(EvalError::UnsupportedArithmetic));
    let neg = Expr::Product(vec![Expr::Value(Value::from_int(2)), Expr::Value(Value::from_int(-2))]);
    assert_eq!(eval(neg), Err(EvalError::UnsupportedArithmetic));
    let half = Value { num: Num { real: fraction(1, 2) }, unit: None };
    let third = Value { num: Num { real: fraction(1, 3) }, unit: None };
    assert_eq!(
        eval(Expr::Sum(vec![Expr::Value(half), Expr::Value(third)])),
        Err(EvalError::UnsupportedArithmetic)
    );
}

#[test]
fn fractions_multiply_unreduced() {
    let half = Value { num: Num { real: fraction(1, 2) }, unit: None };
    let other = Value { num: Num { real: fraction(2, 4) }, unit: None };
    let r = eval(Expr::Product(vec![Expr::Value(half), Expr::Value(other)])).unwrap();
    assert_eq!(r.num.real, fraction(2, 8));
    let a = Value { num: Num { real: fraction(1, 3) }, unit: None };
    let b = Value { num: Num { real: fraction(4, 3) }, unit: None };
    assert_eq!(a.plus(b).unwrap().num.real, fraction(5, 3));
}

#[test]
fn empty_sum_has_no_operands() {
    assert_eq!(eval(Expr::Sum(vec![])), Err(EvalError::NoOperands));
    assert_eq!(fodl(vec![], true), Err(EvalError::NoOperands));
}

#[test]
fn fodl_folds_left_to_right() {
    let xs = vec![
        Expr::Value(Value::from_int(2)),
        Expr::Value(Value::from_int(3)),
        Expr::Value(Value::from_int(7)),
    ];
    assert_eq!(fodl(xs, true).unwrap(), quantity(42, None));
}

#[test]
fn large_numbers_stay_exact() {
    let v = run("123456789012345678901234567890*10").unwrap();
    let expected: BigUint = "1234567890123456789012345678900".parse().unwrap();
    assert_eq!(v.num.real.top, expected);
    assert_eq!(v.num.real.bottom, BigUint::from(1u32));
}

#[test]
fn from_int_keeps_sign_and_magnitude() {
    let r = Rational::int_from_i64(-7);
    assert_eq!(r.sign, Sign::Minus);
    assert_eq!(r.top, BigUint::from(7u32));
    let r = Rational::int_from_i64(i64::MIN);
    assert_eq!(r.top, BigUint::from(9223372036854775808u64));
    assert_eq!(Rational::int_from_i64(0).sign, Sign::Plus);
}

#[test]
fn digits_read_as_whole_numbers() {
    assert_eq!(Num::from_digits("042").unwrap().real, fraction(42, 1));
    assert_eq!(Num::from_digits("4x"), None);
    assert_eq!(Rational::int_from_str("\u{663}"), None);
    assert_eq!(Rational::int_from_str("17"), Some(fraction(17, 1)));
}

#[test]
fn rational_arithmetic() {
    assert_eq!(fraction(2, 1).add(fraction(3, 1)), Some(fraction(5, 1)));
    assert_eq!(fraction(2, 5).mul(fraction(3, 7)), Some(fraction(6, 35)));
    assert_eq!(fraction(2, 5).add(fraction(3, 7)), None);
    assert_eq!(Num { real: fraction(2, 1) }.mul(Num { real: fraction(4, 1) }).unwrap().real, fraction(8, 1));
}

#[test]
fn cloned_values_keep_their_magnitude() {
    let v = run("12345678901234567890m").unwrap();
    let w = v.clone();
    assert_eq!(v, w);
    let expected: BigUint = "12345678901234567890".parse().unwrap();
    assert_eq!(w.num.real.top, expected);
}
