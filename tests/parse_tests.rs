use quantex::{digit, parse_expr, Expr, Failure, Num, ParseError, Rational, Rule, Value};

fn at(rule: Rule, pos: usize) -> Failure {
    Failure { rule, pos }
}

#[test]
fn trailing_text_is_an_error() {
    match parse_expr("2+3x") {
        Err(ParseError::TrailingData { rest, parsed }) => {
            assert_eq!(rest, "x");
            let two = Expr::Product(vec![Expr::Value(Value::from_int(2))]);
            let three = Expr::Product(vec![Expr::Value(Value::from_int(3))]);
            assert_eq!(parsed, Expr::Sum(vec![two, three]));
        }
        other => panic!("unexpected {:?}", other),
    }
    assert!(matches!(parse_expr("3m/"), Err(ParseError::Failed(_))));
    assert!(matches!(parse_expr("7 "), Err(ParseError::TrailingData { .. })));
    assert!(matches!(parse_expr("7m-"), Err(ParseError::TrailingData { .. })));
}

#[test]
fn unknown_unit_after_slash_names_the_unit_rules() {
    let expected = vec![
        at(Rule::SimpleUnit, 3),
        at(Rule::SiUnit, 3),
        at(Rule::QualifiedUnit, 3),
        at(Rule::UnitRatio, 1),
        at(Rule::UnitExpr, 1),
        at(Rule::Value, 0),
        at(Rule::FactorsFollow, 0),
        at(Rule::Factors, 0),
        at(Rule::SummandsFollow, 0),
        at(Rule::Summands, 0),
        at(Rule::Input, 0),
    ];
    assert_eq!(parse_expr("3m/x"), Err(ParseError::Failed(expected)));
}

#[test]
fn empty_text_fails_at_the_digits() {
    let expected = vec![
        at(Rule::Digits, 0),
        at(Rule::NumExpr, 0),
        at(Rule::Value, 0),
        at(Rule::FactorsFollow, 0),
        at(Rule::Factors, 0),
        at(Rule::SummandsFollow, 0),
        at(Rule::Summands, 0),
        at(Rule::Input, 0),
    ];
    assert_eq!(parse_expr(""), Err(ParseError::Failed(expected)));
}

#[test]
fn missing_operand_after_plus_fails() {
    let expected = vec![
        at(Rule::Digits, 2),
        at(Rule::NumExpr, 2),
        at(Rule::Value, 2),
        at(Rule::FactorsFollow, 2),
        at(Rule::Factors, 2),
        at(Rule::SummandsFollow, 2),
        at(Rule::Summands, 0),
        at(Rule::Input, 0),
    ];
    assert_eq!(parse_expr("1+"), Err(ParseError::Failed(expected)));
}

#[test]
fn bad_power_fails_inside_the_unit() {
    match parse_expr("2m^") {
        Err(ParseError::Failed(stack)) => {
            assert_eq!(&stack[..5], &[
                at(Rule::Digits, 3),
                at(Rule::SmallSignedInt, 3),
                at(Rule::SimplePowerNum, 3),
                at(Rule::SimplePower, 2),
                at(Rule::QualifiedUnit, 1),
            ]);
        }
        other => panic!("unexpected {:?}", other),
    }
    match parse_expr("2m^40000") {
        Err(ParseError::Failed(stack)) => {
            assert_eq!(stack[0], at(Rule::SmallSignedInt, 3));
            assert!(stack.contains(&at(Rule::UnitExpr, 1)));
        }
        other => panic!("unexpected {:?}", other),
    }
}

#[test]
fn non_ascii_numerals_are_refused() {
    // U+0663 ARABIC-INDIC DIGIT THREE is numeric but not a decimal ASCII digit.
    match parse_expr("\u{663}") {
        Err(ParseError::Failed(stack)) => {
            assert_eq!(stack[0], at(Rule::NumExpr, 0));
        }
        other => panic!("unexpected {:?}", other),
    }
}

#[test]
fn digit_follows_is_numeric() {
    assert!(digit('5'));
    assert!(digit('\u{663}'));
    assert!(!digit('x'));
    assert!(!digit('+'));
}

#[test]
fn parsed_tree_shape() {
    let e = parse_expr("12").unwrap();
    let v = Value { num: Num { real: Rational::int_from_i64(12) }, unit: None };
    assert_eq!(e, Expr::Sum(vec![Expr::Product(vec![Expr::Value(v)])]));
}
