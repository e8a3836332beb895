//! The parser: reads text into an expression tree, as `grammar` states.
use vstd::prelude::*;

use crate::bignum::{all_ascii_digits, decimal_value, digit_value, is_ascii_digit};
use crate::eval::{eval_model, expr_model, exprs_model, Expr, ExprModel};
use crate::grammar::{
    char_at, digit, digits_end, factor, factors, fail, more_factors, more_summands,
    more_units, num_expr, parse_model, qualified_unit, separator_end, si_unit,
    simple_power, simple_unit_at, small_signed_int, summand, summands, unit_expr, unit_list,
    unit_ratio, value, Failure, ParseErrorModel, Rule, Step, MILLI,
};
use crate::quantity::{
    value_result_model, CompoundUnit, EvalError, Num, QualifiedUnit, Rational, SiPrefix,
    SimpleUnit, Value,
};

verus! {

/// The outcome of one rule: a result and the position after it, a miss, or
/// a cut, the last two with their failure stacks.
enum Parsed<T> {
    Done(T, usize),
    Miss(Vec<Failure>),
    Cut(Vec<Failure>),
}

spec fn agrees<T, M>(r: Parsed<T>, st: Step<M>, f: spec_fn(T) -> M) -> bool {
    match (r, st) {
        (Parsed::Done(x, e), Step::Done(m, se)) => f(x) == m && e as int == se,
        (Parsed::Miss(a), Step::Miss(b)) => a@ == b,
        (Parsed::Cut(a), Step::Cut(b)) => a@ == b,
        _ => false,
    }
}

spec fn ends_within<T>(r: Parsed<T>, i: int, len: int) -> bool {
    r is Done ==> i < r->Done_1 <= len
}

fn failure(rule: Rule, i: usize) -> (r: Failure)
    ensures
        r == fail(rule, i as int),
{
    Failure { rule, pos: i }
}

/// Outside ASCII anything goes; within it, only decimal digits.
spec fn digit_if_ascii(c: char) -> bool {
    (c as nat) < 128 ==> is_ascii_digit(c)
}

fn stack1(a: Failure) -> (r: Vec<Failure>)
    ensures
        r@ == seq![a],
{
    let mut r = Vec::new();
    r.push(a);
    assert(r@ =~= seq![a]);
    r
}

fn stack2(a: Failure, b: Failure) -> (r: Vec<Failure>)
    ensures
        r@ == seq![a, b],
{
    let mut r = Vec::new();
    r.push(a);
    r.push(b);
    assert(r@ =~= seq![a, b]);
    r
}

fn at(s: &Vec<char>, i: usize, c: char) -> (r: bool)
    ensures
        r == char_at(s@, i as int, c),
{
    i < s.len() && s[i] == c
}

/// The end of the run of numeric characters at `i`; within it, every ASCII
/// character is a decimal digit.
fn scan_digits(s: &Vec<char>, i: usize) -> (e: usize)
    requires
        i <= s.len(),
    ensures
        e as int == digits_end(s@, i as int),
        i <= e <= s.len(),
        forall|k: int| i <= k < e ==> digit_if_ascii(#[trigger] s@[k]),
{
    let mut j = i;
    while j < s.len() && digit(s[j])
        invariant
            i <= j <= s.len(),
            digits_end(s@, i as int) == digits_end(s@, j as int),
            forall|k: int| i <= k < j ==> digit_if_ascii(#[trigger] s@[k]),
        decreases s.len() - j,
    {
        j = j + 1;
    }
    j
}

/// `num_expr`.
fn num_expr_at(text: &str, s: &Vec<char>, i: usize) -> (r: Parsed<Rational>)
    requires
        i <= s.len(),
        text@ == s@,
    ensures
        agrees(r, num_expr(s@, i as int), |x: Rational| x@),
        ends_within(r, i as int, s@.len() as int),
{
    let e = scan_digits(s, i);
    if e == i {
        return Parsed::Miss(stack2(failure(Rule::Digits, i), failure(Rule::NumExpr, i)));
    }
    let run = text.substring_char(i, e);
    let ghost sub = s@.subrange(i as int, e as int);
    assert(run@ == sub);
    match Rational::int_from_str(run) {
        Some(x) => {
            proof {
                if !all_ascii_digits(sub) {
                    let k = choose|k: int| 0 <= k < sub.len() && !is_ascii_digit(#[trigger] sub[k]);
                    assert(sub[k] == s@[i + k]);
                    assert(digit_if_ascii(s@[i + k]));
                    assert(sub[k] != '_' && sub[k] != '+');
                }
            }
            Parsed::Done(x, e)
        },
        None => Parsed::Miss(stack1(failure(Rule::NumExpr, i))),
    }
}

/// `simple_unit`, at one character.
fn simple_unit_at_exec(s: &Vec<char>, i: usize) -> (r: Option<SimpleUnit>)
    ensures
        r == simple_unit_at(s@, i as int),
{
    if at(s, i, 's') {
        Some(SimpleUnit::Second)
    } else if at(s, i, 'm') {
        Some(SimpleUnit::Meter)
    } else {
        None
    }
}

/// `si_unit`.
fn si_unit_at(s: &Vec<char>, i: usize) -> (r: Parsed<(SiPrefix, SimpleUnit)>)
    requires
        i <= s.len(),
    ensures
        agrees(r, si_unit(s@, i as int), |x: (SiPrefix, SimpleUnit)| x),
        ends_within(r, i as int, s@.len() as int),
{
    if at(s, i, 'm') {
        if let Some(u) = simple_unit_at_exec(s, i + 1) {
            return Parsed::Done((SiPrefix::TenToThe(MILLI), u), i + 2);
        }
    }
    match simple_unit_at_exec(s, i) {
        Some(u) => Parsed::Done((SiPrefix::NoPrefix, u), i + 1),
        None => Parsed::Miss(stack2(failure(Rule::SimpleUnit, i), failure(Rule::SiUnit, i))),
    }
}

proof fn lemma_decimal_prefix_le(t: Seq<char>, m: int)
    requires
        0 <= m <= t.len(),
        all_ascii_digits(t),
    ensures
        decimal_value(t.subrange(0, m)) <= decimal_value(t),
    decreases t.len(),
{
    if m < t.len() {
        let u = t.drop_last();
        assert(all_ascii_digits(u)) by {
            assert forall|k: int| 0 <= k < u.len() implies is_ascii_digit(#[trigger] u[k]) by {
                assert(u[k] == t[k]);
            }
        }
        lemma_decimal_prefix_le(u, m);
        assert(u.subrange(0, m) =~= t.subrange(0, m));
    } else {
        assert(t.subrange(0, m) =~= t);
    }
}

/// `small_signed_int`.
fn small_signed_int_at(s: &Vec<char>, i: usize) -> (r: Parsed<i16>)
    requires
        i <= s.len(),
    ensures
        agrees(r, small_signed_int(s@, i as int), |x: i16| x),
        ends_within(r, i as int, s@.len() as int),
{
    let negative = at(s, i, '-');
    let j = if negative {
        i + 1
    } else {
        i
    };
    let e = scan_digits(s, j);
    if e == j {
        return Parsed::Miss(stack2(failure(Rule::Digits, j), failure(Rule::SmallSignedInt, i)));
    }
    let ghost sub = s@.subrange(j as int, e as int);
    let mut acc: u32 = 0;
    let mut k = j;
    while k < e
        invariant
            j <= k <= e <= s.len(),
            i <= j,
            e > j,
            negative == char_at(s@, i as int, '-'),
            j == if negative {
                i + 1
            } else {
                i as int
            },
            e as int == digits_end(s@, j as int),
            sub == s@.subrange(j as int, e as int),
            acc <= 32768,
            acc == decimal_value(s@.subrange(j as int, k as int)),
            all_ascii_digits(s@.subrange(j as int, k as int)),
        decreases e - k,
    {
        let c = s[k];
        if !('0' <= c && c <= '9') {
            proof {
                assert(sub[k - j] == c);
                assert(!is_ascii_digit(sub[k - j]));
                assert(!all_ascii_digits(sub));
            }
            return Parsed::Miss(stack1(failure(Rule::SmallSignedInt, i)));
        }
        let d = (c as u32) - ('0' as u32);
        proof {
            let p = s@.subrange(j as int, k as int + 1);
            assert(p.drop_last() =~= s@.subrange(j as int, k as int));
            assert(p.last() == c);
            assert(decimal_value(p) == decimal_value(p.drop_last()) * 10 + digit_value(c));
            assert(all_ascii_digits(p)) by {
                assert forall|q: int| 0 <= q < p.len() implies is_ascii_digit(#[trigger] p[q]) by {
                    if q < p.len() - 1 {
                        assert(p[q] == s@.subrange(j as int, k as int)[q]);
                    }
                }
            }
        }
        acc = acc * 10 + d;
        k = k + 1;
        if acc > 32768 {
            proof {
                if all_ascii_digits(sub) {
                    assert(sub.subrange(0, k - j) =~= s@.subrange(j as int, k as int));
                    lemma_decimal_prefix_le(sub, k - j);
                    assert(decimal_value(sub) > 32768);
                }
            }
            return Parsed::Miss(stack1(failure(Rule::SmallSignedInt, i)));
        }
    }
    assert(sub =~= s@.subrange(j as int, k as int));
    if negative {
        let v: i32 = -(acc as i32);
        Parsed::Done(v as i16, e)
    } else if acc <= 32767 {
        Parsed::Done(acc as i16, e)
    } else {
        Parsed::Miss(stack1(failure(Rule::SmallSignedInt, i)))
    }
}

/// `simple_power`.
fn simple_power_at(s: &Vec<char>, i: usize) -> (r: Parsed<i16>)
    requires
        i <= s.len(),
    ensures
        agrees(r, simple_power(s@, i as int), |x: i16| x),
        ends_within(r, i as int, s@.len() as int),
{
    if at(s, i, '^') {
        match small_signed_int_at(s, i + 1) {
            Parsed::Done(p, e) => Parsed::Done(p, e),
            Parsed::Miss(mut f) | Parsed::Cut(mut f) => {
                f.push(failure(Rule::SimplePowerNum, i + 1));
                f.push(failure(Rule::SimplePower, i));
                Parsed::Cut(f)
            },
        }
    } else {
        Parsed::Miss(stack1(failure(Rule::SimplePower, i)))
    }
}

/// `qualified_unit`.
fn qualified_unit_at(s: &Vec<char>, i: usize) -> (r: Parsed<QualifiedUnit>)
    requires
        i <= s.len(),
    ensures
        agrees(r, qualified_unit(s@, i as int), |x: QualifiedUnit| x),
        ends_within(r, i as int, s@.len() as int),
{
    match si_unit_at(s, i) {
        Parsed::Done((si_prefix, simple_unit), j) => match simple_power_at(s, j) {
            Parsed::Done(power, k) => Parsed::Done(QualifiedUnit { si_prefix, simple_unit, power }, k),
            Parsed::Miss(_) => Parsed::Done(QualifiedUnit { si_prefix, simple_unit, power: 1 }, j),
            Parsed::Cut(mut f) => {
                f.push(failure(Rule::QualifiedUnit, i));
                Parsed::Cut(f)
            },
        },
        Parsed::Miss(mut f) => {
            f.push(failure(Rule::QualifiedUnit, i));
            Parsed::Miss(f)
        },
        Parsed::Cut(mut f) => {
            f.push(failure(Rule::QualifiedUnit, i));
            Parsed::Cut(f)
        },
    }
}

/// `unit_list`.
fn unit_list_at(s: &Vec<char>, i: usize) -> (r: Parsed<Vec<QualifiedUnit>>)
    requires
        i <= s.len(),
    ensures
        agrees(r, unit_list(s@, i as int), |x: Vec<QualifiedUnit>| x@),
        ends_within(r, i as int, s@.len() as int),
{
    let (first, mut j) = match qualified_unit_at(s, i) {
        Parsed::Done(q, j) => (q, j),
        Parsed::Miss(f) => return Parsed::Miss(f),
        Parsed::Cut(f) => return Parsed::Cut(f),
    };
    let mut acc: Vec<QualifiedUnit> = Vec::new();
    acc.push(first);
    assert(acc@ =~= seq![first]);
    loop
        invariant
            i < j <= s.len(),
            unit_list(s@, i as int) == more_units(s@, j as int, acc@),
        decreases s.len() - j,
    {
        match qualified_unit_at(s, j) {
            Parsed::Done(q, k) => {
                acc.push(q);
                j = k;
            },
            Parsed::Miss(_) => return Parsed::Done(acc, j),
            Parsed::Cut(f) => return Parsed::Cut(f),
        }
    }
}

/// The position after a `/` or ` per ` separator at `j`, if any.
fn separator_end_at(s: &Vec<char>, j: usize) -> (r: Option<usize>)
    requires
        j <= s.len(),
    ensures
        match separator_end(s@, j as int) {
            Some(k) => r == Some(k as usize) && k <= s.len(),
            None => r is None,
        },
{
    if at(s, j, '/') {
        return Some(j + 1);
    }
    if s.len() - j >= 5 && s[j] == ' ' && s[j + 1] == 'p' && s[j + 2] == 'e' && s[j + 3] == 'r'
        && s[j + 4] == ' ' {
        assert(s@.subrange(j as int, j + 5) =~= seq![' ', 'p', 'e', 'r', ' ']);
        return Some(j + 5);
    }
    proof {
        if j + 5 <= s.len() && s@.subrange(j as int, j + 5) == seq![' ', 'p', 'e', 'r', ' '] {
            assert(s@.subrange(j as int, j + 5)[0] == s@[j as int]);
            assert(s@.subrange(j as int, j + 5)[1] == s@[j + 1]);
            assert(s@.subrange(j as int, j + 5)[2] == s@[j + 2]);
            assert(s@.subrange(j as int, j + 5)[3] == s@[j + 3]);
            assert(s@.subrange(j as int, j + 5)[4] == s@[j + 4]);
        }
    }
    None
}

/// `unit_ratio`.
fn unit_ratio_at(s: &Vec<char>, i: usize) -> (r: Parsed<CompoundUnit>)
    requires
        i <= s.len(),
    ensures
        agrees(r, unit_ratio(s@, i as int), |x: CompoundUnit| x@),
        ends_within(r, i as int, s@.len() as int),
{
    match unit_list_at(s, i) {
        Parsed::Done(upper, j) => match separator_end_at(s, j) {
            None => {
                let r = CompoundUnit { upper, lower: Vec::new() };
                assert(r@.lower =~= Seq::<QualifiedUnit>::empty());
                Parsed::Done(r, j)
            },
            Some(k) => match unit_list_at(s, k) {
                Parsed::Done(lower, e) => Parsed::Done(CompoundUnit { upper, lower }, e),
                Parsed::Miss(mut f) | Parsed::Cut(mut f) => {
                    f.push(failure(Rule::UnitRatio, i));
                    Parsed::Cut(f)
                },
            },
        },
        Parsed::Miss(mut f) => {
            f.push(failure(Rule::UnitRatio, i));
            Parsed::Miss(f)
        },
        Parsed::Cut(mut f) => {
            f.push(failure(Rule::UnitRatio, i));
            Parsed::Cut(f)
        },
    }
}

/// `unit_expr`.
fn unit_expr_at(s: &Vec<char>, i: usize) -> (r: Parsed<CompoundUnit>)
    requires
        i <= s.len(),
    ensures
        agrees(r, unit_expr(s@, i as int), |x: CompoundUnit| x@),
        ends_within(r, i as int, s@.len() as int),
{
    match unit_ratio_at(s, i) {
        Parsed::Done(u, j) => Parsed::Done(u, j),
        Parsed::Miss(mut f) => {
            f.push(failure(Rule::UnitExpr, i));
            Parsed::Miss(f)
        },
        Parsed::Cut(mut f) => {
            f.push(failure(Rule::UnitExpr, i));
            Parsed::Cut(f)
        },
    }
}

/// `value`.
fn value_at(text: &str, s: &Vec<char>, i: usize) -> (r: Parsed<Value>)
    requires
        i <= s.len(),
        text@ == s@,
    ensures
        agrees(r, value(s@, i as int), |x: Value| x@),
        ends_within(r, i as int, s@.len() as int),
{
    match num_expr_at(text, s, i) {
        Parsed::Done(q, j) => match unit_expr_at(s, j) {
            Parsed::Done(u, k) => Parsed::Done(Value { num: Num { real: q }, unit: Some(u) }, k),
            Parsed::Miss(_) => Parsed::Done(Value { num: Num { real: q }, unit: None }, j),
            Parsed::Cut(mut f) => {
                f.push(failure(Rule::Value, i));
                Parsed::Cut(f)
            },
        },
        Parsed::Miss(mut f) => {
            f.push(failure(Rule::Value, i));
            Parsed::Miss(f)
        },
        Parsed::Cut(mut f) => {
            f.push(failure(Rule::Value, i));
            Parsed::Cut(f)
        },
    }
}

/// One factor.
fn factor_at(text: &str, s: &Vec<char>, i: usize) -> (r: Parsed<Expr>)
    requires
        i <= s.len(),
        text@ == s@,
    ensures
        agrees(r, factor(s@, i as int), |x: Expr| x@),
        ends_within(r, i as int, s@.len() as int),
{
    match value_at(text, s, i) {
        Parsed::Done(v, j) => Parsed::Done(Expr::Value(v), j),
        Parsed::Miss(mut f) | Parsed::Cut(mut f) => {
            f.push(failure(Rule::FactorsFollow, i));
            Parsed::Cut(f)
        },
    }
}

proof fn lemma_exprs_model_push(acc: Seq<Expr>, x: Expr)
    ensures
        exprs_model(acc.push(x)) == exprs_model(acc).push(expr_model(x)),
{
    assert(exprs_model(acc.push(x)) =~= exprs_model(acc).push(expr_model(x)));
}

proof fn lemma_product_model(xs: Vec<Expr>)
    ensures
        expr_model(Expr::Product(xs)) == ExprModel::Product(exprs_model(xs@)),
{
    assert(exprs_model(xs@) =~= expr_model(Expr::Product(xs))->Product_0);
}

proof fn lemma_sum_model(xs: Vec<Expr>)
    ensures
        expr_model(Expr::Sum(xs)) == ExprModel::Sum(exprs_model(xs@)),
{
    assert(exprs_model(xs@) =~= expr_model(Expr::Sum(xs))->Sum_0);
}

/// `factors`.
fn factors_at(text: &str, s: &Vec<char>, i: usize) -> (r: Parsed<Expr>)
    requires
        i <= s.len(),
        text@ == s@,
    ensures
        agrees(r, factors(s@, i as int), |x: Expr| x@),
        ends_within(r, i as int, s@.len() as int),
{
    let (first, mut j) = match factor_at(text, s, i) {
        Parsed::Done(x, j) => (x, j),
        Parsed::Miss(mut f) | Parsed::Cut(mut f) => {
            f.push(failure(Rule::Factors, i));
            return Parsed::Cut(f);
        },
    };
    let mut acc: Vec<Expr> = Vec::new();
    acc.push(first);
    assert(exprs_model(acc@) =~= seq![expr_model(first)]);
    loop
        invariant
            i < j <= s.len(),
            text@ == s@,
            factors(s@, i as int) == match more_factors(s@, j as int, exprs_model(acc@)) {
                Step::Done(xs, k) => Step::Done(ExprModel::Product(xs), k),
                Step::Miss(f) => Step::Cut(f.push(fail(Rule::Factors, i as int))),
                Step::Cut(f) => Step::Cut(f.push(fail(Rule::Factors, i as int))),
            },
        decreases s.len() - j,
    {
        if !at(s, j, '*') {
            proof {
                lemma_product_model(acc);
            }
            return Parsed::Done(Expr::Product(acc), j);
        }
        match factor_at(text, s, j + 1) {
            Parsed::Done(x, k) => {
                proof {
                    lemma_exprs_model_push(acc@, x);
                }
                acc.push(x);
                j = k;
            },
            Parsed::Miss(mut f) | Parsed::Cut(mut f) => {
                f.push(failure(Rule::Factors, i));
                return Parsed::Cut(f);
            },
        }
    }
}

/// One summand.
fn summand_at(text: &str, s: &Vec<char>, i: usize) -> (r: Parsed<Expr>)
    requires
        i <= s.len(),
        text@ == s@,
    ensures
        agrees(r, summand(s@, i as int), |x: Expr| x@),
        ends_within(r, i as int, s@.len() as int),
{
    match factors_at(text, s, i) {
        Parsed::Done(x, j) => Parsed::Done(x, j),
        Parsed::Miss(mut f) | Parsed::Cut(mut f) => {
            f.push(failure(Rule::SummandsFollow, i));
            Parsed::Cut(f)
        },
    }
}

/// `summands`.
fn summands_at(text: &str, s: &Vec<char>, i: usize) -> (r: Parsed<Expr>)
    requires
        i <= s.len(),
        text@ == s@,
    ensures
        agrees(r, summands(s@, i as int), |x: Expr| x@),
        ends_within(r, i as int, s@.len() as int),
{
    let (first, mut j) = match summand_at(text, s, i) {
        Parsed::Done(x, j) => (x, j),
        Parsed::Miss(mut f) | Parsed::Cut(mut f) => {
            f.push(failure(Rule::Summands, i));
            return Parsed::Cut(f);
        },
    };
    let mut acc: Vec<Expr> = Vec::new();
    acc.push(first);
    assert(exprs_model(acc@) =~= seq![expr_model(first)]);
    loop
        invariant
            i < j <= s.len(),
            text@ == s@,
            summands(s@, i as int) == match more_summands(s@, j as int, exprs_model(acc@)) {
                Step::Done(xs, k) => Step::Done(ExprModel::Sum(xs), k),
                Step::Miss(f) => Step::Cut(f.push(fail(Rule::Summands, i as int))),
                Step::Cut(f) => Step::Cut(f.push(fail(Rule::Summands, i as int))),
            },
        decreases s.len() - j,
    {
        if !at(s, j, '+') {
            proof {
                lemma_sum_model(acc);
            }
            return Parsed::Done(Expr::Sum(acc), j);
        }
        match summand_at(text, s, j + 1) {
            Parsed::Done(x, k) => {
                proof {
                    lemma_exprs_model_push(acc@, x);
                }
                acc.push(x);
                j = k;
            },
            Parsed::Miss(mut f) | Parsed::Cut(mut f) => {
                f.push(failure(Rule::Summands, i));
                return Parsed::Cut(f);
            },
        }
    }
}

/// Why a text is not an expression.
#[derive(Debug, PartialEq, Eq)]
pub enum ParseError {
    /// No expression could be read; the failed rules, innermost first.
    Failed(Vec<Failure>),
    /// An expression was read, and text is left after it.
    TrailingData { rest: String, parsed: Expr },
}

impl View for ParseError {
    type V = ParseErrorModel;

    open spec fn view(&self) -> ParseErrorModel {
        match self {
            ParseError::Failed(f) => ParseErrorModel::Failed(f@),
            ParseError::TrailingData { rest, parsed } => ParseErrorModel::TrailingData(
                rest@,
                expr_model(*parsed),
            ),
        }
    }
}

pub open spec fn parse_result_model(r: Result<Expr, ParseError>) -> Result<ExprModel, ParseErrorModel> {
    match r {
        Ok(x) => Ok(expr_model(x)),
        Err(e) => Err(e@),
    }
}

/// Parsing depends on the text alone: two results that `parse_expr` may
/// give for the same characters are structurally equal, and so are the
/// results that `eval` may give for the expressions that they hold.
pub proof fn law_parse_eval_repeatable(
    text: Seq<char>,
    r1: Result<Expr, ParseError>,
    r2: Result<Expr, ParseError>,
    v1: Result<Value, EvalError>,
    v2: Result<Value, EvalError>,
)
    requires
        parse_result_model(r1) == parse_model(text),
        parse_result_model(r2) == parse_model(text),
        r1 is Ok ==> value_result_model(v1) == eval_model(expr_model(r1->Ok_0)),
        r2 is Ok ==> value_result_model(v2) == eval_model(expr_model(r2->Ok_0)),
    ensures
        parse_result_model(r1) == parse_result_model(r2),
        r1 is Ok <==> r2 is Ok,
        r1 is Ok ==> value_result_model(v1) == value_result_model(v2),
{
}

/// Reads a whole text as one expression.
pub fn parse_expr(msg: &str) -> (r: Result<Expr, ParseError>)
    ensures
        parse_result_model(r) == parse_model(msg@),
{
    let n = msg.unicode_len();
    let mut s: Vec<char> = Vec::new();
    let mut i: usize = 0;
    while i < n
        invariant
            n == msg@.len(),
            i <= n,
            s@ == msg@.subrange(0, i as int),
        decreases n - i,
    {
        s.push(msg.get_char(i));
        i = i + 1;
        assert(s@ =~= msg@.subrange(0, i as int));
    }
    assert(s@ =~= msg@);
    match summands_at(msg, &s, 0) {
        Parsed::Done(x, k) => {
            if k == n {
                Ok(x)
            } else {
                let rest = msg.substring_char(k, n).to_owned();
                Err(ParseError::TrailingData { rest, parsed: x })
            }
        },
        Parsed::Miss(mut f) | Parsed::Cut(mut f) => {
            f.push(failure(Rule::Input, 0));
            Err(ParseError::Failed(f))
        },
    }
}

} // verus!
