//! The grammar of quantity expressions, stated over character sequences.
//!
//! Each rule reads from a position and either succeeds with a result and the
//! position after it, misses (the caller may try something else), or is cut
//! (a commitment was made and the whole parse fails). Misses and cuts carry
//! the stack of rules that failed, innermost first, each with the position at
//! which it started.
use vstd::prelude::*;

use crate::bignum::{all_ascii_digits, decimal_value, is_ascii_digit};
use crate::eval::ExprModel;
use crate::quantity::{
    CompoundUnitModel, QualifiedUnit, RationalModel, Sign, SiPrefix, SimpleUnit, ValueModel,
};

verus! {

/// The power of ten that the prefix `m` stands for.
pub const MILLI: i16 = -3;

/// A grammar rule, as named in failure stacks.
#[derive(Clone, Copy, Debug, PartialEq, Eq, Structural)]
pub enum Rule {
    Input,
    Summands,
    SummandsFollow,
    Factors,
    FactorsFollow,
    Value,
    NumExpr,
    Digits,
    SmallSignedInt,
    UnitExpr,
    UnitRatio,
    SiUnit,
    QualifiedUnit,
    SimpleUnit,
    SimplePower,
    SimplePowerNum,
}

/// A rule that failed, and the character position at which it started.
#[derive(Clone, Copy, Debug, PartialEq, Eq, Structural)]
pub struct Failure {
    pub rule: Rule,
    pub pos: usize,
}

pub enum Step<T> {
    Done(T, int),
    Miss(Seq<Failure>),
    Cut(Seq<Failure>),
}

pub open spec fn fail(rule: Rule, i: int) -> Failure {
    Failure { rule, pos: i as usize }
}

/// Adds the failing rule `rule` started at `i` to a failed step.
pub open spec fn tag<T>(st: Step<T>, rule: Rule, i: int) -> Step<T> {
    match st {
        Step::Done(v, e) => Step::Done(v, e),
        Step::Miss(f) => Step::Miss(f.push(fail(rule, i))),
        Step::Cut(f) => Step::Cut(f.push(fail(rule, i))),
    }
}

/// Turns a miss into a cut: past this point there is no going back.
pub open spec fn commit<T>(st: Step<T>, rule: Rule, i: int) -> Step<T> {
    match st {
        Step::Done(v, e) => Step::Done(v, e),
        Step::Miss(f) => Step::Cut(f.push(fail(rule, i))),
        Step::Cut(f) => Step::Cut(f.push(fail(rule, i))),
    }
}

/// What `char::is_numeric` says of a character.
pub uninterp spec fn numeric_char(c: char) -> bool;

/// Relies on `char::is_numeric`: whether the character's Unicode general
/// category is a number category; among ASCII characters these are exactly
/// the ten decimal digits.
#[verifier::external_body]
fn is_numeric(c: char) -> (r: bool)
    ensures
        r == numeric_char(c),
        (c as nat) < 128 ==> r == ('0' <= c && c <= '9'),
{
    c.is_numeric()
}

/// Whether `c` may stand in a run of digits.
pub fn digit(c: char) -> (r: bool)
    ensures
        r == numeric_char(c),
        (c as nat) < 128 ==> r == ('0' <= c && c <= '9'),
{
    is_numeric(c)
}

pub open spec fn char_at(s: Seq<char>, i: int, c: char) -> bool {
    0 <= i < s.len() && s[i] == c
}

/// The end of the run of numeric characters that starts at `i`.
pub open spec fn digits_end(s: Seq<char>, i: int) -> int
    decreases s.len() - i,
{
    if 0 <= i < s.len() && numeric_char(s[i]) {
        digits_end(s, i + 1)
    } else {
        i
    }
}

/// `num_expr := digits`, a whole number over one. The run may hold any
/// numeric characters, but only one of ASCII digits is read as a number.
pub open spec fn num_expr(s: Seq<char>, i: int) -> Step<RationalModel> {
    let e = digits_end(s, i);
    if e == i {
        Step::Miss(seq![fail(Rule::Digits, i), fail(Rule::NumExpr, i)])
    } else if all_ascii_digits(s.subrange(i, e)) {
        Step::Done(
            RationalModel { sign: Sign::Plus, top: decimal_value(s.subrange(i, e)), bottom: 1 },
            e,
        )
    } else {
        Step::Miss(seq![fail(Rule::NumExpr, i)])
    }
}

/// `simple_unit := "s" | "m"`.
pub open spec fn simple_unit_at(s: Seq<char>, i: int) -> Option<SimpleUnit> {
    if char_at(s, i, 's') {
        Some(SimpleUnit::Second)
    } else if char_at(s, i, 'm') {
        Some(SimpleUnit::Meter)
    } else {
        None
    }
}

/// `si_unit := "m" simple_unit | simple_unit`: a milli prefix is read only
/// where a base unit follows it.
pub open spec fn si_unit(s: Seq<char>, i: int) -> Step<(SiPrefix, SimpleUnit)> {
    if char_at(s, i, 'm') && simple_unit_at(s, i + 1) is Some {
        Step::Done((SiPrefix::TenToThe(MILLI), simple_unit_at(s, i + 1).unwrap()), i + 2)
    } else {
        match simple_unit_at(s, i) {
            Some(u) => Step::Done((SiPrefix::NoPrefix, u), i + 1),
            None => Step::Miss(seq![fail(Rule::SimpleUnit, i), fail(Rule::SiUnit, i)]),
        }
    }
}

pub open spec fn signed_value(negative: bool, magnitude: nat) -> int {
    if negative {
        -magnitude
    } else {
        magnitude as int
    }
}

/// `small_signed_int := ["-"] digits`, within the range of `i16`.
pub open spec fn small_signed_int(s: Seq<char>, i: int) -> Step<i16> {
    let negative = char_at(s, i, '-');
    let j = if negative {
        i + 1
    } else {
        i
    };
    let e = digits_end(s, j);
    if e == j {
        Step::Miss(seq![fail(Rule::Digits, j), fail(Rule::SmallSignedInt, i)])
    } else if all_ascii_digits(s.subrange(j, e)) && -32768 <= signed_value(
        negative,
        decimal_value(s.subrange(j, e)),
    ) <= 32767 {
        Step::Done(signed_value(negative, decimal_value(s.subrange(j, e))) as i16, e)
    } else {
        Step::Miss(seq![fail(Rule::SmallSignedInt, i)])
    }
}

/// `simple_power := "^" small_signed_int`; after the caret a power is owed.
pub open spec fn simple_power(s: Seq<char>, i: int) -> Step<i16> {
    if char_at(s, i, '^') {
        tag(commit(small_signed_int(s, i + 1), Rule::SimplePowerNum, i + 1), Rule::SimplePower, i)
    } else {
        Step::Miss(seq![fail(Rule::SimplePower, i)])
    }
}

/// `qualified_unit := si_unit [simple_power]`, the power one when absent.
pub open spec fn qualified_unit(s: Seq<char>, i: int) -> Step<QualifiedUnit> {
    match si_unit(s, i) {
        Step::Done(pu, j) => match simple_power(s, j) {
            Step::Done(p, k) => Step::Done(
                QualifiedUnit { si_prefix: pu.0, simple_unit: pu.1, power: p },
                k,
            ),
            Step::Miss(_) => Step::Done(
                QualifiedUnit { si_prefix: pu.0, simple_unit: pu.1, power: 1 },
                j,
            ),
            Step::Cut(f) => Step::Cut(f.push(fail(Rule::QualifiedUnit, i))),
        },
        Step::Miss(f) => Step::Miss(f.push(fail(Rule::QualifiedUnit, i))),
        Step::Cut(f) => Step::Cut(f.push(fail(Rule::QualifiedUnit, i))),
    }
}

/// Further qualified units after those in `acc`, as many as there are.
pub open spec fn more_units(s: Seq<char>, i: int, acc: Seq<QualifiedUnit>) -> Step<
    Seq<QualifiedUnit>,
>
    decreases s.len() - i,
{
    match qualified_unit(s, i) {
        Step::Done(q, j) => if i < j <= s.len() {
            more_units(s, j, acc.push(q))
        } else {
            Step::Done(acc, i)
        },
        Step::Miss(_) => Step::Done(acc, i),
        Step::Cut(f) => Step::Cut(f),
    }
}

/// `unit_list := qualified_unit+`.
pub open spec fn unit_list(s: Seq<char>, i: int) -> Step<Seq<QualifiedUnit>> {
    match qualified_unit(s, i) {
        Step::Done(q, j) => more_units(s, j, seq![q]),
        Step::Miss(f) => Step::Miss(f),
        Step::Cut(f) => Step::Cut(f),
    }
}

/// The position after a `/` or ` per ` separator at `j`, if there is one.
pub open spec fn separator_end(s: Seq<char>, j: int) -> Option<int> {
    if char_at(s, j, '/') {
        Some(j + 1)
    } else if 0 <= j && j + 5 <= s.len() && s.subrange(j, j + 5) == seq![' ', 'p', 'e', 'r', ' '] {
        Some(j + 5)
    } else {
        None
    }
}

/// `unit_ratio := unit_list [("/" | " per ") unit_list]`; after a separator
/// a unit list is owed.
pub open spec fn unit_ratio(s: Seq<char>, i: int) -> Step<CompoundUnitModel> {
    match unit_list(s, i) {
        Step::Done(upper, j) => match separator_end(s, j) {
            None => Step::Done(CompoundUnitModel { upper, lower: Seq::empty() }, j),
            Some(k) => match unit_list(s, k) {
                Step::Done(lower, e) => Step::Done(CompoundUnitModel { upper, lower }, e),
                Step::Miss(f) => Step::Cut(f.push(fail(Rule::UnitRatio, i))),
                Step::Cut(f) => Step::Cut(f.push(fail(Rule::UnitRatio, i))),
            },
        },
        Step::Miss(f) => Step::Miss(f.push(fail(Rule::UnitRatio, i))),
        Step::Cut(f) => Step::Cut(f.push(fail(Rule::UnitRatio, i))),
    }
}

/// `unit_expr := unit_ratio`.
pub open spec fn unit_expr(s: Seq<char>, i: int) -> Step<CompoundUnitModel> {
    tag(unit_ratio(s, i), Rule::UnitExpr, i)
}

/// `value := num_expr [unit_expr]`.
pub open spec fn value(s: Seq<char>, i: int) -> Step<ValueModel> {
    match num_expr(s, i) {
        Step::Done(m, j) => match unit_expr(s, j) {
            Step::Done(u, k) => Step::Done(ValueModel { magnitude: m, unit: Some(u) }, k),
            Step::Miss(_) => Step::Done(ValueModel { magnitude: m, unit: None }, j),
            Step::Cut(f) => Step::Cut(f.push(fail(Rule::Value, i))),
        },
        Step::Miss(f) => Step::Miss(f.push(fail(Rule::Value, i))),
        Step::Cut(f) => Step::Cut(f.push(fail(Rule::Value, i))),
    }
}

/// One factor: a value, which is owed wherever a factor may stand.
pub open spec fn factor(s: Seq<char>, i: int) -> Step<ExprModel> {
    match value(s, i) {
        Step::Done(v, j) => Step::Done(ExprModel::Value(v), j),
        Step::Miss(f) => Step::Cut(f.push(fail(Rule::FactorsFollow, i))),
        Step::Cut(f) => Step::Cut(f.push(fail(Rule::FactorsFollow, i))),
    }
}

/// Further `"*" factor` pairs after the factors in `acc`.
pub open spec fn more_factors(s: Seq<char>, i: int, acc: Seq<ExprModel>) -> Step<Seq<ExprModel>>
    decreases s.len() - i,
{
    if char_at(s, i, '*') {
        match factor(s, i + 1) {
            Step::Done(x, j) => if i < j <= s.len() {
                more_factors(s, j, acc.push(x))
            } else {
                Step::Done(acc, i)
            },
            Step::Miss(f) => Step::Cut(f),
            Step::Cut(f) => Step::Cut(f),
        }
    } else {
        Step::Done(acc, i)
    }
}

/// `factors := factor ("*" factor)*`, always a product.
pub open spec fn factors(s: Seq<char>, i: int) -> Step<ExprModel> {
    match factor(s, i) {
        Step::Done(x, j) => match more_factors(s, j, seq![x]) {
            Step::Done(xs, k) => Step::Done(ExprModel::Product(xs), k),
            Step::Miss(f) => Step::Cut(f.push(fail(Rule::Factors, i))),
            Step::Cut(f) => Step::Cut(f.push(fail(Rule::Factors, i))),
        },
        Step::Miss(f) => Step::Cut(f.push(fail(Rule::Factors, i))),
        Step::Cut(f) => Step::Cut(f.push(fail(Rule::Factors, i))),
    }
}

/// One summand: a product, owed wherever a summand may stand.
pub open spec fn summand(s: Seq<char>, i: int) -> Step<ExprModel> {
    commit(factors(s, i), Rule::SummandsFollow, i)
}

/// Further `"+" summand` pairs after the summands in `acc`.
pub open spec fn more_summands(s: Seq<char>, i: int, acc: Seq<ExprModel>) -> Step<Seq<ExprModel>>
    decreases s.len() - i,
{
    if char_at(s, i, '+') {
        match summand(s, i + 1) {
            Step::Done(x, j) => if i < j <= s.len() {
                more_summands(s, j, acc.push(x))
            } else {
                Step::Done(acc, i)
            },
            Step::Miss(f) => Step::Cut(f),
            Step::Cut(f) => Step::Cut(f),
        }
    } else {
        Step::Done(acc, i)
    }
}

/// `summands := summand ("+" summand)*`, always a sum.
pub open spec fn summands(s: Seq<char>, i: int) -> Step<ExprModel> {
    match summand(s, i) {
        Step::Done(x, j) => match more_summands(s, j, seq![x]) {
            Step::Done(xs, k) => Step::Done(ExprModel::Sum(xs), k),
            Step::Miss(f) => Step::Cut(f.push(fail(Rule::Summands, i))),
            Step::Cut(f) => Step::Cut(f.push(fail(Rule::Summands, i))),
        },
        Step::Miss(f) => Step::Cut(f.push(fail(Rule::Summands, i))),
        Step::Cut(f) => Step::Cut(f.push(fail(Rule::Summands, i))),
    }
}

/// `input := summands`, read from the start of the text.
pub open spec fn input(s: Seq<char>) -> Step<ExprModel> {
    commit(summands(s, 0), Rule::Input, 0)
}

pub enum ParseErrorModel {
    Failed(Seq<Failure>),
    TrailingData(Seq<char>, ExprModel),
}

/// The whole text must be one expression; text left after it is an error
/// that carries the rest and what was read before it.
pub open spec fn parse_model(s: Seq<char>) -> Result<ExprModel, ParseErrorModel> {
    match input(s) {
        Step::Done(x, k) => if k == s.len() {
            Ok(x)
        } else {
            Err(ParseErrorModel::TrailingData(s.subrange(k, s.len() as int), x))
        },
        Step::Miss(f) => Err(ParseErrorModel::Failed(f)),
        Step::Cut(f) => Err(ParseErrorModel::Failed(f)),
    }
}

/// A run of ASCII digits that `char::is_numeric` accepts.
pub open spec fn numeral(d: Seq<char>) -> bool {
    d.len() > 0 && forall|k: int| 0 <= k < d.len() ==> numeric_char(#[trigger] d[k]) && is_ascii_digit(d[k])
}

proof fn lemma_digits_end_numeral(d: Seq<char>, rest: Seq<char>, k: int)
    requires
        numeral(d),
        0 <= k <= d.len(),
        rest.len() > 0,
        !numeric_char(rest[0]),
    ensures
        digits_end(d + rest, k) == d.len(),
    decreases d.len() - k,
{
    let s = d + rest;
    if k < d.len() {
        assert(s[k] == d[k]);
        lemma_digits_end_numeral(d, rest, k + 1);
    } else {
        assert(s[k] == rest[0]);
    }
}

proof fn lemma_num_expr_numeral(d: Seq<char>, rest: Seq<char>)
    requires
        numeral(d),
        rest.len() > 0,
        !numeric_char(rest[0]),
    ensures
        num_expr(d + rest, 0) == Step::Done(
            RationalModel { sign: Sign::Plus, top: decimal_value(d), bottom: 1 },
            d.len() as int,
        ),
{
    lemma_digits_end_numeral(d, rest, 0);
    assert((d + rest).subrange(0, d.len() as int) =~= d);
}

/// A number followed by a character that can neither continue it, give it a
/// unit, nor start another factor or summand is read as that number, and the
/// text from that character on is reported as trailing data.
pub proof fn law_trailing_after_number(d: Seq<char>, c: char, t: Seq<char>)
    requires
        numeral(d),
        !numeric_char(c),
        c != 'm' && c != 's' && c != '*' && c != '+',
    ensures
        parse_model(d + seq![c] + t) == Err::<ExprModel, ParseErrorModel>(
            ParseErrorModel::TrailingData(
                seq![c] + t,
                ExprModel::Sum(
                    seq![
                        ExprModel::Product(
                            seq![
                                ExprModel::Value(
                                    ValueModel {
                                        magnitude: RationalModel {
                                            sign: Sign::Plus,
                                            top: decimal_value(d),
                                            bottom: 1,
                                        },
                                        unit: None,
                                    },
                                ),
                            ],
                        ),
                    ],
                ),
            ),
        ),
{
    let rest = seq![c] + t;
    let s = d + rest;
    assert(d + seq![c] + t =~= s);
    let n = d.len() as int;
    assert(rest[0] == c);
    lemma_num_expr_numeral(d, rest);
    assert(s[n] == c);
    assert(simple_unit_at(s, n) is None);
    assert(si_unit(s, n) is Miss);
    assert(qualified_unit(s, n) is Miss);
    assert(unit_list(s, n) is Miss);
    assert(unit_ratio(s, n) is Miss);
    assert(unit_expr(s, n) is Miss);
    let v = ValueModel {
        magnitude: RationalModel { sign: Sign::Plus, top: decimal_value(d), bottom: 1 },
        unit: None,
    };
    assert(value(s, 0) == Step::Done(v, n));
    assert(factor(s, 0) == Step::Done(ExprModel::Value(v), n));
    assert(!char_at(s, n, '*'));
    assert(more_factors(s, n, seq![ExprModel::Value(v)]) == Step::Done(seq![ExprModel::Value(v)], n));
    let p = ExprModel::Product(seq![ExprModel::Value(v)]);
    assert(factors(s, 0) == Step::Done(p, n));
    assert(summand(s, 0) == Step::Done(p, n));
    assert(!char_at(s, n, '+'));
    assert(more_summands(s, n, seq![p]) == Step::Done(seq![p], n));
    assert(input(s) == Step::Done(ExprModel::Sum(seq![p]), n));
    assert(s.subrange(n, s.len() as int) =~= rest);
}

/// After a number, a unit and a `/`, a character that is no unit makes the
/// parse fail, with a stack that names the unit rules: the base unit, the
/// qualified unit and the ratio that it stands in, then the unit expression,
/// and then the enclosing rules out to the whole input.
#[verifier::rlimit(40)]
pub proof fn law_unknown_unit_after_separator(d: Seq<char>, u: char, c: char, t: Seq<char>)
    requires
        numeral(d),
        u == 'm' || u == 's',
        !numeric_char(u),
        c != 'm' && c != 's',
    ensures
        parse_model(d + seq![u, '/', c] + t) == Err::<ExprModel, ParseErrorModel>(
            ParseErrorModel::Failed(
                seq![
                    fail(Rule::SimpleUnit, d.len() as int + 2),
                    fail(Rule::SiUnit, d.len() as int + 2),
                    fail(Rule::QualifiedUnit, d.len() as int + 2),
                    fail(Rule::UnitRatio, d.len() as int),
                    fail(Rule::UnitExpr, d.len() as int),
                    fail(Rule::Value, 0),
                    fail(Rule::FactorsFollow, 0),
                    fail(Rule::Factors, 0),
                    fail(Rule::SummandsFollow, 0),
                    fail(Rule::Summands, 0),
                    fail(Rule::Input, 0),
                ],
            ),
        ),
{
    let rest = seq![u, '/', c] + t;
    let s = d + rest;
    assert(d + seq![u, '/', c] + t =~= s);
    let n = d.len() as int;
    assert(rest[0] == u);
    assert(s[n] == u);
    assert(s[n + 1] == '/');
    assert(s[n + 2] == c);
    lemma_num_expr_numeral(d, rest);
    assert(simple_unit_at(s, n + 1) is None);
    assert(si_unit(s, n) is Done);
    assert(si_unit(s, n)->Done_1 == n + 1);
    assert(simple_power(s, n + 1) is Miss);
    assert(qualified_unit(s, n) is Done);
    assert(simple_unit_at(s, n + 1) is None);
    assert(si_unit(s, n + 1) is Miss);
    assert(qualified_unit(s, n + 1) is Miss);
    assert(more_units(s, n + 1, seq![qualified_unit(s, n)->Done_0]) is Done);
    assert(unit_list(s, n) is Done);
    assert(unit_list(s, n)->Done_1 == n + 1);
    assert(separator_end(s, n + 1) == Some(n + 2));
    assert(simple_unit_at(s, n + 2) is None);
    let f1 = seq![fail(Rule::SimpleUnit, n + 2), fail(Rule::SiUnit, n + 2)];
    assert(si_unit(s, n + 2) == Step::<(SiPrefix, SimpleUnit)>::Miss(f1));
    let f2 = f1.push(fail(Rule::QualifiedUnit, n + 2));
    assert(unit_list(s, n + 2) == Step::<Seq<QualifiedUnit>>::Miss(f2));
    let f3 = f2.push(fail(Rule::UnitRatio, n));
    assert(unit_ratio(s, n) == Step::<CompoundUnitModel>::Cut(f3));
    let f4 = f3.push(fail(Rule::UnitExpr, n));
    assert(unit_expr(s, n) == Step::<CompoundUnitModel>::Cut(f4));
    let f5 = f4.push(fail(Rule::Value, 0));
    assert(value(s, 0) == Step::<ValueModel>::Cut(f5));
    let f6 = f5.push(fail(Rule::FactorsFollow, 0));
    assert(factor(s, 0) == Step::<ExprModel>::Cut(f6));
    let f7 = f6.push(fail(Rule::Factors, 0));
    assert(factors(s, 0) == Step::<ExprModel>::Cut(f7));
    let f8 = f7.push(fail(Rule::SummandsFollow, 0));
    let f9 = f8.push(fail(Rule::Summands, 0));
    assert(summands(s, 0) == Step::<ExprModel>::Cut(f9));
    let f10 = f9.push(fail(Rule::Input, 0));
    assert(f10 =~= seq![
        fail(Rule::SimpleUnit, d.len() as int + 2),
        fail(Rule::SiUnit, d.len() as int + 2),
        fail(Rule::QualifiedUnit, d.len() as int + 2),
        fail(Rule::UnitRatio, d.len() as int),
        fail(Rule::UnitExpr, d.len() as int),
        fail(Rule::Value, 0),
        fail(Rule::FactorsFollow, 0),
        fail(Rule::Factors, 0),
        fail(Rule::SummandsFollow, 0),
        fail(Rule::Summands, 0),
        fail(Rule::Input, 0),
    ]);
}

/// A character that no rule of the grammar reads: not numeric, no unit
/// letter, no operator, and no character of the ` per ` separator.
pub open spec fn foreign_char(c: char) -> bool {
    &&& !numeric_char(c)
    &&& c != 'm' && c != 's' && c != '^' && c != '-' && c != '/'
    &&& c != '*' && c != '+'
    &&& c != ' ' && c != 'p' && c != 'e' && c != 'r'
}

/// `s2` is `s` followed by a foreign character and possibly more.
spec fn foreign_extension(s: Seq<char>, s2: Seq<char>) -> bool {
    &&& s.len() < s2.len()
    &&& foreign_char(s2[s.len() as int])
    &&& forall|k: int| 0 <= k < s.len() ==> #[trigger] s2[k] == s[k]
}

spec fn step_end_within<T>(st: Step<T>, i: int, len: int) -> bool {
    st is Done ==> i <= st->Done_1 <= len
}

proof fn lemma_ext_char_at(s: Seq<char>, s2: Seq<char>, k: int, c: char)
    requires
        foreign_extension(s, s2),
        k <= s.len(),
        c == 'm' || c == 's' || c == '^' || c == '-' || c == '/' || c == '*' || c == '+',
    ensures
        char_at(s, k, c) == char_at(s2, k, c),
{
    if 0 <= k < s.len() {
        assert(s2[k] == s[k]);
    }
}

proof fn lemma_ext_digits_end(s: Seq<char>, s2: Seq<char>, i: int)
    requires
        foreign_extension(s, s2),
        0 <= i <= s.len(),
    ensures
        digits_end(s, i) == digits_end(s2, i),
        i <= digits_end(s, i) <= s.len(),
    decreases s.len() - i,
{
    if i < s.len() {
        assert(s2[i] == s[i]);
        lemma_ext_digits_end(s, s2, i + 1);
    }
}

proof fn lemma_ext_num_expr(s: Seq<char>, s2: Seq<char>, i: int)
    requires
        foreign_extension(s, s2),
        0 <= i <= s.len(),
    ensures
        num_expr(s, i) == num_expr(s2, i),
        step_end_within(num_expr(s, i), i, s.len() as int),
{
    lemma_ext_digits_end(s, s2, i);
    let e = digits_end(s, i);
    assert(s.subrange(i, e) =~= s2.subrange(i, e));
}

proof fn lemma_ext_si_unit(s: Seq<char>, s2: Seq<char>, i: int)
    requires
        foreign_extension(s, s2),
        0 <= i <= s.len(),
    ensures
        si_unit(s, i) == si_unit(s2, i),
        step_end_within(si_unit(s, i), i, s.len() as int),
{
    lemma_ext_char_at(s, s2, i, 'm');
    lemma_ext_char_at(s, s2, i, 's');
    if i + 1 <= s.len() {
        lemma_ext_char_at(s, s2, i + 1, 'm');
        lemma_ext_char_at(s, s2, i + 1, 's');
    }
}

proof fn lemma_ext_small_signed_int(s: Seq<char>, s2: Seq<char>, i: int)
    requires
        foreign_extension(s, s2),
        0 <= i <= s.len(),
    ensures
        small_signed_int(s, i) == small_signed_int(s2, i),
        step_end_within(small_signed_int(s, i), i, s.len() as int),
{
    lemma_ext_char_at(s, s2, i, '-');
    let j = if char_at(s, i, '-') {
        i + 1
    } else {
        i
    };
    lemma_ext_digits_end(s, s2, j);
    let e = digits_end(s, j);
    assert(s.subrange(j, e) =~= s2.subrange(j, e));
}

proof fn lemma_ext_simple_power(s: Seq<char>, s2: Seq<char>, i: int)
    requires
        foreign_extension(s, s2),
        0 <= i <= s.len(),
    ensures
        simple_power(s, i) == simple_power(s2, i),
        step_end_within(simple_power(s, i), i, s.len() as int),
{
    lemma_ext_char_at(s, s2, i, '^');
    if char_at(s, i, '^') {
        lemma_ext_small_signed_int(s, s2, i + 1);
    }
}

proof fn lemma_ext_qualified_unit(s: Seq<char>, s2: Seq<char>, i: int)
    requires
        foreign_extension(s, s2),
        0 <= i <= s.len(),
    ensures
        qualified_unit(s, i) == qualified_unit(s2, i),
        step_end_within(qualified_unit(s, i), i, s.len() as int),
{
    lemma_ext_si_unit(s, s2, i);
    if let Step::Done(_, j) = si_unit(s, i) {
        lemma_ext_simple_power(s, s2, j);
    }
}

proof fn lemma_ext_more_units(s: Seq<char>, s2: Seq<char>, i: int, acc: Seq<QualifiedUnit>)
    requires
        foreign_extension(s, s2),
        0 <= i <= s.len(),
    ensures
        more_units(s, i, acc) == more_units(s2, i, acc),
        step_end_within(more_units(s, i, acc), i, s.len() as int),
    decreases s.len() - i,
{
    lemma_ext_qualified_unit(s, s2, i);
    if let Step::Done(q, j) = qualified_unit(s, i) {
        if i < j {
            lemma_ext_more_units(s, s2, j, acc.push(q));
        }
    }
}

proof fn lemma_ext_unit_list(s: Seq<char>, s2: Seq<char>, i: int)
    requires
        foreign_extension(s, s2),
        0 <= i <= s.len(),
    ensures
        unit_list(s, i) == unit_list(s2, i),
        step_end_within(unit_list(s, i), i, s.len() as int),
{
    lemma_ext_qualified_unit(s, s2, i);
    if let Step::Done(q, j) = qualified_unit(s, i) {
        lemma_ext_more_units(s, s2, j, seq![q]);
    }
}

proof fn lemma_ext_separator_end(s: Seq<char>, s2: Seq<char>, j: int)
    requires
        foreign_extension(s, s2),
        0 <= j <= s.len(),
    ensures
        separator_end(s, j) == separator_end(s2, j),
        separator_end(s, j) is Some ==> separator_end(s, j)->Some_0 <= s.len(),
{
    lemma_ext_char_at(s, s2, j, '/');
    let per = seq![' ', 'p', 'e', 'r', ' '];
    if j + 5 <= s.len() {
        assert(s.subrange(j, j + 5) =~= s2.subrange(j, j + 5));
    } else if j + 5 <= s2.len() && s2.subrange(j, j + 5) == per {
        let d = s.len() - j;
        assert(s2.subrange(j, j + 5)[d] == s2[s.len() as int]);
        assert(per[d] == ' ' || per[d] == 'p' || per[d] == 'e' || per[d] == 'r');
    }
}

proof fn lemma_ext_unit_expr(s: Seq<char>, s2: Seq<char>, i: int)
    requires
        foreign_extension(s, s2),
        0 <= i <= s.len(),
    ensures
        unit_ratio(s, i) == unit_ratio(s2, i),
        unit_expr(s, i) == unit_expr(s2, i),
        step_end_within(unit_expr(s, i), i, s.len() as int),
{
    lemma_ext_unit_list(s, s2, i);
    if let Step::Done(_, j) = unit_list(s, i) {
        lemma_ext_separator_end(s, s2, j);
        if let Some(k) = separator_end(s, j) {
            lemma_ext_unit_list(s, s2, k);
        }
    }
}

proof fn lemma_ext_factor(s: Seq<char>, s2: Seq<char>, i: int)
    requires
        foreign_extension(s, s2),
        0 <= i <= s.len(),
    ensures
        value(s, i) == value(s2, i),
        factor(s, i) == factor(s2, i),
        step_end_within(factor(s, i), i, s.len() as int),
{
    lemma_ext_num_expr(s, s2, i);
    if let Step::Done(_, j) = num_expr(s, i) {
        lemma_ext_unit_expr(s, s2, j);
    }
}

proof fn lemma_ext_more_factors(s: Seq<char>, s2: Seq<char>, i: int, acc: Seq<ExprModel>)
    requires
        foreign_extension(s, s2),
        0 <= i <= s.len(),
    ensures
        more_factors(s, i, acc) == more_factors(s2, i, acc),
        step_end_within(more_factors(s, i, acc), i, s.len() as int),
    decreases s.len() - i,
{
    lemma_ext_char_at(s, s2, i, '*');
    if char_at(s, i, '*') {
        lemma_ext_factor(s, s2, i + 1);
        if let Step::Done(x, j) = factor(s, i + 1) {
            if i < j {
                lemma_ext_more_factors(s, s2, j, acc.push(x));
            }
        }
    }
}

proof fn lemma_ext_summand(s: Seq<char>, s2: Seq<char>, i: int)
    requires
        foreign_extension(s, s2),
        0 <= i <= s.len(),
    ensures
        factors(s, i) == factors(s2, i),
        summand(s, i) == summand(s2, i),
        step_end_within(summand(s, i), i, s.len() as int),
{
    lemma_ext_factor(s, s2, i);
    if let Step::Done(x, j) = factor(s, i) {
        lemma_ext_more_factors(s, s2, j, seq![x]);
    }
}

proof fn lemma_ext_more_summands(s: Seq<char>, s2: Seq<char>, i: int, acc: Seq<ExprModel>)
    requires
        foreign_extension(s, s2),
        0 <= i <= s.len(),
    ensures
        more_summands(s, i, acc) == more_summands(s2, i, acc),
        step_end_within(more_summands(s, i, acc), i, s.len() as int),
    decreases s.len() - i,
{
    lemma_ext_char_at(s, s2, i, '+');
    if char_at(s, i, '+') {
        lemma_ext_summand(s, s2, i + 1);
        if let Step::Done(x, j) = summand(s, i + 1) {
            if i < j {
                lemma_ext_more_summands(s, s2, j, acc.push(x));
            }
        }
    }
}

proof fn lemma_ext_input(s: Seq<char>, s2: Seq<char>)
    requires
        foreign_extension(s, s2),
    ensures
        input(s) == input(s2),
{
    lemma_ext_summand(s, s2, 0);
    if let Step::Done(x, j) = summand(s, 0) {
        lemma_ext_more_summands(s, s2, j, seq![x]);
    }
}

/// Text that reads as a whole expression, followed by a character that no
/// rule reads and then by anything, is reported as trailing data: the text
/// from that character on, and the same expression.
pub proof fn law_trailing_after_expression(t: Seq<char>, c: char, u: Seq<char>)
    requires
        parse_model(t) is Ok,
        foreign_char(c),
    ensures
        parse_model(t + seq![c] + u) == Err::<ExprModel, ParseErrorModel>(
            ParseErrorModel::TrailingData(seq![c] + u, parse_model(t)->Ok_0),
        ),
{
    let s2 = t + seq![c] + u;
    assert(s2[t.len() as int] == c);
    assert forall|k: int| 0 <= k < t.len() implies #[trigger] s2[k] == t[k] by {}
    lemma_ext_input(t, s2);
    assert(s2.subrange(t.len() as int, s2.len() as int) =~= seq![c] + u);
}

} // verus!
