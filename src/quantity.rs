//! Quantities: exact rational magnitudes with an optional compound SI unit.
use vstd::prelude::*;

use crate::bignum::{
    all_ascii_digits, big_add, big_eq, big_from_decimal, big_from_u64, big_mul, big_one, big_val,
    decimal_value, is_ascii_digit,
};
use num_bigint::BigUint;

verus! {

/// A base unit.
#[derive(Clone, Copy, Debug, PartialEq, Eq, Structural)]
pub enum SimpleUnit {
    Meter,
    Second,
}

/// A power-of-ten scaling of a base unit.
#[derive(Clone, Copy, Debug, PartialEq, Eq, Structural)]
pub enum SiPrefix {
    NoPrefix,
    TenToThe(i16),
}

/// One unit factor: prefix, base unit and integer power.
#[derive(Clone, Copy, Debug, PartialEq, Eq, Structural)]
pub struct QualifiedUnit {
    pub si_prefix: SiPrefix,
    pub simple_unit: SimpleUnit,
    pub power: i16,
}

/// The product of `upper` over the product of `lower`; order matters.
#[derive(Clone, Debug, PartialEq, Eq)]
pub struct CompoundUnit {
    pub upper: Vec<QualifiedUnit>,
    pub lower: Vec<QualifiedUnit>,
}

/// What a compound unit stands for: its two sequences of factors.
pub struct CompoundUnitModel {
    pub upper: Seq<QualifiedUnit>,
    pub lower: Seq<QualifiedUnit>,
}

impl View for CompoundUnit {
    type V = CompoundUnitModel;

    open spec fn view(&self) -> CompoundUnitModel {
        CompoundUnitModel { upper: self.upper@, lower: self.lower@ }
    }
}

pub open spec fn unit_model(u: Option<CompoundUnit>) -> Option<CompoundUnitModel> {
    match u {
        Some(c) => Some(c@),
        None => None,
    }
}

/// The sign of a fraction.
#[derive(Clone, Copy, Debug, PartialEq, Eq, Structural)]
pub enum Sign {
    Plus,
    Minus,
}

/// A fraction `top / bottom` with a sign, never reduced.
#[derive(Clone, Debug, PartialEq, Eq)]
pub struct Rational {
    pub sign: Sign,
    pub top: BigUint,
    pub bottom: BigUint,
}

/// What a fraction stands for: its sign and two natural numbers.
pub struct RationalModel {
    pub sign: Sign,
    pub top: nat,
    pub bottom: nat,
}

impl View for Rational {
    type V = RationalModel;

    open spec fn view(&self) -> RationalModel {
        RationalModel { sign: self.sign, top: big_val(self.top), bottom: big_val(self.bottom) }
    }
}

/// Addition is defined for two positive fractions over the same denominator.
pub open spec fn rational_add(a: RationalModel, b: RationalModel) -> Option<RationalModel> {
    if a.sign == Sign::Plus && b.sign == Sign::Plus && a.bottom == b.bottom {
        Some(RationalModel { sign: Sign::Plus, top: a.top + b.top, bottom: a.bottom })
    } else {
        None
    }
}

/// Multiplication is defined for two positive fractions.
pub open spec fn rational_mul(a: RationalModel, b: RationalModel) -> Option<RationalModel> {
    if a.sign == Sign::Plus && b.sign == Sign::Plus {
        Some(RationalModel { sign: Sign::Plus, top: a.top * b.top, bottom: a.bottom * b.bottom })
    } else {
        None
    }
}

pub open spec fn int_model(val: int) -> RationalModel {
    RationalModel {
        sign: if val < 0 { Sign::Minus } else { Sign::Plus },
        top: if val < 0 { (-val) as nat } else { val as nat },
        bottom: 1,
    }
}

impl Rational {
    /// The whole number written by a run of ASCII digits; `None` when the
    /// text holds anything else.
    pub fn int_from_str(digits: &str) -> (r: Option<Rational>)
        ensures
            digits@.len() > 0 && all_ascii_digits(digits@) ==> r.is_some() && r.unwrap()@
                == (RationalModel { sign: Sign::Plus, top: decimal_value(digits@), bottom: 1 }),
            (exists|k: int|
                0 <= k < digits@.len() && !is_ascii_digit(#[trigger] digits@[k]) && digits@[k]
                    != '_' && digits@[k] != '+') ==> r.is_none(),
    {
        match big_from_decimal(digits) {
            Some(top) => Some(Rational { sign: Sign::Plus, top, bottom: big_one() }),
            None => None,
        }
    }

    pub fn int_from_i64(val: i64) -> (r: Rational)
        ensures
            r@ == int_model(val as int),
    {
        let wide: i128 = val as i128;
        let (sign, pos) = if wide < 0 {
            (Sign::Minus, (-wide) as u64)
        } else {
            (Sign::Plus, wide as u64)
        };
        Rational { sign, top: big_from_u64(pos), bottom: big_one() }
    }

    /// Sum of two positive fractions over one denominator; `None` otherwise.
    pub fn add(self, rhs: Rational) -> (r: Option<Rational>)
        ensures
            match rational_add(self@, rhs@) {
                Some(m) => r.is_some() && r.unwrap()@ == m,
                None => r.is_none(),
            },
    {
        if self.sign == Sign::Plus && rhs.sign == Sign::Plus && big_eq(&self.bottom, &rhs.bottom) {
            Some(Rational { sign: self.sign, top: big_add(self.top, rhs.top), bottom: self.bottom })
        } else {
            None
        }
    }

    /// Product of two positive fractions, not reduced; `None` otherwise.
    pub fn mul(self, rhs: Rational) -> (r: Option<Rational>)
        ensures
            match rational_mul(self@, rhs@) {
                Some(m) => r.is_some() && r.unwrap()@ == m,
                None => r.is_none(),
            },
    {
        if self.sign == Sign::Plus && rhs.sign == Sign::Plus {
            Some(
                Rational {
                    sign: self.sign,
                    top: big_mul(self.top, rhs.top),
                    bottom: big_mul(self.bottom, rhs.bottom),
                },
            )
        } else {
            None
        }
    }
}

/// A magnitude.
#[derive(Clone, Debug, PartialEq, Eq)]
pub struct Num {
    pub real: Rational,
}

impl View for Num {
    type V = RationalModel;

    open spec fn view(&self) -> RationalModel {
        self.real@
    }
}

impl Num {
    /// The whole number written by a run of ASCII digits; `None` when the
    /// text holds anything else.
    pub fn from_digits(digits: &str) -> (r: Option<Num>)
        ensures
            digits@.len() > 0 && all_ascii_digits(digits@) ==> r.is_some() && r.unwrap()@
                == (RationalModel { sign: Sign::Plus, top: decimal_value(digits@), bottom: 1 }),
            (exists|k: int|
                0 <= k < digits@.len() && !is_ascii_digit(#[trigger] digits@[k]) && digits@[k]
                    != '_' && digits@[k] != '+') ==> r.is_none(),
    {
        match Rational::int_from_str(digits) {
            Some(q) => Some(Num { real: q }),
            None => None,
        }
    }

    pub fn add(self, rhs: Num) -> (r: Option<Num>)
        ensures
            match rational_add(self@, rhs@) {
                Some(m) => r.is_some() && r.unwrap()@ == m,
                None => r.is_none(),
            },
    {
        match self.real.add(rhs.real) {
            Some(q) => Some(Num { real: q }),
            None => None,
        }
    }

    pub fn mul(self, rhs: Num) -> (r: Option<Num>)
        ensures
            match rational_mul(self@, rhs@) {
                Some(m) => r.is_some() && r.unwrap()@ == m,
                None => r.is_none(),
            },
    {
        match self.real.mul(rhs.real) {
            Some(q) => Some(Num { real: q }),
            None => None,
        }
    }
}

/// A magnitude with an optional unit.
#[derive(Clone, Debug, PartialEq, Eq)]
pub struct Value {
    pub num: Num,
    pub unit: Option<CompoundUnit>,
}

/// What a value stands for: a fraction and an optional unit.
pub struct ValueModel {
    pub magnitude: RationalModel,
    pub unit: Option<CompoundUnitModel>,
}

impl View for Value {
    type V = ValueModel;

    open spec fn view(&self) -> ValueModel {
        ValueModel { magnitude: self.num@, unit: unit_model(self.unit) }
    }
}

/// Why a value could not be computed.
#[derive(Clone, Debug, PartialEq, Eq)]
pub enum EvalError {
    /// Two operands with different units, left operand first.
    UnitMismatch(Option<CompoundUnit>, Option<CompoundUnit>),
    /// A negative operand, or a sum over different denominators.
    UnsupportedArithmetic,
    /// A sum or product without operands.
    NoOperands,
}

/// What an evaluation error stands for.
pub enum EvalErrorModel {
    UnitMismatch(Option<CompoundUnitModel>, Option<CompoundUnitModel>),
    UnsupportedArithmetic,
    NoOperands,
}

impl View for EvalError {
    type V = EvalErrorModel;

    open spec fn view(&self) -> EvalErrorModel {
        match self {
            EvalError::UnitMismatch(a, b) => EvalErrorModel::UnitMismatch(
                unit_model(*a),
                unit_model(*b),
            ),
            EvalError::UnsupportedArithmetic => EvalErrorModel::UnsupportedArithmetic,
            EvalError::NoOperands => EvalErrorModel::NoOperands,
        }
    }
}

pub open spec fn value_result_model(r: Result<Value, EvalError>) -> Result<ValueModel, EvalErrorModel> {
    match r {
        Ok(v) => Ok(v@),
        Err(e) => Err(e@),
    }
}

/// Unit-checked sum of two values.
pub open spec fn value_plus(a: ValueModel, b: ValueModel) -> Result<ValueModel, EvalErrorModel> {
    if a.unit != b.unit {
        Err(EvalErrorModel::UnitMismatch(a.unit, b.unit))
    } else {
        match rational_add(a.magnitude, b.magnitude) {
            Some(m) => Ok(ValueModel { magnitude: m, unit: a.unit }),
            None => Err(EvalErrorModel::UnsupportedArithmetic),
        }
    }
}

/// Unit-checked product of two values: the units must be equal, as for sums.
pub open spec fn value_mul(a: ValueModel, b: ValueModel) -> Result<ValueModel, EvalErrorModel> {
    if a.unit != b.unit {
        Err(EvalErrorModel::UnitMismatch(a.unit, b.unit))
    } else {
        match rational_mul(a.magnitude, b.magnitude) {
            Some(m) => Ok(ValueModel { magnitude: m, unit: a.unit }),
            None => Err(EvalErrorModel::UnsupportedArithmetic),
        }
    }
}

fn same_units(a: &Vec<QualifiedUnit>, b: &Vec<QualifiedUnit>) -> (r: bool)
    ensures
        r == (a@ == b@),
{
    if a.len() != b.len() {
        return false;
    }
    let mut i: usize = 0;
    while i < a.len()
        invariant
            a.len() == b.len(),
            i <= a.len(),
            a@.subrange(0, i as int) == b@.subrange(0, i as int),
        decreases a.len() - i,
    {
        if a[i] != b[i] {
            assert(a@.subrange(0, i as int + 1)[i as int] != b@.subrange(0, i as int + 1)[i as int]);
            return false;
        }
        assert(a@.subrange(0, i as int + 1) =~= a@.subrange(0, i as int).push(a@[i as int]));
        assert(b@.subrange(0, i as int + 1) =~= b@.subrange(0, i as int).push(b@[i as int]));
        i = i + 1;
    }
    assert(a@ =~= a@.subrange(0, i as int));
    assert(b@ =~= b@.subrange(0, i as int));
    true
}

/// Structural equality of two optional units.
pub fn same_unit(a: &Option<CompoundUnit>, b: &Option<CompoundUnit>) -> (r: bool)
    ensures
        r == (unit_model(*a) == unit_model(*b)),
{
    match (a, b) {
        (Some(x), Some(y)) => same_units(&x.upper, &y.upper) && same_units(&x.lower, &y.lower),
        (None, None) => true,
        _ => false,
    }
}

impl Value {
    /// A whole number without a unit.
    pub fn from_int(val: i64) -> (r: Value)
        ensures
            r@ == (ValueModel { magnitude: int_model(val as int), unit: None }),
    {
        Value { num: Num { real: Rational::int_from_i64(val) }, unit: None }
    }

    pub fn plus(self, other: Value) -> (r: Result<Value, EvalError>)
        ensures
            value_result_model(r) == value_plus(self@, other@),
    {
        if same_unit(&other.unit, &self.unit) {
            match self.num.add(other.num) {
                Some(num) => Ok(Value { num, unit: self.unit }),
                None => Err(EvalError::UnsupportedArithmetic),
            }
        } else {
            Err(EvalError::UnitMismatch(self.unit, other.unit))
        }
    }

    pub fn mul(self, other: Value) -> (r: Result<Value, EvalError>)
        ensures
            value_result_model(r) == value_mul(self@, other@),
    {
        if same_unit(&other.unit, &self.unit) {
            match self.num.mul(other.num) {
                Some(num) => Ok(Value { num, unit: self.unit }),
                None => Err(EvalError::UnsupportedArithmetic),
            }
        } else {
            Err(EvalError::UnitMismatch(self.unit, other.unit))
        }
    }
}

} // verus!
