//! Physical-quantity expressions: a parser from text to an expression tree and
//! an evaluator over exact, unreduced rational magnitudes with SI units.
pub mod bignum;
pub mod quantity;
pub mod eval;
pub mod grammar;
pub mod parse;

pub use eval::{eval, fodl, Expr};
pub use grammar::{digit, Failure, Rule};
pub use parse::{parse_expr, ParseError};
pub use quantity::{
    CompoundUnit, EvalError, Num, QualifiedUnit, Rational, Sign, SiPrefix, SimpleUnit, Value,
};
