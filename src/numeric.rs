//! Exact comparison of integers and fractions.
use crate::value::{Fraction, Value};
use vstd::prelude::*;

verus! {

/// A number as it occurs in a schema literal or an instance.
#[derive(Debug, Clone, Copy, PartialEq, Eq, Structural)]
pub enum Numeric {
    Int(i128),
    Frac(Fraction),
}

impl Numeric {
    /// The number is `numer() / denom()`.
    pub open spec fn numer(self) -> int {
        match self {
            Numeric::Int(n) => n as int,
            Numeric::Frac(f) => f.numer as int,
        }
    }

    pub open spec fn denom(self) -> int {
        match self {
            Numeric::Int(_) => 1,
            Numeric::Frac(f) => f.denom as int,
        }
    }

    pub open spec fn is_int(self) -> bool {
        self is Int
    }
}

/// `x < y`, by cross multiplication.
pub open spec fn num_lt(x: Numeric, y: Numeric) -> bool {
    x.numer() * y.denom() < y.numer() * x.denom()
}

/// `x == y` as numbers, by cross multiplication.
pub open spec fn num_eq(x: Numeric, y: Numeric) -> bool {
    x.numer() * y.denom() == y.numer() * x.denom()
}

pub open spec fn num_le(x: Numeric, y: Numeric) -> bool {
    num_lt(x, y) || num_eq(x, y)
}

/// The number an instance holds, if it holds one (a fraction with a zero
/// denominator is none).
pub open spec fn numeric_of(v: Value) -> Option<Numeric> {
    match v {
        Value::Integer(n) => Some(Numeric::Int(n)),
        Value::Float(f) => if f.denom > 0 {
            Some(Numeric::Frac(f))
        } else {
            None
        },
        _ => None,
    }
}

/// The number an instance holds, if it holds one.
pub fn value_numeric(v: &Value) -> (r: Option<Numeric>)
    ensures
        r == numeric_of(*v),
{
    match v {
        Value::Integer(n) => Some(Numeric::Int(*n)),
        Value::Float(f) => if f.denom > 0 {
            Some(Numeric::Frac(*f))
        } else {
            None
        },
        _ => None,
    }
}

fn sign_of(a: i128, b: i128) -> (r: i8)
    ensures
        (r < 0) == (a < b),
        (r == 0) == (a == b),
        (r > 0) == (a > b),
{
    if a < b {
        -1
    } else if a == b {
        0
    } else {
        1
    }
}

/// `n * d` against `m`, for a fraction `m / d` and an integer `n`.
fn compare_int_frac(n: i128, f: Fraction) -> (r: i8)
    ensures
        (r < 0) == (n * f.denom < f.numer as int),
        (r == 0) == (n * f.denom == f.numer as int),
        (r > 0) == (n * f.denom > f.numer as int),
{
    let lo: i128 = -0x8000_0000_0000_0000;
    let hi: i128 = 0x8000_0000_0000_0000;
    if lo <= n && n <= hi {
        assert(-0x8000_0000_0000_0000_0000_0000_0000_0000 <= n * f.denom
            <= 0x7fff_ffff_ffff_ffff_ffff_ffff_ffff_ffff) by (nonlinear_arith)
            requires
                lo <= n <= hi,
                lo == -0x8000_0000_0000_0000,
                hi == 0x8000_0000_0000_0000,
                0 <= f.denom <= 0xffff_ffff_ffff_ffff,
        ;
        sign_of(n * (f.denom as i128), f.numer as i128)
    } else if f.denom == 0 {
        assert(n * f.denom == 0) by (nonlinear_arith)
            requires
                f.denom == 0,
        ;
        sign_of(0, f.numer as i128)
    } else if n > hi {
        assert(n * f.denom >= n) by (nonlinear_arith)
            requires
                n > 0,
                f.denom >= 1,
        ;
        1
    } else {
        assert(n * f.denom <= n) by (nonlinear_arith)
            requires
                n < 0,
                f.denom >= 1,
        ;
        -1
    }
}

/// Compares two numbers exactly: negative, zero or positive as `x` is below,
/// equal to or above `y`.
pub fn compare(x: Numeric, y: Numeric) -> (r: i8)
    ensures
        (r < 0) == num_lt(x, y),
        (r == 0) == num_eq(x, y),
        (r > 0) == num_lt(y, x),
{
    match (x, y) {
        (Numeric::Int(a), Numeric::Int(b)) => sign_of(a, b),
        (Numeric::Frac(f), Numeric::Frac(g)) => {
            assert(-0x8000_0000_0000_0000_0000_0000_0000_0000 <= f.numer * g.denom
                <= 0x7fff_ffff_ffff_ffff_ffff_ffff_ffff_ffff) by (nonlinear_arith)
                requires
                    -0x8000_0000_0000_0000 <= f.numer <= 0x7fff_ffff_ffff_ffff,
                    0 <= g.denom <= 0xffff_ffff_ffff_ffff,
            ;
            assert(-0x8000_0000_0000_0000_0000_0000_0000_0000 <= g.numer * f.denom
                <= 0x7fff_ffff_ffff_ffff_ffff_ffff_ffff_ffff) by (nonlinear_arith)
                requires
                    -0x8000_0000_0000_0000 <= g.numer <= 0x7fff_ffff_ffff_ffff,
                    0 <= f.denom <= 0xffff_ffff_ffff_ffff,
            ;
            sign_of(
                (f.numer as i128) * (g.denom as i128),
                (g.numer as i128) * (f.denom as i128),
            )
        },
        (Numeric::Int(a), Numeric::Frac(g)) => compare_int_frac(a, g),
        (Numeric::Frac(f), Numeric::Int(b)) => {
            let s = compare_int_frac(b, f);
            if s < 0 {
                1
            } else if s == 0 {
                0
            } else {
                -1
            }
        },
    }
}

} // verus!
