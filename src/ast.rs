//! The expression tree and its meaning over 64-bit signed integers.
use vstd::prelude::*;

verus! {

/// A binary arithmetic operator.
#[derive(Debug, Clone, Copy, PartialEq, Eq, Structural)]
pub enum BinOp {
    Add,
    Sub,
    Mul,
    Div,
}

/// An expression: an integer leaf, or an operator that owns its two operands.
#[derive(Debug, PartialEq, Eq)]
pub enum Expr {
    Integer(i64),
    BinaryOp { op: BinOp, left: Box<Expr>, right: Box<Expr> },
}

/// The smallest 64-bit signed value.
pub open spec fn i64_min() -> int {
    -0x8000_0000_0000_0000
}

/// The largest 64-bit signed value.
pub open spec fn i64_max() -> int {
    0x7fff_ffff_ffff_ffff
}

/// Two's-complement wrapping of a mathematical integer into 64 bits.
pub open spec fn wrap(x: int) -> i64 {
    let m = x % 0x1_0000_0000_0000_0000;
    if m > i64_max() {
        (m - 0x1_0000_0000_0000_0000) as i64
    } else {
        m as i64
    }
}

/// Integer division that truncates toward zero.
pub open spec fn div_trunc(a: int, b: int) -> int {
    let q = abs(a) / abs(b);
    if (a < 0) != (b < 0) {
        -q
    } else {
        q
    }
}

pub open spec fn abs(x: int) -> int {
    if x < 0 {
        -x
    } else {
        x
    }
}

/// Whether dividing `a` by `b` traps: a zero divisor, or a quotient that does
/// not fit in 64 bits.
pub open spec fn div_traps(a: i64, b: i64) -> bool {
    b == 0 || (a == i64_min() && b == -1)
}

/// The value of one operator on two 64-bit operands: add, subtract and
/// multiply wrap; divide truncates toward zero, and has no value where it traps.
pub open spec fn apply(op: BinOp, a: i64, b: i64) -> Option<i64> {
    match op {
        BinOp::Add => Some(wrap(a + b)),
        BinOp::Sub => Some(wrap(a - b)),
        BinOp::Mul => Some(wrap(a * b)),
        BinOp::Div => if div_traps(a, b) {
            None
        } else {
            Some(div_trunc(a as int, b as int) as i64)
        },
    }
}

/// The value of an expression, or `None` where a division in it traps.
pub open spec fn eval(e: Expr) -> Option<i64>
    decreases e,
{
    match e {
        Expr::Integer(n) => Some(n),
        Expr::BinaryOp { op, left, right } => match (eval(*left), eval(*right)) {
            (Some(a), Some(b)) => apply(op, a, b),
            _ => None,
        },
    }
}

} // verus!
