use vstd::prelude::*;

use crate::error::RollError;

verus! {

/// One die: the face it landed on, and whether it counts toward the total.
#[derive(Clone, Copy, Debug, PartialEq, Eq, Structural, PartialOrd, Ord, Hash)]
pub struct Roll {
    /// The face the die landed on.
    pub result: u32,
    /// Whether the die counts toward the total.
    pub keep: bool,
}

/// What evaluating an expression gives: every die rolled, in order, and the total.
#[derive(Clone, Debug)]
pub struct Output {
    /// The dice, in the order they were rolled.
    pub rolls: Vec<Roll>,
    /// The value of the expression.
    pub total: i32,
}

/// The model of an `Output`: its dice and its total.
pub type Tally = (Seq<Roll>, i32);

impl View for Output {
    type V = Tally;

    open spec fn view(&self) -> Tally {
        (self.rolls@, self.total)
    }
}

/// The model of an evaluation's result.
pub open spec fn tally_of(r: Result<Output, RollError>) -> Result<Tally, RollError> {
    match r {
        Ok(o) => Ok(o@),
        Err(e) => Err(e),
    }
}

/// The `i32` that is congruent to `x` modulo 2^32 (two's complement wrap-around).
pub open spec fn wrap32(x: int) -> i32 {
    let m = x % 0x1_0000_0000;
    if m > i32::MAX {
        (m - 0x1_0000_0000) as i32
    } else {
        m as i32
    }
}

/// Truncating division of integers (rounds toward zero), `b != 0`.
pub open spec fn quot(a: int, b: int) -> int {
    let n = if a < 0 { -a } else { a };
    let m = if b < 0 { -b } else { b };
    if (a < 0) == (b < 0) { n / m } else { -(n / m) }
}

/// The remainder that goes with `quot`: it has the sign of `a`.
pub open spec fn rem(a: int, b: int) -> int {
    a - b * quot(a, b)
}

/// `a + b`, wrapping around on overflow.
pub open spec fn plus(a: Tally, b: Tally) -> Tally {
    (a.0 + b.0, wrap32(a.1 + b.1))
}

/// `a - b`, wrapping around on overflow.
pub open spec fn minus(a: Tally, b: Tally) -> Tally {
    (a.0 + b.0, wrap32(a.1 - b.1))
}

/// `a * b`, wrapping around on overflow.
pub open spec fn times(a: Tally, b: Tally) -> Tally {
    (a.0 + b.0, wrap32(a.1 * b.1))
}

/// `a / b`, truncating; fails on a zero divisor.
pub open spec fn over(a: Tally, b: Tally) -> Result<Tally, RollError> {
    if b.1 == 0 {
        Err(RollError::DivideByZero)
    } else {
        Ok((a.0 + b.0, wrap32(quot(a.1 as int, b.1 as int))))
    }
}

/// `a % b`, with the sign of `a`; fails on a zero divisor.
pub open spec fn modulo(a: Tally, b: Tally) -> Result<Tally, RollError> {
    if b.1 == 0 {
        Err(RollError::DivideByZero)
    } else {
        Ok((a.0 + b.0, wrap32(rem(a.1 as int, b.1 as int))))
    }
}

/// Wraps a 64-bit value into `i32`.
pub fn wrap_i64(x: i64) -> (r: i32)
    ensures
        r == wrap32(x as int),
{
    let m: i64 = x % 0x1_0000_0000;
    let m: i64 = if m < 0 { m + 0x1_0000_0000 } else { m };
    assert(m == (x as int) % 0x1_0000_0000);
    if m > 0x7fff_ffff {
        (m - 0x1_0000_0000) as i32
    } else {
        m as i32
    }
}

impl Output {
    /// A plain number: no dice, the number as total.
    pub fn of_num(num: i32) -> (r: Output)
        ensures
            r@ == (Seq::<Roll>::empty(), num),
    {
        Output { rolls: Vec::new(), total: num }
    }

    /// Passes the output on if its total exceeds `test`.
    pub fn check_greater_than(self, test: i32) -> (r: Result<Output, RollError>)
        ensures
            self.total > test ==> r == Ok::<Output, RollError>(self),
            self.total <= test ==> r == Err::<Output, RollError>(RollError::InvalidExpression),
    {
        if self.total > test {
            Ok(self)
        } else {
            Err(RollError::InvalidExpression)
        }
    }

    /// The dice of `left` followed by those of `right`, with the given total.
    pub fn infix(left: Output, right: Output, total: i32) -> (r: Output)
        ensures
            r@ == (left.rolls@ + right.rolls@, total),
    {
        let mut rolls = left.rolls;
        let mut more = right.rolls;
        rolls.append(&mut more);
        Output { rolls, total }
    }

    /// Adds two outputs.
    pub fn sum(self, rhs: Output) -> (r: Output)
        ensures
            r@ == plus(self@, rhs@),
    {
        let total = wrap_i64(self.total as i64 + rhs.total as i64);
        Output::infix(self, rhs, total)
    }

    /// Subtracts `rhs` from `self`.
    pub fn difference(self, rhs: Output) -> (r: Output)
        ensures
            r@ == minus(self@, rhs@),
    {
        let total = wrap_i64(self.total as i64 - rhs.total as i64);
        Output::infix(self, rhs, total)
    }

    /// Multiplies two outputs.
    pub fn product(self, rhs: Output) -> (r: Output)
        ensures
            r@ == times(self@, rhs@),
    {
        let a = self.total as i64;
        let b = rhs.total as i64;
        assert(-0x4000_0000_0000_0000 <= a * b <= 0x4000_0000_0000_0000) by (nonlinear_arith)
            requires
                -0x8000_0000 <= a < 0x8000_0000,
                -0x8000_0000 <= b < 0x8000_0000,
        ;
        let total = wrap_i64(a * b);
        Output::infix(self, rhs, total)
    }

    /// Divides `self` by `rhs`, rounding toward zero.
    pub fn quotient(self, rhs: Output) -> (r: Result<Output, RollError>)
        ensures
            tally_of(r) == over(self@, rhs@),
    {
        if rhs.total == 0 {
            return Err(RollError::DivideByZero);
        }
        let a = self.total as i64;
        let b = rhs.total as i64;
        let n: i64 = if a < 0 { -a } else { a };
        let m: i64 = if b < 0 { -b } else { b };
        let q: i64 = n / m;
        assert(0 <= q <= n) by (nonlinear_arith)
            requires
                q == n / m,
                0 <= n,
                1 <= m,
        ;
        let q: i64 = if (a < 0) == (b < 0) { q } else { -q };
        let total = wrap_i64(q);
        Ok(Output::infix(self, rhs, total))
    }

    /// The remainder of `self` divided by `rhs`, with the sign of `self`.
    pub fn remainder(self, rhs: Output) -> (r: Result<Output, RollError>)
        ensures
            tally_of(r) == modulo(self@, rhs@),
    {
        if rhs.total == 0 {
            return Err(RollError::DivideByZero);
        }
        let a = self.total as i64;
        let b = rhs.total as i64;
        let n: i64 = if a < 0 { -a } else { a };
        let m: i64 = if b < 0 { -b } else { b };
        let qa: i64 = n / m;
        assert(0 <= qa <= n && 0 <= m * qa <= n) by (nonlinear_arith)
            requires
                qa == n / m,
                0 <= n,
                1 <= m,
        ;
        let q: i64 = if (a < 0) == (b < 0) { qa } else { -qa };
        assert(b * q == m * qa || b * q == -(m * qa)) by (nonlinear_arith)
            requires
                b == m || b == -m,
                q == qa || q == -qa,
        ;
        let total = wrap_i64(a - b * q);
        Ok(Output::infix(self, rhs, total))
    }
}

} // verus!
