use vstd::prelude::*;

use crate::ast::{DiceRoll, Expression, Factor, MulOp, Product, RollExpr, Sum, Term};
use crate::error::RollError;
use crate::eval::{
    count_outcome, dice_outcome, drop_clause, drop_outcome, expr_outcome, factor_outcome, fits,
    fresh, keep_clause, keep_outcome, product_outcome, roll_expr_outcome, sum_outcome, term_outcome,
};
use crate::keep::kept_sum;
use crate::output::{wrap32, Roll, Tally};
use crate::parser::{
    at, blank_run, digit_run, digits_value, dice_roll, drop, expression, factor, is_digit, keep,
    nested, number, parse_text, product, roll_expr, sum, term,
};
use crate::render::{decimal, digit_char};

verus! {

/// `NdS`: one roll of `n` dice with `s` sides, written with literals.
pub open spec fn plain_roll(n: u32, s: u32) -> Expression {
    Expression {
        term: Box::new(
            Term {
                factor: Box::new(
                    Factor::DiceRoll(
                        Box::new(
                            DiceRoll {
                                count: Some(Box::new(RollExpr::Number(n))),
                                sides: Box::new(RollExpr::Number(s)),
                                keep: None,
                                drop: None,
                            },
                        ),
                    ),
                ),
                product: None,
            },
        ),
        sum: None,
    }
}

/// The text `NdS`: `n` and `s` in decimal around a `d`.
pub open spec fn dice_notation(n: u32, s: u32) -> Seq<char> {
    decimal(n as nat) + seq!['d'] + decimal(s as nat)
}

proof fn lemma_decimal_digits(n: nat)
    ensures
        decimal(n).len() >= 1,
        forall|i: int| 0 <= i < decimal(n).len() ==> is_digit(#[trigger] decimal(n)[i]),
    decreases n,
{
    if n >= 10 {
        lemma_decimal_digits(n / 10);
        assert forall|i: int| 0 <= i < decimal(n).len() implies is_digit(#[trigger] decimal(n)[i]) by {
            if i < decimal(n / 10).len() {
                assert(decimal(n)[i] == decimal(n / 10)[i]);
            }
        }
    }
}

proof fn lemma_digit_run(t: Seq<char>, p: int, q: int)
    requires
        0 <= p <= q <= t.len(),
        forall|j: int| p <= j < q ==> is_digit(#[trigger] t[j]),
        q == t.len() || !is_digit(t[q]),
    ensures
        digit_run(t, p) == q - p,
    decreases q - p,
{
    if p < q {
        lemma_digit_run(t, p + 1, q);
    }
}

proof fn lemma_digits_value(t: Seq<char>, p: int, n: nat)
    requires
        0 <= p,
        p + decimal(n).len() <= t.len(),
        forall|i: int| 0 <= i < decimal(n).len() ==> t[p + i] == #[trigger] decimal(n)[i],
    ensures
        digits_value(t, p, p + decimal(n).len()) == n,
    decreases n,
{
    let len = decimal(n).len() as int;
    if n < 10 {
        assert(t[p] == decimal(n)[0]);
        assert(digits_value(t, p, p) == 0);
    } else {
        let head = decimal(n / 10);
        assert forall|i: int| 0 <= i < head.len() implies t[p + i] == #[trigger] head[i] by {
            assert(decimal(n)[i] == head[i]);
        }
        lemma_digits_value(t, p, n / 10);
        assert(t[p + len - 1] == decimal(n)[len - 1]);
        assert(decimal(n)[len - 1] == digit_char(n % 10));
    }
}

/// A number written in decimal at `p` and followed by no digit reads back
/// as itself.
proof fn lemma_number(t: Seq<char>, p: int, n: u32)
    requires
        0 <= p,
        p + decimal(n as nat).len() <= t.len(),
        forall|i: int| 0 <= i < decimal(n as nat).len() ==> t[p + i] == #[trigger] decimal(n as nat)[i],
        p + decimal(n as nat).len() == t.len() || !is_digit(t[p + decimal(n as nat).len()]),
    ensures
        number(t, p) == Some((n, p + decimal(n as nat).len())),
        !at(t, p, '('),
        !at(t, p, '-'),
        !at(t, p, ' ') && !at(t, p, '\t'),
{
    let q = p + decimal(n as nat).len();
    lemma_decimal_digits(n as nat);
    assert forall|j: int| p <= j < q implies is_digit(#[trigger] t[j]) by {
        assert(t[p + (j - p)] == decimal(n as nat)[j - p]);
    }
    lemma_digit_run(t, p, q);
    lemma_digits_value(t, p, n as nat);
    assert(is_digit(t[p]));
}

/// `NdS` parses as one dice roll of `n` dice with `s` sides.
pub proof fn lemma_parse_dice_notation(n: u32, s: u32)
    ensures
        parse_text(dice_notation(n, s)) == Some(plain_roll(n, s)),
{
    let t = dice_notation(n, s);
    let dn = decimal(n as nat);
    let ds = decimal(s as nat);
    let a = dn.len() as int;
    let len = t.len() as int;
    lemma_decimal_digits(n as nat);
    lemma_decimal_digits(s as nat);
    assert(t[a] == 'd');
    assert(len == a + 1 + ds.len());
    assert forall|i: int| 0 <= i < dn.len() implies t[0 + i] == #[trigger] dn[i] by {}
    lemma_number(t, 0, n);
    assert forall|i: int| 0 <= i < ds.len() implies t[(a + 1) + i] == #[trigger] ds[i] by {}
    lemma_number(t, a + 1, s);
    assert(blank_run(t, 0) == 0);
    assert(nested(t, 0) is None);
    assert(roll_expr(t, 0) == Some((RollExpr::Number(n), a)));
    assert(nested(t, a + 1) is None);
    assert(roll_expr(t, a + 1) == Some((RollExpr::Number(s), len)));
    assert(keep(t, len) is None);
    assert(drop(t, len) is None);
    let dr = DiceRoll {
        count: Some(Box::new(RollExpr::Number(n))),
        sides: Box::new(RollExpr::Number(s)),
        keep: None,
        drop: None,
    };
    assert(dice_roll(t, 0) == Some((dr, len)));
    assert(factor(t, 0) == Some((Factor::DiceRoll(Box::new(dr)), len)));
    assert(blank_run(t, len) == 0);
    assert(product(t, len) is None);
    assert(term(t, 0) == Some((Term { factor: Box::new(Factor::DiceRoll(Box::new(dr))), product: None }, len)));
    assert(sum(t, len) is None);
    assert(expression(t, 0) == Some((plain_roll(n, s), len)));
}

proof fn lemma_wrap32_small(x: int)
    requires
        i32::MIN <= x <= i32::MAX,
    ensures
        wrap32(x) == x,
{
}

proof fn lemma_kept_sum_bounds(rs: Seq<Roll>, s: int)
    requires
        forall|i: int| #![trigger rs[i]] 0 <= i < rs.len() ==> rs[i].keep && 1 <= rs[i].result <= s,
    ensures
        rs.len() <= kept_sum(rs) <= rs.len() * s,
    decreases rs.len(),
{
    if rs.len() > 0 {
        let init = rs.drop_last();
        assert forall|i: int| #![trigger init[i]] 0 <= i < init.len() implies init[i].keep && 1 <= init[i].result <= s by {
            assert(init[i] == rs[i]);
            assert(rs[i].keep && 1 <= rs[i].result <= s);
        }
        lemma_kept_sum_bounds(init, s);
        assert(rs.last() == rs[rs.len() - 1]);
        assert((rs.len() - 1) * s + s == rs.len() * s) by (nonlinear_arith);
    }
}

/// The text `NdS` (`n >= 1`, `s >= 2`, `n * s` within `i32`) parses as one
/// dice roll, and evaluating it gives `n` dice and a total between `n` and
/// `n * s`, whatever faces the dice show.
pub proof fn law_roll_total_bounds(n: u32, s: u32, d: Seq<u32>, k: int)
    requires
        1 <= n,
        2 <= s,
        n * s <= i32::MAX,
        expr_outcome(plain_roll(n, s), d, k) is Some,
    ensures
        parse_text(dice_notation(n, s)) == Some(plain_roll(n, s)),
        expr_outcome(plain_roll(n, s), d, k) matches Some((Ok(t), _)) && t.0.len() == n && n <= t.1 <= n * s,
{
    lemma_parse_dice_notation(n, s);
    assert(n <= n * s) by (nonlinear_arith)
        requires
            2 <= s,
    ;
    assert(s <= n * s) by (nonlinear_arith)
        requires
            1 <= n,
    ;
    lemma_wrap32_small(n as int);
    lemma_wrap32_small(s as int);
    let e = plain_roll(n, s);
    let r = *(*e.term).factor;
    let dr = DiceRoll {
        count: Some(Box::new(RollExpr::Number(n))),
        sides: Box::new(RollExpr::Number(s)),
        keep: None,
        drop: None,
    };
    assert(count_outcome(dr.count, d, k) == Some((Ok::<Tally, RollError>((Seq::<Roll>::empty(), n as i32)), k)));
    assert(roll_expr_outcome(*dr.sides, d, k) == Some((Ok::<Tally, RollError>((Seq::<Roll>::empty(), s as i32)), k)));
    assert(dice_outcome(dr, d, k) is Some);
    assert(fits(d, k, n as int, s as int));
    let rolls = fresh(d, k, n as int);
    assert(keep_clause(dr.keep, rolls, d, k + n) == Some((Ok::<Seq<Roll>, RollError>(rolls), k + n)));
    assert(drop_clause(dr.drop, rolls, d, k + n) == Some((Ok::<Seq<Roll>, RollError>(rolls), k + n)));
    assert forall|i: int| #![trigger rolls[i]] 0 <= i < rolls.len() implies rolls[i].keep && 1 <= rolls[i].result <= s by {
        assert(1 <= d[k + i] <= s);
    }
    lemma_kept_sum_bounds(rolls, s as int);
    lemma_wrap32_small(kept_sum(rolls));
}

// Dice-free expressions: no dice roll anywhere in the tree.

pub open spec fn expr_free(e: Expression) -> bool
    decreases e,
{
    term_free(*e.term) && match e.sum {
        Some(s) => sum_free(*s),
        None => true,
    }
}

pub open spec fn sum_free(s: Sum) -> bool
    decreases s,
{
    term_free(*s.right) && match s.extra {
        Some(x) => sum_free(*x),
        None => true,
    }
}

pub open spec fn term_free(t: Term) -> bool
    decreases t,
{
    factor_free(*t.factor) && match t.product {
        Some(p) => product_free(*p),
        None => true,
    }
}

pub open spec fn product_free(p: Product) -> bool
    decreases p,
{
    factor_free(p.right) && match p.extra {
        Some(x) => product_free(*x),
        None => true,
    }
}

pub open spec fn factor_free(f: Factor) -> bool
    decreases f,
{
    match f {
        Factor::Integer(_) => true,
        Factor::Expression(e) => expr_free(*e),
        Factor::DiceRoll(_) => false,
    }
}

/// Two evaluations that give the same result and use no face.
pub open spec fn steady(
    a: Option<(Result<Tally, RollError>, int)>,
    b: Option<(Result<Tally, RollError>, int)>,
    k1: int,
    k2: int,
) -> bool {
    &&& a is Some
    &&& b is Some
    &&& (a->0).0 == (b->0).0
    &&& (a->0).1 == k1
    &&& (b->0).1 == k2
}

proof fn lemma_expr_steady(e: Expression, d1: Seq<u32>, k1: int, d2: Seq<u32>, k2: int)
    requires
        expr_free(e),
    ensures
        steady(expr_outcome(e, d1, k1), expr_outcome(e, d2, k2), k1, k2),
    decreases e,
{
    lemma_term_steady(*e.term, d1, k1, d2, k2);
    let t = term_outcome(*e.term, d1, k1);
    if let Some(s) = e.sum {
        if let Ok(v) = (t->0).0 {
            lemma_sum_steady(*s, v, d1, k1, d2, k2);
        }
    }
}

proof fn lemma_sum_steady(s: Sum, left: Tally, d1: Seq<u32>, k1: int, d2: Seq<u32>, k2: int)
    requires
        sum_free(s),
    ensures
        steady(sum_outcome(s, left, d1, k1), sum_outcome(s, left, d2, k2), k1, k2),
    decreases s,
{
    lemma_term_steady(*s.right, d1, k1, d2, k2);
    let t = term_outcome(*s.right, d1, k1);
    if let Ok(v) = (t->0).0 {
        let next = match s.op {
            crate::ast::AddOp::Add => crate::output::plus(left, v),
            crate::ast::AddOp::Sub => crate::output::minus(left, v),
        };
        if let Some(x) = s.extra {
            lemma_sum_steady(*x, next, d1, k1, d2, k2);
        }
    }
}

proof fn lemma_term_steady(t: Term, d1: Seq<u32>, k1: int, d2: Seq<u32>, k2: int)
    requires
        term_free(t),
    ensures
        steady(term_outcome(t, d1, k1), term_outcome(t, d2, k2), k1, k2),
    decreases t,
{
    lemma_factor_steady(*t.factor, d1, k1, d2, k2);
    let f = factor_outcome(*t.factor, d1, k1);
    if let Some(p) = t.product {
        if let Ok(v) = (f->0).0 {
            lemma_product_steady(*p, v, d1, k1, d2, k2);
        }
    }
}

proof fn lemma_product_steady(p: Product, left: Tally, d1: Seq<u32>, k1: int, d2: Seq<u32>, k2: int)
    requires
        product_free(p),
    ensures
        steady(product_outcome(p, left, d1, k1), product_outcome(p, left, d2, k2), k1, k2),
    decreases p,
{
    lemma_factor_steady(p.right, d1, k1, d2, k2);
    let f = factor_outcome(p.right, d1, k1);
    if let Ok(v) = (f->0).0 {
        let c = match p.op {
            MulOp::Mul => Ok(crate::output::times(left, v)),
            MulOp::Div => crate::output::over(left, v),
            MulOp::Mod => crate::output::modulo(left, v),
        };
        if let Ok(next) = c {
            if let Some(x) = p.extra {
                lemma_product_steady(*x, next, d1, k1, d2, k2);
            }
        }
    }
}

proof fn lemma_factor_steady(f: Factor, d1: Seq<u32>, k1: int, d2: Seq<u32>, k2: int)
    requires
        factor_free(f),
    ensures
        steady(factor_outcome(f, d1, k1), factor_outcome(f, d2, k2), k1, k2),
    decreases f,
{
    if let Factor::Expression(e) = f {
        lemma_expr_steady(*e, d1, k1, d2, k2);
    }
}

/// Parsing a text with no dice roll in it and evaluating it twice, with any
/// faces at all, gives the same result both times and rolls nothing.
pub proof fn law_dice_free_repeatable(text: Seq<char>, d1: Seq<u32>, k1: int, d2: Seq<u32>, k2: int)
    requires
        parse_text(text) is Some,
        expr_free(parse_text(text)->0),
    ensures
        steady(expr_outcome(parse_text(text)->0, d1, k1), expr_outcome(parse_text(text)->0, d2, k2), k1, k2),
{
    lemma_expr_steady(parse_text(text)->0, d1, k1, d2, k2);
}

/// A division or remainder whose right operand evaluates to 0 fails with
/// `DivideByZero`.
pub proof fn law_divide_by_zero(p: Product, left: Tally, d: Seq<u32>, k: int)
    requires
        p.op is Div || p.op is Mod,
        factor_outcome(p.right, d, k) matches Some((Ok(f), _)) && f.1 == 0,
    ensures
        product_outcome(p, left, d, k) matches Some((Err(RollError::DivideByZero), _)),
{
}

/// A dice roll whose count evaluates below 1 fails with `InvalidCount`.
pub proof fn law_count_guard(r: DiceRoll, d: Seq<u32>, k: int, c: Tally, k1: int)
    requires
        count_outcome(r.count, d, k) == Some((Ok::<Tally, RollError>(c), k1)),
        c.1 <= 0,
    ensures
        dice_outcome(r, d, k) == Some((Err::<Tally, RollError>(RollError::InvalidCount), k1)),
{
}

/// A dice roll with a valid count whose sides evaluate below 2 fails with
/// `InvalidSides`.
pub proof fn law_sides_guard(r: DiceRoll, d: Seq<u32>, k: int, c: Tally, k1: int, s: Tally, k2: int)
    requires
        count_outcome(r.count, d, k) == Some((Ok::<Tally, RollError>(c), k1)),
        c.1 > 0,
        roll_expr_outcome(*r.sides, d, k1) == Some((Ok::<Tally, RollError>(s), k2)),
        s.1 <= 1,
    ensures
        dice_outcome(r, d, k) == Some((Err::<Tally, RollError>(RollError::InvalidSides), k2)),
{
}

/// A dice roll with a valid count and sides whose keep amount evaluates
/// below 1 fails with `InvalidKeep`.
pub proof fn law_keep_guard(
    r: DiceRoll,
    d: Seq<u32>,
    k: int,
    c: Tally,
    k1: int,
    s: Tally,
    k2: int,
    a: Tally,
    k3: int,
)
    requires
        count_outcome(r.count, d, k) == Some((Ok::<Tally, RollError>(c), k1)),
        c.1 > 0,
        roll_expr_outcome(*r.sides, d, k1) == Some((Ok::<Tally, RollError>(s), k2)),
        s.1 > 1,
        fits(d, k2, c.1 as int, s.1 as int),
        r.keep is Some,
        keep_outcome(r.keep->0, d, k2 + c.1) == Some((Ok::<Tally, RollError>(a), k3)),
        a.1 <= 0,
    ensures
        dice_outcome(r, d, k) == Some((Err::<Tally, RollError>(RollError::InvalidKeep), k3)),
{
}

/// A dice roll with a valid count, sides and keep clause whose drop amount
/// evaluates below 1 fails with `InvalidDrop`.
pub proof fn law_drop_guard(
    r: DiceRoll,
    d: Seq<u32>,
    k: int,
    c: Tally,
    k1: int,
    s: Tally,
    k2: int,
    rs: Seq<Roll>,
    k3: int,
    a: Tally,
    k4: int,
)
    requires
        count_outcome(r.count, d, k) == Some((Ok::<Tally, RollError>(c), k1)),
        c.1 > 0,
        roll_expr_outcome(*r.sides, d, k1) == Some((Ok::<Tally, RollError>(s), k2)),
        s.1 > 1,
        fits(d, k2, c.1 as int, s.1 as int),
        keep_clause(r.keep, fresh(d, k2, c.1 as int), d, k2 + c.1) == Some((Ok::<Seq<Roll>, RollError>(rs), k3)),
        r.drop is Some,
        drop_outcome(r.drop->0, d, k3) == Some((Ok::<Tally, RollError>(a), k4)),
        a.1 <= 0,
    ensures
        dice_outcome(r, d, k) == Some((Err::<Tally, RollError>(RollError::InvalidDrop), k4)),
{
}

} // verus!
