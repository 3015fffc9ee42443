use vstd::prelude::*;

use crate::ast::{
    clauses_size, dice_size, drop_size, expr_size, factor_size, keep_size, product_size, roll_expr_size, sum_size,
    term_size, AddOp, DiceRoll, Drop, Expression, Factor, Keep, MulOp, Product, RollExpr, Sum, Term,
};
use crate::dice::{is_prefix, lemma_prefix_trans, Dice};
use crate::error::RollError;
use crate::keep::{kept_sum, select, selected};
use crate::output::{minus, modulo, over, plus, tally_of, times, wrap32, wrap_i64, Output, Roll, Tally};

verus! {

// The meaning of an expression is given over the faces that dice show, in
// the order they are rolled: `d` lists faces, `k` is the first one not yet
// used. Each function gives `None` where `d` has too few faces or a face
// outside its die, and otherwise the result together with the first face
// left unused.

/// Whether `d[k..k + n]` exists and holds faces of a die with `sides` faces.
pub open spec fn fits(d: Seq<u32>, k: int, n: int, sides: int) -> bool {
    &&& 0 <= k
    &&& k + n <= d.len()
    &&& forall|j: int| k <= j < k + n ==> 1 <= #[trigger] d[j] <= sides
}

/// `n` fresh dice, all kept, showing the faces `d[k..k + n]`.
pub open spec fn fresh(d: Seq<u32>, k: int, n: int) -> Seq<Roll> {
    Seq::new(n as nat, |j: int| Roll { result: d[k + j], keep: true })
}

/// The dice of a roll and the sum of the kept ones.
pub open spec fn finish(rolls: Seq<Roll>) -> Tally {
    (rolls, wrap32(kept_sum(rolls)))
}

/// Applies a keep (`keeping`) or drop clause whose amount evaluated to `step`.
pub open spec fn narrowed(
    step: Option<(Result<Tally, RollError>, int)>,
    rolls: Seq<Roll>,
    high: bool,
    keeping: bool,
) -> Option<(Result<Seq<Roll>, RollError>, int)> {
    match step {
        None => None,
        Some((Err(e), k)) => Some((Err(e), k)),
        Some((Ok(a), k)) => if a.1 <= 0 {
            Some((Err(if keeping { RollError::InvalidKeep } else { RollError::InvalidDrop }), k))
        } else {
            Some((Ok(selected(rolls, a.1 as int, high, keeping)), k))
        },
    }
}

/// A count, a number of sides or an amount: a literal (wrapped into `i32`)
/// or a parenthesised expression.
pub open spec fn roll_expr_outcome(r: RollExpr, d: Seq<u32>, k: int) -> Option<(Result<Tally, RollError>, int)>
    decreases r,
{
    match r {
        RollExpr::Number(n) => Some((Ok((Seq::empty(), wrap32(n as int))), k)),
        RollExpr::Expression(e) => expr_outcome(e, d, k),
    }
}

/// A sum: its first term, then the rest of the sum from left to right.
pub open spec fn expr_outcome(e: Expression, d: Seq<u32>, k: int) -> Option<(Result<Tally, RollError>, int)>
    decreases e,
{
    match term_outcome(*e.term, d, k) {
        Some((Ok(t), k1)) => match e.sum {
            Some(s) => sum_outcome(*s, t, d, k1),
            None => Some((Ok(t), k1)),
        },
        other => other,
    }
}

/// The rest of a sum, with `left` the value so far.
pub open spec fn sum_outcome(s: Sum, left: Tally, d: Seq<u32>, k: int) -> Option<(Result<Tally, RollError>, int)>
    decreases s,
{
    match term_outcome(*s.right, d, k) {
        Some((Ok(t), k1)) => {
            let v = match s.op {
                AddOp::Add => plus(left, t),
                AddOp::Sub => minus(left, t),
            };
            match s.extra {
                Some(x) => sum_outcome(*x, v, d, k1),
                None => Some((Ok(v), k1)),
            }
        },
        other => other,
    }
}

/// A product: its first factor, then the rest of the product from left to
/// right.
pub open spec fn term_outcome(t: Term, d: Seq<u32>, k: int) -> Option<(Result<Tally, RollError>, int)>
    decreases t,
{
    match factor_outcome(*t.factor, d, k) {
        Some((Ok(f), k1)) => match t.product {
            Some(p) => product_outcome(*p, f, d, k1),
            None => Some((Ok(f), k1)),
        },
        other => other,
    }
}

/// The rest of a product, with `left` the value so far.
pub open spec fn product_outcome(p: Product, left: Tally, d: Seq<u32>, k: int) -> Option<(Result<Tally, RollError>, int)>
    decreases p,
{
    match factor_outcome(p.right, d, k) {
        Some((Ok(f), k1)) => {
            let c = match p.op {
                MulOp::Mul => Ok(times(left, f)),
                MulOp::Div => over(left, f),
                MulOp::Mod => modulo(left, f),
            };
            match c {
                Ok(v) => match p.extra {
                    Some(x) => product_outcome(*x, v, d, k1),
                    None => Some((Ok(v), k1)),
                },
                Err(e) => Some((Err(e), k1)),
            }
        },
        other => other,
    }
}

/// A number, a parenthesised expression or a dice roll.
pub open spec fn factor_outcome(f: Factor, d: Seq<u32>, k: int) -> Option<(Result<Tally, RollError>, int)>
    decreases f,
{
    match f {
        Factor::Integer(n) => Some((Ok((Seq::empty(), n)), k)),
        Factor::Expression(e) => expr_outcome(*e, d, k),
        Factor::DiceRoll(r) => dice_outcome(*r, d, k),
    }
}

/// The amount of a keep clause.
pub open spec fn keep_outcome(kp: Keep, d: Seq<u32>, k: int) -> Option<(Result<Tally, RollError>, int)>
    decreases kp,
{
    match kp {
        Keep::High(e) => roll_expr_outcome(*e, d, k),
        Keep::Low(e) => roll_expr_outcome(*e, d, k),
    }
}

/// The amount of a drop clause.
pub open spec fn drop_outcome(dp: Drop, d: Seq<u32>, k: int) -> Option<(Result<Tally, RollError>, int)>
    decreases dp,
{
    match dp {
        Drop::High(e) => roll_expr_outcome(*e, d, k),
        Drop::Low(e) => roll_expr_outcome(*e, d, k),
    }
}

/// The count of a dice roll: 1 when it is left out.
pub open spec fn count_outcome(c: Option<Box<RollExpr>>, d: Seq<u32>, k: int) -> Option<(Result<Tally, RollError>, int)>
    decreases c,
{
    match c {
        Some(x) => roll_expr_outcome(*x, d, k),
        None => Some((Ok((Seq::<Roll>::empty(), 1i32)), k)),
    }
}

/// The dice after the keep clause, if there is one.
pub open spec fn keep_clause(kp: Option<Keep>, rolls: Seq<Roll>, d: Seq<u32>, k: int) -> Option<(Result<Seq<Roll>, RollError>, int)>
    decreases kp,
{
    match kp {
        Some(x) => narrowed(keep_outcome(x, d, k), rolls, x is High, true),
        None => Some((Ok(rolls), k)),
    }
}

/// The dice after the drop clause, if there is one.
pub open spec fn drop_clause(dp: Option<Drop>, rolls: Seq<Roll>, d: Seq<u32>, k: int) -> Option<(Result<Seq<Roll>, RollError>, int)>
    decreases dp,
{
    match dp {
        Some(x) => narrowed(drop_outcome(x, d, k), rolls, x is High, false),
        None => Some((Ok(rolls), k)),
    }
}

/// Fresh dice after the keep clause, then the drop clause, with the total of
/// the dice still kept.
pub open spec fn clauses_outcome(
    kp: Option<Keep>,
    dp: Option<Drop>,
    rolls: Seq<Roll>,
    d: Seq<u32>,
    k: int,
) -> Option<(Result<Tally, RollError>, int)> {
    match keep_clause(kp, rolls, d, k) {
        None => None,
        Some((Err(e), k1)) => Some((Err(e), k1)),
        Some((Ok(rs), k1)) => match drop_clause(dp, rs, d, k1) {
            None => None,
            Some((Err(e), k2)) => Some((Err(e), k2)),
            Some((Ok(fs), k2)) => Some((Ok(finish(fs)), k2)),
        },
    }
}

/// A dice roll: the count (at least 1), the sides (at least 2), the dice,
/// then the keep clause, then the drop clause, each evaluated in that order.
pub open spec fn dice_outcome(r: DiceRoll, d: Seq<u32>, k: int) -> Option<(Result<Tally, RollError>, int)>
    decreases r,
{
    match count_outcome(r.count, d, k) {
        None => None,
        Some((Err(e), k1)) => Some((Err(e), k1)),
        Some((Ok(c), k1)) => if c.1 <= 0 {
            Some((Err(RollError::InvalidCount), k1))
        } else {
            match roll_expr_outcome(*r.sides, d, k1) {
                None => None,
                Some((Err(e), k2)) => Some((Err(e), k2)),
                Some((Ok(s), k2)) => if s.1 <= 1 {
                    Some((Err(RollError::InvalidSides), k2))
                } else if !fits(d, k2, c.1 as int, s.1 as int) {
                    None
                } else {
                    match keep_clause(r.keep, fresh(d, k2, c.1 as int), d, k2 + c.1) {
                        None => None,
                        Some((Err(e), k4)) => Some((Err(e), k4)),
                        Some((Ok(rs), k4)) => match drop_clause(r.drop, rs, d, k4) {
                            None => None,
                            Some((Err(e), k5)) => Some((Err(e), k5)),
                            Some((Ok(fs), k5)) => Some((Ok(finish(fs)), k5)),
                        },
                    }
                },
            }
        },
    }
}

// Every evaluator below leaves in `dice` a history that extends the one it
// found, and gives the result that the model gives on any extension of the
// history it leaves: the faces rolled after it returns cannot change what it
// computed.

impl RollExpr {
    /// Evaluates a count, a number of sides or an amount.
    pub fn eval(&self, dice: &mut Dice) -> (r: Result<Output, RollError>)
        requires
            old(dice).wf(),
        ensures
            final(dice).wf(),
            is_prefix(old(dice).history(), final(dice).history()),
            forall|d: Seq<u32>| is_prefix(final(dice).history(), d) ==>
                #[trigger] roll_expr_outcome(*self, d, old(dice).history().len() as int)
                    == Some((tally_of(r), final(dice).history().len() as int)),
        decreases roll_expr_size(*self),
    {
        let ghost k0 = dice.history().len() as int;
        match self {
            RollExpr::Number(n) => {
                let r: Result<Output, RollError> = Ok(Output::of_num(wrap_i64(*n as i64)));
                proof {
                    assert forall|d: Seq<u32>| is_prefix(dice.history(), d) implies
                        #[trigger] roll_expr_outcome(*self, d, k0)
                            == Some((tally_of(r), dice.history().len() as int)) by {
                        assert(tally_of(r) == Ok::<Tally, RollError>((Seq::<Roll>::empty(), wrap32(*n as int))));
                    }
                }
                r
            },
            RollExpr::Expression(e) => {
                let r = e.eval(dice);
                proof {
                    assert forall|d: Seq<u32>| is_prefix(dice.history(), d) implies
                        #[trigger] roll_expr_outcome(*self, d, k0)
                            == Some((tally_of(r), dice.history().len() as int)) by {
                        assert(expr_outcome(*e, d, k0) == Some((tally_of(r), dice.history().len() as int)));
                    }
                }
                r
            },
        }
    }
}

impl Expression {
    /// Evaluates the expression, rolling dice from `dice`.
    pub fn eval(&self, dice: &mut Dice) -> (r: Result<Output, RollError>)
        requires
            old(dice).wf(),
        ensures
            final(dice).wf(),
            is_prefix(old(dice).history(), final(dice).history()),
            forall|d: Seq<u32>| is_prefix(final(dice).history(), d) ==>
                #[trigger] expr_outcome(*self, d, old(dice).history().len() as int)
                    == Some((tally_of(r), final(dice).history().len() as int)),
        decreases expr_size(*self),
    {
        let ghost k0 = dice.history().len() as int;
        let first = self.term.eval(dice);
        let ghost h1 = dice.history();
        let ghost t1 = tally_of(first);
        let left = match first {
            Ok(o) => o,
            Err(e) => {
                proof {
                    assert forall|d: Seq<u32>| is_prefix(dice.history(), d) implies
                        #[trigger] expr_outcome(*self, d, k0)
                            == Some((tally_of(Err(e)), dice.history().len() as int)) by {
                        assert(term_outcome(*self.term, d, k0) == Some((t1, h1.len() as int)));
                    }
                }
                return Err(e);
            },
        };
        match &self.sum {
            Some(s) => {
                let r = s.eval(left, dice);
                proof {
                    assert forall|d: Seq<u32>| is_prefix(dice.history(), d) implies
                        #[trigger] expr_outcome(*self, d, k0)
                            == Some((tally_of(r), dice.history().len() as int)) by {
                        lemma_prefix_trans(h1, dice.history(), d);
                        assert(term_outcome(*self.term, d, k0) == Some((t1, h1.len() as int)));
                        assert(sum_outcome(**s, t1->Ok_0, d, h1.len() as int)
                            == Some((tally_of(r), dice.history().len() as int)));
                    }
                }
                r
            },
            None => {
                proof {
                    assert forall|d: Seq<u32>| is_prefix(dice.history(), d) implies
                        #[trigger] expr_outcome(*self, d, k0)
                            == Some((t1, dice.history().len() as int)) by {
                        assert(term_outcome(*self.term, d, k0) == Some((t1, h1.len() as int)));
                    }
                }
                Ok(left)
            },
        }
    }
}

impl Sum {
    /// Evaluates the rest of a sum whose value so far is `left`.
    pub fn eval(&self, left: Output, dice: &mut Dice) -> (r: Result<Output, RollError>)
        requires
            old(dice).wf(),
        ensures
            final(dice).wf(),
            is_prefix(old(dice).history(), final(dice).history()),
            forall|d: Seq<u32>| is_prefix(final(dice).history(), d) ==>
                #[trigger] sum_outcome(*self, left@, d, old(dice).history().len() as int)
                    == Some((tally_of(r), final(dice).history().len() as int)),
        decreases sum_size(*self),
    {
        let ghost k0 = dice.history().len() as int;
        let ghost l = left@;
        let next = self.right.eval(dice);
        let ghost h1 = dice.history();
        let ghost t1 = tally_of(next);
        let right = match next {
            Ok(o) => o,
            Err(e) => {
                proof {
                    assert forall|d: Seq<u32>| is_prefix(dice.history(), d) implies
                        #[trigger] sum_outcome(*self, l, d, k0)
                            == Some((tally_of(Err(e)), dice.history().len() as int)) by {
                        assert(term_outcome(*self.right, d, k0) == Some((t1, h1.len() as int)));
                    }
                }
                return Err(e);
            },
        };
        let value = match self.op {
            AddOp::Add => left.sum(right),
            AddOp::Sub => left.difference(right),
        };
        let ghost v = value@;
        match &self.extra {
            Some(x) => {
                let r = x.eval(value, dice);
                proof {
                    assert forall|d: Seq<u32>| is_prefix(dice.history(), d) implies
                        #[trigger] sum_outcome(*self, l, d, k0)
                            == Some((tally_of(r), dice.history().len() as int)) by {
                        lemma_prefix_trans(h1, dice.history(), d);
                        assert(term_outcome(*self.right, d, k0) == Some((t1, h1.len() as int)));
                        assert(sum_outcome(**x, v, d, h1.len() as int)
                            == Some((tally_of(r), dice.history().len() as int)));
                    }
                }
                r
            },
            None => {
                proof {
                    assert forall|d: Seq<u32>| is_prefix(dice.history(), d) implies
                        #[trigger] sum_outcome(*self, l, d, k0)
                            == Some((Ok::<Tally, RollError>(v), dice.history().len() as int)) by {
                        assert(term_outcome(*self.right, d, k0) == Some((t1, h1.len() as int)));
                    }
                }
                Ok(value)
            },
        }
    }
}

impl Term {
    /// Evaluates the product.
    pub fn eval(&self, dice: &mut Dice) -> (r: Result<Output, RollError>)
        requires
            old(dice).wf(),
        ensures
            final(dice).wf(),
            is_prefix(old(dice).history(), final(dice).history()),
            forall|d: Seq<u32>| is_prefix(final(dice).history(), d) ==>
                #[trigger] term_outcome(*self, d, old(dice).history().len() as int)
                    == Some((tally_of(r), final(dice).history().len() as int)),
        decreases term_size(*self),
    {
        let ghost k0 = dice.history().len() as int;
        let first = self.factor.eval(dice);
        let ghost h1 = dice.history();
        let ghost t1 = tally_of(first);
        let left = match first {
            Ok(o) => o,
            Err(e) => {
                proof {
                    assert forall|d: Seq<u32>| is_prefix(dice.history(), d) implies
                        #[trigger] term_outcome(*self, d, k0)
                            == Some((tally_of(Err(e)), dice.history().len() as int)) by {
                        assert(factor_outcome(*self.factor, d, k0) == Some((t1, h1.len() as int)));
                    }
                }
                return Err(e);
            },
        };
        match &self.product {
            Some(p) => {
                let r = p.eval(left, dice);
                proof {
                    assert forall|d: Seq<u32>| is_prefix(dice.history(), d) implies
                        #[trigger] term_outcome(*self, d, k0)
                            == Some((tally_of(r), dice.history().len() as int)) by {
                        lemma_prefix_trans(h1, dice.history(), d);
                        assert(factor_outcome(*self.factor, d, k0) == Some((t1, h1.len() as int)));
                        assert(product_outcome(**p, t1->Ok_0, d, h1.len() as int)
                            == Some((tally_of(r), dice.history().len() as int)));
                    }
                }
                r
            },
            None => {
                proof {
                    assert forall|d: Seq<u32>| is_prefix(dice.history(), d) implies
                        #[trigger] term_outcome(*self, d, k0)
                            == Some((t1, dice.history().len() as int)) by {
                        assert(factor_outcome(*self.factor, d, k0) == Some((t1, h1.len() as int)));
                    }
                }
                Ok(left)
            },
        }
    }
}

impl Product {
    /// Evaluates the rest of a product whose value so far is `left`.
    pub fn eval(&self, left: Output, dice: &mut Dice) -> (r: Result<Output, RollError>)
        requires
            old(dice).wf(),
        ensures
            final(dice).wf(),
            is_prefix(old(dice).history(), final(dice).history()),
            forall|d: Seq<u32>| is_prefix(final(dice).history(), d) ==>
                #[trigger] product_outcome(*self, left@, d, old(dice).history().len() as int)
                    == Some((tally_of(r), final(dice).history().len() as int)),
        decreases product_size(*self),
    {
        let ghost k0 = dice.history().len() as int;
        let ghost l = left@;
        let next = self.right.eval(dice);
        let ghost h1 = dice.history();
        let ghost t1 = tally_of(next);
        let right = match next {
            Ok(o) => o,
            Err(e) => {
                proof {
                    assert forall|d: Seq<u32>| is_prefix(dice.history(), d) implies
                        #[trigger] product_outcome(*self, l, d, k0)
                            == Some((tally_of(Err(e)), dice.history().len() as int)) by {
                        assert(factor_outcome(self.right, d, k0) == Some((t1, h1.len() as int)));
                    }
                }
                return Err(e);
            },
        };
        let combined = match self.op {
            MulOp::Mul => Ok(left.product(right)),
            MulOp::Div => left.quotient(right),
            MulOp::Mod => left.remainder(right),
        };
        let ghost c = tally_of(combined);
        let value = match combined {
            Ok(o) => o,
            Err(e) => {
                proof {
                    assert forall|d: Seq<u32>| is_prefix(dice.history(), d) implies
                        #[trigger] product_outcome(*self, l, d, k0)
                            == Some((tally_of(Err(e)), dice.history().len() as int)) by {
                        assert(factor_outcome(self.right, d, k0) == Some((t1, h1.len() as int)));
                    }
                }
                return Err(e);
            },
        };
        let ghost v = value@;
        match &self.extra {
            Some(x) => {
                let r = x.eval(value, dice);
                proof {
                    assert forall|d: Seq<u32>| is_prefix(dice.history(), d) implies
                        #[trigger] product_outcome(*self, l, d, k0)
                            == Some((tally_of(r), dice.history().len() as int)) by {
                        lemma_prefix_trans(h1, dice.history(), d);
                        assert(factor_outcome(self.right, d, k0) == Some((t1, h1.len() as int)));
                        assert(product_outcome(**x, v, d, h1.len() as int)
                            == Some((tally_of(r), dice.history().len() as int)));
                    }
                }
                r
            },
            None => {
                proof {
                    assert forall|d: Seq<u32>| is_prefix(dice.history(), d) implies
                        #[trigger] product_outcome(*self, l, d, k0)
                            == Some((Ok::<Tally, RollError>(v), dice.history().len() as int)) by {
                        assert(factor_outcome(self.right, d, k0) == Some((t1, h1.len() as int)));
                    }
                }
                Ok(value)
            },
        }
    }
}

impl Factor {
    /// Evaluates a number, a parenthesised expression or a dice roll.
    pub fn eval(&self, dice: &mut Dice) -> (r: Result<Output, RollError>)
        requires
            old(dice).wf(),
        ensures
            final(dice).wf(),
            is_prefix(old(dice).history(), final(dice).history()),
            forall|d: Seq<u32>| is_prefix(final(dice).history(), d) ==>
                #[trigger] factor_outcome(*self, d, old(dice).history().len() as int)
                    == Some((tally_of(r), final(dice).history().len() as int)),
        decreases factor_size(*self),
    {
        let ghost k0 = dice.history().len() as int;
        match self {
            Factor::Integer(n) => {
                let r: Result<Output, RollError> = Ok(Output::of_num(*n));
                proof {
                    assert forall|d: Seq<u32>| is_prefix(dice.history(), d) implies
                        #[trigger] factor_outcome(*self, d, k0)
                            == Some((tally_of(r), dice.history().len() as int)) by {
                        assert(tally_of(r) == Ok::<Tally, RollError>((Seq::<Roll>::empty(), *n)));
                    }
                }
                r
            },
            Factor::Expression(e) => {
                let r = e.eval(dice);
                proof {
                    assert forall|d: Seq<u32>| is_prefix(dice.history(), d) implies
                        #[trigger] factor_outcome(*self, d, k0)
                            == Some((tally_of(r), dice.history().len() as int)) by {
                        assert(expr_outcome(**e, d, k0) == Some((tally_of(r), dice.history().len() as int)));
                    }
                }
                r
            },
            Factor::DiceRoll(x) => {
                let r = x.eval(dice);
                proof {
                    assert forall|d: Seq<u32>| is_prefix(dice.history(), d) implies
                        #[trigger] factor_outcome(*self, d, k0)
                            == Some((tally_of(r), dice.history().len() as int)) by {
                        assert(dice_outcome(**x, d, k0) == Some((tally_of(r), dice.history().len() as int)));
                    }
                }
                r
            },
        }
    }
}

impl Keep {
    /// Evaluates the number of dice to keep.
    pub fn eval(&self, dice: &mut Dice) -> (r: Result<Output, RollError>)
        requires
            old(dice).wf(),
        ensures
            final(dice).wf(),
            is_prefix(old(dice).history(), final(dice).history()),
            forall|d: Seq<u32>| is_prefix(final(dice).history(), d) ==>
                #[trigger] keep_outcome(*self, d, old(dice).history().len() as int)
                    == Some((tally_of(r), final(dice).history().len() as int)),
        decreases keep_size(*self),
    {
        let ghost k0 = dice.history().len() as int;
        match self {
            Keep::High(e) => {
                let r = e.eval(dice);
                proof {
                    assert forall|d: Seq<u32>| is_prefix(dice.history(), d) implies
                        #[trigger] keep_outcome(*self, d, k0)
                            == Some((tally_of(r), dice.history().len() as int)) by {
                        assert(roll_expr_outcome(**e, d, k0) == Some((tally_of(r), dice.history().len() as int)));
                    }
                }
                r
            },
            Keep::Low(e) => {
                let r = e.eval(dice);
                proof {
                    assert forall|d: Seq<u32>| is_prefix(dice.history(), d) implies
                        #[trigger] keep_outcome(*self, d, k0)
                            == Some((tally_of(r), dice.history().len() as int)) by {
                        assert(roll_expr_outcome(**e, d, k0) == Some((tally_of(r), dice.history().len() as int)));
                    }
                }
                r
            },
        }
    }
}

impl Drop {
    /// Evaluates the number of dice to drop.
    pub fn eval(&self, dice: &mut Dice) -> (r: Result<Output, RollError>)
        requires
            old(dice).wf(),
        ensures
            final(dice).wf(),
            is_prefix(old(dice).history(), final(dice).history()),
            forall|d: Seq<u32>| is_prefix(final(dice).history(), d) ==>
                #[trigger] drop_outcome(*self, d, old(dice).history().len() as int)
                    == Some((tally_of(r), final(dice).history().len() as int)),
        decreases drop_size(*self),
    {
        let ghost k0 = dice.history().len() as int;
        match self {
            Drop::High(e) => {
                let r = e.eval(dice);
                proof {
                    assert forall|d: Seq<u32>| is_prefix(dice.history(), d) implies
                        #[trigger] drop_outcome(*self, d, k0)
                            == Some((tally_of(r), dice.history().len() as int)) by {
                        assert(roll_expr_outcome(**e, d, k0) == Some((tally_of(r), dice.history().len() as int)));
                    }
                }
                r
            },
            Drop::Low(e) => {
                let r = e.eval(dice);
                proof {
                    assert forall|d: Seq<u32>| is_prefix(dice.history(), d) implies
                        #[trigger] drop_outcome(*self, d, k0)
                            == Some((tally_of(r), dice.history().len() as int)) by {
                        assert(roll_expr_outcome(**e, d, k0) == Some((tally_of(r), dice.history().len() as int)));
                    }
                }
                r
            },
        }
    }
}

/// Rolls `count` dice with `sides` faces from `dice`, all kept, in the order
/// they were rolled.
pub fn roll_dice(count: u32, sides: u32, dice: &mut Dice) -> (r: Vec<Roll>)
    requires
        old(dice).wf(),
        sides >= 1,
    ensures
        final(dice).wf(),
        is_prefix(old(dice).history(), final(dice).history()),
        final(dice).history().len() == old(dice).history().len() + count,
        fits(final(dice).history(), old(dice).history().len() as int, count as int, sides as int),
        r@ == fresh(final(dice).history(), old(dice).history().len() as int, count as int),
{
    let ghost h = dice.history();
    let mut rolls: Vec<Roll> = Vec::new();
    let mut i: u32 = 0;
    while i < count
        invariant
            dice.wf(),
            0 <= i <= count,
            1 <= sides,
            rolls@.len() == i,
            dice.history().len() == h.len() + i,
            is_prefix(h, dice.history()),
            forall|j: int| 0 <= j < i ==> rolls@[j] == (Roll { result: dice.history()[h.len() + j], keep: true }),
            forall|j: int| h.len() <= j < dice.history().len() ==> 1 <= #[trigger] dice.history()[j] <= sides,
        decreases count - i,
    {
        let v = dice.roll(sides);
        rolls.push(Roll { result: v, keep: true });
        i += 1;
    }
    assert(rolls@ =~= fresh(dice.history(), h.len() as int, count as int));
    rolls
}

/// Applies the keep clause `kp`, then the drop clause `dp`, to freshly
/// rolled dice, and totals the kept ones.
fn apply_clauses(kp: &Option<Keep>, dp: &Option<Drop>, rolls: Vec<Roll>, dice: &mut Dice) -> (r: Result<Output, RollError>)
    requires
        old(dice).wf(),
    ensures
        final(dice).wf(),
        is_prefix(old(dice).history(), final(dice).history()),
        forall|d: Seq<u32>| is_prefix(final(dice).history(), d) ==>
            #[trigger] clauses_outcome(*kp, *dp, rolls@, d, old(dice).history().len() as int)
                == Some((tally_of(r), final(dice).history().len() as int)),
    decreases clauses_size(*kp, *dp),
{
    let ghost k3 = dice.history().len() as int;
    let ghost h3 = dice.history();
    let ghost rolled = rolls@;
    let mut rolls = rolls;
    match kp {
        Some(x) => {
            let amount = x.eval(dice);
            let ghost a1 = tally_of(amount);
            let a: i32 = match amount {
                Ok(o) => o.total,
                Err(e) => {
                    proof {
                        assert forall|d: Seq<u32>| is_prefix(dice.history(), d) implies
                            #[trigger] clauses_outcome(*kp, *dp, rolled, d, k3)
                                == Some((tally_of(Err(e)), dice.history().len() as int)) by {
                            assert(keep_outcome(*x, d, k3) == Some((a1, dice.history().len() as int)));
                        }
                    }
                    return Err(e);
                },
            };
            if a <= 0 {
                proof {
                    assert forall|d: Seq<u32>| is_prefix(dice.history(), d) implies
                        #[trigger] clauses_outcome(*kp, *dp, rolled, d, k3)
                            == Some((tally_of(Err(RollError::InvalidKeep)), dice.history().len() as int)) by {
                        assert(keep_outcome(*x, d, k3) == Some((a1, dice.history().len() as int)));
                    }
                }
                return Err(RollError::InvalidKeep);
            }
            let high = match x {
                Keep::High(_) => true,
                Keep::Low(_) => false,
            };
            select(&mut rolls, a as usize, high, true);
            proof {
                assert forall|d: Seq<u32>| is_prefix(dice.history(), d) implies
                    #[trigger] keep_clause(*kp, rolled, d, k3)
                        == Some((Ok::<Seq<Roll>, RollError>(rolls@), dice.history().len() as int)) by {
                    assert(keep_outcome(*x, d, k3) == Some((a1, dice.history().len() as int)));
                }
            }
        },
        None => {},
    }
    let ghost h4 = dice.history();
    let ghost k4 = h4.len() as int;
    let ghost kept = rolls@;
    assert(is_prefix(h3, h4));
    match dp {
        Some(x) => {
            let amount = x.eval(dice);
            let ghost a1 = tally_of(amount);
            let a: i32 = match amount {
                Ok(o) => o.total,
                Err(e) => {
                    proof {
                        assert forall|d: Seq<u32>| is_prefix(dice.history(), d) implies
                            #[trigger] clauses_outcome(*kp, *dp, rolled, d, k3)
                                == Some((tally_of(Err(e)), dice.history().len() as int)) by {
                            lemma_prefix_trans(h4, dice.history(), d);
                            assert(keep_clause(*kp, rolled, d, k3) == Some((Ok::<Seq<Roll>, RollError>(kept), k4)));
                            assert(drop_outcome(*x, d, k4) == Some((a1, dice.history().len() as int)));
                        }
                    }
                    return Err(e);
                },
            };
            if a <= 0 {
                proof {
                    assert forall|d: Seq<u32>| is_prefix(dice.history(), d) implies
                        #[trigger] clauses_outcome(*kp, *dp, rolled, d, k3)
                            == Some((tally_of(Err(RollError::InvalidDrop)), dice.history().len() as int)) by {
                        lemma_prefix_trans(h4, dice.history(), d);
                        assert(keep_clause(*kp, rolled, d, k3) == Some((Ok::<Seq<Roll>, RollError>(kept), k4)));
                        assert(drop_outcome(*x, d, k4) == Some((a1, dice.history().len() as int)));
                    }
                }
                return Err(RollError::InvalidDrop);
            }
            let high = match x {
                Drop::High(_) => true,
                Drop::Low(_) => false,
            };
            select(&mut rolls, a as usize, high, false);
            proof {
                assert forall|d: Seq<u32>| is_prefix(dice.history(), d) implies
                    #[trigger] drop_clause(*dp, kept, d, k4)
                        == Some((Ok::<Seq<Roll>, RollError>(rolls@), dice.history().len() as int)) by {
                    assert(drop_outcome(*x, d, k4) == Some((a1, dice.history().len() as int)));
                }
            }
        },
        None => {},
    }
    let total = DiceRoll::total(&rolls);
    let r: Result<Output, RollError> = Ok(Output { rolls, total });
    proof {
        assert forall|d: Seq<u32>| is_prefix(dice.history(), d) implies
            #[trigger] clauses_outcome(*kp, *dp, rolled, d, k3)
                == Some((tally_of(r), dice.history().len() as int)) by {
            lemma_prefix_trans(h4, dice.history(), d);
            assert(keep_clause(*kp, rolled, d, k3) == Some((Ok::<Seq<Roll>, RollError>(kept), k4)));
            assert(drop_clause(*dp, kept, d, k4)
                == Some((Ok::<Seq<Roll>, RollError>(r->Ok_0.rolls@), dice.history().len() as int)));
        }
        lemma_prefix_trans(h3, h4, dice.history());
    }
    r
}

impl DiceRoll {
    /// Rolls the dice, then applies the keep and drop clauses.
    pub fn eval(&self, dice: &mut Dice) -> (r: Result<Output, RollError>)
        requires
            old(dice).wf(),
        ensures
            final(dice).wf(),
            is_prefix(old(dice).history(), final(dice).history()),
            forall|d: Seq<u32>| is_prefix(final(dice).history(), d) ==>
                #[trigger] dice_outcome(*self, d, old(dice).history().len() as int)
                    == Some((tally_of(r), final(dice).history().len() as int)),
        decreases dice_size(*self),
    {
        let ghost k0 = dice.history().len() as int;
        let counted: Result<Output, RollError> = match &self.count {
            Some(c) => c.eval(dice),
            None => Ok(Output::of_num(1)),
        };
        let ghost h1 = dice.history();
        let ghost c1 = tally_of(counted);
        proof {
            assert forall|d: Seq<u32>| is_prefix(h1, d) implies
                #[trigger] count_outcome(self.count, d, k0) == Some((c1, h1.len() as int)) by {
                match self.count {
                    Some(c) => {
                        assert(roll_expr_outcome(*c, d, k0) == Some((c1, h1.len() as int)));
                    },
                    None => {},
                }
            }
        }
        let count: i32 = match counted {
            Ok(o) => o.total,
            Err(e) => {
                proof {
                    assert forall|d: Seq<u32>| is_prefix(dice.history(), d) implies
                        #[trigger] dice_outcome(*self, d, k0)
                            == Some((tally_of(Err(e)), dice.history().len() as int)) by {
                        assert(count_outcome(self.count, d, k0) == Some((c1, h1.len() as int)));
                    }
                }
                return Err(e);
            },
        };
        if count <= 0 {
            proof {
                assert forall|d: Seq<u32>| is_prefix(dice.history(), d) implies
                    #[trigger] dice_outcome(*self, d, k0)
                        == Some((tally_of(Err(RollError::InvalidCount)), dice.history().len() as int)) by {
                    assert(count_outcome(self.count, d, k0) == Some((c1, h1.len() as int)));
                }
            }
            return Err(RollError::InvalidCount);
        }
        let sided = self.sides.eval(dice);
        let ghost h2 = dice.history();
        let ghost s1 = tally_of(sided);
        let sides: i32 = match sided {
            Ok(o) => o.total,
            Err(e) => {
                proof {
                    assert forall|d: Seq<u32>| is_prefix(dice.history(), d) implies
                        #[trigger] dice_outcome(*self, d, k0)
                            == Some((tally_of(Err(e)), dice.history().len() as int)) by {
                        lemma_prefix_trans(h1, h2, d);
                        assert(count_outcome(self.count, d, k0) == Some((c1, h1.len() as int)));
                        assert(roll_expr_outcome(*self.sides, d, h1.len() as int) == Some((s1, h2.len() as int)));
                    }
                }
                return Err(e);
            },
        };
        if sides <= 1 {
            proof {
                assert forall|d: Seq<u32>| is_prefix(dice.history(), d) implies
                    #[trigger] dice_outcome(*self, d, k0)
                        == Some((tally_of(Err(RollError::InvalidSides)), dice.history().len() as int)) by {
                    lemma_prefix_trans(h1, h2, d);
                    assert(count_outcome(self.count, d, k0) == Some((c1, h1.len() as int)));
                    assert(roll_expr_outcome(*self.sides, d, h1.len() as int) == Some((s1, h2.len() as int)));
                }
            }
            return Err(RollError::InvalidSides);
        }
        let mut rolls = roll_dice(count as u32, sides as u32, dice);
        let ghost h3 = dice.history();
        let ghost k2 = h2.len() as int;
        let ghost rolled = rolls@;
        proof {
            assert forall|d: Seq<u32>| is_prefix(h3, d) implies
                fits(d, k2, count as int, sides as int) && #[trigger] fresh(d, k2, count as int) == rolled by {
                assert forall|j: int| k2 <= j < k2 + count implies 1 <= #[trigger] d[j] <= sides by {
                    assert(h3[j] == d[j]);
                }
                assert forall|j: int| 0 <= j < count implies #[trigger] fresh(d, k2, count as int)[j] == rolled[j] by {
                    assert(h3[k2 + j] == d[k2 + j]);
                }
                assert(fresh(d, k2, count as int) =~= rolled);
            }
            lemma_prefix_trans(h1, h2, h3);
        }
        let r = apply_clauses(&self.keep, &self.drop, rolls, dice);
        proof {
            assert forall|d: Seq<u32>| is_prefix(dice.history(), d) implies
                #[trigger] dice_outcome(*self, d, k0)
                    == Some((tally_of(r), dice.history().len() as int)) by {
                lemma_prefix_trans(h3, dice.history(), d);
                lemma_prefix_trans(h1, h3, d);
                lemma_prefix_trans(h2, h3, d);
                assert(count_outcome(self.count, d, k0) == Some((c1, h1.len() as int)));
                assert(roll_expr_outcome(*self.sides, d, h1.len() as int) == Some((s1, k2)));
                assert(fresh(d, k2, count as int) == rolled);
                assert(clauses_outcome(self.keep, self.drop, rolled, d, h3.len() as int)
                    == Some((tally_of(r), dice.history().len() as int)));
            }
            lemma_prefix_trans(h1, h3, dice.history());
        }
        r
    }
}

} // verus!
