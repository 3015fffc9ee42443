use vstd::prelude::*;

verus! {

/// A count, a number of sides, or an amount to keep or drop.
#[derive(Debug)]
pub enum RollExpr {
    /// A literal number.
    Number(u32),
    /// A parenthesised expression.
    Expression(Expression),
}

/// A sum of terms: the first term, then the rest of the sum.
#[derive(Debug)]
pub struct Expression {
    pub term: Box<Term>,
    pub sum: Option<Box<Sum>>,
}

/// `+ term` or `- term`, followed by the rest of the sum.
#[derive(Debug)]
pub struct Sum {
    pub op: AddOp,
    pub right: Box<Term>,
    pub extra: Option<Box<Sum>>,
}

/// The operators of a sum.
#[derive(Clone, Copy, Debug, PartialEq, Eq, Structural)]
pub enum AddOp {
    Add,
    Sub,
}

/// A product of factors: the first factor, then the rest of the product.
#[derive(Debug)]
pub struct Term {
    pub factor: Box<Factor>,
    pub product: Option<Box<Product>>,
}

/// `* factor`, `/ factor` or `% factor`, followed by the rest of the product.
#[derive(Debug)]
pub struct Product {
    pub op: MulOp,
    pub right: Factor,
    pub extra: Option<Box<Product>>,
}

/// The operators of a product.
#[derive(Clone, Copy, Debug, PartialEq, Eq, Structural)]
pub enum MulOp {
    Mul,
    Div,
    Mod,
}

/// An operand of a product.
#[derive(Debug)]
pub enum Factor {
    Integer(i32),
    Expression(Box<Expression>),
    DiceRoll(Box<DiceRoll>),
}

/// `count d sides`, with an optional keep clause, then an optional drop clause.
#[derive(Debug)]
pub struct DiceRoll {
    pub count: Option<Box<RollExpr>>,
    pub sides: Box<RollExpr>,
    pub keep: Option<Keep>,
    pub drop: Option<Drop>,
}

/// Keep the highest or the lowest dice.
#[derive(Debug)]
pub enum Keep {
    High(Box<RollExpr>),
    Low(Box<RollExpr>),
}

/// Drop the highest or the lowest dice.
#[derive(Debug)]
pub enum Drop {
    High(Box<RollExpr>),
    Low(Box<RollExpr>),
}

// Sizes of the syntax trees: the number of nodes, a measure that every
// recursive walk over a tree decreases.

pub open spec fn roll_expr_size(r: RollExpr) -> nat
    decreases r,
{
    match r {
        RollExpr::Number(_) => 1,
        RollExpr::Expression(e) => 1 + expr_size(e),
    }
}

pub open spec fn expr_size(e: Expression) -> nat
    decreases e,
{
    1 + term_size(*e.term) + match e.sum {
        Some(s) => sum_size(*s),
        None => 0,
    }
}

pub open spec fn sum_size(s: Sum) -> nat
    decreases s,
{
    1 + term_size(*s.right) + match s.extra {
        Some(x) => sum_size(*x),
        None => 0,
    }
}

pub open spec fn term_size(t: Term) -> nat
    decreases t,
{
    1 + factor_size(*t.factor) + match t.product {
        Some(p) => product_size(*p),
        None => 0,
    }
}

pub open spec fn product_size(p: Product) -> nat
    decreases p,
{
    1 + factor_size(p.right) + match p.extra {
        Some(x) => product_size(*x),
        None => 0,
    }
}

pub open spec fn factor_size(f: Factor) -> nat
    decreases f,
{
    1 + match f {
        Factor::Integer(_) => 0,
        Factor::Expression(e) => expr_size(*e),
        Factor::DiceRoll(r) => dice_size(*r),
    }
}

pub open spec fn dice_size(r: DiceRoll) -> nat
    decreases r,
{
    1 + roll_expr_size(*r.sides) + match r.count {
        Some(c) => roll_expr_size(*c),
        None => 0,
    } + match r.keep {
        Some(k) => keep_size(k),
        None => 0,
    } + match r.drop {
        Some(d) => drop_size(d),
        None => 0,
    }
}

pub open spec fn keep_size(k: Keep) -> nat
    decreases k,
{
    1 + match k {
        Keep::High(e) => roll_expr_size(*e),
        Keep::Low(e) => roll_expr_size(*e),
    }
}

pub open spec fn drop_size(d: Drop) -> nat
    decreases d,
{
    1 + match d {
        Drop::High(e) => roll_expr_size(*e),
        Drop::Low(e) => roll_expr_size(*e),
    }
}

/// The size of the keep and drop clauses of a dice roll, which is below the
/// size of the roll.
pub open spec fn clauses_size(kp: Option<Keep>, dp: Option<Drop>) -> nat {
    1 + match kp {
        Some(k) => keep_size(k),
        None => 0,
    } + match dp {
        Some(d) => drop_size(d),
        None => 0,
    }
}

/// The term `0`.
pub open spec fn zero_term() -> Term {
    Term { factor: Box::new(Factor::Integer(0)), product: None }
}

impl Expression {
    /// A sum from its first term and the rest; a missing first term stands for `0`.
    pub fn new(term: Option<Term>, sum: Option<Sum>) -> (r: Expression)
        ensures
            term is Some ==> *r.term == term->0,
            term is None ==> *r.term == zero_term(),
            sum is Some ==> r.sum == Some(Box::new(sum->0)),
            sum is None ==> r.sum is None,
    {
        let sum = match sum {
            Some(s) => Some(Box::new(s)),
            None => None,
        };
        match term {
            Some(t) => Expression { term: Box::new(t), sum },
            None => Expression { term: Box::new(Term::new(Factor::Integer(0), None)), sum },
        }
    }
}

impl Default for Expression {
    /// The expression `0`.
    fn default() -> (r: Expression)
        ensures
            *r.term == zero_term(),
            r.sum is None,
    {
        Expression { term: Box::new(Term::new(Factor::Integer(0), None)), sum: None }
    }
}

impl Sum {
    /// `op right`, followed by `extra` when there is more.
    pub fn new(op: AddOp, right: Term, extra: Option<Sum>) -> (r: Sum)
        ensures
            r.op == op,
            *r.right == right,
            extra is Some ==> r.extra == Some(Box::new(extra->0)),
            extra is None ==> r.extra is None,
    {
        let extra = match extra {
            Some(s) => Some(Box::new(s)),
            None => None,
        };
        Sum { op, right: Box::new(right), extra }
    }
}

impl Default for Sum {
    /// `+ 0`, which leaves a sum unchanged.
    fn default() -> (r: Sum)
        ensures
            r.op == AddOp::Add,
            *r.right == zero_term(),
            r.extra is None,
    {
        Sum { op: AddOp::Add, right: Box::new(Term::new(Factor::Integer(0), None)), extra: None }
    }
}

impl Term {
    /// `factor`, followed by the rest of the product when there is more.
    pub fn new(factor: Factor, product: Option<Product>) -> (r: Term)
        ensures
            *r.factor == factor,
            product is Some ==> r.product == Some(Box::new(product->0)),
            product is None ==> r.product is None,
    {
        let product = match product {
            Some(p) => Some(Box::new(p)),
            None => None,
        };
        Term { factor: Box::new(factor), product }
    }
}

impl Product {
    /// `op right`, followed by `extra` when there is more.
    pub fn new(op: MulOp, right: Factor, extra: Option<Product>) -> (r: Product)
        ensures
            r.op == op,
            r.right == right,
            extra is Some ==> r.extra == Some(Box::new(extra->0)),
            extra is None ==> r.extra is None,
    {
        let extra = match extra {
            Some(p) => Some(Box::new(p)),
            None => None,
        };
        Product { op, right, extra }
    }
}

impl Default for Product {
    /// `* 1`, which leaves a product unchanged.
    fn default() -> (r: Product)
        ensures
            r.op == MulOp::Mul,
            r.right == Factor::Integer(1),
            r.extra is None,
    {
        Product { op: MulOp::Mul, right: Factor::Integer(1), extra: None }
    }
}

impl DiceRoll {
    /// `count d sides`, with optional keep and drop clauses.
    pub fn new(count: Option<RollExpr>, sides: RollExpr, keep: Option<Keep>, drop: Option<Drop>) -> (r: DiceRoll)
        ensures
            count is Some ==> r.count == Some(Box::new(count->0)),
            count is None ==> r.count is None,
            *r.sides == sides,
            r.keep == keep,
            r.drop == drop,
    {
        let count = match count {
            Some(c) => Some(Box::new(c)),
            None => None,
        };
        DiceRoll { count, sides: Box::new(sides), keep, drop }
    }
}

} // verus!
