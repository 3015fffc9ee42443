use vstd::prelude::*;
use vstd::std_specs::iter::IteratorSpec;

use crate::ast::{AddOp, DiceRoll, Drop, Expression, Factor, Keep, MulOp, Product, RollExpr, Sum, Term};
use crate::error::RollError;
use crate::output::{wrap32, wrap_i64};
use crate::render::{decimal, push_decimal};
use vstd::string::StringExecFns;

verus! {

broadcast use vstd::string::next_postcondition;

/// The characters of `text`, in order.
pub fn chars_of(text: &str) -> (r: Vec<char>)
    ensures
        r@ == text@,
{
    let mut it = text.chars();
    let mut out: Vec<char> = Vec::new();
    assert(it.remaining() == text@);
    loop
        invariant
            out@ + it.remaining() == text@,
            it.obeys_prophetic_iter_laws(),
            out@.len() <= text@.len(),
        ensures
            out@ == text@,
        decreases text@.len() - out@.len(),
    {
        match it.next() {
            Some(c) => {
                assert(out@.push(c) + it.remaining() =~= text@);
                out.push(c);
            },
            None => {
                assert(out@ =~= text@);
                break;
            },
        }
    }
    out
}

// The grammar, as parsing functions over the characters `s` from position
// `p`. Each gives the tree it recognises and the position just after it, or
// `None`. Alternatives are tried in order and the first that matches wins;
// repetitions take as many rounds as match. Blanks (spaces and tabs) may
// stand around operators and inside parentheses. The guards on positions
// (`p < q <= s.len()`) never fail, since every rule that matches consumes
// input and stays within the text, as the executable parsers below show;
// they make the recursion visibly well-founded.

pub open spec fn is_blank(c: char) -> bool {
    c == ' ' || c == '\t'
}

pub open spec fn is_digit(c: char) -> bool {
    '0' <= c <= '9'
}

/// How many blanks start at `p`.
pub open spec fn blank_run(s: Seq<char>, p: int) -> nat
    decreases s.len() - p,
{
    if 0 <= p < s.len() && is_blank(s[p]) {
        1 + blank_run(s, p + 1)
    } else {
        0
    }
}

/// How many digits start at `p`.
pub open spec fn digit_run(s: Seq<char>, p: int) -> nat
    decreases s.len() - p,
{
    if 0 <= p < s.len() && is_digit(s[p]) {
        1 + digit_run(s, p + 1)
    } else {
        0
    }
}

/// The value of the decimal digits `s[p..q]`.
pub open spec fn digits_value(s: Seq<char>, p: int, q: int) -> int
    decreases q - p,
{
    if q <= p {
        0
    } else {
        digits_value(s, p, q - 1) * 10 + (s[q - 1] as int - '0' as int)
    }
}

/// `Number := digit+`, when its value fits in `u32`.
pub open spec fn number(s: Seq<char>, p: int) -> Option<(u32, int)> {
    let q = p + digit_run(s, p);
    if q > p && digits_value(s, p, q) <= u32::MAX {
        Some((digits_value(s, p, q) as u32, q))
    } else {
        None
    }
}

/// `Integer := "-"? Number`, its value wrapped into `i32`.
pub open spec fn integer(s: Seq<char>, p: int) -> Option<(i32, int)> {
    let neg = 0 <= p < s.len() && s[p] == '-';
    let start = if neg { p + 1 } else { p };
    match number(s, start) {
        Some((n, q)) => Some((wrap32(if neg { -(n as int) } else { n as int }), q)),
        None => None,
    }
}

/// Whether `s[p]` exists and is `c`.
pub open spec fn at(s: Seq<char>, p: int, c: char) -> bool {
    0 <= p < s.len() && s[p] == c
}

/// `Expression := Term Sum?`
pub open spec fn expression(s: Seq<char>, p: int) -> Option<(Expression, int)>
    decreases s.len() - p, 6int,
{
    match term(s, p) {
        Some((t, q)) => if !(p < q <= s.len()) {
            None
        } else {
            match sum(s, q) {
                Some((x, r)) => Some((Expression { term: Box::new(t), sum: Some(Box::new(x)) }, r)),
                None => Some((Expression { term: Box::new(t), sum: None }, q)),
            }
        },
        None => None,
    }
}

/// `Sum := ("+" | "-") Term Sum?`
pub open spec fn sum(s: Seq<char>, p: int) -> Option<(Sum, int)>
    decreases s.len() - p, 0int,
{
    let a = p + blank_run(s, p);
    let b = a + 1 + blank_run(s, a + 1);
    if !(at(s, a, '+') || at(s, a, '-')) || b > s.len() {
        None
    } else {
        let op = if at(s, a, '+') { AddOp::Add } else { AddOp::Sub };
        match term(s, b) {
            Some((t, q)) => if !(p < q <= s.len()) {
                None
            } else {
                match sum(s, q) {
                    Some((x, r)) => Some((Sum { op, right: Box::new(t), extra: Some(Box::new(x)) }, r)),
                    None => Some((Sum { op, right: Box::new(t), extra: None }, q)),
                }
            },
            None => None,
        }
    }
}

/// `Term := Factor Product?`
pub open spec fn term(s: Seq<char>, p: int) -> Option<(Term, int)>
    decreases s.len() - p, 5int,
{
    match factor(s, p) {
        Some((f, q)) => if !(p < q <= s.len()) {
            None
        } else {
            match product(s, q) {
                Some((x, r)) => Some((Term { factor: Box::new(f), product: Some(Box::new(x)) }, r)),
                None => Some((Term { factor: Box::new(f), product: None }, q)),
            }
        },
        None => None,
    }
}

/// `Product := ("*" | "/" | "%") Factor Product?`
pub open spec fn product(s: Seq<char>, p: int) -> Option<(Product, int)>
    decreases s.len() - p, 0int,
{
    let a = p + blank_run(s, p);
    let b = a + 1 + blank_run(s, a + 1);
    if !(at(s, a, '*') || at(s, a, '/') || at(s, a, '%')) || b > s.len() {
        None
    } else {
        let op = if at(s, a, '*') {
            MulOp::Mul
        } else if at(s, a, '/') {
            MulOp::Div
        } else {
            MulOp::Mod
        };
        match factor(s, b) {
            Some((f, q)) => if !(p < q <= s.len()) {
                None
            } else {
                match product(s, q) {
                    Some((x, r)) => Some((Product { op, right: f, extra: Some(Box::new(x)) }, r)),
                    None => Some((Product { op, right: f, extra: None }, q)),
                }
            },
            None => None,
        }
    }
}

/// `Factor := DiceRoll | Integer | "(" Expression ")"`
pub open spec fn factor(s: Seq<char>, p: int) -> Option<(Factor, int)>
    decreases s.len() - p, 4int,
{
    match dice_roll(s, p) {
        Some((r, q)) => Some((Factor::DiceRoll(Box::new(r)), q)),
        None => match integer(s, p) {
            Some((n, q)) => Some((Factor::Integer(n), q)),
            None => match nested(s, p) {
                Some((e, q)) => Some((Factor::Expression(Box::new(e)), q)),
                None => None,
            },
        },
    }
}

/// `DiceRoll := RollExpr? "d" RollExpr Keep? Drop?`
pub open spec fn dice_roll(s: Seq<char>, p: int) -> Option<(DiceRoll, int)>
    decreases s.len() - p, 3int,
{
    let (count, a) = match roll_expr(s, p) {
        Some((c, q)) => (Some(Box::new(c)), q),
        None => (None, p),
    };
    if a < p || !at(s, a, 'd') {
        None
    } else {
        match roll_expr(s, a + 1) {
            Some((sides, b)) => if !(p < b <= s.len()) {
                None
            } else {
                let (keep, c) = match keep(s, b) {
                    Some((k, q)) => (Some(k), q),
                    None => (None, b),
                };
                if !(b <= c <= s.len()) {
                    None
                } else {
                    let (drop, e) = match drop(s, c) {
                        Some((x, q)) => (Some(x), q),
                        None => (None, c),
                    };
                    Some((DiceRoll { count, sides: Box::new(sides), keep, drop }, e))
                }
            },
            None => None,
        }
    }
}

/// `Keep := "kl" RollExpr | ("kh" | "k") RollExpr`
pub open spec fn keep(s: Seq<char>, p: int) -> Option<(Keep, int)>
    decreases s.len() - p, 0int,
{
    if at(s, p, 'k') && at(s, p + 1, 'l') {
        match roll_expr(s, p + 2) {
            Some((e, q)) => Some((Keep::Low(Box::new(e)), q)),
            None => None,
        }
    } else if at(s, p, 'k') && at(s, p + 1, 'h') {
        match roll_expr(s, p + 2) {
            Some((e, q)) => Some((Keep::High(Box::new(e)), q)),
            None => None,
        }
    } else if at(s, p, 'k') {
        match roll_expr(s, p + 1) {
            Some((e, q)) => Some((Keep::High(Box::new(e)), q)),
            None => None,
        }
    } else {
        None
    }
}

/// `Drop := "dh" RollExpr | ("dl" | "d") RollExpr`
pub open spec fn drop(s: Seq<char>, p: int) -> Option<(Drop, int)>
    decreases s.len() - p, 0int,
{
    if at(s, p, 'd') && at(s, p + 1, 'h') {
        match roll_expr(s, p + 2) {
            Some((e, q)) => Some((Drop::High(Box::new(e)), q)),
            None => None,
        }
    } else if at(s, p, 'd') && at(s, p + 1, 'l') {
        match roll_expr(s, p + 2) {
            Some((e, q)) => Some((Drop::Low(Box::new(e)), q)),
            None => None,
        }
    } else if at(s, p, 'd') {
        match roll_expr(s, p + 1) {
            Some((e, q)) => Some((Drop::Low(Box::new(e)), q)),
            None => None,
        }
    } else {
        None
    }
}

/// `RollExpr := "(" Expression ")" | Number`
pub open spec fn roll_expr(s: Seq<char>, p: int) -> Option<(RollExpr, int)>
    decreases s.len() - p, 2int,
{
    match nested(s, p) {
        Some((e, q)) => Some((RollExpr::Expression(e), q)),
        None => match number(s, p) {
            Some((n, q)) => Some((RollExpr::Number(n), q)),
            None => None,
        },
    }
}

/// `"(" Expression ")"`
pub open spec fn nested(s: Seq<char>, p: int) -> Option<(Expression, int)>
    decreases s.len() - p, 1int,
{
    let a = p + 1 + blank_run(s, p + 1);
    if at(s, p, '(') && a <= s.len() {
        match expression(s, a) {
            Some((e, q)) => {
                let b = q + blank_run(s, q);
                if at(s, b, ')') {
                    Some((e, b + 1))
                } else {
                    None
                }
            },
            None => None,
        }
    } else {
        None
    }
}

/// The whole text as one expression, with blanks allowed around it.
pub open spec fn parse_text(s: Seq<char>) -> Option<Expression> {
    match expression(s, blank_run(s, 0) as int) {
        Some((e, q)) => if q + blank_run(s, q) == s.len() {
            Some(e)
        } else {
            None
        },
        None => None,
    }
}

/// Whether an executable parse `r` from `p` is what the rule gives (`m`),
/// and ends after `p` and within the text when it matched.
pub open spec fn agrees<T>(r: Option<(T, usize)>, m: Option<(T, int)>, p: int, len: int) -> bool {
    match r {
        Some((x, q)) => m == Some((x, q as int)) && p < q <= len,
        None => m is None,
    }
}

fn char_at(s: &Vec<char>, p: usize, c: char) -> (r: bool)
    ensures
        r == at(s@, p as int, c),
        s@.len() <= usize::MAX,
{
    p < s.len() && s[p] == c
}

fn skip_blanks(s: &Vec<char>, p: usize) -> (r: usize)
    requires
        p <= s@.len(),
    ensures
        r == p + blank_run(s@, p as int),
        r <= s@.len(),
    decreases s@.len() - p,
{
    if p < s.len() && (s[p] == ' ' || s[p] == '\t') {
        skip_blanks(s, p + 1)
    } else {
        p
    }
}

fn scan_number(s: &Vec<char>, p: usize) -> (r: Option<(u32, usize)>)
    requires
        p <= s@.len(),
    ensures
        agrees(r, number(s@, p as int), p as int, s@.len() as int),
{
    let mut i: usize = p;
    let mut value: u64 = 0;
    let mut over = false;
    while i < s.len() && '0' <= s[i] && s[i] <= '9'
        invariant
            p <= i <= s@.len(),
            p + digit_run(s@, p as int) == i + digit_run(s@, i as int),
            !over ==> value == digits_value(s@, p as int, i as int) && value <= u32::MAX,
            over ==> digits_value(s@, p as int, i as int) > u32::MAX,
        decreases s@.len() - i,
    {
        let d = (s[i] as u32 - '0' as u32) as u64;
        assert(digits_value(s@, p as int, i + 1) == digits_value(s@, p as int, i as int) * 10 + d);
        if !over {
            value = value * 10 + d;
            if value > 0xffff_ffff {
                over = true;
            }
        }
        i += 1;
    }
    if i == p || over {
        None
    } else {
        Some((value as u32, i))
    }
}

fn scan_integer(s: &Vec<char>, p: usize) -> (r: Option<(i32, usize)>)
    requires
        p <= s@.len(),
    ensures
        agrees(r, integer(s@, p as int), p as int, s@.len() as int),
{
    let neg = char_at(s, p, '-');
    let start = if neg { p + 1 } else { p };
    match scan_number(s, start) {
        Some((n, q)) => {
            let v = if neg { wrap_i64(-(n as i64)) } else { wrap_i64(n as i64) };
            Some((v, q))
        },
        None => None,
    }
}

fn parse_expression(s: &Vec<char>, p: usize) -> (r: Option<(Expression, usize)>)
    requires
        p <= s@.len(),
    ensures
        agrees(r, expression(s@, p as int), p as int, s@.len() as int),
    decreases s@.len() - p, 6int,
{
    match parse_term(s, p) {
        Some((t, q)) => match parse_sum(s, q) {
            Some((x, r)) => Some((Expression { term: Box::new(t), sum: Some(Box::new(x)) }, r)),
            None => Some((Expression { term: Box::new(t), sum: None }, q)),
        },
        None => None,
    }
}

fn parse_sum(s: &Vec<char>, p: usize) -> (r: Option<(Sum, usize)>)
    requires
        p <= s@.len(),
    ensures
        agrees(r, sum(s@, p as int), p as int, s@.len() as int),
    decreases s@.len() - p, 0int,
{
    let a = skip_blanks(s, p);
    let op = if char_at(s, a, '+') {
        AddOp::Add
    } else if char_at(s, a, '-') {
        AddOp::Sub
    } else {
        return None;
    };
    let b = skip_blanks(s, a + 1);
    match parse_term(s, b) {
        Some((t, q)) => match parse_sum(s, q) {
            Some((x, r)) => Some((Sum { op, right: Box::new(t), extra: Some(Box::new(x)) }, r)),
            None => Some((Sum { op, right: Box::new(t), extra: None }, q)),
        },
        None => None,
    }
}

fn parse_term(s: &Vec<char>, p: usize) -> (r: Option<(Term, usize)>)
    requires
        p <= s@.len(),
    ensures
        agrees(r, term(s@, p as int), p as int, s@.len() as int),
    decreases s@.len() - p, 5int,
{
    match parse_factor(s, p) {
        Some((f, q)) => match parse_product(s, q) {
            Some((x, r)) => Some((Term { factor: Box::new(f), product: Some(Box::new(x)) }, r)),
            None => Some((Term { factor: Box::new(f), product: None }, q)),
        },
        None => None,
    }
}

fn parse_product(s: &Vec<char>, p: usize) -> (r: Option<(Product, usize)>)
    requires
        p <= s@.len(),
    ensures
        agrees(r, product(s@, p as int), p as int, s@.len() as int),
    decreases s@.len() - p, 0int,
{
    let a = skip_blanks(s, p);
    let op = if char_at(s, a, '*') {
        MulOp::Mul
    } else if char_at(s, a, '/') {
        MulOp::Div
    } else if char_at(s, a, '%') {
        MulOp::Mod
    } else {
        return None;
    };
    let b = skip_blanks(s, a + 1);
    match parse_factor(s, b) {
        Some((f, q)) => match parse_product(s, q) {
            Some((x, r)) => Some((Product { op, right: f, extra: Some(Box::new(x)) }, r)),
            None => Some((Product { op, right: f, extra: None }, q)),
        },
        None => None,
    }
}

fn parse_factor(s: &Vec<char>, p: usize) -> (r: Option<(Factor, usize)>)
    requires
        p <= s@.len(),
    ensures
        agrees(r, factor(s@, p as int), p as int, s@.len() as int),
    decreases s@.len() - p, 4int,
{
    if let Some((r, q)) = parse_dice_roll(s, p) {
        return Some((Factor::DiceRoll(Box::new(r)), q));
    }
    if let Some((n, q)) = scan_integer(s, p) {
        return Some((Factor::Integer(n), q));
    }
    match parse_nested(s, p) {
        Some((e, q)) => Some((Factor::Expression(Box::new(e)), q)),
        None => None,
    }
}

fn parse_dice_roll(s: &Vec<char>, p: usize) -> (r: Option<(DiceRoll, usize)>)
    requires
        p <= s@.len(),
    ensures
        agrees(r, dice_roll(s@, p as int), p as int, s@.len() as int),
    decreases s@.len() - p, 3int,
{
    let (count, a) = match parse_roll_expr(s, p) {
        Some((c, q)) => (Some(Box::new(c)), q),
        None => (None, p),
    };
    if !char_at(s, a, 'd') {
        return None;
    }
    let (sides, b) = match parse_roll_expr(s, a + 1) {
        Some(x) => x,
        None => {
            return None;
        },
    };
    let (keep, c) = match parse_keep(s, b) {
        Some((k, q)) => (Some(k), q),
        None => (None, b),
    };
    let (drop, e) = match parse_drop(s, c) {
        Some((x, q)) => (Some(x), q),
        None => (None, c),
    };
    Some((DiceRoll { count, sides: Box::new(sides), keep, drop }, e))
}

fn parse_keep(s: &Vec<char>, p: usize) -> (r: Option<(Keep, usize)>)
    requires
        p <= s@.len(),
    ensures
        agrees(r, keep(s@, p as int), p as int, s@.len() as int),
    decreases s@.len() - p, 0int,
{
    if !char_at(s, p, 'k') {
        return None;
    }
    if char_at(s, p + 1, 'l') {
        match parse_roll_expr(s, p + 2) {
            Some((e, q)) => Some((Keep::Low(Box::new(e)), q)),
            None => None,
        }
    } else if char_at(s, p + 1, 'h') {
        match parse_roll_expr(s, p + 2) {
            Some((e, q)) => Some((Keep::High(Box::new(e)), q)),
            None => None,
        }
    } else {
        match parse_roll_expr(s, p + 1) {
            Some((e, q)) => Some((Keep::High(Box::new(e)), q)),
            None => None,
        }
    }
}

fn parse_drop(s: &Vec<char>, p: usize) -> (r: Option<(Drop, usize)>)
    requires
        p <= s@.len(),
    ensures
        agrees(r, drop(s@, p as int), p as int, s@.len() as int),
    decreases s@.len() - p, 0int,
{
    if !char_at(s, p, 'd') {
        return None;
    }
    if char_at(s, p + 1, 'h') {
        match parse_roll_expr(s, p + 2) {
            Some((e, q)) => Some((Drop::High(Box::new(e)), q)),
            None => None,
        }
    } else if char_at(s, p + 1, 'l') {
        match parse_roll_expr(s, p + 2) {
            Some((e, q)) => Some((Drop::Low(Box::new(e)), q)),
            None => None,
        }
    } else {
        match parse_roll_expr(s, p + 1) {
            Some((e, q)) => Some((Drop::Low(Box::new(e)), q)),
            None => None,
        }
    }
}

fn parse_roll_expr(s: &Vec<char>, p: usize) -> (r: Option<(RollExpr, usize)>)
    requires
        p <= s@.len(),
    ensures
        agrees(r, roll_expr(s@, p as int), p as int, s@.len() as int),
    decreases s@.len() - p, 2int,
{
    if let Some((e, q)) = parse_nested(s, p) {
        return Some((RollExpr::Expression(e), q));
    }
    match scan_number(s, p) {
        Some((n, q)) => Some((RollExpr::Number(n), q)),
        None => None,
    }
}

fn parse_nested(s: &Vec<char>, p: usize) -> (r: Option<(Expression, usize)>)
    requires
        p <= s@.len(),
    ensures
        agrees(r, nested(s@, p as int), p as int, s@.len() as int),
    decreases s@.len() - p, 1int,
{
    if !char_at(s, p, '(') {
        return None;
    }
    let a = skip_blanks(s, p + 1);
    match parse_expression(s, a) {
        Some((e, q)) => {
            let b = skip_blanks(s, q);
            if char_at(s, b, ')') {
                Some((e, b + 1))
            } else {
                None
            }
        },
        None => None,
    }
}

/// Where parsing stops: after the expression and the blanks that follow it,
/// or where the expression should have begun.
pub open spec fn stop_position(s: Seq<char>) -> int {
    let a = blank_run(s, 0) as int;
    match expression(s, a) {
        Some((e, q)) => q + blank_run(s, q),
        None => a,
    }
}

/// The message of a syntax error: how many characters were read before
/// parsing stopped.
pub open spec fn syntax_message(s: Seq<char>) -> Seq<char> {
    "Syntax error after "@ + decimal(stop_position(s) as nat) + " characters"@
}

/// Parses `text` as one expression, with blanks allowed around it.
pub fn parse(text: &str) -> (r: Result<Expression, RollError>)
    ensures
        parse_text(text@) is Some ==> r == Ok::<Expression, RollError>(parse_text(text@)->0),
        parse_text(text@) is None ==> (r matches Err(RollError::ParseError(m)) && m@ == syntax_message(text@)),
{
    let s = chars_of(text);
    let a = skip_blanks(&s, 0);
    let stop = match parse_expression(&s, a) {
        Some((e, q)) => {
            let b = skip_blanks(&s, q);
            if b == s.len() {
                return Ok(e);
            }
            b
        },
        None => a,
    };
    proof {
        reveal_strlit("Syntax error after ");
        reveal_strlit(" characters");
    }
    let mut m = String::new();
    m.append("Syntax error after ");
    push_decimal(&mut m, stop as u64);
    m.append(" characters");
    assert(m@ =~= syntax_message(text@));
    Err(RollError::ParseError(m))
}

} // verus!
