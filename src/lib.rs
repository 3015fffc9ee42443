//! Dice notation such as `3d20k2+5` or `1d(4+2)*3`, parsed and rolled.

pub mod ast;
pub mod dice;
pub mod error;
pub mod eval;
pub mod keep;
pub mod laws;
pub mod output;
pub mod parser;
pub mod render;

use vstd::prelude::*;

use crate::dice::{is_prefix, Dice};
use crate::error::RollError;
use crate::eval::expr_outcome;
use crate::output::{tally_of, Output};
use crate::parser::{parse, parse_text, syntax_message};

verus! {

/// What `str::trim` leaves of a text.
pub uninterp spec fn trimmed(s: Seq<char>) -> Seq<char>;

/// Relies on `str::trim`: the text without its leading and trailing white
/// space; the result depends on the text alone.
#[verifier::external_body]
fn trim(text: &str) -> (r: &str)
    ensures
        r@ == trimmed(text@),
{
    text.trim()
}

/// Parses `text` and evaluates it with faces from `dice`. A text that does
/// not parse rolls nothing.
pub fn evaluate(text: &str, dice: &mut Dice) -> (r: Result<Output, RollError>)
    requires
        old(dice).wf(),
    ensures
        final(dice).wf(),
        is_prefix(old(dice).history(), final(dice).history()),
        parse_text(text@) is None ==> {
            &&& r matches Err(RollError::ParseError(m)) && m@ == syntax_message(text@)
            &&& final(dice).history() == old(dice).history()
        },
        parse_text(text@) is Some ==> expr_outcome(parse_text(text@)->0, final(dice).history(), old(dice).history().len() as int)
            == Some((tally_of(r), final(dice).history().len() as int)),
{
    match parse(text) {
        Ok(e) => e.eval(dice),
        Err(e) => Err(e),
    }
}

/// Evaluates `expression`, trimmed of surrounding white space, with faces
/// from `dice`.
pub fn eval_with(expression: &str, dice: &mut Dice) -> (r: Result<Output, RollError>)
    requires
        old(dice).wf(),
    ensures
        final(dice).wf(),
        is_prefix(old(dice).history(), final(dice).history()),
        parse_text(trimmed(expression@)) is None ==> {
            &&& r matches Err(RollError::ParseError(m)) && m@ == syntax_message(trimmed(expression@))
            &&& final(dice).history() == old(dice).history()
        },
        parse_text(trimmed(expression@)) is Some ==> expr_outcome(
            parse_text(trimmed(expression@))->0,
            final(dice).history(),
            old(dice).history().len() as int,
        ) == Some((tally_of(r), final(dice).history().len() as int)),
{
    evaluate(trim(expression), dice)
}

/// Evaluates `expression`, trimmed of surrounding white space, rolling dice
/// with the thread's random generator.
pub fn eval(expression: &str) -> (r: Result<Output, RollError>)
    ensures
        parse_text(trimmed(expression@)) is None ==> (r matches Err(RollError::ParseError(m)) && m@
            == syntax_message(trimmed(expression@))),
        parse_text(trimmed(expression@)) is Some ==> exists|d: Seq<u32>|
            #[trigger] expr_outcome(parse_text(trimmed(expression@))->0, d, 0)
                == Some((tally_of(r), d.len() as int)),
{
    let mut dice = Dice::thread();
    eval_with(expression, &mut dice)
}

} // verus!
