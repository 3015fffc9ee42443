use vstd::prelude::*;

verus! {

/// Every way an evaluation can fail.
#[derive(Clone, Debug, PartialEq, Eq)]
pub enum RollError {
    /// A value that had to be positive was not.
    InvalidExpression,
    /// The number of dice was below one.
    InvalidCount,
    /// A die had fewer than two sides.
    InvalidSides,
    /// The number of dice to keep was below one.
    InvalidKeep,
    /// The number of dice to drop was below one.
    InvalidDrop,
    /// The right operand of `/` or `%` was zero.
    DivideByZero,
    /// The text does not follow the grammar; the message names the position.
    ParseError(String),
}

/// The human-readable cause of each error.
pub open spec fn cause_text(e: RollError) -> Seq<char> {
    match e {
        RollError::InvalidExpression => "Invalid expression"@,
        RollError::InvalidCount => "Count must be at least 1"@,
        RollError::InvalidSides => "Sides must be at least 2"@,
        RollError::InvalidKeep => "Keep must be at least 1"@,
        RollError::InvalidDrop => "Drop must be at least 1"@,
        RollError::DivideByZero => "Cannot divide by zero"@,
        RollError::ParseError(m) => m@,
    }
}

impl RollError {
    /// The cause, as shown to whoever asked for the roll.
    pub fn cause(&self) -> (r: String)
        ensures
            r@ == cause_text(*self),
    {
        match self {
            RollError::InvalidExpression => "Invalid expression".to_string(),
            RollError::InvalidCount => "Count must be at least 1".to_string(),
            RollError::InvalidSides => "Sides must be at least 2".to_string(),
            RollError::InvalidKeep => "Keep must be at least 1".to_string(),
            RollError::InvalidDrop => "Drop must be at least 1".to_string(),
            RollError::DivideByZero => "Cannot divide by zero".to_string(),
            RollError::ParseError(m) => m.clone(),
        }
    }
}

} // verus!
