use vstd::prelude::*;
use vstd::string::StringExecFns;

use crate::output::{Output, Roll};

verus! {

/// The character of a decimal digit.
pub open spec fn digit_char(d: nat) -> char {
    if d == 0 { '0' }
    else if d == 1 { '1' }
    else if d == 2 { '2' }
    else if d == 3 { '3' }
    else if d == 4 { '4' }
    else if d == 5 { '5' }
    else if d == 6 { '6' }
    else if d == 7 { '7' }
    else if d == 8 { '8' }
    else { '9' }
}

/// A natural number written in decimal, without leading zeros.
pub open spec fn decimal(n: nat) -> Seq<char>
    decreases n,
{
    if n < 10 {
        seq![digit_char(n)]
    } else {
        decimal(n / 10).push(digit_char(n % 10))
    }
}

/// An integer written in decimal, with a `-` when negative.
pub open spec fn signed_decimal(x: int) -> Seq<char> {
    if x < 0 {
        seq!['-'] + decimal((-x) as nat)
    } else {
        decimal(x as nat)
    }
}

/// A die as text: its face, in bold (`**`) when it is kept.
pub open spec fn roll_text(r: Roll) -> Seq<char> {
    if r.keep {
        "**"@ + decimal(r.result as nat) + "**"@
    } else {
        decimal(r.result as nat)
    }
}

/// The dice as text, separated by `", "`.
pub open spec fn rolls_text(rs: Seq<Roll>) -> Seq<char>
    decreases rs.len(),
{
    if rs.len() == 0 {
        Seq::empty()
    } else if rs.len() == 1 {
        roll_text(rs[0])
    } else {
        rolls_text(rs.drop_last()) + ", "@ + roll_text(rs.last())
    }
}

/// An output as text: the total, then the dice in brackets when there are any.
pub open spec fn output_text(rolls: Seq<Roll>, total: i32) -> Seq<char> {
    if rolls.len() == 0 {
        signed_decimal(total as int)
    } else {
        signed_decimal(total as int) + " ["@ + rolls_text(rolls) + "]"@
    }
}

fn push_digit(out: &mut String, d: u64)
    requires
        d < 10,
    ensures
        final(out)@ == old(out)@.push(digit_char(d as nat)),
{
    let text: &str = if d == 0 { "0" }
        else if d == 1 { "1" }
        else if d == 2 { "2" }
        else if d == 3 { "3" }
        else if d == 4 { "4" }
        else if d == 5 { "5" }
        else if d == 6 { "6" }
        else if d == 7 { "7" }
        else if d == 8 { "8" }
        else { "9" };
    proof {
        reveal_strlit("0");
        reveal_strlit("1");
        reveal_strlit("2");
        reveal_strlit("3");
        reveal_strlit("4");
        reveal_strlit("5");
        reveal_strlit("6");
        reveal_strlit("7");
        reveal_strlit("8");
        reveal_strlit("9");
    }
    out.append(text);
    assert(final(out)@ =~= old(out)@.push(digit_char(d as nat)));
}

/// Appends `n` in decimal.
pub(crate) fn push_decimal(out: &mut String, n: u64)
    ensures
        final(out)@ == old(out)@ + decimal(n as nat),
    decreases n,
{
    if n < 10 {
        push_digit(out, n);
        assert(final(out)@ =~= old(out)@ + decimal(n as nat));
    } else {
        push_decimal(out, n / 10);
        push_digit(out, n % 10);
        assert(final(out)@ =~= old(out)@ + decimal(n as nat));
    }
}

/// Appends `x` in decimal, with its sign.
fn push_signed(out: &mut String, x: i32)
    ensures
        final(out)@ == old(out)@ + signed_decimal(x as int),
{
    if x < 0 {
        proof {
            reveal_strlit("-");
        }
        out.append("-");
        push_decimal(out, (0 - x as i64) as u64);
        assert(final(out)@ =~= old(out)@ + signed_decimal(x as int));
    } else {
        push_decimal(out, x as u64);
    }
}

fn push_roll(out: &mut String, r: Roll)
    ensures
        final(out)@ == old(out)@ + roll_text(r),
{
    proof {
        reveal_strlit("**");
    }
    if r.keep {
        out.append("**");
        push_decimal(out, r.result as u64);
        out.append("**");
        assert(final(out)@ =~= old(out)@ + roll_text(r));
    } else {
        push_decimal(out, r.result as u64);
    }
}

impl Roll {
    /// The die as text: `**5**` when kept, `5` when not.
    pub fn to_string(&self) -> (r: String)
        ensures
            r@ == roll_text(*self),
    {
        let mut out = String::new();
        push_roll(&mut out, *self);
        assert(out@ =~= roll_text(*self));
        out
    }
}

impl Output {
    /// The output as text, such as `2 [1, **2**]`, or `7` when no die was rolled.
    pub fn to_string(&self) -> (r: String)
        ensures
            r@ == output_text(self.rolls@, self.total),
    {
        let mut out = String::new();
        push_signed(&mut out, self.total);
        if self.rolls.len() == 0 {
            assert(out@ =~= output_text(self.rolls@, self.total));
            return out;
        }
        proof {
            reveal_strlit(" [");
            reveal_strlit(", ");
            reveal_strlit("]");
        }
        out.append(" [");
        let ghost head = out@;
        push_roll(&mut out, self.rolls[0]);
        assert(self.rolls@.subrange(0, 1).drop_last() =~= Seq::<Roll>::empty());
        assert(out@ =~= head + rolls_text(self.rolls@.subrange(0, 1)));
        let mut i: usize = 1;
        while i < self.rolls.len()
            invariant
                1 <= i <= self.rolls@.len(),
                out@ == head + rolls_text(self.rolls@.subrange(0, i as int)),
            decreases self.rolls@.len() - i,
        {
            out.append(", ");
            push_roll(&mut out, self.rolls[i]);
            assert(self.rolls@.subrange(0, i as int + 1).drop_last()
                =~= self.rolls@.subrange(0, i as int));
            assert(out@ =~= head + rolls_text(self.rolls@.subrange(0, i as int + 1)));
            i += 1;
        }
        out.append("]");
        assert(self.rolls@.subrange(0, i as int) =~= self.rolls@);
        assert(out@ =~= output_text(self.rolls@, self.total));
        out
    }
}

} // verus!
