use vstd::prelude::*;

use crate::ast::DiceRoll;
use crate::output::{wrap32, wrap_i64, Roll};

verus! {

/// Whether die `j` comes before die `i` when the dice are stably sorted by
/// face, highest first when `high`, lowest first otherwise.
pub open spec fn ahead(rs: Seq<Roll>, j: int, i: int, high: bool) -> bool {
    if high {
        rs[j].result > rs[i].result || (rs[j].result == rs[i].result && j < i)
    } else {
        rs[j].result < rs[i].result || (rs[j].result == rs[i].result && j < i)
    }
}

/// How many of the first `n` dice come before die `i` in that order.
pub open spec fn rank_within(rs: Seq<Roll>, i: int, high: bool, n: int) -> nat
    decreases n,
{
    if n <= 0 {
        0
    } else {
        rank_within(rs, i, high, n - 1) + if ahead(rs, n - 1, i, high) { 1nat } else { 0nat }
    }
}

/// The place of die `i` (from 0) in the stable order by face.
pub open spec fn rank(rs: Seq<Roll>, i: int, high: bool) -> nat {
    rank_within(rs, i, high, rs.len() as int)
}

/// The dice after keeping (`keeping`) or dropping (`!keeping`) `amount` of
/// them, the highest when `high` and the lowest otherwise. Keeping un-keeps
/// every die placed at `amount` or later; dropping un-keeps every die placed
/// before `amount`. Faces and order stay as they were.
pub open spec fn selected(rs: Seq<Roll>, amount: int, high: bool, keeping: bool) -> Seq<Roll> {
    Seq::new(
        rs.len(),
        |i: int|
            Roll {
                result: rs[i].result,
                keep: rs[i].keep && if keeping {
                    rank(rs, i, high) < amount
                } else {
                    rank(rs, i, high) >= amount
                },
            },
    )
}

/// The sum of the faces of the kept dice.
pub open spec fn kept_sum(rs: Seq<Roll>) -> int
    decreases rs.len(),
{
    if rs.len() == 0 {
        0
    } else {
        kept_sum(rs.drop_last()) + if rs.last().keep { rs.last().result as int } else { 0 }
    }
}

fn rank_of(rolls: &Vec<Roll>, i: usize, high: bool) -> (r: usize)
    requires
        i < rolls@.len(),
    ensures
        r == rank(rolls@, i as int, high),
{
    let mut count: usize = 0;
    let mut j: usize = 0;
    while j < rolls.len()
        invariant
            i < rolls@.len(),
            j <= rolls@.len(),
            count <= j,
            count == rank_within(rolls@, i as int, high, j as int),
        decreases rolls@.len() - j,
    {
        let a = rolls[j].result;
        let b = rolls[i].result;
        let before = if high { a > b || (a == b && j < i) } else { a < b || (a == b && j < i) };
        if before {
            count += 1;
        }
        j += 1;
    }
    count
}

impl DiceRoll {
    /// The place of die `i` when the dice are stably sorted highest first.
    pub fn high_to_low(rolls: &Vec<Roll>, i: usize) -> (r: usize)
        requires
            i < rolls@.len(),
        ensures
            r == rank(rolls@, i as int, true),
    {
        rank_of(rolls, i, true)
    }

    /// The place of die `i` when the dice are stably sorted lowest first.
    pub fn low_to_high(rolls: &Vec<Roll>, i: usize) -> (r: usize)
        requires
            i < rolls@.len(),
        ensures
            r == rank(rolls@, i as int, false),
    {
        rank_of(rolls, i, false)
    }

    /// The sum of the kept faces, wrapping around on overflow.
    pub fn total(rolls: &Vec<Roll>) -> (r: i32)
        ensures
            r == wrap32(kept_sum(rolls@)),
    {
        let mut acc: u64 = 0;
        let mut i: usize = 0;
        while i < rolls.len()
            invariant
                i <= rolls@.len(),
                acc < 0x1_0000_0000,
                acc as int == kept_sum(rolls@.subrange(0, i as int)) % 0x1_0000_0000,
            decreases rolls@.len() - i,
        {
            let r = rolls[i];
            let add: u64 = if r.keep { r.result as u64 } else { 0 };
            let ghost before = kept_sum(rolls@.subrange(0, i as int));
            assert(rolls@.subrange(0, i as int + 1).drop_last() =~= rolls@.subrange(0, i as int));
            assert(kept_sum(rolls@.subrange(0, i as int + 1)) == before + add);
            proof {
                vstd::arithmetic::div_mod::lemma_add_mod_noop(before, add as int, 0x1_0000_0000);
                vstd::arithmetic::div_mod::lemma_small_mod(add as nat, 0x1_0000_0000);
                vstd::arithmetic::div_mod::lemma_mod_bound(before, 0x1_0000_0000);
            }
            acc = (acc + add) % 0x1_0000_0000;
            i += 1;
        }
        assert(rolls@.subrange(0, i as int) =~= rolls@);
        proof {
            vstd::arithmetic::div_mod::lemma_mod_twice(kept_sum(rolls@), 0x1_0000_0000);
        }
        wrap_i64(acc as i64)
    }
}

/// Keeps (`keeping`) or drops `amount` of the dice, the highest when `high`.
pub fn select(rolls: &mut Vec<Roll>, amount: usize, high: bool, keeping: bool)
    ensures
        final(rolls)@ == selected(old(rolls)@, amount as int, high, keeping),
{
    let ghost start = rolls@;
    let n = rolls.len();
    let mut places: Vec<usize> = Vec::new();
    let mut i: usize = 0;
    while i < n
        invariant
            n == rolls@.len(),
            rolls@ == start,
            i <= n,
            places@.len() == i,
            forall|k: int| 0 <= k < i ==> places@[k] == rank(start, k, high),
        decreases n - i,
    {
        places.push(rank_of(rolls, i, high));
        i += 1;
    }
    let mut i: usize = 0;
    while i < n
        invariant
            n == rolls@.len(),
            n == start.len(),
            i <= n,
            places@.len() == n,
            forall|k: int| 0 <= k < n ==> places@[k] == rank(start, k, high),
            forall|k: int| 0 <= k < i ==> rolls@[k] == selected(start, amount as int, high, keeping)[k],
            forall|k: int| i <= k < n ==> rolls@[k] == start[k],
        decreases n - i,
    {
        let r = rolls[i];
        let stays = if keeping { places[i] < amount } else { places[i] >= amount };
        rolls.set(i, Roll { result: r.result, keep: r.keep && stays });
        i += 1;
    }
    assert(rolls@ =~= selected(start, amount as int, high, keeping));
}

} // verus!
