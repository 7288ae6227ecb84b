//! What the progress monitor makes of one reading of the counter of
//! completed pixels: the percentage to show, and whether this reading is
//! the last.

use vstd::arithmetic::div_mod::{
    lemma_div_is_ordered, lemma_div_multiples_vanish, lemma_div_pos_is_pos,
    lemma_fundamental_div_mod, lemma_mod_bound,
};
use vstd::prelude::*;

verus! {

/// A percentage with two decimal places, truncated.
#[derive(Clone, Copy, Debug, PartialEq, Eq, Structural)]
pub struct Percent {
    /// The whole percent.
    pub whole: u128,
    /// The hundredths of a percent, 0 to 99.
    pub hundredths: u8,
}

/// One reading of the counter.
#[derive(Clone, Copy, Debug, PartialEq, Eq, Structural)]
pub struct Status {
    /// The number of completed pixels that was read.
    pub count: usize,
    /// The number of pixels of the run.
    pub total: usize,
    /// The completed share. There is none for a run without pixels.
    pub percent: Option<Percent>,
    /// Whether the counter has reached the total. The line of such a
    /// reading is the last and stays; every other line is overwritten by
    /// the next.
    pub finished: bool,
}

/// The completed share in hundredths of a percent, truncated.
pub open spec fn hundredths_done(count: int, total: int) -> int {
    count * 10000 / total
}

/// The completed share of `count` out of `total` pixels.
pub open spec fn percent_done(count: int, total: int) -> Option<Percent> {
    if total == 0 {
        None
    } else {
        Some(
            Percent {
                whole: (hundredths_done(count, total) / 100) as u128,
                hundredths: (hundredths_done(count, total) % 100) as u8,
            },
        )
    }
}

/// The reading of `count` completed pixels out of `total`.
pub open spec fn status_of(count: usize, total: usize) -> Status {
    Status { count, total, percent: percent_done(count as int, total as int), finished: count >= total }
}

/// Reads the counter: the share that is done, and whether the run is over.
/// The counter may have passed the total; the share is then above 100.
pub fn observe(count: usize, total: usize) -> (status: Status)
    ensures
        status == status_of(count, total),
{
    let finished: bool = count >= total;
    if total == 0 {
        return Status { count, total, percent: None, finished };
    }
    proof {
        lemma_div_pos_is_pos(count * 10000, total as int);
        lemma_div_pos_is_pos(count * 10000 / (total as int), 100);
        lemma_fundamental_div_mod(count * 10000 / (total as int), 100);
        lemma_mod_bound(count * 10000 / (total as int), 100);
    }
    let done: u128 = (count as u128) * 10000 / (total as u128);
    let percent = Percent { whole: done / 100, hundredths: (done % 100) as u8 };
    Status { count, total, percent: Some(percent), finished }
}

/// The share that is shown never falls as the counter rises.
pub proof fn lemma_share_monotonic(earlier: int, later: int, total: int)
    requires
        0 <= earlier <= later,
        0 < total,
    ensures
        hundredths_done(earlier, total) <= hundredths_done(later, total),
{
    lemma_div_is_ordered(earlier * 10000, later * 10000, total);
}

/// A run is over exactly when its share has reached 100 percent, and a
/// counter that stands at the total shows exactly 100.00.
pub proof fn lemma_finished_at_hundred(count: usize, total: usize)
    requires
        0 < total,
    ensures
        status_of(count, total).finished <==> hundredths_done(count as int, total as int) >= 10000,
        count == total ==> status_of(count, total).percent == Some(
            Percent { whole: 100, hundredths: 0 },
        ),
{
    let c = count as int;
    let t = total as int;
    lemma_fundamental_div_mod(c * 10000, t);
    lemma_mod_bound(c * 10000, t);
    let q = c * 10000 / t;
    if c >= t {
        assert(q >= 10000) by (nonlinear_arith)
            requires
                c * 10000 == t * q + (c * 10000) % t,
                0 <= (c * 10000) % t < t,
                c >= t,
                t > 0,
        ;
    } else {
        assert(q < 10000) by (nonlinear_arith)
            requires
                c * 10000 == t * q + (c * 10000) % t,
                0 <= (c * 10000) % t < t,
                c < t,
                t > 0,
        ;
    }
    if count == total {
        assert(c * 10000 == 10000 * t) by (nonlinear_arith)
            requires
                c == t,
        ;
        lemma_div_multiples_vanish(10000, t);
    }
}

} // verus!
