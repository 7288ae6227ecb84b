//! The escape-time evaluator: how long an orbit is followed, when it is
//! declared escaped, and when it is declared bounded before the budget is
//! spent.
//!
//! The evaluator does not know the numbers it works on. It is handed a
//! starting point and three operations on points: the bailout test, one
//! step of the iteration, and the test whether two points of the orbit are
//! close enough to take the orbit for periodic. It decides in which order
//! they are applied and what the result is.

use vstd::prelude::*;

verus! {

/// What became of an orbit.
#[derive(Clone, Copy, Debug)]
pub enum Outcome<Z> {
    /// Step number `index`, counted from 0, led to `point`, the first
    /// point of the orbit of which the bailout test held.
    Escaped { index: usize, point: Z },
    /// The orbit did not escape within the budget, or was found periodic.
    Bounded,
}

/// The parameters of the evaluator.
#[derive(Clone, Copy, Debug, PartialEq, Eq, Structural)]
pub struct Evaluator {
    /// The iteration budget.
    pub max_iter: usize,
    /// After how many steps the orbit is compared with the point at which
    /// it stood at the comparison before. At 0 or 1 it is compared after
    /// every step.
    pub interval: usize,
}

/// The three operations on points as mathematical functions.
#[verifier::reject_recursive_types(Z)]
pub struct Dynamics<Z> {
    /// The bailout test.
    pub escaped: spec_fn(Z) -> bool,
    /// One step of the iteration.
    pub step: spec_fn(Z) -> Z,
    /// Whether the first point is close enough to the second, an earlier
    /// point of the orbit, to take the orbit for periodic.
    pub near: spec_fn(Z, Z) -> bool,
}

impl<Z> Dynamics<Z> {
    /// Whether the executable operations can return nothing but what these
    /// functions say.
    pub open spec fn describes<E: Fn(Z) -> bool, S: Fn(Z) -> Z, N: Fn(Z, Z) -> bool>(
        self,
        escaped: E,
        step: S,
        near: N,
    ) -> bool {
        &&& forall|z: Z, b: bool| call_ensures(escaped, (z,), b) ==> b == (self.escaped)(z)
        &&& forall|z: Z, n: Z| call_ensures(step, (z,), n) ==> n == (self.step)(z)
        &&& forall|a: Z, b: Z, r: bool| call_ensures(near, (a, b), r) ==> r == (self.near)(a, b)
    }

    /// The point of the orbit of `start` after `n` steps.
    pub open spec fn orbit(self, start: Z, n: nat) -> Z
        decreases n,
    {
        if n == 0 {
            start
        } else {
            (self.step)(self.orbit(start, (n - 1) as nat))
        }
    }
}

impl<Z> Outcome<Z> {
    /// The iteration count of the outcome: the number of the step that led
    /// outside, or the budget itself for an orbit that did not escape.
    pub open spec fn spec_count(self, max_iter: usize) -> usize {
        match self {
            Outcome::Escaped { index, .. } => index,
            Outcome::Bounded => max_iter,
        }
    }

    /// The iteration count of the outcome: the number of the step that led
    /// outside, or the budget itself for an orbit that did not escape.
    pub fn count(&self, max_iter: usize) -> (count: usize)
        ensures
            count == self.spec_count(max_iter),
    {
        match self {
            Outcome::Escaped { index, .. } => *index,
            Outcome::Bounded => max_iter,
        }
    }
}

impl Evaluator {
    /// The number of steps from one comparison to the next: the interval,
    /// or 1 where the interval is 0.
    pub open spec fn period(self) -> nat {
        if self.interval == 0 {
            1
        } else {
            self.interval as nat
        }
    }

    /// Whether comparison number `round`, the one after `round` periods,
    /// finds the orbit close to where it stood one period earlier.
    pub open spec fn hit<Z>(self, m: Dynamics<Z>, start: Z, round: nat) -> bool {
        round >= 1 && (m.near)(
            m.orbit(start, round * self.period()),
            m.orbit(start, ((round - 1) * self.period()) as nat),
        )
    }

    /// The outcome for an orbit that stands at `z` after `steps` steps,
    /// `since` of them after the comparison that left `anchor` behind.
    ///
    /// Each step is followed by the bailout test of the point it leads to,
    /// and an escape is counted by the number of the steps before that one.
    /// The comparison comes after each step that completes a period, if
    /// the point has not escaped.
    pub open spec fn run_from<Z>(
        self,
        m: Dynamics<Z>,
        z: Z,
        anchor: Z,
        steps: int,
        since: int,
    ) -> Outcome<Z>
        decreases self.max_iter - steps,
    {
        if steps >= self.max_iter {
            Outcome::Bounded
        } else {
            let next = (m.step)(z);
            if (m.escaped)(next) {
                Outcome::Escaped { index: steps as usize, point: next }
            } else if since + 1 >= self.interval {
                if (m.near)(next, anchor) {
                    Outcome::Bounded
                } else {
                    self.run_from(m, next, next, steps + 1, 0)
                }
            } else {
                self.run_from(m, next, anchor, steps + 1, since + 1)
            }
        }
    }

    /// The outcome for the orbit of `start`.
    pub open spec fn run<Z>(self, m: Dynamics<Z>, start: Z) -> Outcome<Z> {
        self.run_from(m, start, start, 0, 0)
    }

    /// Follows the orbit of `start` and says what became of it.
    ///
    /// Where the three operations are functions of their arguments, the
    /// outcome is the one that `run` gives for those functions.
    pub fn evaluate<Z: Copy, E: Fn(Z) -> bool, S: Fn(Z) -> Z, N: Fn(Z, Z) -> bool>(
        &self,
        start: Z,
        escaped: E,
        step: S,
        near: N,
    ) -> (outcome: Outcome<Z>)
        requires
            forall|z: Z| call_requires(escaped, (z,)),
            forall|z: Z| call_requires(step, (z,)),
            forall|a: Z, b: Z| call_requires(near, (a, b)),
        ensures
            forall|m: Dynamics<Z>| #[trigger]
                m.describes(escaped, step, near) ==> outcome == self.run(m, start),
            outcome matches Outcome::Escaped { index, point } ==> index < self.max_iter
                && call_ensures(escaped, (point,), true),
    {
        let mut z: Z = start;
        let mut anchor: Z = start;
        let mut steps: usize = 0;
        let mut since: usize = 0;
        while steps < self.max_iter
            invariant
                since <= steps <= self.max_iter,
                forall|z: Z| call_requires(escaped, (z,)),
                forall|z: Z| call_requires(step, (z,)),
                forall|a: Z, b: Z| call_requires(near, (a, b)),
                forall|m: Dynamics<Z>| #[trigger]
                    m.describes(escaped, step, near) ==> self.run_from(
                        m,
                        z,
                        anchor,
                        steps as int,
                        since as int,
                    ) == self.run(m, start),
            decreases self.max_iter - steps,
        {
            let next: Z = step(z);
            if escaped(next) {
                return Outcome::Escaped { index: steps, point: next };
            }
            if since + 1 >= self.interval {
                if near(next, anchor) {
                    return Outcome::Bounded;
                }
                anchor = next;
                since = 0;
            } else {
                since += 1;
            }
            steps += 1;
            z = next;
        }
        Outcome::Bounded
    }
}

/// An escape is counted below the budget, so the budget itself is free to
/// mark the orbits that did not escape.
pub proof fn lemma_run_count<Z>(
    eval: Evaluator,
    m: Dynamics<Z>,
    z: Z,
    anchor: Z,
    steps: int,
    since: int,
)
    requires
        0 <= steps,
    ensures
        eval.run_from(m, z, anchor, steps, since) matches Outcome::Escaped { index, point }
            ==> steps <= index < eval.max_iter && (m.escaped)(point),
        eval.run_from(m, z, anchor, steps, since).spec_count(eval.max_iter) <= eval.max_iter,
    decreases eval.max_iter - steps,
{
    if steps < eval.max_iter {
        let next = (m.step)(z);
        if !(m.escaped)(next) {
            if since + 1 >= eval.interval {
                if !(m.near)(next, anchor) {
                    lemma_run_count(eval, m, next, next, steps + 1, 0);
                }
            } else {
                lemma_run_count(eval, m, next, anchor, steps + 1, since + 1);
            }
        }
    }
}

/// Where the run stands after `steps` steps of the orbit of `start`, none
/// of whose points so far has escaped: `rounds` comparisons are behind it,
/// and `since` steps since the last of them.
pub open spec fn underway<Z>(
    eval: Evaluator,
    m: Dynamics<Z>,
    start: Z,
    z: Z,
    anchor: Z,
    steps: nat,
    since: nat,
    rounds: nat,
) -> bool {
    &&& steps == rounds * eval.period() + since
    &&& since < eval.period()
    &&& z == m.orbit(start, steps)
    &&& anchor == m.orbit(start, rounds * eval.period())
}

/// One step of a run that is under way, where the point it leads to has
/// not escaped and the comparison, if one falls there, is no hit: the run
/// is under way one step further on.
proof fn lemma_underway_step<Z>(
    eval: Evaluator,
    m: Dynamics<Z>,
    start: Z,
    z: Z,
    anchor: Z,
    steps: nat,
    since: nat,
    rounds: nat,
)
    requires
        underway(eval, m, start, z, anchor, steps, since, rounds),
    ensures
        (m.step)(z) == m.orbit(start, steps + 1),
        since + 1 >= eval.interval <==> since + 1 == eval.period(),
        since + 1 == eval.period() ==> {
            &&& steps + 1 == (rounds + 1) * eval.period()
            &&& eval.hit(m, start, rounds + 1) == (m.near)((m.step)(z), anchor)
            &&& underway(eval, m, start, (m.step)(z), (m.step)(z), steps + 1, 0, rounds + 1)
        },
        since + 1 < eval.period() ==> underway(
            eval,
            m,
            start,
            (m.step)(z),
            anchor,
            steps + 1,
            since + 1,
            rounds,
        ),
{
    let p = eval.period();
    assert((rounds + 1) * p == rounds * p + p) by (nonlinear_arith);
    assert(((rounds + 1 - 1) * p) as nat == rounds * p);
}

/// The iteration stops the first time the bailout test holds: an orbit
/// that escapes with count `index` has made `index + 1` steps, stands at
/// the point that the last of them led to, and the test failed at every
/// point that the steps before led to.
pub proof fn lemma_first_escape<Z>(eval: Evaluator, m: Dynamics<Z>, start: Z)
    ensures
        eval.run(m, start) matches Outcome::Escaped { index, point } ==> {
            &&& index < eval.max_iter
            &&& point == m.orbit(start, (index + 1) as nat)
            &&& (m.escaped)(point)
            &&& forall|i: nat| 1 <= i <= index ==> !(m.escaped)(#[trigger] m.orbit(start, i))
        },
{
    lemma_first_escape_from(eval, m, start, start, start, 0, 0);
}

/// `lemma_first_escape` for an orbit taken up after `steps` steps.
proof fn lemma_first_escape_from<Z>(
    eval: Evaluator,
    m: Dynamics<Z>,
    start: Z,
    z: Z,
    anchor: Z,
    steps: nat,
    since: int,
)
    requires
        z == m.orbit(start, steps),
        forall|i: nat| 1 <= i <= steps ==> !(m.escaped)(#[trigger] m.orbit(start, i)),
    ensures
        eval.run_from(m, z, anchor, steps as int, since) matches Outcome::Escaped { index, point }
            ==> {
            &&& index < eval.max_iter
            &&& point == m.orbit(start, (index + 1) as nat)
            &&& (m.escaped)(point)
            &&& forall|i: nat| 1 <= i <= index ==> !(m.escaped)(#[trigger] m.orbit(start, i))
        },
    decreases eval.max_iter - steps,
{
    if steps < eval.max_iter {
        let next = (m.step)(z);
        assert(next == m.orbit(start, steps + 1));
        if !(m.escaped)(next) {
            if since + 1 >= eval.interval {
                if !(m.near)(next, anchor) {
                    lemma_first_escape_from(eval, m, start, next, next, steps + 1, 0);
                }
            } else {
                lemma_first_escape_from(eval, m, start, next, anchor, steps + 1, since + 1);
            }
        }
    }
}

/// When an escape is owed: if step number `k`, within the budget, is the
/// first to lead outside the bailout radius, and no comparison before it
/// is a hit, the orbit escapes with count `k` at the point that step `k`
/// leads to.
pub proof fn lemma_escape_owed<Z>(eval: Evaluator, m: Dynamics<Z>, start: Z, k: nat)
    requires
        k < eval.max_iter,
        (m.escaped)(m.orbit(start, k + 1)),
        forall|i: nat| 1 <= i <= k ==> !(m.escaped)(#[trigger] m.orbit(start, i)),
        forall|round: nat| round * eval.period() <= k ==> !#[trigger] eval.hit(m, start, round),
    ensures
        eval.run(m, start) == (Outcome::Escaped {
            index: k as usize,
            point: m.orbit(start, k + 1),
        }),
{
    assert(0 * eval.period() == 0) by (nonlinear_arith);
    lemma_escape_owed_from(eval, m, start, k, start, start, 0, 0, 0);
}

/// `lemma_escape_owed` for a run that is under way.
proof fn lemma_escape_owed_from<Z>(
    eval: Evaluator,
    m: Dynamics<Z>,
    start: Z,
    k: nat,
    z: Z,
    anchor: Z,
    steps: nat,
    since: nat,
    rounds: nat,
)
    requires
        k < eval.max_iter,
        (m.escaped)(m.orbit(start, k + 1)),
        forall|i: nat| 1 <= i <= k ==> !(m.escaped)(#[trigger] m.orbit(start, i)),
        forall|round: nat| round * eval.period() <= k ==> !#[trigger] eval.hit(m, start, round),
        underway(eval, m, start, z, anchor, steps, since, rounds),
        steps <= k,
    ensures
        eval.run_from(m, z, anchor, steps as int, since as int) == (Outcome::Escaped {
            index: k as usize,
            point: m.orbit(start, k + 1),
        }),
    decreases k - steps,
{
    lemma_underway_step(eval, m, start, z, anchor, steps, since, rounds);
    let next = (m.step)(z);
    if steps < k {
        assert(!(m.escaped)(m.orbit(start, steps + 1)));
        if since + 1 >= eval.interval {
            assert(!eval.hit(m, start, rounds + 1));
            lemma_escape_owed_from(eval, m, start, k, next, next, steps + 1, 0, rounds + 1);
        } else {
            lemma_escape_owed_from(eval, m, start, k, next, anchor, steps + 1, since + 1, rounds);
        }
    }
}

/// When the orbit is taken for periodic: if comparison number `round`
/// falls within the budget and is a hit, and no step up to it has led
/// outside the bailout radius, the orbit is bounded, however much of the
/// budget is left.
pub proof fn lemma_hit_bounded<Z>(eval: Evaluator, m: Dynamics<Z>, start: Z, round: nat)
    requires
        round * eval.period() <= eval.max_iter,
        eval.hit(m, start, round),
        forall|i: nat|
            1 <= i <= round * eval.period() ==> !(m.escaped)(#[trigger] m.orbit(start, i)),
    ensures
        eval.run(m, start) == Outcome::<Z>::Bounded,
{
    assert(0 * eval.period() == 0) by (nonlinear_arith);
    lemma_hit_bounded_from(eval, m, start, round, start, start, 0, 0, 0);
}

/// `lemma_hit_bounded` for a run that is under way.
proof fn lemma_hit_bounded_from<Z>(
    eval: Evaluator,
    m: Dynamics<Z>,
    start: Z,
    round: nat,
    z: Z,
    anchor: Z,
    steps: nat,
    since: nat,
    rounds: nat,
)
    requires
        round * eval.period() <= eval.max_iter,
        eval.hit(m, start, round),
        forall|i: nat|
            1 <= i <= round * eval.period() ==> !(m.escaped)(#[trigger] m.orbit(start, i)),
        underway(eval, m, start, z, anchor, steps, since, rounds),
        rounds < round,
    ensures
        eval.run_from(m, z, anchor, steps as int, since as int) == Outcome::<Z>::Bounded,
    decreases round * eval.period() - steps,
{
    let p = eval.period();
    lemma_underway_step(eval, m, start, z, anchor, steps, since, rounds);
    assert(round * p >= (rounds + 1) * p) by (nonlinear_arith)
        requires
            round >= rounds + 1,
    ;
    assert((rounds + 1) * p == rounds * p + p) by (nonlinear_arith);
    let next = (m.step)(z);
    assert(!(m.escaped)(m.orbit(start, steps + 1)));
    if since + 1 >= eval.interval {
        if rounds + 1 < round {
            if !(m.near)(next, anchor) {
                lemma_hit_bounded_from(eval, m, start, round, next, next, steps + 1, 0, rounds + 1);
            }
        }
    } else {
        lemma_hit_bounded_from(eval, m, start, round, next, anchor, steps + 1, since + 1, rounds);
    }
}

/// When the budget runs out: if none of the steps that the budget allows
/// leads outside the bailout radius, the orbit is bounded.
pub proof fn lemma_no_escape_bounded<Z>(eval: Evaluator, m: Dynamics<Z>, start: Z)
    requires
        forall|i: nat| 1 <= i <= eval.max_iter ==> !(m.escaped)(#[trigger] m.orbit(start, i)),
    ensures
        eval.run(m, start) == Outcome::<Z>::Bounded,
{
    lemma_no_escape_bounded_from(eval, m, start, start, start, 0, 0);
}

/// `lemma_no_escape_bounded` for an orbit taken up after `steps` steps.
proof fn lemma_no_escape_bounded_from<Z>(
    eval: Evaluator,
    m: Dynamics<Z>,
    start: Z,
    z: Z,
    anchor: Z,
    steps: nat,
    since: int,
)
    requires
        forall|i: nat| 1 <= i <= eval.max_iter ==> !(m.escaped)(#[trigger] m.orbit(start, i)),
        z == m.orbit(start, steps),
    ensures
        eval.run_from(m, z, anchor, steps as int, since) == Outcome::<Z>::Bounded,
    decreases eval.max_iter - steps,
{
    if steps < eval.max_iter {
        let next = (m.step)(z);
        assert(next == m.orbit(start, steps + 1));
        if since + 1 >= eval.interval {
            if !(m.near)(next, anchor) {
                lemma_no_escape_bounded_from(eval, m, start, next, next, steps + 1, 0);
            }
        } else {
            lemma_no_escape_bounded_from(eval, m, start, next, anchor, steps + 1, since + 1);
        }
    }
}

/// An orbit that rests at a point of which the bailout test fails never
/// escapes, whatever the budget and the interval.
pub proof fn lemma_fixed_point_bounded<Z>(eval: Evaluator, m: Dynamics<Z>, z: Z)
    requires
        (m.step)(z) == z,
        !(m.escaped)(z),
    ensures
        eval.run(m, z) == Outcome::<Z>::Bounded,
{
    assert forall|i: nat| !(m.escaped)(#[trigger] m.orbit(z, i)) by {
        lemma_resting_orbit(m, z, i);
    }
    lemma_no_escape_bounded(eval, m, z);
}

/// The orbit of a point that one step leaves where it is never moves.
proof fn lemma_resting_orbit<Z>(m: Dynamics<Z>, z: Z, n: nat)
    requires
        (m.step)(z) == z,
    ensures
        m.orbit(z, n) == z,
    decreases n,
{
    if n > 0 {
        lemma_resting_orbit(m, z, (n - 1) as nat);
    }
}

/// An orbit whose first step leads outside the bailout radius escapes with
/// count 0, whatever the budget, if it is not 0, and the interval.
pub proof fn lemma_escape_at_first_step<Z>(eval: Evaluator, m: Dynamics<Z>, start: Z)
    requires
        eval.max_iter >= 1,
        (m.escaped)((m.step)(start)),
    ensures
        eval.run(m, start) == (Outcome::Escaped { index: 0, point: (m.step)(start) }),
{
}

} // verus!
