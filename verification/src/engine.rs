//! The state-machine contract for stochastic processes and the single-trial
//! drive loop.
//!
//! A process is an implementation of [`Condition`]: a mutable running state
//! that folds in one probabilistic event per step until it recognizes a
//! terminal outcome. The driver [`sample`] repeatedly asks a condition for an
//! outcome, and while there is none, asks it to select its next event and
//! folds that event in.
//!
//! The driver enforces an explicit iteration budget: a condition that has not
//! reached an outcome after `budget` events aborts the trial with
//! [`TrialTimeout`] instead of hanging. Termination within the budget is the
//! only obligation the driver takes on; reaching an outcome at all remains a
//! correctness obligation of each condition implementation.

use vstd::prelude::*;

verus! {

/// One probabilistic choice within a trial. Opaque to the engine.
pub trait Event: Sized {}

/// The terminal result of a completed trial. Opaque to the engine.
pub trait Outcome: Sized {}

/// The mutable running state of one stochastic process instance.
///
/// The spec functions give the state machine's mathematical transition
/// relation: `push_spec` is the deterministic state update, `may_emit` the
/// support of the next-event distribution in a state, and `outcome_spec` the
/// terminal outcome, if any, that the state recognizes.
pub trait Condition: Sized {
    type Event: Event;

    type Outcome: Outcome;

    /// The state after folding `event` into this state. The default models
    /// nothing; a verified implementation overrides it.
    open spec fn push_spec(self, event: Self::Event) -> Self {
        arbitrary()
    }

    /// Whether `event` is a possible next choice in this state. The default
    /// admits every event; a verified implementation overrides it.
    open spec fn may_emit(&self, event: Self::Event) -> bool {
        true
    }

    /// The terminal outcome this state recognizes, if any. The default
    /// models nothing; a verified implementation overrides it.
    open spec fn outcome_spec(&self) -> Option<Self::Outcome> {
        arbitrary()
    }

    /// Incorporate an event into the probability condition. A condition is
    /// never reused once it has produced an outcome.
    fn push(&mut self, event: Self::Event)
        requires
            old(self).outcome_spec() is None,
        ensures
            *final(self) == old(self).push_spec(event),
    ;

    /// Select an event according to the probability given the current
    /// condition.
    fn select_event(&self) -> (event: Self::Event)
        requires
            self.outcome_spec() is None,
        ensures
            self.may_emit(event),
    ;

    /// Return the outcome if the sequence of choices leads to one.
    fn outcome(&self) -> (outcome: Option<Self::Outcome>)
        ensures
            outcome == self.outcome_spec(),
    ;
}

/// A builder of fresh, independent initial conditions for one process.
pub trait StartCondition {
    type Event: Event;

    type Outcome: Outcome;

    type Condition: Condition<Event = Self::Event, Outcome = Self::Outcome>;

    /// The initial state this builder produces. The default models nothing;
    /// a verified implementation overrides it.
    open spec fn build_spec(&self) -> Self::Condition {
        arbitrary()
    }

    fn build(&self) -> (cond: Self::Condition)
        ensures
            cond == self.build_spec(),
    ;
}

/// A trial aborted because its condition reached no outcome within the
/// iteration budget.
#[derive(Debug, Clone, Copy, PartialEq, Eq, Structural)]
pub struct TrialTimeout;

/// The state reached by folding the events of `evs`, in order, into `start`.
pub open spec fn fold_run<C: Condition>(start: C, evs: Seq<C::Event>) -> C
    decreases evs.len(),
{
    if evs.len() == 0 {
        start
    } else {
        fold_run(start, evs.drop_last()).push_spec(evs.last())
    }
}

/// `evs` is a run the process could take from `start`: before each event the
/// state is not yet terminal, and each event is in the support of its state's
/// next-event distribution.
pub open spec fn valid_run<C: Condition>(start: C, evs: Seq<C::Event>) -> bool
    decreases evs.len(),
{
    if evs.len() == 0 {
        true
    } else {
        let prev = fold_run(start, evs.drop_last());
        &&& valid_run(start, evs.drop_last())
        &&& prev.outcome_spec() is None
        &&& prev.may_emit(evs.last())
    }
}

/// What one driven trial from `start` under `budget` may report: an outcome
/// reached by some valid run of at most `budget` events, or no outcome
/// (a timeout) when some valid run of exactly `budget` events is still not
/// terminal.
pub open spec fn trial_ok<C: Condition>(start: C, budget: u64, out: Option<C::Outcome>) -> bool {
    match out {
        Some(o) => exists|evs: Seq<C::Event>|
            #[trigger] valid_run(start, evs) && evs.len() <= budget && fold_run(
                start,
                evs,
            ).outcome_spec() == Some(o),
        None => exists|evs: Seq<C::Event>|
            #[trigger] valid_run(start, evs) && evs.len() == budget && fold_run(
                start,
                evs,
            ).outcome_spec() is None,
    }
}

/// Run a simulation until an outcome is reached, or until `budget` events
/// have been folded in without one, in which case the trial aborts with
/// [`TrialTimeout`].
pub fn sample<E, O, C>(start: C, budget: u64) -> (result: Result<O, TrialTimeout>) where
    E: Event,
    O: Outcome,
    C: Condition<Event = E, Outcome = O>,

    ensures
        (match result {
            Ok(o) => trial_ok(start, budget, Some(o)),
            Err(_) => trial_ok(start, budget, None::<O>),
        }),
        (match start.outcome_spec() {
            Some(o) => result == Ok::<O, TrialTimeout>(o),
            None => true,
        }),
{
    let ghost gstart = start;
    let mut cond = start;
    let mut steps: u64 = 0;
    let ghost mut evs: Seq<E> = Seq::empty();
    loop
        invariant
            gstart == start,
            steps <= budget,
            evs.len() == steps as int,
            valid_run(gstart, evs),
            cond == fold_run(gstart, evs),
            evs.len() > 0 ==> gstart.outcome_spec() is None,
        decreases budget - steps,
    {
        let out = cond.outcome();
        if let Some(o) = out {
            proof {
                assert(valid_run(gstart, evs) && evs.len() <= budget && fold_run(
                    gstart,
                    evs,
                ).outcome_spec() == Some(o));
            }
            return Ok(o);
        }
        if steps == budget {
            proof {
                assert(valid_run(gstart, evs) && evs.len() == budget && fold_run(
                    gstart,
                    evs,
                ).outcome_spec() is None);
            }
            return Err(TrialTimeout);
        }
        let event = cond.select_event();
        let ghost gevent = event;
        cond.push(event);
        proof {
            let evs2 = evs.push(gevent);
            assert(evs2.drop_last() =~= evs);
            assert(evs2.last() == gevent);
            evs = evs2;
        }
        steps = steps + 1;
    }
}

} // verus!
