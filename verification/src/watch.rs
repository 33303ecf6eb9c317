//! When the mounted directory is scanned again.

use vstd::prelude::*;

verus! {

/// How long the events of one change are gathered, in milliseconds.
pub const DEBOUNCE_MILLIS: u64 = 500;

/// What ended a wait for a change of the directory.
#[derive(Debug, Clone, Copy, PartialEq, Eq, Structural)]
pub enum Wake {
    /// The time between two polls has passed.
    PollElapsed,
    /// The directory reported an event.
    Event,
    /// Nothing watches the directory, so no event will ever come.
    Unwatched,
}

/// One thing to do after a wait.
#[derive(Debug, Clone, Copy, PartialEq, Eq, Structural)]
pub enum Step {
    /// Let the time between two polls pass.
    SleepPoll,
    /// Let [`DEBOUNCE_MILLIS`] pass.
    SleepDebounce,
    /// Forget the events that have come in.
    DrainEvents,
    /// Scan the directory.
    Scan,
}

/// What to do after a wait. The poll is a backstop: a missed event is a dashboard
/// that never updates. One symlink swap raises several events, which are coalesced
/// into one scan.
pub open spec fn steps(wake: Wake) -> Seq<Step> {
    match wake {
        Wake::PollElapsed => seq![Step::Scan],
        Wake::Event => seq![Step::SleepDebounce, Step::DrainEvents, Step::Scan],
        Wake::Unwatched => seq![
            Step::SleepPoll,
            Step::SleepDebounce,
            Step::DrainEvents,
            Step::Scan,
        ],
    }
}

/// How long a step sleeps, in milliseconds, given the time between two polls.
pub open spec fn sleep_millis(step: Step, poll_millis: nat) -> nat {
    match step {
        Step::SleepPoll => poll_millis,
        Step::SleepDebounce => DEBOUNCE_MILLIS as nat,
        Step::DrainEvents | Step::Scan => 0,
    }
}

/// How long steps sleep together.
pub open spec fn slept_millis(done: Seq<Step>, poll_millis: nat) -> nat
    decreases done.len(),
{
    if done.len() == 0 {
        0
    } else {
        slept_millis(done.drop_last(), poll_millis) + sleep_millis(done.last(), poll_millis)
    }
}

/// Whether a wait can take this long before it ends so: it ends with the poll at the
/// latest. Where nothing watches the directory it ends at once, so one that ends
/// [`Wake::Unwatched`] takes time only if the watching itself ended meanwhile.
pub open spec fn is_wait(wake: Wake, waited_millis: nat, poll_millis: nat) -> bool {
    match wake {
        Wake::PollElapsed => waited_millis == poll_millis,
        Wake::Event | Wake::Unwatched => waited_millis <= poll_millis,
    }
}

/// What to do after a wait.
pub fn steps_after(wake: Wake) -> (r: Vec<Step>)
    ensures
        r@ == steps(wake),
{
    let mut r: Vec<Step> = Vec::new();
    if wake == Wake::Unwatched {
        r.push(Step::SleepPoll);
    }
    if wake != Wake::PollElapsed {
        r.push(Step::SleepDebounce);
        r.push(Step::DrainEvents);
    }
    r.push(Step::Scan);
    assert(r@ =~= steps(wake));
    r
}

} // verus!
