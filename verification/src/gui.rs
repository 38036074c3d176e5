//! When a window is drawn next, whether what it shows is still valid, and whether
//! the application was asked to exit.

use vstd::prelude::*;

verus! {

/// When the next update is wanted. Times are instants of a monotonic clock, in
/// nanoseconds.
#[derive(Debug, Clone, Copy, PartialEq, Eq, Structural)]
pub enum NextUpdate {
    /// As soon as possible.
    Soonest,
    /// At the given instant.
    WaitUntil(u64),
    /// Only when an event arrives.
    Latest,
}

/// The earlier of two wishes: `Soonest` wins, `Latest` yields, and of two instants the
/// earlier one is kept (the first on a tie).
pub open spec fn earliest(a: NextUpdate, b: NextUpdate) -> NextUpdate {
    match b {
        NextUpdate::Soonest => b,
        NextUpdate::WaitUntil(tb) => match a {
            NextUpdate::Soonest => a,
            NextUpdate::WaitUntil(ta) => if tb < ta {
                b
            } else {
                a
            },
            NextUpdate::Latest => b,
        },
        NextUpdate::Latest => a,
    }
}

impl NextUpdate {
    /// Combines two wishes into the one that comes first.
    pub fn aggregate(self, other: NextUpdate) -> (r: NextUpdate)
        ensures
            r == earliest(self, other),
    {
        match other {
            NextUpdate::Soonest => other,
            NextUpdate::WaitUntil(others_time) => match self {
                NextUpdate::Soonest => self,
                NextUpdate::WaitUntil(self_time) => {
                    if others_time < self_time {
                        other
                    } else {
                        self
                    }
                },
                NextUpdate::Latest => other,
            },
            NextUpdate::Latest => self,
        }
    }
}

/// `Latest` changes nothing when combined, on either side.
pub proof fn lemma_aggregate_latest_identity(a: NextUpdate)
    ensures
        earliest(a, NextUpdate::Latest) == a,
        earliest(NextUpdate::Latest, a) == a,
{
}

/// `Soonest` wins whatever it is combined with, on either side.
pub proof fn lemma_aggregate_soonest_absorbs(a: NextUpdate)
    ensures
        earliest(a, NextUpdate::Soonest) == NextUpdate::Soonest,
        earliest(NextUpdate::Soonest, a) == NextUpdate::Soonest,
{
}

/// The order in which two wishes are combined does not matter.
pub proof fn lemma_aggregate_commutes(a: NextUpdate, b: NextUpdate)
    ensures
        earliest(a, b) == earliest(b, a),
{
}

/// Combining three wishes gives the same in either grouping.
pub proof fn lemma_aggregate_associates(a: NextUpdate, b: NextUpdate, c: NextUpdate)
    ensures
        earliest(earliest(a, b), c) == earliest(a, earliest(b, c)),
{
}

/// A wish combined with itself is unchanged.
pub proof fn lemma_aggregate_idempotent(a: NextUpdate)
    ensures
        earliest(a, a) == a,
{
}

/// The combined wish is one of the two, and comes no later than either.
pub proof fn lemma_aggregate_no_later(a: NextUpdate, b: NextUpdate)
    ensures
        earliest(a, b) == a || earliest(a, b) == b,
        earliest(a, b) is Soonest <== a is Soonest || b is Soonest,
        earliest(a, b) matches NextUpdate::WaitUntil(t) ==> (a matches NextUpdate::WaitUntil(ta) ==> t
            <= ta) && (b matches NextUpdate::WaitUntil(tb) ==> t <= tb),
{
}

/// How the event loop waits before its next iteration. Instants are of a monotonic
/// clock, in nanoseconds.
#[derive(Debug, Clone, Copy, PartialEq, Eq, Structural)]
pub enum ControlFlow {
    /// Runs the next iteration at once.
    Poll,
    /// Waits for an event.
    Wait,
    /// Waits for an event or the given instant.
    WaitUntil(u64),
}

/// An instant less than this far ahead (100 µs) is not waited for: the loop polls.
pub const MIN_WAIT_NANOS: u64 = 100_000;

/// The control flow that asks for an update as `u` wishes.
pub open spec fn flow_of(u: NextUpdate) -> ControlFlow {
    match u {
        NextUpdate::Soonest => ControlFlow::Poll,
        NextUpdate::WaitUntil(t) => ControlFlow::WaitUntil(t),
        NextUpdate::Latest => ControlFlow::Wait,
    }
}

impl NextUpdate {
    /// The control flow that asks for this update.
    pub fn into_control_flow(self) -> (r: ControlFlow)
        ensures
            r == flow_of(self),
    {
        match self {
            NextUpdate::Soonest => ControlFlow::Poll,
            NextUpdate::WaitUntil(t) => ControlFlow::WaitUntil(t),
            NextUpdate::Latest => ControlFlow::Wait,
        }
    }
}

/// The control flow set at the instant `now`: a wait until an instant less than
/// `MIN_WAIT_NANOS` ahead (or past) becomes a poll.
pub open spec fn settled_flow(flow: ControlFlow, now: u64) -> ControlFlow {
    match flow {
        ControlFlow::WaitUntil(t) => if t < now + MIN_WAIT_NANOS {
            ControlFlow::Poll
        } else {
            flow
        },
        _ => flow,
    }
}

/// The control flow to set at the instant `now` for the wish `flow`.
pub fn set_control_flow(flow: ControlFlow, now: u64) -> (r: ControlFlow)
    ensures
        r == settled_flow(flow, now),
{
    match flow {
        ControlFlow::WaitUntil(t) => {
            if t >= now && t - now >= MIN_WAIT_NANOS {
                flow
            } else {
                ControlFlow::Poll
            }
        },
        _ => flow,
    }
}

/// Combines the control flow set so far with a new wish: a poll always replaces it, a
/// wait until an instant replaces a plain wait or a later instant; anything else keeps
/// the flow set so far. Answers the flow (settled at `now` when replaced) and whether
/// it was replaced.
pub open spec fn aggregated_flow(original: ControlFlow, new: ControlFlow, now: u64) -> (ControlFlow, bool) {
    match new {
        ControlFlow::Poll => (settled_flow(new, now), true),
        ControlFlow::WaitUntil(nt) => match original {
            ControlFlow::WaitUntil(ot) => if nt < ot {
                (settled_flow(new, now), true)
            } else {
                (original, false)
            },
            ControlFlow::Wait => (settled_flow(new, now), true),
            ControlFlow::Poll => (original, false),
        },
        ControlFlow::Wait => (original, false),
    }
}

/// Combines the control flow set so far with the wish `new` at the instant `now`: see
/// `aggregated_flow`.
pub fn aggregate_control_flow(original: ControlFlow, new: ControlFlow, now: u64) -> (r: (ControlFlow, bool))
    ensures
        r == aggregated_flow(original, new, now),
{
    match new {
        ControlFlow::Poll => (set_control_flow(new, now), true),
        ControlFlow::WaitUntil(nt) => match original {
            ControlFlow::WaitUntil(ot) => {
                if nt < ot {
                    (set_control_flow(new, now), true)
                } else {
                    (original, false)
                }
            },
            ControlFlow::Wait => (set_control_flow(new, now), true),
            ControlFlow::Poll => (original, false),
        },
        ControlFlow::Wait => (original, false),
    }
}

/// Combining never makes the loop wait longer: the result polls, or keeps the flow set
/// so far, or waits until the new instant, which comes before any instant set so far.
/// A poll set so far stays.
pub proof fn lemma_aggregate_flow_no_later(original: ControlFlow, new: ControlFlow, now: u64)
    ensures
        ({
            let (f, replaced) = aggregated_flow(original, new, now);
            &&& !replaced ==> f == original
            &&& original is Poll ==> f is Poll
            &&& f matches ControlFlow::WaitUntil(t) ==> (original matches ControlFlow::WaitUntil(ot)
                ==> t <= ot) && t >= now + MIN_WAIT_NANOS || f == original
        }),
{
}

/// Whether what a window shows is still valid; a widget invalidates it to ask for a
/// redraw, and the window makes it valid once drawn. There is one flag per window: it
/// cannot be copied or cloned, so every holder reaches the same flag (by reference),
/// and an invalidation through any of them is seen by all.
#[derive(Debug, PartialEq, Eq, Structural)]
pub struct RenderValidity {
    validity: bool,
}

impl RenderValidity {
    /// Whether the drawing is valid.
    pub closed spec fn is_valid(&self) -> bool {
        self.validity
    }

    /// A drawing that is still to be made.
    pub fn new() -> (r: RenderValidity)
        ensures
            !r.is_valid(),
    {
        RenderValidity { validity: false }
    }

    /// Asks for a redraw.
    pub fn invalidate(&mut self)
        ensures
            !final(self).is_valid(),
    {
        self.validity = false;
    }

    /// Whether the drawing is valid.
    pub fn get(&self) -> (r: bool)
        ensures
            r == self.is_valid(),
    {
        self.validity
    }

    /// Marks the drawing valid, once the window has drawn.
    pub fn make_valid(&mut self)
        ensures
            final(self).is_valid(),
    {
        self.validity = true;
    }
}

/// Whether the application was asked to exit.
#[derive(Debug, Clone, Copy, PartialEq, Eq, Structural)]
pub struct ExitRequest {
    requested: bool,
}

impl ExitRequest {
    /// Whether an exit was asked for.
    pub closed spec fn is_requested(&self) -> bool {
        self.requested
    }

    /// No exit asked for yet.
    pub fn new() -> (r: ExitRequest)
        ensures
            !r.is_requested(),
    {
        ExitRequest { requested: false }
    }

    /// Whether an exit was asked for.
    pub fn get(&self) -> (r: bool)
        ensures
            r == self.is_requested(),
    {
        self.requested
    }
}

/// Asks the application to exit once its event loop regains control.
pub fn request_exit(exit: &mut ExitRequest)
    ensures
        final(exit).is_requested(),
{
    exit.requested = true;
}

} // verus!
