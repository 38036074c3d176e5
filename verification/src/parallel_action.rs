//! The hand-over protocol of an action run on a worker: an input is given, the
//! worker takes it, and its output is collected, unless a newer input came first.

use vstd::prelude::*;

verus! {

/// Where an action stands.
#[derive(Debug, Clone, PartialEq, Eq)]
pub enum ActionState<InpT, OutT> {
    /// Nothing to do and nothing to collect.
    Ready,
    /// An input waits for the worker.
    InputGiven(InpT),
    /// The worker is running the action.
    Pending,
    /// The output of the latest input waits to be collected.
    OutputReady(OutT),
}

/// The state after `input` is given in the state `s`: while the worker runs an earlier
/// input nothing changes (the input is handed back); otherwise the input replaces
/// whatever input or output stood before.
pub open spec fn given<InpT, OutT>(s: ActionState<InpT, OutT>, input: InpT) -> ActionState<InpT, OutT> {
    match s {
        ActionState::Pending => s,
        _ => ActionState::InputGiven(input),
    }
}

/// The state after the worker looks for work.
pub open spec fn taken<InpT, OutT>(s: ActionState<InpT, OutT>) -> ActionState<InpT, OutT> {
    match s {
        ActionState::InputGiven(_) => ActionState::Pending,
        _ => s,
    }
}

/// The state after the worker finishes: the output is kept only if no new input
/// arrived while it ran.
pub open spec fn finished<InpT, OutT>(s: ActionState<InpT, OutT>, output: OutT) -> ActionState<
    InpT,
    OutT,
> {
    match s {
        ActionState::Pending => ActionState::OutputReady(output),
        _ => s,
    }
}

/// The state after the owner looks for an output.
pub open spec fn collected<InpT, OutT>(s: ActionState<InpT, OutT>) -> ActionState<InpT, OutT> {
    match s {
        ActionState::OutputReady(_) => ActionState::Ready,
        _ => s,
    }
}

/// An action whose input and output are handed over between its owner and a worker.
pub struct ParallelAction<InpT, OutT> {
    state: ActionState<InpT, OutT>,
}

impl<InpT, OutT> ParallelAction<InpT, OutT> {
    /// Where the action stands.
    pub closed spec fn state(&self) -> ActionState<InpT, OutT> {
        self.state
    }

    /// An action with nothing to do.
    pub fn new() -> (r: Self)
        ensures
            r.state() == ActionState::<InpT, OutT>::Ready,
    {
        ParallelAction { state: ActionState::Ready }
    }

    /// Gives the action a new input, replacing any waiting input or output. While the
    /// worker is running an earlier input, the new input is handed back instead and the
    /// run goes on.
    pub fn give_input(&mut self, input: InpT) -> (r: Option<InpT>)
        ensures
            final(self).state() == given(old(self).state(), input),
            r == (if old(self).state() is Pending {
                Some(input)
            } else {
                None::<InpT>
            }),
    {
        match self.state {
            ActionState::Pending => Some(input),
            _ => {
                self.state = ActionState::InputGiven(input);
                None
            },
        }
    }

    /// The worker's side: takes the waiting input, if any, and marks the action as
    /// running.
    pub fn take_input(&mut self) -> (r: Option<InpT>)
        ensures
            final(self).state() == taken(old(self).state()),
            match old(self).state() {
                ActionState::InputGiven(i) => r == Some(i),
                _ => r is None,
            },
    {
        let mut s = ActionState::Ready;
        std::mem::swap(&mut s, &mut self.state);
        match s {
            ActionState::InputGiven(i) => {
                self.state = ActionState::Pending;
                Some(i)
            },
            other => {
                self.state = other;
                None
            },
        }
    }

    /// The worker's side: hands over the output of the input it took. The output is
    /// dropped when a newer input was given meanwhile.
    pub fn finish(&mut self, output: OutT)
        ensures
            final(self).state() == finished(old(self).state(), output),
    {
        if let ActionState::Pending = self.state {
            self.state = ActionState::OutputReady(output);
        }
    }

    /// Collects the output, if one is ready.
    pub fn try_get_output(&mut self) -> (r: Option<OutT>)
        ensures
            final(self).state() == collected(old(self).state()),
            match old(self).state() {
                ActionState::OutputReady(o) => r == Some(o),
                _ => r is None,
            },
    {
        let mut s = ActionState::Ready;
        std::mem::swap(&mut s, &mut self.state);
        match s {
            ActionState::OutputReady(o) => Some(o),
            other => {
                self.state = other;
                None
            },
        }
    }

    /// The output waiting to be collected, if any, left in place.
    pub fn output(&self) -> (r: Option<&OutT>)
        ensures
            match self.state() {
                ActionState::OutputReady(o) => r == Some(&o),
                _ => r is None,
            },
    {
        match &self.state {
            ActionState::OutputReady(o) => Some(o),
            _ => None,
        }
    }

    /// Whether there is no input waiting, no run going on and no output to collect.
    pub fn is_ready(&self) -> (r: bool)
        ensures
            r == (self.state() is Ready),
    {
        match self.state {
            ActionState::Ready => true,
            _ => false,
        }
    }
}

/// An output is collected once: after it is collected, the action is ready and a
/// second look finds nothing.
pub proof fn lemma_output_collected_once<InpT, OutT>(output: OutT)
    ensures
        collected(ActionState::<InpT, OutT>::OutputReady(output)) == ActionState::<InpT, OutT>::Ready,
        collected(collected(ActionState::<InpT, OutT>::OutputReady(output))) == ActionState::<
            InpT,
            OutT,
        >::Ready,
{
}

/// Only the output of a run is kept: finishing leaves an output only where the worker
/// was running. So once an input is accepted, whatever stood before (a waiting input,
/// an uncollected output) can never be collected: finishing a stale run in any state
/// reached by giving `input` keeps `input` waiting, and collecting then finds nothing.
pub proof fn lemma_superseded_output_dropped<InpT, OutT>(
    s: ActionState<InpT, OutT>,
    input: InpT,
    stale: OutT,
)
    ensures
        !(s is OutputReady) && finished(s, stale) is OutputReady ==> s is Pending,
        !(s is Pending) ==> finished(given(s, input), stale) == ActionState::<InpT, OutT>::InputGiven(
            input,
        ),
        !(s is Pending) ==> collected(finished(given(s, input), stale))
            == ActionState::<InpT, OutT>::InputGiven(input),
{
}

/// An input given while the worker runs is refused: the run and its output are
/// untouched, and the output collected afterwards is that of the run.
pub proof fn lemma_busy_worker_keeps_its_run<InpT, OutT>(input: InpT, output: OutT)
    ensures
        given(ActionState::<InpT, OutT>::Pending, input) == ActionState::<InpT, OutT>::Pending,
        finished(given(ActionState::<InpT, OutT>::Pending, input), output)
            == ActionState::<InpT, OutT>::OutputReady(output),
{
}

/// The states an action reaches from `s` by a sequence of steps: `Some(i)` gives the
/// input `i`, `None` lets the worker take the waiting input.
pub open spec fn after_gives<InpT, OutT>(s: ActionState<InpT, OutT>, steps: Seq<Option<InpT>>) -> ActionState<
    InpT,
    OutT,
>
    decreases steps.len(),
{
    if steps.len() == 0 {
        s
    } else {
        let prev = after_gives(s, steps.drop_last());
        match steps.last() {
            Some(i) => given(prev, i),
            None => taken(prev),
        }
    }
}

/// Whatever inputs are given and taken, the action never holds an output it did not
/// compute from its latest accepted input: starting from a state with no output, no
/// sequence of gives and takes produces one, so an output can only come from finishing
/// the run in progress.
pub proof fn lemma_no_output_without_run<InpT, OutT>(s: ActionState<InpT, OutT>, steps: Seq<Option<InpT>>)
    requires
        !(s is OutputReady),
    ensures
        !(after_gives(s, steps) is OutputReady),
    decreases steps.len(),
{
    if steps.len() > 0 {
        lemma_no_output_without_run(s, steps.drop_last());
    }
}

/// Give, take, finish and collect hand the output of that run to the owner and
/// leave the action ready.
pub proof fn lemma_round_trip<InpT, OutT>(input: InpT, output: OutT)
    ensures
        taken(given(ActionState::<InpT, OutT>::Ready, input)) == ActionState::<InpT, OutT>::Pending,
        finished(taken(given(ActionState::<InpT, OutT>::Ready, input)), output)
            == ActionState::<InpT, OutT>::OutputReady(output),
        collected(finished(taken(given(ActionState::<InpT, OutT>::Ready, input)), output))
            == ActionState::<InpT, OutT>::Ready,
{
}

} // verus!
