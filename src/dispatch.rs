//! The dual-channel dispatcher, as a state machine.
//!
//! A request is first sent over the local channel. Only if that attempt
//! fails is the same request sent, once, over the network channel, whose
//! outcome is then final. The caller performs each send and reports its
//! outcome; the machine decides what happens next.
use vstd::prelude::*;
use crate::error::PantryError;

verus! {

/// The two ways of reaching the server.
#[derive(Clone, Copy, Debug, PartialEq, Eq, Structural)]
pub enum Channel {
    /// The local interprocess socket.
    Local,
    /// The network address.
    Network,
}

/// Where a dispatch stands.
#[derive(Debug)]
pub enum DispatchState {
    /// The request has been sent over the local channel.
    LocalAttempt,
    /// The local attempt failed for `local_reason`; the request has been sent
    /// over the network channel.
    NetworkAttempt { local_reason: String },
    /// The outcome has been handed to the caller.
    Finished,
}

/// What the caller must do next.
#[derive(Debug)]
pub enum DispatchAction<R> {
    /// Send the request over this channel and report the outcome.
    Send(Channel),
    /// The dispatch is over: hand this result to the caller.
    Deliver(Result<R, PantryError>),
}

/// One transition: the state after an attempt's outcome, and the next action.
pub open spec fn step_spec<R>(s: DispatchState, outcome: Result<R, String>) -> (
    DispatchState,
    DispatchAction<R>,
) {
    match s {
        DispatchState::LocalAttempt => match outcome {
            Ok(r) => (DispatchState::Finished, DispatchAction::Deliver(Ok(r))),
            Err(e) => (
                DispatchState::NetworkAttempt { local_reason: e },
                DispatchAction::Send(Channel::Network),
            ),
        },
        DispatchState::NetworkAttempt { local_reason } => match outcome {
            Ok(r) => (DispatchState::Finished, DispatchAction::Deliver(Ok(r))),
            Err(e) => (
                DispatchState::Finished,
                DispatchAction::Deliver(
                    Err(PantryError::TransportError { local: local_reason, network: e }),
                ),
            ),
        },
        DispatchState::Finished => (DispatchState::Finished, DispatchAction::Send(Channel::Local)),
    }
}

/// Runs the machine from `s` on the outcomes of successive sends: the
/// channels sent on after `s`, and the delivered result, if one was reached.
pub open spec fn run_from<R>(s: DispatchState, outcomes: Seq<Result<R, String>>) -> (
    Seq<Channel>,
    Option<Result<R, PantryError>>,
)
    decreases outcomes.len(),
{
    if s is Finished || outcomes.len() == 0 {
        (Seq::empty(), None)
    } else {
        let (next, action) = step_spec(s, outcomes[0]);
        match action {
            DispatchAction::Send(c) => {
                let (sent, result) = run_from(next, outcomes.drop_first());
                (seq![c] + sent, result)
            },
            DispatchAction::Deliver(result) => (Seq::empty(), Some(result)),
        }
    }
}

/// A whole dispatch: the channels contacted, in order, when the i-th send
/// has the i-th outcome, and the result handed to the caller.
pub open spec fn run<R>(outcomes: Seq<Result<R, String>>) -> (
    Seq<Channel>,
    Option<Result<R, PantryError>>,
) {
    let (sent, result) = run_from(DispatchState::LocalAttempt, outcomes);
    (seq![Channel::Local] + sent, result)
}

/// The driver of one dispatch.
pub struct Dispatcher {
    pub state: DispatchState,
}

impl Dispatcher {
    /// Starts a dispatch: the first send is always over the local channel.
    pub fn new() -> (r: (Dispatcher, Channel))
        ensures
            r.0.state is LocalAttempt,
            r.1 == Channel::Local,
    {
        (Dispatcher { state: DispatchState::LocalAttempt }, Channel::Local)
    }

    /// Whether the result has been delivered.
    pub fn is_finished(&self) -> (r: bool)
        ensures
            r == self.state is Finished,
    {
        matches!(self.state, DispatchState::Finished)
    }

    /// Reports the outcome of the last send (`Err` holds the failure's
    /// description) and returns what to do next.
    pub fn on_outcome<R>(&mut self, outcome: Result<R, String>) -> (a: DispatchAction<R>)
        requires
            !(old(self).state is Finished),
        ensures
            (final(self).state, a) == step_spec(old(self).state, outcome),
    {
        let mut state = DispatchState::Finished;
        std::mem::swap(&mut self.state, &mut state);
        match state {
            DispatchState::LocalAttempt => match outcome {
                Ok(r) => DispatchAction::Deliver(Ok(r)),
                Err(e) => {
                    self.state = DispatchState::NetworkAttempt { local_reason: e };
                    DispatchAction::Send(Channel::Network)
                },
            },
            DispatchState::NetworkAttempt { local_reason } => match outcome {
                Ok(r) => DispatchAction::Deliver(Ok(r)),
                Err(e) => DispatchAction::Deliver(
                    Err(PantryError::TransportError { local: local_reason, network: e }),
                ),
            },
            DispatchState::Finished => DispatchAction::Send(Channel::Local),
        }
    }
}

/// When the local channel answers, that answer is the result and the network
/// channel is never contacted, whatever later outcomes would have been.
pub proof fn lemma_local_answer_is_final<R>(answer: R, later: Seq<Result<R, String>>)
    ensures
        run(seq![Ok(answer)] + later) == (seq![Channel::Local], Some(Ok::<R, PantryError>(answer))),
{
    let outcomes = seq![Ok(answer)] + later;
    assert(outcomes[0] == Ok::<R, String>(answer));
    assert(seq![Channel::Local] + Seq::<Channel>::empty() =~= seq![Channel::Local]);
}

/// When the local channel fails, exactly one network attempt follows, and its
/// outcome is the result: its answer as it came, or its failure together with
/// the local one.
pub proof fn lemma_local_failure_one_network_attempt<R>(
    local_reason: String,
    network: Result<R, String>,
    later: Seq<Result<R, String>>,
)
    ensures
        run(seq![Err(local_reason), network] + later).0 == seq![Channel::Local, Channel::Network],
        run(seq![Err(local_reason), network] + later).1 == Some(
            match network {
                Ok(r) => Ok::<R, PantryError>(r),
                Err(e) => Err(PantryError::TransportError { local: local_reason, network: e }),
            },
        ),
{
    let outcomes = seq![Err(local_reason), network] + later;
    let s1 = DispatchState::NetworkAttempt { local_reason };
    assert(outcomes[0] == Err::<R, String>(local_reason));
    assert(outcomes.drop_first()[0] == network);
    let (sent, _) = run_from(s1, outcomes.drop_first());
    assert(sent =~= Seq::<Channel>::empty());
    assert(seq![Channel::Local] + (seq![Channel::Network] + Seq::<Channel>::empty())
        =~= seq![Channel::Local, Channel::Network]);
}

} // verus!
