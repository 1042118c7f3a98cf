//! Admission of requests under a ceiling on how many are in flight.
//!
//! The pool decides; whoever serves the requests acts. For each request the
//! server reports what happened as an `Event` and does what the `Action` that
//! comes back says: wait, resolve the configuration, hand the request to the
//! pipeline, or answer the caller.

use crate::error::ConfigError;
use vstd::prelude::*;

verus! {

/// What happens to a request that finds no permit free.
#[derive(Debug, Clone, Copy, PartialEq, Eq, Structural)]
pub enum AdmissionPolicy {
    /// It waits until a permit is released.
    Queue,
    /// It fails at once with `RequestError::Capacity`.
    Reject,
}

/// Where a request stands. A request only ever moves down this list.
#[derive(Debug, Clone, Copy, PartialEq, Eq, Structural)]
pub enum RequestState {
    Accepted,
    PermitPending,
    Resolving,
    Dispatched,
    Completed,
    Failed,
}

/// Why a request failed.
#[derive(Debug, Clone, Copy, PartialEq, Eq, Structural)]
pub enum RequestError {
    /// Its configuration could not be resolved.
    Config(ConfigError),
    /// No permit was free and the policy is to reject. The caller may try
    /// again later.
    Capacity,
    /// The pipeline failed. Its own error goes to the caller unchanged.
    Pipeline,
}

/// What the server reports of a request.
#[derive(Debug, Clone, Copy, PartialEq, Eq, Structural)]
pub enum Event {
    /// The override payload has been taken out of the request.
    PayloadExtracted,
    /// The request asks for a permit, for the first time or again.
    PermitWanted,
    /// The configuration has been resolved.
    Resolved,
    /// The configuration could not be resolved.
    ResolutionFailed(ConfigError),
    /// The pipeline returned a result.
    PipelineSucceeded,
    /// The pipeline returned an error.
    PipelineFailed,
    /// The caller went away or gave up waiting.
    Cancelled,
}

/// What the server is to do next for a request.
#[derive(Debug, Clone, Copy, PartialEq, Eq, Structural)]
pub enum Action {
    /// Report `PermitWanted`.
    AskForPermit,
    /// Wait until a permit is released, then report `PermitWanted` again.
    Wait,
    /// Resolve the configuration and report how that went.
    Resolve,
    /// Hand configuration and payload to the pipeline and report its result.
    Dispatch,
    /// Answer the caller with the pipeline's result.
    RespondSuccess,
    /// Answer the caller with this error.
    RespondError(RequestError),
    /// Nothing: the event does not apply to the request as it stands, or
    /// there is no caller left to answer.
    Nothing,
}

/// Whether a request in this state holds a permit.
pub open spec fn holds_permit(state: RequestState) -> bool {
    state is Resolving || state is Dispatched
}

/// Whether a request in this state is over.
pub open spec fn is_terminal(state: RequestState) -> bool {
    state is Completed || state is Failed
}

/// How far along a request in this state is.
pub open spec fn rank(state: RequestState) -> nat {
    match state {
        RequestState::Accepted => 0,
        RequestState::PermitPending => 1,
        RequestState::Resolving => 2,
        RequestState::Dispatched => 3,
        RequestState::Completed => 4,
        RequestState::Failed => 4,
    }
}

/// The state that a request moves to on an event, and what the server is to
/// do then. `permit_free` says whether fewer requests hold a permit than the
/// limit allows.
///
/// A cancelled request fails, unless it has been dispatched: from then on
/// the pipeline decides, and the request goes on until the pipeline returns.
/// An event that does not apply leaves the request where it is.
pub open spec fn transition(
    state: RequestState,
    event: Event,
    policy: AdmissionPolicy,
    permit_free: bool,
) -> (RequestState, Action) {
    match (state, event) {
        (RequestState::Accepted, Event::PayloadExtracted) => (
            RequestState::PermitPending,
            Action::AskForPermit,
        ),
        (RequestState::PermitPending, Event::PermitWanted) => if permit_free {
            (RequestState::Resolving, Action::Resolve)
        } else {
            match policy {
                AdmissionPolicy::Queue => (RequestState::PermitPending, Action::Wait),
                AdmissionPolicy::Reject => (
                    RequestState::Failed,
                    Action::RespondError(RequestError::Capacity),
                ),
            }
        },
        (RequestState::Resolving, Event::Resolved) => (RequestState::Dispatched, Action::Dispatch),
        (RequestState::Resolving, Event::ResolutionFailed(e)) => (
            RequestState::Failed,
            Action::RespondError(RequestError::Config(e)),
        ),
        (RequestState::Dispatched, Event::PipelineSucceeded) => (
            RequestState::Completed,
            Action::RespondSuccess,
        ),
        (RequestState::Dispatched, Event::PipelineFailed) => (
            RequestState::Failed,
            Action::RespondError(RequestError::Pipeline),
        ),
        (RequestState::Accepted, Event::Cancelled) => (RequestState::Failed, Action::Nothing),
        (RequestState::PermitPending, Event::Cancelled) => (RequestState::Failed, Action::Nothing),
        (RequestState::Resolving, Event::Cancelled) => (RequestState::Failed, Action::Nothing),
        _ => (state, Action::Nothing),
    }
}

/// How many of the requests hold a permit.
pub open spec fn holding(states: Seq<RequestState>) -> nat
    decreases states.len(),
{
    if states.len() == 0 {
        0
    } else {
        holding(states.drop_last()) + if holds_permit(states.last()) {
            1nat
        } else {
            0nat
        }
    }
}

/// The requests after request `id` has met with `event`.
pub open spec fn after(
    states: Seq<RequestState>,
    limit: nat,
    policy: AdmissionPolicy,
    id: int,
    event: Event,
) -> Seq<RequestState> {
    if 0 <= id < states.len() {
        states.update(id, transition(states[id], event, policy, holding(states) < limit).0)
    } else {
        states
    }
}

/// Computes `transition`.
pub fn next(state: RequestState, event: Event, policy: AdmissionPolicy, permit_free: bool) -> (r: (
    RequestState,
    Action,
))
    ensures
        r == transition(state, event, policy, permit_free),
{
    match (state, event) {
        (RequestState::Accepted, Event::PayloadExtracted) => (
            RequestState::PermitPending,
            Action::AskForPermit,
        ),
        (RequestState::PermitPending, Event::PermitWanted) => {
            if permit_free {
                (RequestState::Resolving, Action::Resolve)
            } else {
                match policy {
                    AdmissionPolicy::Queue => (RequestState::PermitPending, Action::Wait),
                    AdmissionPolicy::Reject => (
                        RequestState::Failed,
                        Action::RespondError(RequestError::Capacity),
                    ),
                }
            }
        },
        (RequestState::Resolving, Event::Resolved) => (RequestState::Dispatched, Action::Dispatch),
        (RequestState::Resolving, Event::ResolutionFailed(e)) => (
            RequestState::Failed,
            Action::RespondError(RequestError::Config(e)),
        ),
        (RequestState::Dispatched, Event::PipelineSucceeded) => (
            RequestState::Completed,
            Action::RespondSuccess,
        ),
        (RequestState::Dispatched, Event::PipelineFailed) => (
            RequestState::Failed,
            Action::RespondError(RequestError::Pipeline),
        ),
        (RequestState::Accepted, Event::Cancelled) => (RequestState::Failed, Action::Nothing),
        (RequestState::PermitPending, Event::Cancelled) => (RequestState::Failed, Action::Nothing),
        (RequestState::Resolving, Event::Cancelled) => (RequestState::Failed, Action::Nothing),
        _ => (state, Action::Nothing),
    }
}

/// Computes `is_terminal`.
pub fn is_over(state: RequestState) -> (r: bool)
    ensures
        r == is_terminal(state),
{
    match state {
        RequestState::Completed => true,
        RequestState::Failed => true,
        _ => false,
    }
}

/// One more request changes the count by what that request holds.
pub proof fn holding_push(states: Seq<RequestState>, state: RequestState)
    ensures
        holding(states.push(state)) == holding(states) + if holds_permit(state) {
            1nat
        } else {
            0nat
        },
{
    assert(states.push(state).drop_last() =~= states);
}

/// A change of one request changes the count by what that request gives up
/// and what it takes.
pub proof fn holding_update(states: Seq<RequestState>, id: int, state: RequestState)
    requires
        0 <= id < states.len(),
    ensures
        holding(states.update(id, state)) + (if holds_permit(states[id]) {
            1nat
        } else {
            0nat
        }) == holding(states) + if holds_permit(state) {
            1nat
        } else {
            0nat
        },
    decreases states.len(),
{
    let changed = states.update(id, state);
    if id == states.len() - 1 {
        assert(changed.drop_last() =~= states.drop_last());
    } else {
        holding_update(states.drop_last(), id, state);
        assert(changed.drop_last() =~= states.drop_last().update(id, state));
    }
}

/// No more requests hold a permit than there are requests.
pub proof fn holding_bounded(states: Seq<RequestState>)
    ensures
        holding(states) <= states.len(),
    decreases states.len(),
{
    if states.len() > 0 {
        holding_bounded(states.drop_last());
    }
}

/// A request never moves back to an earlier state.
pub proof fn request_never_goes_back(
    state: RequestState,
    event: Event,
    policy: AdmissionPolicy,
    permit_free: bool,
)
    ensures
        rank(state) <= rank(transition(state, event, policy, permit_free).0),
        is_terminal(state) ==> transition(state, event, policy, permit_free).0 == state,
{
}

/// The ceiling holds: where no more requests hold a permit than the limit
/// allows, the same is true after any event on any request.
pub proof fn ceiling_is_kept(
    states: Seq<RequestState>,
    limit: nat,
    policy: AdmissionPolicy,
    id: int,
    event: Event,
)
    requires
        holding(states) <= limit,
    ensures
        holding(after(states, limit, policy, id, event)) <= limit,
{
    if 0 <= id < states.len() {
        let moved = transition(states[id], event, policy, holding(states) < limit).0;
        holding_update(states, id, moved);
    }
}

/// With every permit taken, a request that asks for one waits or is
/// rejected, as the policy says; it is never dropped in silence.
pub proof fn full_pool_waits_or_rejects(
    states: Seq<RequestState>,
    limit: nat,
    policy: AdmissionPolicy,
    id: int,
)
    requires
        holding(states) == limit,
        0 <= id < states.len(),
        states[id] is PermitPending,
    ensures
        transition(states[id], Event::PermitWanted, policy, holding(states) < limit) == (match policy {
            AdmissionPolicy::Queue => (RequestState::PermitPending, Action::Wait),
            AdmissionPolicy::Reject => (
                RequestState::Failed,
                Action::RespondError(RequestError::Capacity),
            ),
        }),
{
}

/// A request that ends gives its permit back, whether it completed, failed
/// in the pipeline, failed to resolve or was cancelled: a request that waits
/// for a permit then gets one.
pub proof fn ended_request_frees_its_permit(
    states: Seq<RequestState>,
    limit: nat,
    policy: AdmissionPolicy,
    id: int,
    event: Event,
    waiting: int,
)
    requires
        holding(states) <= limit,
        0 <= id < states.len(),
        holds_permit(states[id]),
        is_terminal(transition(states[id], event, policy, holding(states) < limit).0),
        0 <= waiting < states.len(),
        waiting != id,
        states[waiting] is PermitPending,
    ensures
        holding(after(states, limit, policy, id, event)) == holding(states) - 1,
        transition(
            after(states, limit, policy, id, event)[waiting],
            Event::PermitWanted,
            policy,
            holding(after(states, limit, policy, id, event)) < limit,
        ) == (RequestState::Resolving, Action::Resolve),
{
    let moved = transition(states[id], event, policy, holding(states) < limit).0;
    holding_update(states, id, moved);
}

/// The pool of permits: the ceiling, the policy, and where every request
/// stands.
#[derive(Debug)]
pub struct PermitPool {
    limit: usize,
    policy: AdmissionPolicy,
    requests: Vec<RequestState>,
}

impl PermitPool {
    #[verifier::type_invariant]
    spec fn ceiling_holds(self) -> bool {
        holding(self.requests@) <= self.limit
    }

    /// The most requests that may hold a permit at once.
    pub closed spec fn limit(&self) -> nat {
        self.limit as nat
    }

    /// What happens to a request that finds no permit free.
    pub closed spec fn policy(&self) -> AdmissionPolicy {
        self.policy
    }

    /// Where each request stands, by its number.
    pub closed spec fn states(&self) -> Seq<RequestState> {
        self.requests@
    }

    /// A pool that no request has come to yet.
    pub fn new(limit: usize, policy: AdmissionPolicy) -> (pool: PermitPool)
        ensures
            pool.limit() == limit,
            pool.policy() == policy,
            pool.states() == Seq::<RequestState>::empty(),
    {
        PermitPool { limit, policy, requests: Vec::new() }
    }

    /// How many requests hold a permit. It is never more than the limit.
    pub fn in_flight(&self) -> (n: usize)
        ensures
            n == holding(self.states()),
            n <= self.limit(),
    {
        proof {
            use_type_invariant(self);
        }
        let mut n: usize = 0;
        let mut i: usize = 0;
        while i < self.requests.len()
            invariant
                i <= self.requests@.len(),
                n == holding(self.requests@.take(i as int)),
                n <= i,
            decreases self.requests@.len() - i,
        {
            proof {
                assert(self.requests@.take(i + 1).drop_last() =~= self.requests@.take(i as int));
            }
            match self.requests[i] {
                RequestState::Resolving => {
                    n += 1;
                },
                RequestState::Dispatched => {
                    n += 1;
                },
                _ => {},
            }
            i += 1;
        }
        proof {
            assert(self.requests@.take(i as int) =~= self.requests@);
        }
        n
    }

    /// Where request `id` stands; `None` where the pool knows no such
    /// request.
    pub fn state_of(&self, id: usize) -> (r: Option<RequestState>)
        ensures
            r == (if id < self.states().len() {
                Some(self.states()[id as int])
            } else {
                None
            }),
    {
        if id < self.requests.len() {
            Some(self.requests[id])
        } else {
            None
        }
    }

    /// Takes in a new request and gives its number. The number of a request
    /// that is over is given out again.
    pub fn accept(&mut self) -> (id: usize)
        ensures
            final(self).limit() == old(self).limit(),
            final(self).policy() == old(self).policy(),
            id <= old(self).states().len(),
            id < old(self).states().len() ==> is_terminal(old(self).states()[id as int])
                && final(self).states() == old(self).states().update(
                id as int,
                RequestState::Accepted,
            ),
            id == old(self).states().len() ==> final(self).states() == old(self).states().push(
                RequestState::Accepted,
            ),
            forall|i: int| 0 <= i < id ==> !is_terminal(old(self).states()[i]),
    {
        proof {
            use_type_invariant(&*self);
        }
        let mut requests: Vec<RequestState> = Vec::new();
        core::mem::swap(&mut self.requests, &mut requests);
        let ghost before = requests@;
        let mut id: usize = 0;
        while id < requests.len() && !is_over(requests[id])
            invariant
                id <= requests@.len(),
                requests@ == before,
                forall|i: int| 0 <= i < id ==> !is_terminal(before[i]),
            decreases requests@.len() - id,
        {
            id += 1;
        }
        if id < requests.len() {
            requests.set(id, RequestState::Accepted);
            proof {
                holding_update(before, id as int, RequestState::Accepted);
            }
        } else {
            requests.push(RequestState::Accepted);
            proof {
                holding_push(before, RequestState::Accepted);
            }
        }
        core::mem::swap(&mut self.requests, &mut requests);
        id
    }

    /// Moves request `id` on by `event` and says what the server is to do
    /// next. Where the pool knows no such request, nothing changes and
    /// there is nothing to do.
    pub fn step(&mut self, id: usize, event: Event) -> (action: Action)
        ensures
            final(self).limit() == old(self).limit(),
            final(self).policy() == old(self).policy(),
            final(self).states() == after(
                old(self).states(),
                old(self).limit(),
                old(self).policy(),
                id as int,
                event,
            ),
            action == (if id < old(self).states().len() {
                transition(
                    old(self).states()[id as int],
                    event,
                    old(self).policy(),
                    holding(old(self).states()) < old(self).limit(),
                ).1
            } else {
                Action::Nothing
            }),
    {
        proof {
            use_type_invariant(&*self);
        }
        if id >= self.requests.len() {
            return Action::Nothing;
        }
        let permit_free = self.in_flight() < self.limit;
        let (moved, action) = next(self.requests[id], event, self.policy, permit_free);
        let mut requests: Vec<RequestState> = Vec::new();
        core::mem::swap(&mut self.requests, &mut requests);
        proof {
            ceiling_is_kept(requests@, self.limit as nat, self.policy, id as int, event);
        }
        requests.set(id, moved);
        core::mem::swap(&mut self.requests, &mut requests);
        action
    }
}

} // verus!
