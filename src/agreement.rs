use vstd::prelude::*;

use crate::broker::{CommonBroker, RemoteError, WaitOutcome};
use crate::negotiation::NegotiationError;
use crate::node::{NodeId, Owner};
use crate::notifier::{notified, EventNotifier, KeyView, NotifyKey};

verus! {

/// Identity of an agreement, tagged with the side whose market holds it.
#[derive(Clone, Debug, PartialEq, Eq)]
pub struct AgreementId {
    pub id: String,
    pub owner: Owner,
}

#[derive(Clone, Copy, Debug, PartialEq, Eq, Structural)]
pub enum AgreementState {
    Proposal,
    Pending,
    Cancelled,
    Rejected,
    Approving,
    Approved,
    Expired,
    Terminated,
}

#[derive(Clone, Debug)]
pub struct Agreement {
    pub id: AgreementId,
    pub provider_id: NodeId,
    pub requestor_id: NodeId,
    pub state: AgreementState,
    pub session_id: Option<String>,
    pub terminated_reason: Option<String>,
}

/// A change of an agreement, kept for the party whose view it is.
#[derive(Clone, Debug)]
pub struct AgreementEvent {
    pub agreement_id: AgreementId,
    pub session_id: Option<String>,
    /// Position in the log: strictly increasing.
    pub timestamp: u64,
    /// The party that may read the event.
    pub node: NodeId,
    pub state: AgreementState,
    pub reason: Option<String>,
}

/// The event that records the termination of `a`.
pub open spec fn termination_event(a: Agreement, reason: Option<String>, timestamp: u64) -> AgreementEvent {
    AgreementEvent {
        agreement_id: a.id,
        session_id: a.session_id,
        timestamp,
        node: party_of(a, a.id.owner),
        state: AgreementState::Terminated,
        reason,
    }
}

/// Whether `e` is for `caller`, in session `session` (any session when none is given), and
/// newer than `after`.
pub open spec fn event_selected(e: AgreementEvent, caller: NodeId, session: Option<Seq<char>>, after: u64) -> bool {
    &&& e.node.bytes@ == caller.bytes@
    &&& e.timestamp > after
    &&& match session {
        None => true,
        Some(s) => e.session_id matches Some(x) && x@ == s,
    }
}

/// The first `max` events of the log that `event_selected` admits, oldest first.
pub open spec fn select_events(evs: Seq<AgreementEvent>, caller: NodeId, session: Option<Seq<char>>, after: u64, max: int) -> Seq<AgreementEvent>
    decreases evs.len(),
{
    if evs.len() == 0 {
        Seq::empty()
    } else {
        let prev = select_events(evs.drop_last(), caller, session, after, max);
        if event_selected(evs.last(), caller, session, after) && prev.len() < max {
            prev.push(evs.last())
        } else {
            prev
        }
    }
}

pub open spec fn opt_text(s: Option<String>) -> Option<Seq<char>> {
    match s {
        Some(x) => Some(x@),
        None => None,
    }
}

/// A termination as it arrives from the other side.
#[derive(Clone, Debug)]
pub struct AgreementTerminated {
    pub agreement_id: AgreementId,
    pub reason: Option<String>,
}

/// Failures of the agreement operations.
#[derive(Clone, Copy, Debug, PartialEq, Eq, Structural)]
pub enum AgreementError {
    NotFound,
    InvalidTransition,
}

pub open spec fn agreement_state_final(s: AgreementState) -> bool {
    s is Cancelled || s is Rejected || s is Expired || s is Terminated
}

/// The transitions of an agreement. A final state has none; any other may be terminated.
pub open spec fn agreement_transition_ok(from: AgreementState, to: AgreementState) -> bool {
    match from {
        AgreementState::Proposal => to is Pending || to is Cancelled || to is Expired
            || to is Terminated,
        AgreementState::Pending => to is Approving || to is Rejected || to is Cancelled
            || to is Expired || to is Terminated,
        AgreementState::Approving => to is Approved || to is Pending || to is Cancelled
            || to is Expired || to is Terminated,
        AgreementState::Approved => to is Terminated,
        _ => false,
    }
}

/// Checks an agreement state transition.
pub fn check_transition(from: AgreementState, to: AgreementState) -> (r: bool)
    ensures
        r == agreement_transition_ok(from, to),
{
    match from {
        AgreementState::Proposal => matches!(
            to,
            AgreementState::Pending | AgreementState::Cancelled | AgreementState::Expired
                | AgreementState::Terminated
        ),
        AgreementState::Pending => matches!(
            to,
            AgreementState::Approving | AgreementState::Rejected | AgreementState::Cancelled
                | AgreementState::Expired | AgreementState::Terminated
        ),
        AgreementState::Approving => matches!(
            to,
            AgreementState::Approved | AgreementState::Pending | AgreementState::Cancelled
                | AgreementState::Expired | AgreementState::Terminated
        ),
        AgreementState::Approved => matches!(to, AgreementState::Terminated),
        _ => false,
    }
}

/// Checks that `agreement` may move to `state`.
pub fn validate_transition(agreement: &Agreement, state: AgreementState) -> (r: Result<(), AgreementError>)
    ensures
        r == if agreement_transition_ok(agreement.state, state) {
            Ok::<(), AgreementError>(())
        } else {
            Err::<(), AgreementError>(AgreementError::InvalidTransition)
        },
{
    if check_transition(agreement.state, state) {
        Ok(())
    } else {
        Err(AgreementError::InvalidTransition)
    }
}

/// Final states are final: nothing leaves them, so an agreement is terminated at most once.
pub proof fn lemma_final_states_absorb(from: AgreementState, to: AgreementState)
    requires
        agreement_state_final(from),
    ensures
        !agreement_transition_ok(from, to),
{
}

/// Whether `caller` is the party that owns this view of the agreement.
pub open spec fn owned_by(a: Agreement, caller: NodeId) -> bool {
    match a.id.owner {
        Owner::Provider => a.provider_id.bytes@ == caller.bytes@,
        Owner::Requestor => a.requestor_id.bytes@ == caller.bytes@,
    }
}

/// The party of the agreement that plays `role`.
pub open spec fn party_of(a: Agreement, role: Owner) -> NodeId {
    match role {
        Owner::Provider => a.provider_id,
        Owner::Requestor => a.requestor_id,
    }
}

pub open spec fn node_match(ags: Seq<Agreement>, id: Seq<char>, caller: NodeId, i: int) -> bool {
    0 <= i < ags.len() && ags[i].id.id@ == id && owned_by(ags[i], caller)
}

pub open spec fn id_match(ags: Seq<Agreement>, id: AgreementId, i: int) -> bool {
    0 <= i < ags.len() && ags[i].id.id@ == id.id@ && ags[i].id.owner == id.owner
}

/// The first agreement `id` that `caller` owns.
pub open spec fn select_by_node(ags: Seq<Agreement>, id: Seq<char>, caller: NodeId) -> Option<int> {
    if exists|i: int| node_match(ags, id, caller, i) {
        Some(
            choose|i: int|
                node_match(ags, id, caller, i) && forall|j: int| 0 <= j < i ==> !node_match(ags, id, caller, j),
        )
    } else {
        None
    }
}

/// The first agreement with identity `id`.
pub open spec fn select(ags: Seq<Agreement>, id: AgreementId) -> Option<int> {
    if exists|i: int| id_match(ags, id, i) {
        Some(choose|i: int| id_match(ags, id, i) && forall|j: int| 0 <= j < i ==> !id_match(ags, id, j))
    } else {
        None
    }
}

/// `after` is `before` notified on the agreement's session (if it has one), on the key of
/// listeners that wait without a session, and on the agreement itself.
pub open spec fn agreement_notified(before: EventNotifier, after: EventNotifier, a: Agreement) -> bool {
    exists|n1: EventNotifier, n2: EventNotifier|
        (match a.session_id {
            Some(s) => notified(before, n1, KeyView::Session(Some(s@))),
            None => n1 == before,
        }) && notified(n1, n2, KeyView::Session(None)) && notified(
            n2,
            after,
            KeyView::Agreement(a.id.id@),
        )
}

/// The agreement after a termination with `reason`.
pub open spec fn terminated(a: Agreement, reason: Option<String>) -> Agreement {
    Agreement { state: AgreementState::Terminated, terminated_reason: reason, ..a }
}

impl CommonBroker {
    /// Adds an agreement made elsewhere.
    pub fn insert_agreement(&mut self, agreement: Agreement)
        requires
            old(self).wf(),
        ensures
            final(self).wf(),
            final(self).agreements_view() == old(self).agreements_view().push(agreement),
            final(self).proposals_view() == old(self).proposals_view(),
            final(self).events_view() == old(self).events_view(),
    {
        self.agreements.push(agreement);
    }

    fn find_by_node(&self, id: &String, caller: &NodeId) -> (r: Option<usize>)
        ensures
            match r {
                Some(i) => select_by_node(self.agreements_view(), id@, *caller) == Some(i as int) && i
                    < self.agreements_view().len(),
                None => select_by_node(self.agreements_view(), id@, *caller) is None,
            },
    {
        let mut i: usize = 0;
        while i < self.agreements.len()
            invariant
                0 <= i <= self.agreements_view().len(),
                forall|j: int| 0 <= j < i ==> !node_match(self.agreements_view(), id@, *caller, j),
            decreases self.agreements_view().len() - i,
        {
            let a = &self.agreements[i];
            let owns = match a.id.owner {
                Owner::Provider => a.provider_id.same(caller),
                Owner::Requestor => a.requestor_id.same(caller),
            };
            if a.id.id == *id && owns {
                proof {
                    let k = choose|k: int|
                        node_match(self.agreements_view(), id@, *caller, k) && forall|j: int|
                            0 <= j < k ==> !node_match(self.agreements_view(), id@, *caller, j);
                    assert(node_match(self.agreements_view(), id@, *caller, i as int));
                    if k < i {
                    } else if k > i {
                    }
                }
                return Some(i);
            }
            i = i + 1;
        }
        None
    }

    fn find_by_id(&self, id: &AgreementId) -> (r: Option<usize>)
        ensures
            match r {
                Some(i) => select(self.agreements_view(), *id) == Some(i as int) && i
                    < self.agreements_view().len(),
                None => select(self.agreements_view(), *id) is None,
            },
    {
        let mut i: usize = 0;
        while i < self.agreements.len()
            invariant
                0 <= i <= self.agreements_view().len(),
                forall|j: int| 0 <= j < i ==> !id_match(self.agreements_view(), *id, j),
            decreases self.agreements_view().len() - i,
        {
            if self.agreements[i].id.id == id.id && self.agreements[i].id.owner == id.owner {
                proof {
                    let k = choose|k: int|
                        id_match(self.agreements_view(), *id, k) && forall|j: int|
                            0 <= j < k ==> !id_match(self.agreements_view(), *id, j);
                    assert(id_match(self.agreements_view(), *id, i as int));
                    if k < i {
                    } else if k > i {
                    }
                }
                return Some(i);
            }
            i = i + 1;
        }
        None
    }

    /// Wakes everyone waiting on agreement `i`: its session, listeners without a session, and
    /// listeners of the agreement itself.
    pub fn notify_agreement(&mut self, i: usize)
        requires
            i < old(self).agreements_view().len(),
        ensures
            agreement_notified(old(self).notifier_view(), final(self).notifier_view(), old(self).agreements_view()[i as int]),
            final(self).agreements_view() == old(self).agreements_view(),
            final(self).proposals_view() == old(self).proposals_view(),
            final(self).events_view() == old(self).events_view(),
            final(self).subscriptions_view() == old(self).subscriptions_view(),
            final(self).agreement_events_view() == old(self).agreement_events_view(),
            final(self).next_event_view() == old(self).next_event_view(),
    {
        let ghost n0 = self.notifier;
        let session = match &self.agreements[i].session_id {
            Some(s) => Some(s.clone()),
            None => None,
        };
        let agreement_key = NotifyKey::Agreement(self.agreements[i].id.id.clone());
        let with_session = session.is_some();
        if with_session {
            let key = NotifyKey::Session(session);
            self.notifier.notify(&key);
        }
        let ghost n1 = self.notifier;
        self.notifier.notify(&NotifyKey::Session(None));
        let ghost n2 = self.notifier;
        self.notifier.notify(&agreement_key);
        assert(agreement_notified(n0, self.notifier, self.agreements_view()[i as int]));
    }

    /// The agreement `agreement_id` of `caller`, if it may be terminated: what a local
    /// termination checks before it tells the other side.
    pub fn check_termination(&self, caller: &NodeId, agreement_id: &String) -> (r: Result<&Agreement, AgreementError>)
        ensures
            match select_by_node(self.agreements_view(), agreement_id@, *caller) {
                None => r == Err::<&Agreement, AgreementError>(AgreementError::NotFound),
                Some(i) => if agreement_transition_ok(
                    self.agreements_view()[i].state,
                    AgreementState::Terminated,
                ) {
                    r matches Ok(a) && *a == self.agreements_view()[i]
                } else {
                    r == Err::<&Agreement, AgreementError>(AgreementError::InvalidTransition)
                },
            },
    {
        let i = match self.find_by_node(agreement_id, caller) {
            Some(i) => i,
            None => {
                return Err(AgreementError::NotFound);
            },
        };
        match validate_transition(&self.agreements[i], AgreementState::Terminated) {
            Ok(()) => Ok(&self.agreements[i]),
            Err(e) => Err(e),
        }
    }

    /// A local party terminates its agreement `agreement_id`, once the other side was told.
    /// An agreement that is not the caller's is reported as not found.
    pub fn terminate_agreement(&mut self, caller: &NodeId, agreement_id: &String, reason: Option<String>) -> (r: Result<(), AgreementError>)
        requires
            old(self).wf(),
        ensures
            final(self).wf(),
            final(self).proposals_view() == old(self).proposals_view(),
            final(self).events_view() == old(self).events_view(),
            match select_by_node(old(self).agreements_view(), agreement_id@, *caller) {
                None => r == Err::<(), AgreementError>(AgreementError::NotFound)
                    && final(self).agreements_view() == old(self).agreements_view()
                    && final(self).notifier_view() == old(self).notifier_view()
                    && final(self).agreement_events_view() == old(self).agreement_events_view(),
                Some(i) => if agreement_transition_ok(
                    old(self).agreements_view()[i].state,
                    AgreementState::Terminated,
                ) {
                    &&& r is Ok
                    &&& final(self).agreements_view() == old(self).agreements_view().update(
                        i,
                        terminated(old(self).agreements_view()[i], reason),
                    )
                    &&& old(self).agreement_events_view().len() < u64::MAX ==> final(self).agreement_events_view()
                        == old(self).agreement_events_view().push(
                        termination_event(
                            old(self).agreements_view()[i],
                            reason,
                            (old(self).agreement_events_view().len() + 1) as u64,
                        ),
                    )
                    &&& agreement_notified(
                        old(self).notifier_view(),
                        final(self).notifier_view(),
                        old(self).agreements_view()[i],
                    )
                } else {
                    r == Err::<(), AgreementError>(AgreementError::InvalidTransition)
                        && final(self).agreements_view() == old(self).agreements_view()
                    && final(self).notifier_view() == old(self).notifier_view()
                    && final(self).agreement_events_view() == old(self).agreement_events_view()
                },
            },
    {
        let i = match self.find_by_node(agreement_id, caller) {
            Some(i) => i,
            None => {
                return Err(AgreementError::NotFound);
            },
        };
        match validate_transition(&self.agreements[i], AgreementState::Terminated) {
            Ok(()) => {},
            Err(e) => {
                return Err(e);
            },
        }
        let ghost a0 = self.agreements_view()[i as int];
        self.record_termination(i, &reason);
        self.notify_agreement(i);
        self.agreements[i].state = AgreementState::Terminated;
        self.agreements[i].terminated_reason = reason;
        assert(self.agreements_view()[i as int] == terminated(a0, reason));
        Ok(())
    }

    /// A termination from the other side, delivered with the caller's verified identity. The
    /// caller must be the party of `caller_role`; otherwise the agreement is reported as not
    /// found.
    #[verifier::rlimit(50)]
    pub fn on_agreement_terminated(&mut self, msg: &AgreementTerminated, caller_id: &NodeId, caller_role: Owner) -> (r: Result<(), RemoteError>)
        requires
            old(self).wf(),
        ensures
            final(self).wf(),
            final(self).proposals_view() == old(self).proposals_view(),
            final(self).events_view() == old(self).events_view(),
            match select(old(self).agreements_view(), msg.agreement_id) {
                None => r == Err::<(), RemoteError>(RemoteError::NotFound)
                    && final(self).agreements_view() == old(self).agreements_view()
                    && final(self).notifier_view() == old(self).notifier_view()
                    && final(self).agreement_events_view() == old(self).agreement_events_view(),
                Some(i) => {
                    let a = old(self).agreements_view()[i];
                    if party_of(a, caller_role).bytes@ != caller_id.bytes@ {
                        r == Err::<(), RemoteError>(RemoteError::NotFound)
                            && final(self).agreements_view() == old(self).agreements_view()
                    && final(self).notifier_view() == old(self).notifier_view()
                    && final(self).agreement_events_view() == old(self).agreement_events_view()
                    } else if !agreement_transition_ok(a.state, AgreementState::Terminated) {
                        r == Err::<(), RemoteError>(RemoteError::InvalidTransition)
                            && final(self).agreements_view() == old(self).agreements_view()
                    && final(self).notifier_view() == old(self).notifier_view()
                    && final(self).agreement_events_view() == old(self).agreement_events_view()
                    } else {
                        &&& r is Ok
                        &&& final(self).agreements_view() == old(self).agreements_view().update(
                            i,
                            terminated(a, msg.reason),
                        )
                        &&& old(self).agreement_events_view().len() < u64::MAX ==> final(self).agreement_events_view()
                            == old(self).agreement_events_view().push(
                            termination_event(a, msg.reason, (old(self).agreement_events_view().len() + 1) as u64),
                        )
                        &&& agreement_notified(old(self).notifier_view(), final(self).notifier_view(), a)
                    }
                },
            },
    {
        let i = match self.find_by_id(&msg.agreement_id) {
            Some(i) => i,
            None => {
                return Err(RemoteError::NotFound);
            },
        };
        let authorized = match caller_role {
            Owner::Provider => self.agreements[i].provider_id.same(caller_id),
            Owner::Requestor => self.agreements[i].requestor_id.same(caller_id),
        };
        if !authorized {
            return Err(RemoteError::NotFound);
        }
        if !check_transition(self.agreements[i].state, AgreementState::Terminated) {
            return Err(RemoteError::InvalidTransition);
        }
        let reason = match &msg.reason {
            Some(s) => Some(s.clone()),
            None => None,
        };
        let ghost a0 = self.agreements_view()[i as int];
        self.record_termination(i, &reason);
        self.notify_agreement(i);
        self.agreements[i].state = AgreementState::Terminated;
        self.agreements[i].terminated_reason = reason;
        assert(self.agreements_view()[i as int] == terminated(a0, msg.reason));
        Ok(())
    }
}

impl AgreementEvent {
    pub fn duplicate(&self) -> (r: AgreementEvent)
        ensures
            r == *self,
    {
        AgreementEvent {
            agreement_id: AgreementId { id: self.agreement_id.id.clone(), owner: self.agreement_id.owner },
            session_id: match &self.session_id {
                Some(s) => Some(s.clone()),
                None => None,
            },
            timestamp: self.timestamp,
            node: self.node,
            state: self.state,
            reason: match &self.reason {
                Some(s) => Some(s.clone()),
                None => None,
            },
        }
    }
}

impl CommonBroker {
    /// Logs the termination of agreement `i` for the party whose view it is, stamped with its
    /// position in the log counted from one; a log with no stamp left stays as it is.
    fn record_termination(&mut self, i: usize, reason: &Option<String>)
        requires
            i < old(self).agreements_view().len(),
        ensures
            final(self).agreements_view() == old(self).agreements_view(),
            final(self).proposals_view() == old(self).proposals_view(),
            final(self).events_view() == old(self).events_view(),
            final(self).subscriptions_view() == old(self).subscriptions_view(),
            final(self).notifier_view() == old(self).notifier_view(),
            final(self).next_event_view() == old(self).next_event_view(),
            old(self).agreement_events_view().len() < u64::MAX ==> final(self).agreement_events_view()
                == old(self).agreement_events_view().push(
                termination_event(
                    old(self).agreements_view()[i as int],
                    *reason,
                    (old(self).agreement_events_view().len() + 1) as u64,
                ),
            ),
            old(self).agreement_events_view().len() >= u64::MAX ==> final(self).agreement_events_view()
                == old(self).agreement_events_view(),
    {
        let len = self.agreement_events.len();
        if len as u64 >= u64::MAX {
            return;
        }
        let stamp = len as u64 + 1;
        let a = &self.agreements[i];
        let node = match a.id.owner {
            Owner::Provider => a.provider_id,
            Owner::Requestor => a.requestor_id,
        };
        let event = AgreementEvent {
            agreement_id: AgreementId { id: a.id.id.clone(), owner: a.id.owner },
            session_id: match &a.session_id {
                Some(s) => Some(s.clone()),
                None => None,
            },
            timestamp: stamp,
            node,
            state: AgreementState::Terminated,
            reason: match reason {
                Some(s) => Some(s.clone()),
                None => None,
            },
        };
        self.agreement_events.push(event);
    }

    /// The agreement events of `caller` newer than `after`, in session `session_id` (in any
    /// session when none is given): the oldest `max_events` of them.
    pub fn select_agreement_events(
        &self,
        caller: &NodeId,
        session_id: &Option<String>,
        max_events: i32,
        after: u64,
    ) -> (r: Vec<AgreementEvent>)
        requires
            max_events > 0,
        ensures
            r@ == select_events(
                self.agreement_events_view(),
                *caller,
                opt_text(*session_id),
                after,
                max_events as int,
            ),
    {
        let ghost evs = self.agreement_events_view();
        let mut out: Vec<AgreementEvent> = Vec::new();
        let mut i: usize = 0;
        assert(evs.subrange(0, 0) =~= Seq::<AgreementEvent>::empty());
        while i < self.agreement_events.len()
            invariant
                0 <= i <= evs.len(),
                evs == self.agreement_events_view(),
                max_events > 0,
                out@ == select_events(
                    evs.subrange(0, i as int),
                    *caller,
                    opt_text(*session_id),
                    after,
                    max_events as int,
                ),
            decreases evs.len() - i,
        {
            assert(evs.subrange(0, i + 1).drop_last() =~= evs.subrange(0, i as int));
            let e = &self.agreement_events[i];
            let in_session = match (session_id, &e.session_id) {
                (None, _) => true,
                (Some(s), Some(x)) => *x == *s,
                (Some(_), None) => false,
            };
            if e.node.same(caller) && e.timestamp > after && in_session
                && out.len() < max_events as usize {
                out.push(e.duplicate());
            }
            i = i + 1;
        }
        assert(evs.subrange(0, i as int) =~= evs);
        out
    }
}

/// Decides what a long poll on agreement events does after a wait: look again on a
/// notification, an empty result on a timeout. Session keys are never unsubscribed, so that
/// signal, like a closed channel, is an internal failure.
pub fn after_session_wait(w: WaitOutcome) -> (r: Option<Result<Vec<AgreementEvent>, NegotiationError>>)
    ensures
        match w {
            WaitOutcome::Notified => r is None,
            WaitOutcome::Timeout => r matches Some(Ok(v)) && v@.len() == 0,
            _ => r == Some(Err::<Vec<AgreementEvent>, NegotiationError>(NegotiationError::Internal)),
        },
{
    match w {
        WaitOutcome::Notified => None,
        WaitOutcome::Timeout => Some(Ok(Vec::new())),
        _ => Some(Err(NegotiationError::Internal)),
    }
}

/// What a long poll on agreement events does after looking at the log.
#[derive(Debug)]
pub enum AgreementPoll {
    /// Return these events (none, when the deadline has passed).
    Deliver(Vec<AgreementEvent>),
    /// Wait for a notification, then look again.
    Wait,
}

impl CommonBroker {
    /// One look of a long poll at the agreement events of `caller`: deliver them if there are
    /// any, else wait while time is left, else deliver nothing.
    pub fn query_agreement_events_step(
        &self,
        caller: &NodeId,
        session_id: &Option<String>,
        max_events: i32,
        after: u64,
        time_left: bool,
    ) -> (r: AgreementPoll)
        requires
            max_events > 0,
        ensures
            ({
                let found = select_events(
                    self.agreement_events_view(),
                    *caller,
                    opt_text(*session_id),
                    after,
                    max_events as int,
                );
                if found.len() > 0 {
                    r matches AgreementPoll::Deliver(w) && w@ == found
                } else if time_left {
                    r is Wait
                } else {
                    r matches AgreementPoll::Deliver(w) && w@.len() == 0
                }
            }),
    {
        let events = self.select_agreement_events(caller, session_id, max_events, after);
        if events.len() > 0 || !time_left {
            AgreementPoll::Deliver(events)
        } else {
            AgreementPoll::Wait
        }
    }
}

} // verus!
