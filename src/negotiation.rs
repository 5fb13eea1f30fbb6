use vstd::prelude::*;

use crate::matching::{match_demand_offer, Match};
use crate::node::{NodeId, Owner};

verus! {

/// Identity of a proposal, tagged with the side whose market holds it.
#[derive(Clone, Debug, PartialEq, Eq)]
pub struct ProposalId {
    pub id: String,
    pub owner: Owner,
}

pub open spec fn same_proposal_id(a: ProposalId, b: ProposalId) -> bool {
    a.id@ == b.id@ && a.owner == b.owner
}

impl ProposalId {
    pub fn same(&self, other: &ProposalId) -> (r: bool)
        ensures
            r == same_proposal_id(*self, *other),
    {
        self.id == other.id && self.owner == other.owner
    }

    pub fn duplicate(&self) -> (r: ProposalId)
        ensures
            r == *self,
    {
        ProposalId { id: self.id.clone(), owner: self.owner }
    }
}

/// Who wrote a proposal, seen from the side that holds it.
#[derive(Clone, Copy, Debug, PartialEq, Eq, Structural)]
pub enum Issuer {
    Us,
    Them,
}

#[derive(Clone, Copy, Debug, PartialEq, Eq, Structural)]
pub enum ProposalState {
    Initial,
    Draft,
    Rejected,
    Accepted,
    Expired,
}

pub open spec fn proposal_state_final(s: ProposalState) -> bool {
    s is Rejected || s is Accepted || s is Expired
}

/// The transitions of a proposal: forward only, and none out of a final state.
pub open spec fn proposal_transition_ok(from: ProposalState, to: ProposalState) -> bool {
    match from {
        ProposalState::Initial => !(to is Initial),
        ProposalState::Draft => proposal_state_final(to),
        _ => false,
    }
}

/// A proposal in a final state moves nowhere: rejecting it again is refused.
pub proof fn lemma_final_proposal_states_absorb(from: ProposalState, to: ProposalState)
    requires
        proposal_state_final(from),
    ensures
        !proposal_transition_ok(from, to),
{
}

/// Checks a proposal state transition.
pub fn check_proposal_transition(from: ProposalState, to: ProposalState) -> (r: bool)
    ensures
        r == proposal_transition_ok(from, to),
{
    match from {
        ProposalState::Initial => !matches!(to, ProposalState::Initial),
        ProposalState::Draft => matches!(
            to,
            ProposalState::Rejected | ProposalState::Accepted | ProposalState::Expired
        ),
        _ => false,
    }
}

/// The content of one negotiation step.
#[derive(Clone, Debug)]
pub struct ProposalBody {
    pub id: ProposalId,
    pub properties: Vec<String>,
    pub constraints: String,
    pub issuer: Issuer,
    pub prev_proposal_id: Option<ProposalId>,
}

/// The parties and subscriptions that a negotiation belongs to.
#[derive(Clone, Debug)]
pub struct Negotiation {
    pub subscription_id: String,
    pub offer_id: String,
    pub demand_id: String,
    pub provider_id: NodeId,
    pub requestor_id: NodeId,
}

#[derive(Clone, Debug)]
pub struct Proposal {
    pub body: ProposalBody,
    pub negotiation: Negotiation,
    pub state: ProposalState,
}

/// A counter proposal as a local client writes it.
#[derive(Clone, Debug)]
pub struct NewProposal {
    pub properties: Vec<String>,
    pub constraints: String,
}

/// A counter proposal as it arrives from the other side.
#[derive(Clone, Debug)]
pub struct ProposalReceived {
    pub prev_proposal_id: ProposalId,
    pub proposal_id: String,
    pub properties: Vec<String>,
    pub constraints: String,
}

/// A rejection as it arrives from the other side.
#[derive(Clone, Debug)]
pub struct ProposalRejected {
    pub proposal_id: ProposalId,
    pub reason: Option<String>,
}

/// Lifetime of an offer or a demand.
#[derive(Clone, Copy, Debug, PartialEq, Eq, Structural)]
pub enum SubscriptionState {
    Active,
    Expired,
    Unsubscribed,
}

#[derive(Clone, Debug)]
pub struct Subscription {
    pub id: String,
    pub state: SubscriptionState,
}

/// What a subscription's event queue reports.
#[derive(Clone, Debug)]
pub enum EventPayload {
    ProposalEvent(ProposalId),
    ProposalRejectedEvent(ProposalId, String),
}

#[derive(Clone, Debug)]
pub struct MarketEvent {
    pub id: u64,
    pub subscription_id: String,
    pub timestamp: u64,
    pub owner: Owner,
    pub payload: EventPayload,
}

/// Failures of the negotiation operations.
#[derive(Clone, Copy, Debug, PartialEq, Eq, Structural)]
pub enum NegotiationError {
    NotFound,
    SubscriptionNotFound,
    SubscriptionExpired,
    Unauthorized,
    OwnProposal,
    InvalidTransition,
    NotMatching,
    MatchingFailed,
    AlreadyCountered,
    InvalidMaxEvents,
    Internal,
}

/// Whether `caller` is the party of `n` that plays `role`.
pub open spec fn is_party(n: Negotiation, caller: NodeId, role: Owner) -> bool {
    match role {
        Owner::Provider => n.provider_id.bytes@ == caller.bytes@,
        Owner::Requestor => n.requestor_id.bytes@ == caller.bytes@,
    }
}

/// A party reacting to a proposal that it issued itself.
pub open spec fn self_reaction(p: Proposal, role: Owner) -> bool {
    p.body.issuer is Us && p.body.id.owner == role
}

pub open spec fn find_subscription(subs: Seq<Subscription>, id: Seq<char>) -> Option<SubscriptionState>
    decreases subs.len(),
{
    if subs.len() == 0 {
        None
    } else if subs.last().id@ == id {
        Some(subs.last().state)
    } else {
        find_subscription(subs.drop_last(), id)
    }
}

/// The state of the subscription `id`: its latest record.
pub open spec fn subscription_state(subs: Seq<Subscription>, id: Seq<char>) -> SubscriptionState {
    match find_subscription(subs, id) {
        Some(s) => s,
        None => SubscriptionState::Unsubscribed,
    }
}

pub open spec fn subscription_error(s: SubscriptionState) -> Option<NegotiationError> {
    match s {
        SubscriptionState::Active => None,
        SubscriptionState::Expired => Some(NegotiationError::SubscriptionExpired),
        SubscriptionState::Unsubscribed => Some(NegotiationError::SubscriptionNotFound),
    }
}

/// Limits on event queries.
#[derive(Clone, Copy, Debug, PartialEq, Eq, Structural)]
pub struct EventsConfig {
    pub max_events_default: i32,
    pub max_events_max: i32,
}

} // verus!
