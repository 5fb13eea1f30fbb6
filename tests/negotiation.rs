use market_core::broker::{
    after_take, after_wait, CommonBroker, PollStep, RemoteError, TakeEventsError, WaitOutcome,
};
use market_core::negotiation::{
    EventPayload, EventsConfig, Issuer, Negotiation, NegotiationError, NewProposal, Proposal,
    ProposalBody, ProposalId, ProposalReceived, ProposalRejected, ProposalState,
    SubscriptionState,
};
use market_core::node::{NodeId, Owner};
use market_core::notifier::{EventNotifier, NotifyKey, Signal};

const PROVIDER: NodeId = NodeId { bytes: [1u8; 20] };
const REQUESTOR: NodeId = NodeId { bytes: [2u8; 20] };
const STRANGER: NodeId = NodeId { bytes: [3u8; 20] };

fn config() -> EventsConfig {
    EventsConfig { max_events_default: 10, max_events_max: 100 }
}

fn id(s: &str) -> ProposalId {
    ProposalId { id: s.to_string(), owner: Owner::Requestor }
}

/// A requestor-side market holding one proposal that the provider sent ("Them").
fn market() -> CommonBroker {
    let mut b = CommonBroker::new(config());
    b.set_subscription(&"demand-1".to_string(), SubscriptionState::Active);
    b.set_subscription(&"offer-1".to_string(), SubscriptionState::Active);
    let initial = Proposal {
        body: ProposalBody {
            id: id("q0"),
            properties: vec!["o1=\"v2\"".to_string()],
            constraints: "(d1=v1)".to_string(),
            issuer: Issuer::Them,
            prev_proposal_id: None,
        },
        negotiation: Negotiation {
            subscription_id: "demand-1".to_string(),
            offer_id: "offer-1".to_string(),
            demand_id: "demand-1".to_string(),
            provider_id: PROVIDER,
            requestor_id: REQUESTOR,
        },
        state: ProposalState::Initial,
    };
    b.save_proposal(initial).unwrap();
    b
}

fn counter() -> NewProposal {
    NewProposal { properties: vec!["d1=\"v1\"".to_string()], constraints: "(o1=v2)".to_string() }
}

#[test]
fn counter_proposal_stores_a_draft() {
    let mut b = market();
    let (p, first) = b
        .counter_proposal(&"demand-1".to_string(), &id("q0"), &counter(), &"q1".to_string(), &REQUESTOR, Owner::Requestor)
        .unwrap();
    assert!(first);
    assert_eq!(p.state, ProposalState::Draft);
    assert_eq!(p.body.issuer, Issuer::Us);
    assert_eq!(p.body.prev_proposal_id, Some(id("q0")));
    assert_eq!(b.proposals().len(), 2);
    assert_eq!(b.proposals()[1].body.id, id("q1"));
}

#[test]
fn counter_proposal_by_wrong_caller_is_unauthorized_and_not_stored() {
    let mut b = market();
    let r = b.counter_proposal(&"demand-1".to_string(), &id("q0"), &counter(), &"q1".to_string(), &STRANGER, Owner::Requestor);
    assert_eq!(r.unwrap_err(), NegotiationError::Unauthorized);
    assert_eq!(b.proposals().len(), 1);
}

#[test]
fn counter_of_own_proposal_is_refused() {
    let mut b = market();
    b.counter_proposal(&"demand-1".to_string(), &id("q0"), &counter(), &"q1".to_string(), &REQUESTOR, Owner::Requestor)
        .unwrap();
    let r = b.counter_proposal(&"demand-1".to_string(), &id("q1"), &counter(), &"q2".to_string(), &REQUESTOR, Owner::Requestor);
    assert_eq!(r.unwrap_err(), NegotiationError::OwnProposal);
    assert_eq!(b.proposals().len(), 2);
}

#[test]
fn counter_proposal_errors() {
    let mut b = market();
    let r = b.counter_proposal(&"other".to_string(), &id("q0"), &counter(), &"q1".to_string(), &REQUESTOR, Owner::Requestor);
    assert_eq!(r.unwrap_err(), NegotiationError::NotFound);
    let r = b.counter_proposal(&"demand-1".to_string(), &id("nope"), &counter(), &"q1".to_string(), &REQUESTOR, Owner::Requestor);
    assert_eq!(r.unwrap_err(), NegotiationError::NotFound);
    let bad = NewProposal { properties: vec!["d1=\"v9\"".to_string()], constraints: "(o1=v2)".to_string() };
    let r = b.counter_proposal(&"demand-1".to_string(), &id("q0"), &bad, &"q1".to_string(), &REQUESTOR, Owner::Requestor);
    assert_eq!(r.unwrap_err(), NegotiationError::NotMatching);
    let broken = NewProposal { properties: vec![], constraints: "(o1=v2".to_string() };
    let r = b.counter_proposal(&"demand-1".to_string(), &id("q0"), &broken, &"q1".to_string(), &REQUESTOR, Owner::Requestor);
    assert_eq!(r.unwrap_err(), NegotiationError::MatchingFailed);
    b.counter_proposal(&"demand-1".to_string(), &id("q0"), &counter(), &"q1".to_string(), &REQUESTOR, Owner::Requestor)
        .unwrap();
    let r = b.counter_proposal(&"demand-1".to_string(), &id("q0"), &counter(), &"q2".to_string(), &REQUESTOR, Owner::Requestor);
    assert_eq!(r.unwrap_err(), NegotiationError::AlreadyCountered);
    assert_eq!(b.proposals().len(), 2);
}

#[test]
fn dead_subscriptions_stop_negotiation() {
    let mut b = market();
    b.set_subscription(&"offer-1".to_string(), SubscriptionState::Expired);
    let r = b.counter_proposal(&"demand-1".to_string(), &id("q0"), &counter(), &"q1".to_string(), &REQUESTOR, Owner::Requestor);
    assert_eq!(r.unwrap_err(), NegotiationError::SubscriptionExpired);
    b.set_subscription(&"offer-1".to_string(), SubscriptionState::Active);
    b.set_subscription(&"demand-1".to_string(), SubscriptionState::Unsubscribed);
    let r = b.counter_proposal(&"demand-1".to_string(), &id("q0"), &counter(), &"q1".to_string(), &REQUESTOR, Owner::Requestor);
    assert_eq!(r.unwrap_err(), NegotiationError::SubscriptionNotFound);
}

#[test]
fn get_proposal_hides_other_subscriptions() {
    let b = market();
    assert!(b.get_proposal(None, &id("q0")).is_ok());
    assert!(b.get_proposal(Some(&"demand-1".to_string()), &id("q0")).is_ok());
    assert_eq!(b.get_proposal(Some(&"other".to_string()), &id("q0")).unwrap_err(), NegotiationError::NotFound);
}

#[test]
fn rejecting_a_final_proposal_is_an_invalid_transition() {
    let mut b = market();
    let p = b.reject_proposal(None, &id("q0"), &REQUESTOR, Owner::Requestor).unwrap();
    assert_eq!(p.state, ProposalState::Initial);
    assert_eq!(b.proposals()[0].state, ProposalState::Rejected);
    let r = b.reject_proposal(None, &id("q0"), &REQUESTOR, Owner::Requestor);
    assert_eq!(r.unwrap_err(), NegotiationError::InvalidTransition);
}

#[test]
fn max_events_must_lie_within_the_ceiling() {
    let b = market();
    assert_eq!(b.resolve_max_events(Some(101)), Err(NegotiationError::InvalidMaxEvents));
    assert_eq!(b.resolve_max_events(Some(0)), Err(NegotiationError::InvalidMaxEvents));
    assert_eq!(b.resolve_max_events(Some(-3)), Err(NegotiationError::InvalidMaxEvents));
    assert_eq!(b.resolve_max_events(Some(100)), Ok(100));
    assert_eq!(b.resolve_max_events(None), Ok(10));
}

fn received(prev: &str, new: &str) -> ProposalReceived {
    ProposalReceived {
        prev_proposal_id: id(prev),
        proposal_id: new.to_string(),
        properties: vec!["o1=\"v2\"".to_string()],
        constraints: "(d1=v1)".to_string(),
    }
}

#[test]
fn received_proposal_queues_an_event_and_wakes_listeners() {
    let mut b = market();
    b.counter_proposal(&"demand-1".to_string(), &id("q0"), &counter(), &"q1".to_string(), &REQUESTOR, Owner::Requestor)
        .unwrap();
    let l = b.listen(&NotifyKey::Subscription("demand-1".to_string()));
    b.proposal_received(&received("q1", "q2"), &PROVIDER, Owner::Provider).unwrap();
    assert_eq!(b.proposals().len(), 3);
    assert_eq!(b.proposals()[2].body.issuer, Issuer::Them);
    assert_eq!(b.events().len(), 1);
    assert_eq!(b.events()[0].owner, Owner::Requestor);
    assert!(matches!(&b.events()[0].payload, EventPayload::ProposalEvent(p) if p.id == "q2"));
    assert_eq!(b.take_signal(l), Signal::Notified);
    assert_eq!(b.take_signal(l), Signal::Pending);
}

#[test]
fn remote_errors_reveal_nothing() {
    let mut b = market();
    b.counter_proposal(&"demand-1".to_string(), &id("q0"), &counter(), &"q1".to_string(), &REQUESTOR, Owner::Requestor)
        .unwrap();
    assert_eq!(b.proposal_received(&received("zz", "q2"), &PROVIDER, Owner::Provider), Err(RemoteError::NotFound));
    assert_eq!(b.proposal_received(&received("q1", "q2"), &STRANGER, Owner::Provider), Err(RemoteError::NotFound));
    b.proposal_received(&received("q1", "q2"), &PROVIDER, Owner::Provider).unwrap();
    assert_eq!(b.proposal_received(&received("q1", "q3"), &PROVIDER, Owner::Provider), Err(RemoteError::AlreadyCountered));
}

#[test]
fn remote_rejection_queues_reason() {
    let mut b = market();
    b.counter_proposal(&"demand-1".to_string(), &id("q0"), &counter(), &"q1".to_string(), &REQUESTOR, Owner::Requestor)
        .unwrap();
    let msg = ProposalRejected { proposal_id: id("q1"), reason: None };
    b.proposal_rejected(&msg, &PROVIDER, Owner::Provider).unwrap();
    assert_eq!(b.proposals()[1].state, ProposalState::Rejected);
    assert!(matches!(&b.events()[0].payload, EventPayload::ProposalRejectedEvent(p, r) if p.id == "q1" && r == "no reason"));
    assert_eq!(b.proposal_rejected(&msg, &PROVIDER, Owner::Provider), Err(RemoteError::InvalidTransition));
}

#[test]
fn one_event_is_delivered_to_exactly_one_query() {
    let mut b = market();
    b.add_event(&"demand-1".to_string(), Owner::Requestor, EventPayload::ProposalEvent(id("q0"))).unwrap();
    let first = b.take_events(&"demand-1".to_string(), 5).unwrap();
    let second = b.take_events(&"demand-1".to_string(), 5).unwrap();
    assert_eq!(first.len() + second.len(), 1);
    assert_eq!(first.len(), 1);
}

#[test]
fn events_come_oldest_first_and_only_for_their_subscription() {
    let mut b = market();
    b.set_subscription(&"demand-2".to_string(), SubscriptionState::Active);
    for (s, p) in [("demand-1", "a"), ("demand-2", "b"), ("demand-1", "c"), ("demand-1", "d")] {
        b.add_event(&s.to_string(), Owner::Requestor, EventPayload::ProposalEvent(id(p))).unwrap();
    }
    let got = b.take_events(&"demand-1".to_string(), 2).unwrap();
    let ids: Vec<u64> = got.iter().map(|e| e.timestamp).collect();
    assert_eq!(ids, vec![0, 2]);
    assert_eq!(b.events().len(), 2);
    let rest = b.take_events(&"demand-1".to_string(), 2).unwrap();
    assert_eq!(rest.len(), 1);
    assert_eq!(rest[0].timestamp, 3);
}

#[test]
fn taking_from_dead_subscriptions_fails() {
    let mut b = market();
    b.set_subscription(&"demand-1".to_string(), SubscriptionState::Expired);
    assert_eq!(b.take_events(&"demand-1".to_string(), 1).unwrap_err(), TakeEventsError::SubscriptionExpired("demand-1".to_string()));
    assert_eq!(b.take_events(&"nope".to_string(), 1).unwrap_err(), TakeEventsError::SubscriptionNotFound("nope".to_string()));
}

#[test]
fn unsubscribe_drops_events_and_tells_listeners() {
    let mut b = market();
    b.add_event(&"demand-1".to_string(), Owner::Requestor, EventPayload::ProposalEvent(id("q0"))).unwrap();
    let l = b.listen(&NotifyKey::Subscription("demand-1".to_string()));
    b.unsubscribe(&"demand-1".to_string());
    assert_eq!(b.events().len(), 0);
    assert_eq!(b.take_signal(l), Signal::Unsubscribed);
    assert!(matches!(b.query_events_step(&"demand-1".to_string(), 5, true), PollStep::Fail(NegotiationError::SubscriptionNotFound)));
}

#[test]
fn long_poll_decisions() {
    let mut b = market();
    assert!(matches!(b.query_events_step(&"demand-1".to_string(), 5, true), PollStep::Wait));
    assert!(matches!(b.query_events_step(&"demand-1".to_string(), 5, false), PollStep::Deliver(v) if v.is_empty()));
    assert!(matches!(after_take(Err(TakeEventsError::SubscriptionExpired("s".to_string())), true), PollStep::Fail(NegotiationError::SubscriptionExpired)));
    assert!(after_wait(WaitOutcome::Notified).is_none());
    assert!(matches!(after_wait(WaitOutcome::Timeout), Some(Ok(v)) if v.is_empty()));
    assert_eq!(after_wait(WaitOutcome::ChannelClosed).unwrap().unwrap_err(), NegotiationError::Internal);
    assert_eq!(after_wait(WaitOutcome::Unsubscribed).unwrap().unwrap_err(), NegotiationError::SubscriptionNotFound);
}

#[test]
fn notifications_are_not_replayed() {
    let mut n = EventNotifier::new();
    let key = NotifyKey::Subscription("demand-1".to_string());
    let other = n.listen(&NotifyKey::Agreement("demand-1".to_string()));
    let early = n.listen(&key);
    n.notify(&key);
    let late = n.listen(&key);
    assert_eq!(n.take_signal(early), Signal::Notified);
    assert_eq!(n.take_signal(late), Signal::Pending);
    assert_eq!(n.take_signal(other), Signal::Pending);
    n.stop_notifying(&key);
    let after = n.listen(&key);
    assert_eq!(n.take_signal(late), Signal::Unsubscribed);
    assert_eq!(n.take_signal(after), Signal::Unsubscribed);
    assert_eq!(n.take_signal(other), Signal::Pending);
}

#[test]
fn received_proposal_refusals_change_nothing() {
    let mut b = market();
    b.counter_proposal(&"demand-1".to_string(), &id("q0"), &counter(), &"q1".to_string(), &REQUESTOR, Owner::Requestor)
        .unwrap();
    let l = b.listen(&NotifyKey::Subscription("demand-1".to_string()));
    let mismatch = ProposalReceived {
        prev_proposal_id: id("q1"),
        proposal_id: "q2".to_string(),
        properties: vec!["o1=\"v9\"".to_string()],
        constraints: "(d1=v1)".to_string(),
    };
    assert_eq!(b.proposal_received(&mismatch, &PROVIDER, Owner::Provider), Err(RemoteError::Internal));
    let taken = ProposalReceived {
        prev_proposal_id: id("q1"),
        proposal_id: "q0".to_string(),
        properties: vec!["o1=\"v2\"".to_string()],
        constraints: "(d1=v1)".to_string(),
    };
    assert_eq!(b.proposal_received(&taken, &PROVIDER, Owner::Provider), Err(RemoteError::Internal));
    assert_eq!(b.proposal_received(&received("q0", "q2"), &PROVIDER, Owner::Provider), Err(RemoteError::Internal));
    assert_eq!(b.proposals().len(), 2);
    assert!(b.events().is_empty());
    assert_eq!(b.take_signal(l), Signal::Pending);
}

#[test]
fn remote_rejection_refusals_change_nothing() {
    let mut b = market();
    let l = b.listen(&NotifyKey::Subscription("demand-1".to_string()));
    let missing = ProposalRejected { proposal_id: id("zz"), reason: None };
    assert_eq!(b.proposal_rejected(&missing, &PROVIDER, Owner::Provider), Err(RemoteError::NotFound));
    let stranger = ProposalRejected { proposal_id: id("q0"), reason: Some("no".to_string()) };
    assert_eq!(b.proposal_rejected(&stranger, &STRANGER, Owner::Provider), Err(RemoteError::NotFound));
    assert_eq!(b.proposals()[0].state, ProposalState::Initial);
    b.proposal_rejected(&stranger, &PROVIDER, Owner::Provider).unwrap();
    assert!(matches!(&b.events()[0].payload, EventPayload::ProposalRejectedEvent(p, r) if p.id == "q0" && r == "no"));
    assert_eq!(b.take_signal(l), Signal::Notified);
    assert_eq!(b.proposal_rejected(&stranger, &PROVIDER, Owner::Provider), Err(RemoteError::InvalidTransition));
    assert_eq!(b.events().len(), 1);
    assert_eq!(b.take_signal(l), Signal::Pending);
}

#[test]
fn unsubscribe_keeps_other_queues() {
    let mut b = market();
    b.set_subscription(&"demand-2".to_string(), SubscriptionState::Active);
    b.add_event(&"demand-2".to_string(), Owner::Requestor, EventPayload::ProposalEvent(id("q0"))).unwrap();
    b.add_event(&"demand-1".to_string(), Owner::Requestor, EventPayload::ProposalEvent(id("q0"))).unwrap();
    let other = b.listen(&NotifyKey::Subscription("demand-2".to_string()));
    b.unsubscribe(&"demand-1".to_string());
    assert_eq!(b.events().len(), 1);
    assert_eq!(b.events()[0].subscription_id, "demand-2");
    assert_eq!(b.take_signal(other), Signal::Pending);
    let later = b.listen(&NotifyKey::Subscription("demand-1".to_string()));
    assert_eq!(b.take_signal(later), Signal::Unsubscribed);
}
