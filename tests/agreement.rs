use market_core::agreement::{
    after_session_wait, validate_transition, AgreementPoll, Agreement, AgreementError, AgreementId, AgreementState, AgreementTerminated,
};
use market_core::broker::{CommonBroker, RemoteError};
use market_core::negotiation::EventsConfig;
use market_core::node::{parse_caller, NodeId, Owner};
use market_core::notifier::{NotifyKey, Signal};

const PROVIDER: NodeId = NodeId { bytes: [1u8; 20] };
const REQUESTOR: NodeId = NodeId { bytes: [2u8; 20] };

fn agreement(owner: Owner, state: AgreementState) -> Agreement {
    Agreement {
        id: AgreementId { id: "a1".to_string(), owner },
        provider_id: PROVIDER,
        requestor_id: REQUESTOR,
        state,
        session_id: Some("session".to_string()),
        terminated_reason: None,
    }
}

fn market(state: AgreementState) -> CommonBroker {
    let mut b = CommonBroker::new(EventsConfig { max_events_default: 10, max_events_max: 100 });
    b.insert_agreement(agreement(Owner::Requestor, state));
    b
}

#[test]
fn transitions() {
    assert_eq!(validate_transition(&agreement(Owner::Provider, AgreementState::Approved), AgreementState::Terminated), Ok(()));
    assert_eq!(validate_transition(&agreement(Owner::Provider, AgreementState::Pending), AgreementState::Approving), Ok(()));
    assert_eq!(
        validate_transition(&agreement(Owner::Provider, AgreementState::Terminated), AgreementState::Terminated),
        Err(AgreementError::InvalidTransition)
    );
    assert_eq!(
        validate_transition(&agreement(Owner::Provider, AgreementState::Rejected), AgreementState::Approved),
        Err(AgreementError::InvalidTransition)
    );
}

#[test]
fn local_termination_is_not_repeated() {
    let mut b = market(AgreementState::Approved);
    let key = NotifyKey::Session(None);
    let all = b.listen(&key);
    let session = b.listen(&NotifyKey::Session(Some("session".to_string())));
    let direct = b.listen(&NotifyKey::Agreement("a1".to_string()));
    assert!(b.check_termination(&REQUESTOR, &"a1".to_string()).is_ok());
    b.terminate_agreement(&REQUESTOR, &"a1".to_string(), Some("done".to_string())).unwrap();
    assert_eq!(b.agreements()[0].state, AgreementState::Terminated);
    assert_eq!(b.agreements()[0].terminated_reason, Some("done".to_string()));
    assert_eq!(b.take_signal(all), Signal::Notified);
    assert_eq!(b.take_signal(session), Signal::Notified);
    assert_eq!(b.take_signal(direct), Signal::Notified);
    assert_eq!(b.terminate_agreement(&REQUESTOR, &"a1".to_string(), None), Err(AgreementError::InvalidTransition));
    assert_eq!(b.check_termination(&REQUESTOR, &"a1".to_string()).unwrap_err(), AgreementError::InvalidTransition);
}

#[test]
fn local_termination_by_other_party_is_not_found() {
    let mut b = market(AgreementState::Approved);
    assert_eq!(b.terminate_agreement(&PROVIDER, &"a1".to_string(), None), Err(AgreementError::NotFound));
    assert_eq!(b.terminate_agreement(&REQUESTOR, &"zz".to_string(), None), Err(AgreementError::NotFound));
    assert_eq!(b.agreements()[0].state, AgreementState::Approved);
}

#[test]
fn remote_termination_is_not_repeated() {
    let mut b = market(AgreementState::Approved);
    let msg = AgreementTerminated {
        agreement_id: AgreementId { id: "a1".to_string(), owner: Owner::Requestor },
        reason: None,
    };
    assert_eq!(b.on_agreement_terminated(&msg, &REQUESTOR, Owner::Provider), Err(RemoteError::NotFound));
    b.on_agreement_terminated(&msg, &PROVIDER, Owner::Provider).unwrap();
    assert_eq!(b.agreements()[0].state, AgreementState::Terminated);
    assert_eq!(b.on_agreement_terminated(&msg, &PROVIDER, Owner::Provider), Err(RemoteError::InvalidTransition));
    let unknown = AgreementTerminated {
        agreement_id: AgreementId { id: "a1".to_string(), owner: Owner::Provider },
        reason: None,
    };
    assert_eq!(b.on_agreement_terminated(&unknown, &PROVIDER, Owner::Provider), Err(RemoteError::NotFound));
}

#[test]
fn caller_identity_is_read_from_hex() {
    let id = parse_caller("0x0102030405060708090a0b0c0d0e0f10111213FF").unwrap();
    let mut expected = [0u8; 20];
    for (i, b) in expected.iter_mut().enumerate().take(19) {
        *b = (i + 1) as u8;
    }
    expected[19] = 0xff;
    assert_eq!(id.bytes, expected);
    assert!(parse_caller("0x0102").is_err());
    assert!(parse_caller("1x0102030405060708090a0b0c0d0e0f10111213ff").is_err());
    assert_eq!(parse_caller("0xzz02030405060708090a0b0c0d0e0f10111213ff").unwrap_err().caller, "0xzz02030405060708090a0b0c0d0e0f10111213ff");
}

#[test]
fn terminations_are_logged_for_the_owner() {
    let mut b = market(AgreementState::Approved);
    let mut other = agreement(Owner::Requestor, AgreementState::Approved);
    other.id.id = "a2".to_string();
    other.session_id = None;
    b.insert_agreement(other);
    b.terminate_agreement(&REQUESTOR, &"a1".to_string(), Some("done".to_string())).unwrap();
    b.terminate_agreement(&REQUESTOR, &"a2".to_string(), None).unwrap();
    assert_eq!(b.agreement_events().len(), 2);
    let all = b.select_agreement_events(&REQUESTOR, &None, 10, 0);
    assert_eq!(all.len(), 2);
    assert_eq!((all[0].timestamp, all[1].timestamp), (1, 2));
    assert_eq!(all[0].reason, Some("done".to_string()));
    assert_eq!(b.select_agreement_events(&REQUESTOR, &None, 1, 0).len(), 1);
    let newer = b.select_agreement_events(&REQUESTOR, &None, 10, 1);
    assert_eq!(newer.len(), 1);
    assert_eq!(newer[0].agreement_id.id, "a2");
    let session = b.select_agreement_events(&REQUESTOR, &Some("session".to_string()), 10, 0);
    assert_eq!(session.len(), 1);
    assert_eq!(session[0].agreement_id.id, "a1");
    assert!(b.select_agreement_events(&PROVIDER, &None, 10, 0).is_empty());
    assert_eq!(after_session_wait(market_core::broker::WaitOutcome::Unsubscribed).unwrap().unwrap_err(), market_core::negotiation::NegotiationError::Internal);
}

#[test]
fn refused_terminations_have_no_side_effects() {
    let mut b = market(AgreementState::Terminated);
    let all = b.listen(&NotifyKey::Session(None));
    assert_eq!(b.terminate_agreement(&REQUESTOR, &"a1".to_string(), None), Err(AgreementError::InvalidTransition));
    assert_eq!(b.terminate_agreement(&PROVIDER, &"a1".to_string(), None), Err(AgreementError::NotFound));
    let msg = AgreementTerminated {
        agreement_id: AgreementId { id: "a1".to_string(), owner: Owner::Requestor },
        reason: Some("again".to_string()),
    };
    assert_eq!(b.on_agreement_terminated(&msg, &PROVIDER, Owner::Provider), Err(RemoteError::InvalidTransition));
    assert_eq!(b.on_agreement_terminated(&msg, &REQUESTOR, Owner::Provider), Err(RemoteError::NotFound));
    assert!(b.agreement_events().is_empty());
    assert_eq!(b.agreements()[0].terminated_reason, None);
    assert_eq!(b.take_signal(all), Signal::Pending);
}

#[test]
fn agreement_poll_steps() {
    let mut b = market(AgreementState::Approved);
    assert!(matches!(b.query_agreement_events_step(&REQUESTOR, &None, 5, 0, true), AgreementPoll::Wait));
    assert!(matches!(b.query_agreement_events_step(&REQUESTOR, &None, 5, 0, false), AgreementPoll::Deliver(v) if v.is_empty()));
    b.terminate_agreement(&REQUESTOR, &"a1".to_string(), None).unwrap();
    assert!(matches!(b.query_agreement_events_step(&REQUESTOR, &None, 5, 0, true), AgreementPoll::Deliver(v) if v.len() == 1));
}
