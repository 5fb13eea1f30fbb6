use vstd::prelude::*;

use crate::constraint::writes;
use crate::matching::{
    classify, match_demand_offer, prepared_from, some_line_invalid, Match, PrepareError, Prepared,
};
use crate::property_syntax::property_of;
use crate::negotiation::{
    find_subscription, is_party, proposal_transition_ok, same_proposal_id, self_reaction,
    subscription_error, subscription_state, EventPayload, EventsConfig, Issuer, MarketEvent,
    Negotiation, NegotiationError, NewProposal, Proposal, ProposalBody, ProposalId,
    ProposalState, Subscription, SubscriptionState,
};
use crate::node::{NodeId, Owner};
use crate::notifier::{listened, notified, signal_taken, stopped_notifying, EventNotifier, KeyView, NotifyKey, Signal};

verus! {

/// The negotiation state of one market participant, and the operations on it.
#[derive(Debug)]
pub struct CommonBroker {
    pub(crate) proposals: Vec<Proposal>,
    pub(crate) events: Vec<MarketEvent>,
    pub(crate) subscriptions: Vec<Subscription>,
    pub(crate) agreements: Vec<crate::agreement::Agreement>,
    pub(crate) agreement_events: Vec<crate::agreement::AgreementEvent>,
    pub(crate) notifier: EventNotifier,
    pub(crate) config: EventsConfig,
    pub(crate) next_event: u64,
}

pub open spec fn holds_id(ps: Seq<Proposal>, id: ProposalId, i: int) -> bool {
    0 <= i < ps.len() && same_proposal_id(ps[i].body.id, id)
}

pub open spec fn visible(p: Proposal, subs: Option<Seq<char>>) -> bool {
    match subs {
        None => true,
        Some(s) => p.negotiation.subscription_id@ == s,
    }
}

/// The proposal `id`, if it is held and, when a subscription is given, belongs to it.
pub open spec fn visible_index(ps: Seq<Proposal>, subs: Option<Seq<char>>, id: ProposalId) -> Option<int> {
    if exists|i: int| holds_id(ps, id, i) && visible(ps[i], subs) {
        Some(choose|i: int| holds_id(ps, id, i) && visible(ps[i], subs))
    } else {
        None
    }
}

pub open spec fn opt_seq(s: Option<&String>) -> Option<Seq<char>> {
    match s {
        Some(x) => Some(x@),
        None => None,
    }
}

/// Whether two proposals agree in every field.
pub open spec fn same_proposal(a: Proposal, b: Proposal) -> bool {
    &&& a.body.id == b.body.id
    &&& a.body.properties@ == b.body.properties@
    &&& a.body.constraints@ == b.body.constraints@
    &&& a.body.issuer == b.body.issuer
    &&& a.body.prev_proposal_id == b.body.prev_proposal_id
    &&& a.negotiation.subscription_id@ == b.negotiation.subscription_id@
    &&& a.negotiation.offer_id@ == b.negotiation.offer_id@
    &&& a.negotiation.demand_id@ == b.negotiation.demand_id@
    &&& a.negotiation.provider_id == b.negotiation.provider_id
    &&& a.negotiation.requestor_id == b.negotiation.requestor_id
    &&& a.state == b.state
}

/// The first check that a party fails when it reacts to `p`, if any.
pub open spec fn validation(subs: Seq<Subscription>, p: Proposal, caller: NodeId, role: Owner) -> Option<NegotiationError> {
    if !is_party(p.negotiation, caller, role) {
        Some(NegotiationError::Unauthorized)
    } else if self_reaction(p, role) {
        Some(NegotiationError::OwnProposal)
    } else if subscription_error(subscription_state(subs, p.negotiation.offer_id@)) is Some {
        subscription_error(subscription_state(subs, p.negotiation.offer_id@))
    } else if p.body.id.owner is Requestor && subscription_error(
        subscription_state(subs, p.negotiation.demand_id@),
    ) is Some {
        subscription_error(subscription_state(subs, p.negotiation.demand_id@))
    } else {
        None
    }
}

/// Whether the two proposals parse and match: `a` read as a demand, `b` as an offer.
pub open spec fn proposals_match(a: Proposal, b: Proposal) -> bool {
    texts_match(a.body.properties@, a.body.constraints@, b.body.properties@, b.body.constraints@)
}

/// Whether the properties and constraints `ap`, `ac` (read as a demand) and `bp`, `bc` (read as
/// an offer) parse and match.
pub open spec fn texts_match(ap: Seq<String>, ac: Seq<char>, bp: Seq<String>, bc: Seq<char>) -> bool {
    exists|d: Prepared, o: Prepared|
        prepared_from(d, ap, ac) && prepared_from(o, bp, bc) && classify(
            d.constraints@,
            d.properties@,
            o.constraints@,
            o.properties@,
        ) is Yes
}

/// Whether the two proposals parse but do not match.
pub open spec fn proposals_differ(a: Proposal, b: Proposal) -> bool {
    exists|d: Prepared, o: Prepared|
        prepared_from(d, a.body.properties@, a.body.constraints@) && prepared_from(
            o,
            b.body.properties@,
            b.body.constraints@,
        ) && !(classify(d.constraints@, d.properties@, o.constraints@, o.properties@) is Yes)
}

pub open spec fn counters(p: Proposal, prev: ProposalId) -> bool {
    match p.body.prev_proposal_id {
        Some(x) => same_proposal_id(x, prev),
        None => false,
    }
}

/// Whether some held proposal already counters `prev`.
pub open spec fn countered(ps: Seq<Proposal>, prev: ProposalId) -> bool {
    exists|i: int|
        0 <= i < ps.len() && counters(#[trigger] ps[i], prev)
}

pub open spec fn id_taken(ps: Seq<Proposal>, id: ProposalId) -> bool {
    exists|i: int| holds_id(ps, id, i)
}

/// The counter proposal that a local client's `n` makes of `prev`.
pub open spec fn from_client(prev: Proposal, n: NewProposal, new_id: Seq<char>, p: Proposal) -> bool {
    &&& p.body.id.id@ == new_id
    &&& p.body.id.owner == prev.body.id.owner
    &&& p.body.properties@ == n.properties@
    &&& p.body.constraints@ == n.constraints@
    &&& p.body.issuer == Issuer::Us
    &&& p.body.prev_proposal_id == Some(prev.body.id)
    &&& p.negotiation.subscription_id@ == prev.negotiation.subscription_id@
    &&& p.negotiation.offer_id@ == prev.negotiation.offer_id@
    &&& p.negotiation.demand_id@ == prev.negotiation.demand_id@
    &&& p.negotiation.provider_id == prev.negotiation.provider_id
    &&& p.negotiation.requestor_id == prev.negotiation.requestor_id
    &&& p.state == ProposalState::Draft
}

fn copy_strings(v: &Vec<String>) -> (r: Vec<String>)
    ensures
        r@ == v@,
{
    let mut out: Vec<String> = Vec::new();
    let mut i: usize = 0;
    while i < v.len()
        invariant
            0 <= i <= v@.len(),
            out@ == v@.subrange(0, i as int),
        decreases v@.len() - i,
    {
        out.push(v[i].clone());
        assert(out@ =~= v@.subrange(0, i + 1));
        i = i + 1;
    }
    assert(v@.subrange(0, i as int) =~= v@);
    out
}

fn copy_proposal_id(id: &Option<ProposalId>) -> (r: Option<ProposalId>)
    ensures
        r == *id,
{
    match id {
        Some(x) => Some(x.duplicate()),
        None => None,
    }
}

impl Proposal {
    /// A copy of this proposal.
    pub fn duplicate(&self) -> (r: Proposal)
        ensures
            same_proposal(r, *self),
    {
        Proposal {
            body: ProposalBody {
                id: self.body.id.duplicate(),
                properties: copy_strings(&self.body.properties),
                constraints: self.body.constraints.clone(),
                issuer: self.body.issuer,
                prev_proposal_id: copy_proposal_id(&self.body.prev_proposal_id),
            },
            negotiation: Negotiation {
                subscription_id: self.negotiation.subscription_id.clone(),
                offer_id: self.negotiation.offer_id.clone(),
                demand_id: self.negotiation.demand_id.clone(),
                provider_id: self.negotiation.provider_id,
                requestor_id: self.negotiation.requestor_id,
            },
            state: self.state,
        }
    }
}

impl CommonBroker {
    /// The proposals held, oldest first.
    pub open(crate) spec fn proposals_view(&self) -> Seq<Proposal> {
        self.proposals@
    }

    /// The queued market events, oldest first.
    pub open(crate) spec fn events_view(&self) -> Seq<MarketEvent> {
        self.events@
    }

    /// The records of subscription states, oldest first.
    pub open(crate) spec fn subscriptions_view(&self) -> Seq<Subscription> {
        self.subscriptions@
    }

    pub open(crate) spec fn agreements_view(&self) -> Seq<crate::agreement::Agreement> {
        self.agreements@
    }

    /// The log of agreement changes, oldest first.
    pub open(crate) spec fn agreement_events_view(&self) -> Seq<crate::agreement::AgreementEvent> {
        self.agreement_events@
    }

    pub open(crate) spec fn notifier_view(&self) -> EventNotifier {
        self.notifier
    }

    pub open(crate) spec fn config_view(&self) -> EventsConfig {
        self.config
    }

    /// The sequence number of the next market event.
    pub open(crate) spec fn next_event_view(&self) -> u64 {
        self.next_event
    }

    pub fn proposals(&self) -> (r: &Vec<Proposal>)
        ensures
            r@ == self.proposals_view(),
    {
        &self.proposals
    }

    pub fn events(&self) -> (r: &Vec<MarketEvent>)
        ensures
            r@ == self.events_view(),
    {
        &self.events
    }

    pub fn agreements(&self) -> (r: &Vec<crate::agreement::Agreement>)
        ensures
            r@ == self.agreements_view(),
    {
        &self.agreements
    }

    pub fn agreement_events(&self) -> (r: &Vec<crate::agreement::AgreementEvent>)
        ensures
            r@ == self.agreement_events_view(),
    {
        &self.agreement_events
    }

    /// Registers a listener on `key`; see [`EventNotifier::listen`].
    pub fn listen(&mut self, key: &NotifyKey) -> (id: usize)
        requires
            old(self).wf(),
        ensures
            final(self).wf(),
            listened(old(self).notifier_view(), final(self).notifier_view(), key@, id),
            final(self).proposals_view() == old(self).proposals_view(),
            final(self).events_view() == old(self).events_view(),
            final(self).subscriptions_view() == old(self).subscriptions_view(),
            final(self).agreements_view() == old(self).agreements_view(),
            final(self).agreement_events_view() == old(self).agreement_events_view(),
            final(self).next_event_view() == old(self).next_event_view(),
    {
        self.notifier.listen(key)
    }

    /// Reads the signal of listener `id`; see [`EventNotifier::take_signal`].
    pub fn take_signal(&mut self, id: usize) -> (r: Signal)
        requires
            old(self).wf(),
            id < old(self).notifier_view().listeners@.len(),
        ensures
            final(self).wf(),
            signal_taken(old(self).notifier_view(), final(self).notifier_view(), id as int, r),
            final(self).proposals_view() == old(self).proposals_view(),
            final(self).events_view() == old(self).events_view(),
            final(self).subscriptions_view() == old(self).subscriptions_view(),
            final(self).agreements_view() == old(self).agreements_view(),
            final(self).agreement_events_view() == old(self).agreement_events_view(),
            final(self).next_event_view() == old(self).next_event_view(),
    {
        self.notifier.take_signal(id)
    }

    /// No two held proposals share an identity.
    pub open spec fn wf(&self) -> bool {
        forall|i: int, j: int|
            0 <= i < self.proposals_view().len() && 0 <= j < self.proposals_view().len() && same_proposal_id(
                self.proposals_view()[i].body.id,
                self.proposals_view()[j].body.id,
            ) ==> i == j
    }

    /// A broker with nothing in it.
    pub fn new(config: EventsConfig) -> (r: CommonBroker)
        ensures
            r.wf(),
            r.proposals_view().len() == 0,
            r.events_view().len() == 0,
            r.subscriptions_view().len() == 0,
            r.agreements_view().len() == 0,
            r.agreement_events_view().len() == 0,
            r.config_view() == config,
    {
        CommonBroker {
            proposals: Vec::new(),
            events: Vec::new(),
            subscriptions: Vec::new(),
            agreements: Vec::new(),
            agreement_events: Vec::new(),
            notifier: EventNotifier::new(),
            config,
            next_event: 0,
        }
    }

    /// Records a new state of a subscription.
    pub fn set_subscription(&mut self, id: &String, state: SubscriptionState)
        requires
            old(self).wf(),
        ensures
            final(self).wf(),
            final(self).subscriptions_view().len() == old(self).subscriptions_view().len() + 1,
            final(self).subscriptions_view().drop_last() == old(self).subscriptions_view(),
            subscription_state(final(self).subscriptions_view(), id@) == state,
            final(self).notifier_view() == old(self).notifier_view(),
            final(self).next_event_view() == old(self).next_event_view(),
            final(self).proposals_view() == old(self).proposals_view(),
            final(self).events_view() == old(self).events_view(),
            final(self).agreements_view() == old(self).agreements_view(),
            final(self).agreement_events_view() == old(self).agreement_events_view(),
    {
        let ghost before = self.subscriptions_view();
        self.subscriptions.push(Subscription { id: id.clone(), state });
        assert(self.subscriptions_view().drop_last() =~= before);
    }

    /// The state of subscription `id`.
    pub fn subscription_state(&self, id: &String) -> (r: SubscriptionState)
        ensures
            r == subscription_state(self.subscriptions_view(), id@),
    {
        let ghost subs = self.subscriptions_view();
        let mut i = self.subscriptions.len();
        assert(subs.subrange(0, i as int) =~= subs);
        while i > 0
            invariant
                0 <= i <= subs.len(),
                subs == self.subscriptions_view(),
                find_subscription(subs, id@) == find_subscription(subs.subrange(0, i as int), id@),
            decreases i,
        {
            let ghost pre = subs.subrange(0, i as int);
            assert(pre.drop_last() =~= subs.subrange(0, i - 1));
            if self.subscriptions[i - 1].id == *id {
                return self.subscriptions[i - 1].state;
            }
            i = i - 1;
        }
        SubscriptionState::Unsubscribed
    }

    fn find_proposal(&self, id: &ProposalId) -> (r: Option<usize>)
        ensures
            r matches Some(i) ==> holds_id(self.proposals_view(), *id, i as int),
            r is None ==> !id_taken(self.proposals_view(), *id),
    {
        let mut i: usize = 0;
        while i < self.proposals.len()
            invariant
                0 <= i <= self.proposals_view().len(),
                forall|j: int| 0 <= j < i ==> !holds_id(self.proposals_view(), *id, j),
            decreases self.proposals_view().len() - i,
        {
            if self.proposals[i].body.id.same(id) {
                return Some(i);
            }
            i = i + 1;
        }
        None
    }

    fn visible_proposal(&self, subs_id: Option<&String>, id: &ProposalId) -> (r: Option<usize>)
        requires
            self.wf(),
        ensures
            match r {
                Some(i) => visible_index(self.proposals_view(), opt_seq(subs_id), *id) == Some(i as int),
                None => visible_index(self.proposals_view(), opt_seq(subs_id), *id) is None,
            },
    {
        match self.find_proposal(id) {
            None => None,
            Some(i) => {
                let shown = match subs_id {
                    None => true,
                    Some(s) => self.proposals[i].negotiation.subscription_id == *s,
                };
                proof {
                    assert forall|j: int| holds_id(self.proposals_view(), *id, j) implies j == i as int by {
                        assert(same_proposal_id(
                            self.proposals_view()[i as int].body.id,
                            self.proposals_view()[j].body.id,
                        ));
                    }
                    assert(shown == visible(self.proposals_view()[i as int], opt_seq(subs_id)));
                }
                if shown {
                    assert(holds_id(self.proposals_view(), *id, i as int) && visible(
                        self.proposals_view()[i as int],
                        opt_seq(subs_id),
                    ));
                    Some(i)
                } else {
                    None
                }
            },
        }
    }

    /// The proposal `id`. With a subscription given, a proposal of another subscription is
    /// reported as not found.
    pub fn get_proposal(&self, subs_id: Option<&String>, id: &ProposalId) -> (r: Result<&Proposal, NegotiationError>)
        requires
            self.wf(),
        ensures
            match r {
                Ok(p) => visible_index(self.proposals_view(), opt_seq(subs_id), *id) matches Some(i)
                    && *p == self.proposals_view()[i],
                Err(e) => e == NegotiationError::NotFound && visible_index(
                    self.proposals_view(),
                    opt_seq(subs_id),
                    *id,
                ) is None,
            },
    {
        match self.visible_proposal(subs_id, id) {
            Some(i) => Ok(&self.proposals[i]),
            None => Err(NegotiationError::NotFound),
        }
    }

    /// Checks that `caller`, in `role`, may react to `proposal`: it must be the party of that
    /// role, must not be reacting to its own proposal, and the subscriptions must be alive.
    pub fn validate_proposal(&self, proposal: &Proposal, caller_id: &NodeId, caller_role: Owner) -> (r: Result<(), NegotiationError>)
        ensures
            r == match validation(self.subscriptions_view(), *proposal, *caller_id, caller_role) {
                None => Ok(()),
                Some(e) => Err(e),
            },
    {
        let authorized = match caller_role {
            Owner::Provider => proposal.negotiation.provider_id.same(caller_id),
            Owner::Requestor => proposal.negotiation.requestor_id.same(caller_id),
        };
        if !authorized {
            return Err(NegotiationError::Unauthorized);
        }
        if proposal.body.issuer == Issuer::Us && proposal.body.id.owner == caller_role {
            return Err(NegotiationError::OwnProposal);
        }
        match self.subscription_state(&proposal.negotiation.offer_id) {
            SubscriptionState::Active => {},
            SubscriptionState::Expired => {
                return Err(NegotiationError::SubscriptionExpired);
            },
            SubscriptionState::Unsubscribed => {
                return Err(NegotiationError::SubscriptionNotFound);
            },
        }
        if proposal.body.id.owner == Owner::Requestor {
            match self.subscription_state(&proposal.negotiation.demand_id) {
                SubscriptionState::Active => {},
                SubscriptionState::Expired => {
                    return Err(NegotiationError::SubscriptionExpired);
                },
                SubscriptionState::Unsubscribed => {
                    return Err(NegotiationError::SubscriptionNotFound);
                },
            }
        }
        Ok(())
    }
}

/// Checks that a new proposal still matches the one it counters.
pub fn validate_match(new_proposal: &Proposal, prev_proposal: &Proposal) -> (r: Result<(), NegotiationError>)
    ensures
        r is Ok <==> proposals_match(*new_proposal, *prev_proposal),
        r == Err::<(), NegotiationError>(NegotiationError::NotMatching) ==> proposals_differ(
            *new_proposal,
            *prev_proposal,
        ),
        r == Err::<(), NegotiationError>(NegotiationError::MatchingFailed) ==> !proposals_match(
            *new_proposal,
            *prev_proposal,
        ) && !proposals_differ(*new_proposal, *prev_proposal),
        r is Err ==> r == Err::<(), NegotiationError>(NegotiationError::NotMatching) || r == Err::<
            (),
            NegotiationError,
        >(NegotiationError::MatchingFailed),
{
    match match_demand_offer(
        &new_proposal.body.properties,
        &new_proposal.body.constraints,
        &prev_proposal.body.properties,
        &prev_proposal.body.constraints,
    ) {
        Ok(Match::Yes) => {
            let ghost (d, o) = choose|d: Prepared, o: Prepared|
                prepared_from(d, new_proposal.body.properties@, new_proposal.body.constraints@)
                    && prepared_from(o, prev_proposal.body.properties@, prev_proposal.body.constraints@);
            assert(classify(d.constraints@, d.properties@, o.constraints@, o.properties@) is Yes);
            Ok(())
        },
        Ok(m) => {
            let ghost (d, o) = choose|d: Prepared, o: Prepared|
                prepared_from(d, new_proposal.body.properties@, new_proposal.body.constraints@)
                    && prepared_from(o, prev_proposal.body.properties@, prev_proposal.body.constraints@);
            assert(m@ == classify(d.constraints@, d.properties@, o.constraints@, o.properties@));
            assert(!(m@ is Yes));
            assert(!proposals_match(*new_proposal, *prev_proposal)) by {
                assert forall|d: Prepared, o: Prepared|
                    prepared_from(d, new_proposal.body.properties@, new_proposal.body.constraints@)
                        && prepared_from(
                        o,
                        prev_proposal.body.properties@,
                        prev_proposal.body.constraints@,
                    ) implies !(classify(
                        d.constraints@,
                        d.properties@,
                        o.constraints@,
                        o.properties@,
                    ) is Yes) by {
                    assert(m@ == classify(d.constraints@, d.properties@, o.constraints@, o.properties@));
                }
            }
            Err(NegotiationError::NotMatching)
        },
        Err(e) => {
            proof {
                assert forall|d: Prepared, o: Prepared|
                    !(prepared_from(d, new_proposal.body.properties@, new_proposal.body.constraints@)
                        && prepared_from(
                        o,
                        prev_proposal.body.properties@,
                        prev_proposal.body.constraints@,
                    )) by {
                    if prepared_from(d, new_proposal.body.properties@, new_proposal.body.constraints@)
                        && prepared_from(
                        o,
                        prev_proposal.body.properties@,
                        prev_proposal.body.constraints@,
                    ) {
                        match e {
                            PrepareError::Property(_) => {
                                if some_line_invalid(new_proposal.body.properties@) {
                                    let i = choose|i: int|
                                        0 <= i < new_proposal.body.properties@.len() && property_of(
                                            #[trigger] new_proposal.body.properties@[i]@,
                                        ) is None;
                                    assert(property_of(new_proposal.body.properties@[i]@) is Some);
                                } else {
                                    let i = choose|i: int|
                                        0 <= i < prev_proposal.body.properties@.len() && property_of(
                                            #[trigger] prev_proposal.body.properties@[i]@,
                                        ) is None;
                                    assert(property_of(prev_proposal.body.properties@[i]@) is Some);
                                }
                            },
                            PrepareError::Constraint(_) => {
                                assert(writes(new_proposal.body.constraints@, d.constraints@));
                                assert(writes(prev_proposal.body.constraints@, o.constraints@));
                            },
                        }
                    }
                }
            }
            Err(NegotiationError::MatchingFailed)
        },
    }
}

/// Whether a held proposal already has identity `id` of `owner`.
pub open spec fn id_in_use(ps: Seq<Proposal>, id: Seq<char>, owner: Owner) -> bool {
    exists|i: int| 0 <= i < ps.len() && (#[trigger] ps[i]).body.id.id@ == id && ps[i].body.id.owner == owner
}

/// Whether storing `p` next to `ps` is refused: `p` counters a proposal already countered, or
/// its identity is in use.
pub open spec fn save_refusal(ps: Seq<Proposal>, p: Proposal) -> Option<NegotiationError> {
    if p.body.prev_proposal_id matches Some(prev) && countered(ps, prev) {
        Some(NegotiationError::AlreadyCountered)
    } else if id_in_use(ps, p.body.id.id@, p.body.id.owner) {
        Some(NegotiationError::Internal)
    } else {
        None
    }
}

/// Why a counter proposal with these arguments is refused, given the state before the call.
pub open spec fn counter_refusal(
    b: CommonBroker,
    subs: Seq<char>,
    prev_id: ProposalId,
    n: NewProposal,
    new_id: Seq<char>,
    caller: NodeId,
    role: Owner,
    e: NegotiationError,
) -> bool {
    match visible_index(b.proposals_view(), Some(subs), prev_id) {
        None => e == NegotiationError::NotFound,
        Some(i) => {
            let prev = b.proposals_view()[i];
            match validation(b.subscriptions_view(), prev, caller, role) {
                Some(v) => e == v,
                None => exists|p: Proposal|
                    #[trigger] from_client(prev, n, new_id, p) && match e {
                        NegotiationError::NotMatching => proposals_differ(p, prev),
                        NegotiationError::MatchingFailed => !proposals_match(p, prev) && !proposals_differ(
                            p,
                            prev,
                        ),
                        _ => proposals_match(p, prev) && save_refusal(b.proposals_view(), p) == Some(e),
                    },
            }
        },
    }
}

impl CommonBroker {
    /// Stores a new proposal, unless it counters a proposal that was already countered or its
    /// identity is in use.
    pub fn save_proposal(&mut self, p: Proposal) -> (r: Result<(), NegotiationError>)
        requires
            old(self).wf(),
        ensures
            final(self).wf(),
            r == match save_refusal(old(self).proposals_view(), p) {
                None => Ok(()),
                Some(e) => Err(e),
            },
            r is Ok ==> final(self).proposals_view() == old(self).proposals_view().push(p),
            r is Err ==> final(self).proposals_view() == old(self).proposals_view(),
            final(self).events_view() == old(self).events_view(),
            final(self).subscriptions_view() == old(self).subscriptions_view(),
            final(self).agreements_view() == old(self).agreements_view(),
            final(self).agreement_events_view() == old(self).agreement_events_view(),
            final(self).notifier_view() == old(self).notifier_view(),
            final(self).next_event_view() == old(self).next_event_view(),
    {
        let mut countered_already = false;
        let mut in_use = false;
        let mut i: usize = 0;
        while i < self.proposals.len()
            invariant
                0 <= i <= self.proposals_view().len(),
                countered_already == exists|j: int|
                    0 <= j < i && counters(#[trigger] self.proposals_view()[j], p.body.prev_proposal_id->0)
                        && p.body.prev_proposal_id is Some,
                in_use == exists|j: int|
                    0 <= j < i && (#[trigger] self.proposals_view()[j]).body.id.id@ == p.body.id.id@
                        && self.proposals_view()[j].body.id.owner == p.body.id.owner,
            decreases self.proposals_view().len() - i,
        {
            let q = &self.proposals[i];
            match (&q.body.prev_proposal_id, &p.body.prev_proposal_id) {
                (Some(x), Some(y)) => {
                    if x.same(y) {
                        countered_already = true;
                    }
                },
                _ => {},
            }
            if q.body.id.id == p.body.id.id && q.body.id.owner == p.body.id.owner {
                in_use = true;
            }
            i = i + 1;
        }
        if countered_already {
            return Err(NegotiationError::AlreadyCountered);
        }
        if in_use {
            return Err(NegotiationError::Internal);
        }
        let ghost before = self.proposals_view();
        self.proposals.push(p);
        proof {
            assert forall|a: int, c: int|
                0 <= a < self.proposals_view().len() && 0 <= c < self.proposals_view().len() && same_proposal_id(
                    self.proposals_view()[a].body.id,
                    self.proposals_view()[c].body.id,
                ) implies a == c by {
                if a < before.len() && c < before.len() {
                    assert(self.proposals_view()[a] == before[a]);
                    assert(self.proposals_view()[c] == before[c]);
                } else if a < before.len() {
                    assert(self.proposals_view()[a] == before[a]);
                } else if c < before.len() {
                    assert(self.proposals_view()[c] == before[c]);
                }
            }
        }
        Ok(())
    }

    /// A local party answers proposal `prev_proposal_id` of subscription `subscription_id` with
    /// a counter proposal, stored under identity `new_id`. Returns the new proposal and whether
    /// it is the first counter of the negotiation.
    pub fn counter_proposal(
        &mut self,
        subscription_id: &String,
        prev_proposal_id: &ProposalId,
        proposal: &NewProposal,
        new_id: &String,
        caller_id: &NodeId,
        caller_role: Owner,
    ) -> (r: Result<(Proposal, bool), NegotiationError>)
        requires
            old(self).wf(),
        ensures
            final(self).wf(),
            final(self).events_view() == old(self).events_view(),
            final(self).subscriptions_view() == old(self).subscriptions_view(),
            final(self).agreements_view() == old(self).agreements_view(),
            final(self).notifier_view() == old(self).notifier_view(),
            final(self).next_event_view() == old(self).next_event_view(),
            final(self).agreement_events_view() == old(self).agreement_events_view(),
            match r {
                Ok((p, first)) => visible_index(
                    old(self).proposals_view(),
                    Some(subscription_id@),
                    *prev_proposal_id,
                ) matches Some(i) && {
                    let prev = old(self).proposals_view()[i];
                    &&& validation(old(self).subscriptions_view(), prev, *caller_id, caller_role) is None
                    &&& from_client(prev, *proposal, new_id@, p)
                    &&& proposals_match(p, prev)
                    &&& final(self).proposals_view().len() == old(self).proposals_view().len() + 1
                    &&& final(self).proposals_view().drop_last() == old(self).proposals_view()
                    &&& same_proposal(final(self).proposals_view().last(), p)
                    &&& first == prev.body.prev_proposal_id is None
                },
                Err(e) => final(self).proposals_view() == old(self).proposals_view() && counter_refusal(
                    *old(self),
                    subscription_id@,
                    *prev_proposal_id,
                    *proposal,
                    new_id@,
                    *caller_id,
                    caller_role,
                    e,
                ),
            },
    {
        let i = match self.visible_proposal(Some(subscription_id), prev_proposal_id) {
            Some(i) => i,
            None => {
                return Err(NegotiationError::NotFound);
            },
        };
        let prev = &self.proposals[i];
        match self.validate_proposal(prev, caller_id, caller_role) {
            Ok(()) => {},
            Err(e) => {
                return Err(e);
            },
        }
        let is_first = prev.body.prev_proposal_id.is_none();
        let new_proposal = Proposal {
            body: ProposalBody {
                id: ProposalId { id: new_id.clone(), owner: prev.body.id.owner },
                properties: copy_strings(&proposal.properties),
                constraints: proposal.constraints.clone(),
                issuer: Issuer::Us,
                prev_proposal_id: Some(prev.body.id.duplicate()),
            },
            negotiation: Negotiation {
                subscription_id: prev.negotiation.subscription_id.clone(),
                offer_id: prev.negotiation.offer_id.clone(),
                demand_id: prev.negotiation.demand_id.clone(),
                provider_id: prev.negotiation.provider_id,
                requestor_id: prev.negotiation.requestor_id,
            },
            state: ProposalState::Draft,
        };
        assert(from_client(self.proposals_view()[i as int], *proposal, new_id@, new_proposal));
        let matched = validate_match(&new_proposal, prev);
        match matched {
            Ok(()) => {},
            Err(e) => {
                proof {
                    let prev_v = self.proposals_view()[i as int];
                    assert(from_client(prev_v, *proposal, new_id@, new_proposal) && match e {
                        NegotiationError::NotMatching => proposals_differ(new_proposal, prev_v),
                        NegotiationError::MatchingFailed => !proposals_match(new_proposal, prev_v) && !proposals_differ(
                            new_proposal,
                            prev_v,
                        ),
                        _ => proposals_match(new_proposal, prev_v) && save_refusal(
                            self.proposals_view(),
                            new_proposal,
                        ) == Some(e),
                    });
                }
                return Err(e);
            },
        }
        let copy = new_proposal.duplicate();
        match self.save_proposal(new_proposal) {
            Ok(()) => Ok((copy, is_first)),
            Err(e) => Err(e),
        }
    }

    /// A party rejects proposal `proposal_id` and gets it back as it was read before the change.
    /// A proposal in a final state cannot be rejected.
    pub fn reject_proposal(
        &mut self,
        subs_id: Option<&String>,
        proposal_id: &ProposalId,
        caller_id: &NodeId,
        caller_role: Owner,
    ) -> (r: Result<Proposal, NegotiationError>)
        requires
            old(self).wf(),
        ensures
            final(self).wf(),
            final(self).events_view() == old(self).events_view(),
            final(self).subscriptions_view() == old(self).subscriptions_view(),
            final(self).agreements_view() == old(self).agreements_view(),
            final(self).agreement_events_view() == old(self).agreement_events_view(),
            final(self).notifier_view() == old(self).notifier_view(),
            final(self).next_event_view() == old(self).next_event_view(),
            match visible_index(old(self).proposals_view(), opt_seq(subs_id), *proposal_id) {
                None => r == Err::<Proposal, NegotiationError>(NegotiationError::NotFound)
                    && final(self).proposals_view() == old(self).proposals_view(),
                Some(i) => {
                    let p = old(self).proposals_view()[i];
                    match validation(old(self).subscriptions_view(), p, *caller_id, caller_role) {
                        Some(e) => r == Err::<Proposal, NegotiationError>(e)
                            && final(self).proposals_view() == old(self).proposals_view(),
                        None => if proposal_transition_ok(p.state, ProposalState::Rejected) {
                            r matches Ok(q) && same_proposal(q, p) && final(self).proposals_view() == old(self).proposals_view().update(
                                i,
                                Proposal { state: ProposalState::Rejected, ..p },
                            )
                        } else {
                            r == Err::<Proposal, NegotiationError>(
                                NegotiationError::InvalidTransition,
                            ) && final(self).proposals_view() == old(self).proposals_view()
                        },
                    }
                },
            },
    {
        let i = match self.visible_proposal(subs_id, proposal_id) {
            Some(i) => i,
            None => {
                return Err(NegotiationError::NotFound);
            },
        };
        match self.validate_proposal(&self.proposals[i], caller_id, caller_role) {
            Ok(()) => {},
            Err(e) => {
                return Err(e);
            },
        }
        if !crate::negotiation::check_proposal_transition(
            self.proposals[i].state,
            ProposalState::Rejected,
        ) {
            return Err(NegotiationError::InvalidTransition);
        }
        let read = self.proposals[i].duplicate();
        let ghost before = self.proposals_view();
        self.proposals[i].state = ProposalState::Rejected;
        proof {
            assert forall|a: int, c: int|
                0 <= a < self.proposals_view().len() && 0 <= c < self.proposals_view().len() && same_proposal_id(
                    self.proposals_view()[a].body.id,
                    self.proposals_view()[c].body.id,
                ) implies a == c by {
                assert(self.proposals_view()[a].body.id == before[a].body.id);
                assert(self.proposals_view()[c].body.id == before[c].body.id);
            }
        }
        Ok(read)
    }
}

/// Failures of taking events from a subscription's queue.
#[derive(Clone, Debug, PartialEq, Eq)]
pub enum TakeEventsError {
    SubscriptionNotFound(String),
    SubscriptionExpired(String),
}

/// The events for subscription `sid` that a take of at most `max` returns (oldest first), and
/// the queue that stays.
pub open spec fn split_events(evs: Seq<MarketEvent>, sid: Seq<char>, max: int) -> (Seq<MarketEvent>, Seq<MarketEvent>)
    decreases evs.len(),
{
    if evs.len() == 0 {
        (Seq::empty(), Seq::empty())
    } else {
        let (t, k) = split_events(evs.drop_last(), sid, max);
        if evs.last().subscription_id@ == sid && t.len() < max {
            (t.push(evs.last()), k)
        } else {
            (t, k.push(evs.last()))
        }
    }
}

/// How many queued events belong to subscription `sid`.
pub open spec fn count_events(evs: Seq<MarketEvent>, sid: Seq<char>) -> int
    decreases evs.len(),
{
    if evs.len() == 0 {
        0
    } else {
        count_events(evs.drop_last(), sid) + if evs.last().subscription_id@ == sid {
            1int
        } else {
            0int
        }
    }
}

/// A take returns as many events as the subscription has, up to `max`, and leaves the rest.
pub proof fn lemma_take_counts(evs: Seq<MarketEvent>, sid: Seq<char>, max: int)
    requires
        max >= 0,
    ensures
        split_events(evs, sid, max).0.len() == if count_events(evs, sid) < max {
            count_events(evs, sid)
        } else {
            max
        },
        count_events(split_events(evs, sid, max).1, sid) == count_events(evs, sid) - split_events(
            evs,
            sid,
            max,
        ).0.len(),
    decreases evs.len(),
{
    if evs.len() > 0 {
        lemma_take_counts(evs.drop_last(), sid, max);
        let (t, k) = split_events(evs.drop_last(), sid, max);
        if !(evs.last().subscription_id@ == sid && t.len() < max) {
            assert(k.push(evs.last()).drop_last() =~= k);
        }
    }
}

/// Of two takes one after the other, with exactly one event queued for the subscription, the
/// first returns it and the second returns nothing: the event is delivered exactly once.
pub proof fn lemma_single_event_taken_once(evs: Seq<MarketEvent>, sid: Seq<char>, first_max: int, second_max: int)
    requires
        count_events(evs, sid) == 1,
        first_max >= 1,
        second_max >= 0,
    ensures
        split_events(evs, sid, first_max).0.len() == 1,
        split_events(split_events(evs, sid, first_max).1, sid, second_max).0.len() == 0,
{
    lemma_take_counts(evs, sid, first_max);
    lemma_take_counts(split_events(evs, sid, first_max).1, sid, second_max);
}

impl MarketEvent {
    pub fn duplicate(&self) -> (r: MarketEvent)
        ensures
            r == *self,
    {
        MarketEvent {
            id: self.id,
            subscription_id: self.subscription_id.clone(),
            timestamp: self.timestamp,
            owner: self.owner,
            payload: match &self.payload {
                EventPayload::ProposalEvent(id) => EventPayload::ProposalEvent(id.duplicate()),
                EventPayload::ProposalRejectedEvent(id, reason) => EventPayload::ProposalRejectedEvent(
                    id.duplicate(),
                    reason.clone(),
                ),
            },
        }
    }
}

impl CommonBroker {
    /// Queues an event for subscription `subscription_id`, stamped with the next sequence number.
    pub fn add_event(&mut self, subscription_id: &String, owner: Owner, payload: EventPayload) -> (r: Result<(), NegotiationError>)
        requires
            old(self).wf(),
        ensures
            final(self).wf(),
            final(self).proposals_view() == old(self).proposals_view(),
            final(self).subscriptions_view() == old(self).subscriptions_view(),
            final(self).agreements_view() == old(self).agreements_view(),
            final(self).agreement_events_view() == old(self).agreement_events_view(),
            final(self).notifier_view() == old(self).notifier_view(),
            old(self).next_event_view() < u64::MAX <==> r is Ok,
            r is Ok ==> final(self).events_view() == old(self).events_view().push(
                MarketEvent {
                    id: old(self).next_event_view(),
                    subscription_id: *subscription_id,
                    timestamp: old(self).next_event_view(),
                    owner,
                    payload,
                },
            ) && final(self).next_event_view() == old(self).next_event_view() + 1,
            r is Err ==> final(self).events_view() == old(self).events_view() && final(self).next_event_view()
                == old(self).next_event_view(),
    {
        if self.next_event == u64::MAX {
            return Err(NegotiationError::Internal);
        }
        let n = self.next_event;
        self.events.push(
            MarketEvent { id: n, subscription_id: subscription_id.clone(), timestamp: n, owner, payload },
        );
        self.next_event = n + 1;
        Ok(())
    }

    /// Takes up to `max_events` of the oldest events of a live subscription off its queue.
    pub fn take_events(&mut self, subscription_id: &String, max_events: i32) -> (r: Result<Vec<MarketEvent>, TakeEventsError>)
        requires
            old(self).wf(),
            max_events > 0,
        ensures
            final(self).wf(),
            final(self).proposals_view() == old(self).proposals_view(),
            final(self).subscriptions_view() == old(self).subscriptions_view(),
            final(self).agreements_view() == old(self).agreements_view(),
            final(self).agreement_events_view() == old(self).agreement_events_view(),
            final(self).notifier_view() == old(self).notifier_view(),
            final(self).next_event_view() == old(self).next_event_view(),
            match subscription_state(old(self).subscriptions_view(), subscription_id@) {
                SubscriptionState::Active => r matches Ok(v) && v@ == split_events(
                    old(self).events_view(),
                    subscription_id@,
                    max_events as int,
                ).0 && final(self).events_view() == split_events(
                    old(self).events_view(),
                    subscription_id@,
                    max_events as int,
                ).1,
                SubscriptionState::Expired => r matches Err(TakeEventsError::SubscriptionExpired(s))
                    && s@ == subscription_id@ && final(self).events_view() == old(self).events_view(),
                SubscriptionState::Unsubscribed => r matches Err(
                    TakeEventsError::SubscriptionNotFound(s),
                ) && s@ == subscription_id@ && final(self).events_view() == old(self).events_view(),
            },
    {
        match self.subscription_state(subscription_id) {
            SubscriptionState::Active => {},
            SubscriptionState::Expired => {
                return Err(TakeEventsError::SubscriptionExpired(subscription_id.clone()));
            },
            SubscriptionState::Unsubscribed => {
                return Err(TakeEventsError::SubscriptionNotFound(subscription_id.clone()));
            },
        }
        let ghost evs = self.events_view();
        let mut taken: Vec<MarketEvent> = Vec::new();
        let mut kept: Vec<MarketEvent> = Vec::new();
        let mut i: usize = 0;
        assert(evs.subrange(0, 0) =~= Seq::<MarketEvent>::empty());
        while i < self.events.len()
            invariant
                0 <= i <= evs.len(),
                evs == self.events_view(),
                max_events > 0,
                (taken@, kept@) == split_events(
                    evs.subrange(0, i as int),
                    subscription_id@,
                    max_events as int,
                ),
            decreases evs.len() - i,
        {
            let ghost pre = evs.subrange(0, i as int);
            assert(evs.subrange(0, i + 1).drop_last() =~= pre);
            let e = self.events[i].duplicate();
            if self.events[i].subscription_id == *subscription_id && taken.len() < max_events as usize {
                taken.push(e);
            } else {
                kept.push(e);
            }
            i = i + 1;
        }
        assert(evs.subrange(0, i as int) =~= evs);
        self.events = kept;
        Ok(taken)
    }

    /// Drops every queued event of subscription `subscription_id`.
    pub fn remove_events(&mut self, subscription_id: &String)
        requires
            old(self).wf(),
        ensures
            final(self).wf(),
            final(self).proposals_view() == old(self).proposals_view(),
            final(self).subscriptions_view() == old(self).subscriptions_view(),
            final(self).agreements_view() == old(self).agreements_view(),
            final(self).agreement_events_view() == old(self).agreement_events_view(),
            final(self).notifier_view() == old(self).notifier_view(),
            final(self).next_event_view() == old(self).next_event_view(),
            forall|i: int|
                0 <= i < final(self).events_view().len() ==> (#[trigger] final(self).events_view()[i]).subscription_id@
                    != subscription_id@,
            forall|i: int|
                0 <= i < old(self).events_view().len() && (#[trigger] old(self).events_view()[i]).subscription_id@
                    != subscription_id@ ==> final(self).events_view().contains(old(self).events_view()[i]),
    {
        let ghost evs = self.events_view();
        let mut kept: Vec<MarketEvent> = Vec::new();
        let mut i: usize = 0;
        while i < self.events.len()
            invariant
                0 <= i <= evs.len(),
                evs == self.events_view(),
                forall|j: int| 0 <= j < kept@.len() ==> (#[trigger] kept@[j]).subscription_id@ != subscription_id@,
                forall|j: int|
                    0 <= j < i && (#[trigger] evs[j]).subscription_id@ != subscription_id@ ==> kept@.contains(evs[j]),
            decreases evs.len() - i,
        {
            if self.events[i].subscription_id != *subscription_id {
                let e = self.events[i].duplicate();
                let ghost before = kept@;
                kept.push(e);
                assert forall|j: int|
                    0 <= j < i && (#[trigger] evs[j]).subscription_id@ != subscription_id@ implies kept@.contains(evs[j]) by {
                    if before.contains(evs[j]) {
                        let k = choose|k: int| 0 <= k < before.len() && before[k] == evs[j];
                        assert(kept@[k] == evs[j]);
                    }
                }
                assert(kept@[kept@.len() - 1] == evs[i as int]);
            }
            i = i + 1;
        }
        self.events = kept;
    }
}

/// How a wait on a listener ended.
#[derive(Clone, Copy, Debug, PartialEq, Eq, Structural)]
pub enum WaitOutcome {
    Notified,
    Timeout,
    ChannelClosed,
    Unsubscribed,
}

/// What a long poll does after looking at the queue.
#[derive(Debug)]
pub enum PollStep {
    /// Return these events (none, when the deadline has passed).
    Deliver(Vec<MarketEvent>),
    /// Wait for a notification, then look again.
    Wait,
    /// Fail with this error.
    Fail(NegotiationError),
}

/// Decides what a long poll does with the result of a take.
pub fn after_take(taken: Result<Vec<MarketEvent>, TakeEventsError>, time_left: bool) -> (r: PollStep)
    ensures
        match taken {
            Ok(v) => if v@.len() > 0 {
                r matches PollStep::Deliver(w) && w@ == v@
            } else if time_left {
                r is Wait
            } else {
                r matches PollStep::Deliver(w) && w@.len() == 0
            },
            Err(TakeEventsError::SubscriptionNotFound(_)) => r matches PollStep::Fail(e) && e
                == NegotiationError::SubscriptionNotFound,
            Err(TakeEventsError::SubscriptionExpired(_)) => r matches PollStep::Fail(e) && e
                == NegotiationError::SubscriptionExpired,
        },
{
    match taken {
        Ok(v) => {
            if v.len() > 0 {
                PollStep::Deliver(v)
            } else if time_left {
                PollStep::Wait
            } else {
                PollStep::Deliver(v)
            }
        },
        Err(TakeEventsError::SubscriptionNotFound(_)) => PollStep::Fail(
            NegotiationError::SubscriptionNotFound,
        ),
        Err(TakeEventsError::SubscriptionExpired(_)) => PollStep::Fail(
            NegotiationError::SubscriptionExpired,
        ),
    }
}

/// Decides what a long poll does after a wait: look again on a notification; an empty result on
/// a timeout; a failure when the subscription is gone or the channel closed.
pub fn after_wait(w: WaitOutcome) -> (r: Option<Result<Vec<MarketEvent>, NegotiationError>>)
    ensures
        match w {
            WaitOutcome::Notified => r is None,
            WaitOutcome::Timeout => r matches Some(Ok(v)) && v@.len() == 0,
            WaitOutcome::ChannelClosed => r == Some(
                Err::<Vec<MarketEvent>, NegotiationError>(NegotiationError::Internal),
            ),
            WaitOutcome::Unsubscribed => r == Some(
                Err::<Vec<MarketEvent>, NegotiationError>(NegotiationError::SubscriptionNotFound),
            ),
        },
{
    match w {
        WaitOutcome::Notified => None,
        WaitOutcome::Timeout => Some(Ok(Vec::new())),
        WaitOutcome::ChannelClosed => Some(Err(NegotiationError::Internal)),
        WaitOutcome::Unsubscribed => Some(Err(NegotiationError::SubscriptionNotFound)),
    }
}

/// The errors that a remote peer is told: nothing about what this side holds beyond that.
#[derive(Clone, Copy, Debug, PartialEq, Eq, Structural)]
pub enum RemoteError {
    NotFound,
    AlreadyCountered,
    InvalidTransition,
    Internal,
}

pub open spec fn remote_of(e: NegotiationError) -> RemoteError {
    match e {
        NegotiationError::NotFound => RemoteError::NotFound,
        NegotiationError::Unauthorized => RemoteError::NotFound,
        NegotiationError::SubscriptionNotFound => RemoteError::NotFound,
        NegotiationError::SubscriptionExpired => RemoteError::NotFound,
        NegotiationError::AlreadyCountered => RemoteError::AlreadyCountered,
        NegotiationError::InvalidTransition => RemoteError::InvalidTransition,
        _ => RemoteError::Internal,
    }
}

/// Maps a local failure to what the remote peer is told.
pub fn remote_error(e: NegotiationError) -> (r: RemoteError)
    ensures
        r == remote_of(e),
{
    match e {
        NegotiationError::NotFound => RemoteError::NotFound,
        NegotiationError::Unauthorized => RemoteError::NotFound,
        NegotiationError::SubscriptionNotFound => RemoteError::NotFound,
        NegotiationError::SubscriptionExpired => RemoteError::NotFound,
        NegotiationError::AlreadyCountered => RemoteError::AlreadyCountered,
        NegotiationError::InvalidTransition => RemoteError::InvalidTransition,
        _ => RemoteError::Internal,
    }
}

/// The proposal that the other side's `msg` makes of `prev`.
pub open spec fn from_draft(prev: Proposal, msg: crate::negotiation::ProposalReceived, p: Proposal) -> bool {
    &&& p.body.id.id@ == msg.proposal_id@
    &&& p.body.id.owner == prev.body.id.owner
    &&& p.body.properties@ == msg.properties@
    &&& p.body.constraints@ == msg.constraints@
    &&& p.body.issuer == Issuer::Them
    &&& p.body.prev_proposal_id == Some(prev.body.id)
    &&& p.negotiation.subscription_id@ == prev.negotiation.subscription_id@
    &&& p.negotiation.offer_id@ == prev.negotiation.offer_id@
    &&& p.negotiation.demand_id@ == prev.negotiation.demand_id@
    &&& p.negotiation.provider_id == prev.negotiation.provider_id
    &&& p.negotiation.requestor_id == prev.negotiation.requestor_id
    &&& p.state == ProposalState::Draft
}

pub open spec fn no_reason_text() -> Seq<char> {
    seq!['n', 'o', ' ', 'r', 'e', 'a', 's', 'o', 'n']
}

pub open spec fn reason_text(reason: Option<String>) -> Seq<char> {
    match reason {
        Some(s) => s@,
        None => no_reason_text(),
    }
}

impl CommonBroker {
    /// The number of events a query asks for: the given one or the default, which must lie in
    /// `1..=max_events_max`.
    pub fn resolve_max_events(&self, max_events: Option<i32>) -> (r: Result<i32, NegotiationError>)
        ensures
            ({
                let m = match max_events {
                    Some(m) => m,
                    None => self.config_view().max_events_default,
                };
                r == if 0 < m && m <= self.config_view().max_events_max {
                    Ok::<i32, NegotiationError>(m)
                } else {
                    Err::<i32, NegotiationError>(NegotiationError::InvalidMaxEvents)
                }
            }),
    {
        let m = match max_events {
            Some(m) => m,
            None => self.config.max_events_default,
        };
        if m <= 0 || m > self.config.max_events_max {
            Err(NegotiationError::InvalidMaxEvents)
        } else {
            Ok(m)
        }
    }

    /// One look of a long poll at the queue of `subscription_id`.
    pub fn query_events_step(&mut self, subscription_id: &String, max_events: i32, time_left: bool) -> (r: PollStep)
        requires
            old(self).wf(),
            max_events > 0,
        ensures
            final(self).wf(),
            final(self).proposals_view() == old(self).proposals_view(),
            final(self).subscriptions_view() == old(self).subscriptions_view(),
            match subscription_state(old(self).subscriptions_view(), subscription_id@) {
                SubscriptionState::Active => {
                    let (t, k) = split_events(old(self).events_view(), subscription_id@, max_events as int);
                    &&& final(self).events_view() == k
                    &&& if t.len() > 0 {
                        r matches PollStep::Deliver(w) && w@ == t
                    } else if time_left {
                        r is Wait
                    } else {
                        r matches PollStep::Deliver(w) && w@.len() == 0
                    }
                },
                SubscriptionState::Expired => r matches PollStep::Fail(e) && e
                    == NegotiationError::SubscriptionExpired,
                SubscriptionState::Unsubscribed => r matches PollStep::Fail(e) && e
                    == NegotiationError::SubscriptionNotFound,
            },
    {
        let taken = self.take_events(subscription_id, max_events);
        after_take(taken, time_left)
    }

    /// Ends a subscription: its listeners, now and later, are told it is gone; its queued events
    /// are dropped and those of other subscriptions kept.
    pub fn unsubscribe(&mut self, id: &String)
        requires
            old(self).wf(),
        ensures
            final(self).wf(),
            final(self).proposals_view() == old(self).proposals_view(),
            subscription_state(final(self).subscriptions_view(), id@) == SubscriptionState::Unsubscribed,
            forall|i: int|
                0 <= i < final(self).events_view().len() ==> (#[trigger] final(self).events_view()[i]).subscription_id@
                    != id@,
            forall|i: int|
                0 <= i < old(self).events_view().len() && (#[trigger] old(
                    self,
                ).events_view()[i]).subscription_id@ != id@ ==> final(self).events_view().contains(
                    old(self).events_view()[i],
                ),
            stopped_notifying(old(self).notifier_view(), final(self).notifier_view(), KeyView::Subscription(id@)),
            final(self).agreements_view() == old(self).agreements_view(),
            final(self).agreement_events_view() == old(self).agreement_events_view(),
    {
        let key = NotifyKey::Subscription(id.clone());
        self.notifier.stop_notifying(&key);
        self.remove_events(id);
        self.set_subscription(id, SubscriptionState::Unsubscribed);
    }

    /// A counter proposal from the other side, delivered with the caller's verified identity.
    /// It is refused exactly as `received_error` says; otherwise it is stored, and unless the
    /// event sequence is exhausted an event is queued for the other role and the subscription's
    /// listeners are woken.
    pub fn proposal_received(&mut self, msg: &crate::negotiation::ProposalReceived, caller_id: &NodeId, caller_role: Owner) -> (r: Result<(), RemoteError>)
        requires
            old(self).wf(),
        ensures
            final(self).wf(),
            final(self).subscriptions_view() == old(self).subscriptions_view(),
            final(self).agreements_view() == old(self).agreements_view(),
            final(self).agreement_events_view() == old(self).agreement_events_view(),
            match received_error(*old(self), *msg, *caller_id, caller_role) {
                Some(e) => {
                    &&& r == Err::<(), RemoteError>(e)
                    &&& final(self).proposals_view() == old(self).proposals_view()
                    &&& final(self).events_view() == old(self).events_view()
                    &&& final(self).notifier_view() == old(self).notifier_view()
                    &&& final(self).next_event_view() == old(self).next_event_view()
                },
                None => {
                    let prev = old(self).proposals_view()[visible_index(
                        old(self).proposals_view(),
                        None,
                        msg.prev_proposal_id,
                    )->0];
                    let p = final(self).proposals_view().last();
                    &&& final(self).proposals_view().len() == old(self).proposals_view().len() + 1
                    &&& final(self).proposals_view().drop_last() == old(self).proposals_view()
                    &&& from_draft(prev, *msg, p)
                    &&& if old(self).next_event_view() < u64::MAX {
                        &&& r is Ok
                        &&& final(self).events_view() == old(self).events_view().push(
                            MarketEvent {
                                id: old(self).next_event_view(),
                                subscription_id: final(self).events_view().last().subscription_id,
                                timestamp: old(self).next_event_view(),
                                owner: caller_role.spec_swap(),
                                payload: EventPayload::ProposalEvent(p.body.id),
                            },
                        )
                        &&& final(self).events_view().last().subscription_id@
                            == prev.negotiation.subscription_id@
                        &&& notified(
                            old(self).notifier_view(),
                            final(self).notifier_view(),
                            KeyView::Subscription(prev.negotiation.subscription_id@),
                        )
                    } else {
                        &&& r == Err::<(), RemoteError>(RemoteError::Internal)
                        &&& final(self).events_view() == old(self).events_view()
                        &&& final(self).notifier_view() == old(self).notifier_view()
                    }
                },
            },
    {
        let i = match self.visible_proposal(None, &msg.prev_proposal_id) {
            Some(i) => i,
            None => {
                return Err(RemoteError::NotFound);
            },
        };
        let prev = &self.proposals[i];
        let proposal = Proposal {
            body: ProposalBody {
                id: ProposalId { id: msg.proposal_id.clone(), owner: prev.body.id.owner },
                properties: copy_strings(&msg.properties),
                constraints: msg.constraints.clone(),
                issuer: Issuer::Them,
                prev_proposal_id: Some(prev.body.id.duplicate()),
            },
            negotiation: Negotiation {
                subscription_id: prev.negotiation.subscription_id.clone(),
                offer_id: prev.negotiation.offer_id.clone(),
                demand_id: prev.negotiation.demand_id.clone(),
                provider_id: prev.negotiation.provider_id,
                requestor_id: prev.negotiation.requestor_id,
            },
            state: ProposalState::Draft,
        };
        match self.validate_proposal(prev, caller_id, caller_role) {
            Ok(()) => {},
            Err(e) => {
                return Err(remote_error(e));
            },
        }
        match validate_match(&proposal, prev) {
            Ok(()) => {},
            Err(_) => {
                return Err(RemoteError::Internal);
            },
        }
        let subscription_id = prev.negotiation.subscription_id.clone();
        let new_id = proposal.body.id.duplicate();
        assert(save_refusal(self.proposals_view(), proposal) == received_refusal(
            self.proposals_view(),
            self.proposals_view()[i as int],
            *msg,
        ));
        match self.save_proposal(proposal) {
            Ok(()) => {},
            Err(e) => {
                return Err(remote_error(e));
            },
        }
        match self.add_event(&subscription_id, caller_role.swap(), EventPayload::ProposalEvent(new_id)) {
            Ok(()) => {},
            Err(_) => {
                return Err(RemoteError::Internal);
            },
        }
        let key = NotifyKey::Subscription(subscription_id);
        self.notifier.notify(&key);
        Ok(())
    }

    /// A rejection from the other side, delivered with the caller's verified identity. It is
    /// refused exactly as `rejected_error` says; otherwise the proposal becomes `Rejected`, and
    /// unless the event sequence is exhausted a rejection event with the reason (or a marker for
    /// none) is queued and the subscription's listeners are woken.
    pub fn proposal_rejected(&mut self, msg: &crate::negotiation::ProposalRejected, caller_id: &NodeId, caller_role: Owner) -> (r: Result<(), RemoteError>)
        requires
            old(self).wf(),
        ensures
            final(self).wf(),
            final(self).subscriptions_view() == old(self).subscriptions_view(),
            final(self).agreements_view() == old(self).agreements_view(),
            final(self).agreement_events_view() == old(self).agreement_events_view(),
            match rejected_error(*old(self), *msg, *caller_id, caller_role) {
                Some(e) => {
                    &&& r == Err::<(), RemoteError>(e)
                    &&& final(self).proposals_view() == old(self).proposals_view()
                    &&& final(self).events_view() == old(self).events_view()
                    &&& final(self).notifier_view() == old(self).notifier_view()
                    &&& final(self).next_event_view() == old(self).next_event_view()
                },
                None => {
                    let i = visible_index(old(self).proposals_view(), None, msg.proposal_id)->0;
                    let p = old(self).proposals_view()[i];
                    &&& final(self).proposals_view() == old(self).proposals_view().update(
                        i,
                        Proposal { state: ProposalState::Rejected, ..p },
                    )
                    &&& if old(self).next_event_view() < u64::MAX {
                        &&& r is Ok
                        &&& final(self).events_view().len() == old(self).events_view().len() + 1
                        &&& final(self).events_view().drop_last() == old(self).events_view()
                        &&& final(self).events_view().last().subscription_id@
                            == p.negotiation.subscription_id@
                        &&& final(self).events_view().last().owner == caller_role.spec_swap()
                        &&& final(self).events_view().last().payload matches EventPayload::ProposalRejectedEvent(
                            id,
                            reason,
                        ) && id == p.body.id && reason@ == reason_text(msg.reason)
                        &&& notified(
                            old(self).notifier_view(),
                            final(self).notifier_view(),
                            KeyView::Subscription(p.negotiation.subscription_id@),
                        )
                    } else {
                        &&& r == Err::<(), RemoteError>(RemoteError::Internal)
                        &&& final(self).events_view() == old(self).events_view()
                        &&& final(self).notifier_view() == old(self).notifier_view()
                    }
                },
            },
    {
        let p = match self.reject_proposal(None, &msg.proposal_id, caller_id, caller_role) {
            Ok(p) => p,
            Err(e) => {
                return Err(remote_error(e));
            },
        };
        let reason = match &msg.reason {
            Some(s) => s.clone(),
            None => {
                let t = "no reason".to_owned();
                proof {
                    reveal_strlit("no reason");
                }
                assert(t@ =~= no_reason_text());
                t
            },
        };
        let subscription_id = p.negotiation.subscription_id.clone();
        match self.add_event(
            &subscription_id,
            caller_role.swap(),
            EventPayload::ProposalRejectedEvent(p.body.id, reason),
        ) {
            Ok(()) => {},
            Err(_) => {
                return Err(RemoteError::Internal);
            },
        }
        let key = NotifyKey::Subscription(subscription_id);
        self.notifier.notify(&key);
        Ok(())
    }
}

/// Why storing the other side's counter proposal `msg` of `prev` is refused, if it is.
pub open spec fn received_refusal(ps: Seq<Proposal>, prev: Proposal, msg: crate::negotiation::ProposalReceived) -> Option<NegotiationError> {
    if countered(ps, prev.body.id) {
        Some(NegotiationError::AlreadyCountered)
    } else if id_in_use(ps, msg.proposal_id@, prev.body.id.owner) {
        Some(NegotiationError::Internal)
    } else {
        None
    }
}

/// What the other side is told when its counter proposal is refused, if it is: the countered
/// proposal must be held, the caller must pass validation, the pair must match (a mismatch is an
/// internal matter, not detailed to the peer), and storing must be allowed.
pub open spec fn received_error(
    b: CommonBroker,
    msg: crate::negotiation::ProposalReceived,
    caller: NodeId,
    role: Owner,
) -> Option<RemoteError> {
    match visible_index(b.proposals_view(), None, msg.prev_proposal_id) {
        None => Some(RemoteError::NotFound),
        Some(i) => {
            let prev = b.proposals_view()[i];
            match validation(b.subscriptions_view(), prev, caller, role) {
                Some(v) => Some(remote_of(v)),
                None => if !texts_match(
                    msg.properties@,
                    msg.constraints@,
                    prev.body.properties@,
                    prev.body.constraints@,
                ) {
                    Some(RemoteError::Internal)
                } else {
                    match received_refusal(b.proposals_view(), prev, msg) {
                        Some(e) => Some(remote_of(e)),
                        None => None,
                    }
                },
            }
        },
    }
}

/// What the other side is told when its rejection is refused, if it is: the proposal must be
/// held, the caller must pass validation, and the proposal must not be in a final state.
pub open spec fn rejected_error(
    b: CommonBroker,
    msg: crate::negotiation::ProposalRejected,
    caller: NodeId,
    role: Owner,
) -> Option<RemoteError> {
    match visible_index(b.proposals_view(), None, msg.proposal_id) {
        None => Some(RemoteError::NotFound),
        Some(i) => {
            let p = b.proposals_view()[i];
            match validation(b.subscriptions_view(), p, caller, role) {
                Some(v) => Some(remote_of(v)),
                None => if proposal_transition_ok(p.state, ProposalState::Rejected) {
                    None
                } else {
                    Some(RemoteError::InvalidTransition)
                },
            }
        },
    }
}

} // verus!
