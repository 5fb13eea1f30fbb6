use vstd::prelude::*;

use crate::constraint::{parse_constraints, writes, ParseError};
use crate::expression::{ExprView, Expression, PropertyRef, RefView};
use crate::property::{lookup, PropertySet, PropertyView};
use crate::property_syntax::{parse_properties, property_of, PropertyError};
use crate::resolve::{eval, evaluate, refs_view, ResolveResult, ResolveView};

verus! {

/// A requestor's published requirements: property lines and a constraint over offers.
#[derive(Clone, Debug)]
pub struct Demand {
    pub properties: Vec<String>,
    pub constraints: String,
}

/// A provider's published capabilities: property lines and a constraint over demands.
#[derive(Clone, Debug)]
pub struct Offer {
    pub properties: Vec<String>,
    pub constraints: String,
}

impl Default for Demand {
    fn default() -> (r: Demand)
        ensures
            r.properties@.len() == 0,
            r.constraints@.len() == 0,
    {
        Demand { properties: Vec::new(), constraints: String::new() }
    }
}

impl Default for Offer {
    fn default() -> (r: Offer)
        ensures
            r.properties@.len() == 0,
            r.constraints@.len() == 0,
    {
        Offer { properties: Vec::new(), constraints: String::new() }
    }
}

/// Why a demand or an offer could not be prepared for matching.
#[derive(Clone, Copy, Debug, PartialEq, Eq)]
pub enum PrepareError {
    Property(PropertyError),
    Constraint(ParseError),
}

/// One side, parsed: its properties and its constraint.
#[derive(Debug)]
pub struct Prepared {
    pub properties: PropertySet,
    pub constraints: Expression,
}

/// What a successful preparation of `lines` and `text` gives.
pub open spec fn prepared_from(p: Prepared, lines: Seq<String>, text: Seq<char>) -> bool {
    &&& p.properties@.len() == lines.len()
    &&& forall|i: int|
        0 <= i < lines.len() ==> property_of(#[trigger] lines[i]@) == Some(
            (p.properties@[i].name, p.properties@[i].value),
        ) && p.properties@[i].aspects.len() == 0
    &&& writes(text, p.constraints@)
}

/// Whether `text` writes some constraint.
pub open spec fn writable(text: Seq<char>) -> bool {
    exists|x: ExprView| writes(text, x)
}

pub open spec fn some_line_invalid(lines: Seq<String>) -> bool {
    exists|i: int| 0 <= i < lines.len() && property_of(#[trigger] lines[i]@) is None
}

fn prepare(lines: &Vec<String>, text: &String) -> (r: Result<Prepared, PrepareError>)
    ensures
        match r {
            Ok(p) => prepared_from(p, lines@, text@) && forall|q: Prepared|
                prepared_from(q, lines@, text@) ==> q.properties@ == p.properties@
                    && q.constraints@ == p.constraints@,
            Err(PrepareError::Property(_)) => some_line_invalid(lines@),
            Err(PrepareError::Constraint(_)) => !some_line_invalid(lines@) && !writable(text@),
        },
{
    let properties = match parse_properties(lines) {
        Ok(ps) => ps,
        Err(e) => {
            return Err(PrepareError::Property(e));
        },
    };
    match parse_constraints(text.as_str()) {
        Ok(constraints) => {
            let p = Prepared { properties, constraints };
            assert forall|q: Prepared| prepared_from(q, lines@, text@) implies q.properties@
                == p.properties@ && q.constraints@ == p.constraints@ by {
                assert forall|i: int| 0 <= i < lines@.len() implies q.properties@[i]
                    == p.properties@[i] by {
                    assert(property_of(lines@[i]@) == Some(
                        (q.properties@[i].name, q.properties@[i].value),
                    ));
                    assert(property_of(lines@[i]@) == Some(
                        (p.properties@[i].name, p.properties@[i].value),
                    ));
                    assert(q.properties@[i].aspects.len() == 0);
                    assert(p.properties@[i].aspects.len() == 0);
                    assert(q.properties@[i].aspects =~= p.properties@[i].aspects);
                }
                assert(q.properties@ =~= p.properties@);
            }
            Ok(p)
        },
        Err(e) => {
            assert(!some_line_invalid(lines@)) by {
                if some_line_invalid(lines@) {
                    let i = choose|i: int| 0 <= i < lines@.len() && property_of(#[trigger] lines@[i]@) is None;
                    assert(property_of(lines@[i]@) == Some(
                        (properties@[i].name, properties@[i].value),
                    ));
                }
            }
            Err(PrepareError::Constraint(e))
        },
    }
}

/// A demand ready for matching.
#[derive(Debug)]
pub struct PreparedDemand {
    pub properties: PropertySet,
    pub constraints: Expression,
}

/// An offer ready for matching.
#[derive(Debug)]
pub struct PreparedOffer {
    pub properties: PropertySet,
    pub constraints: Expression,
}

impl PreparedDemand {
    /// Parses the demand's property lines and constraint.
    pub fn from(demand: &Demand) -> (r: Result<PreparedDemand, PrepareError>)
        ensures
            match r {
                Ok(p) => prepared_from(
                    Prepared { properties: p.properties, constraints: p.constraints },
                    demand.properties@,
                    demand.constraints@,
                ),
                Err(PrepareError::Property(_)) => some_line_invalid(demand.properties@),
                Err(PrepareError::Constraint(_)) => !some_line_invalid(demand.properties@)
                    && !writable(demand.constraints@),
            },
    {
        match prepare(&demand.properties, &demand.constraints) {
            Ok(p) => Ok(PreparedDemand { properties: p.properties, constraints: p.constraints }),
            Err(e) => Err(e),
        }
    }
}

impl PreparedOffer {
    /// Parses the offer's property lines and constraint.
    pub fn from(offer: &Offer) -> (r: Result<PreparedOffer, PrepareError>)
        ensures
            match r {
                Ok(p) => prepared_from(
                    Prepared { properties: p.properties, constraints: p.constraints },
                    offer.properties@,
                    offer.constraints@,
                ),
                Err(PrepareError::Property(_)) => some_line_invalid(offer.properties@),
                Err(PrepareError::Constraint(_)) => !some_line_invalid(offer.properties@)
                    && !writable(offer.constraints@),
            },
    {
        match prepare(&offer.properties, &offer.constraints) {
            Ok(p) => Ok(PreparedOffer { properties: p.properties, constraints: p.constraints }),
            Err(e) => Err(e),
        }
    }
}

/// The references among `refs` whose property `ps` does not hold.
pub open spec fn absent_refs(refs: Seq<RefView>, ps: Seq<PropertyView>) -> Seq<RefView>
    decreases refs.len(),
{
    if refs.len() == 0 {
        Seq::empty()
    } else {
        let prev = absent_refs(refs.drop_last(), ps);
        if lookup(ps, refs.last().name) is None {
            prev.push(refs.last())
        } else {
            prev
        }
    }
}

/// The outcome of matching a demand with an offer, both directions together.
#[derive(Debug, PartialEq, Eq)]
pub enum MatchResult {
    True,
    /// For each side, the references of its failed constraint that the other side does not publish.
    False(Vec<PropertyRef>, Vec<PropertyRef>),
    /// For each side, what it could not decide, or nothing and `Empty` when it was decided.
    Undefined((Vec<PropertyRef>, Expression), (Vec<PropertyRef>, Expression)),
}

pub ghost enum MatchResultView {
    True,
    False(Seq<RefView>, Seq<RefView>),
    Undefined((Seq<RefView>, ExprView), (Seq<RefView>, ExprView)),
}

impl View for MatchResult {
    type V = MatchResultView;

    open spec fn view(&self) -> MatchResultView {
        match self {
            MatchResult::True => MatchResultView::True,
            MatchResult::False(d, o) => MatchResultView::False(refs_view(d@), refs_view(o@)),
            MatchResult::Undefined((dr, de), (or, oe)) => MatchResultView::Undefined(
                (refs_view(dr@), de@),
                (refs_view(or@), oe@),
            ),
        }
    }
}

pub open spec fn undecided_part(r: ResolveView) -> (Seq<RefView>, ExprView) {
    match r {
        ResolveView::Undefined(refs, e) => (refs, e),
        _ => (Seq::empty(), ExprView::Empty),
    }
}

pub open spec fn missing_part(r: ResolveView, ps: Seq<PropertyView>) -> Seq<RefView> {
    match r {
        ResolveView::False(refs, _) => absent_refs(refs, ps),
        _ => Seq::empty(),
    }
}

/// Combines the two directions: undecided if either side is, else false if either side is,
/// else true.
pub open spec fn combine_sides(
    d: ResolveView,
    dp: Seq<PropertyView>,
    o: ResolveView,
    op: Seq<PropertyView>,
) -> MatchResultView {
    if d is Undefined || o is Undefined {
        MatchResultView::Undefined(undecided_part(d), undecided_part(o))
    } else if d is False || o is False {
        MatchResultView::False(missing_part(d, op), missing_part(o, dp))
    } else {
        MatchResultView::True
    }
}

/// Matching of a demand (constraint `dc`, properties `dp`) with an offer (`oc`, `op`).
pub open spec fn weak_match(
    dc: ExprView,
    dp: Seq<PropertyView>,
    oc: ExprView,
    op: Seq<PropertyView>,
) -> MatchResultView {
    combine_sides(eval(dc, op), dp, eval(oc, dp), op)
}

fn missing_refs(refs: &Vec<PropertyRef>, ps: &PropertySet) -> (r: Vec<PropertyRef>)
    ensures
        refs_view(r@) == absent_refs(refs_view(refs@), ps@),
{
    let mut out: Vec<PropertyRef> = Vec::new();
    let mut i: usize = 0;
    while i < refs.len()
        invariant
            0 <= i <= refs@.len(),
            refs_view(out@) == absent_refs(refs_view(refs@.subrange(0, i as int)), ps@),
        decreases refs@.len() - i,
    {
        let ghost before = out@;
        let ghost pre = refs@.subrange(0, i as int);
        let ghost next = refs@.subrange(0, i + 1);
        assert(refs_view(next).drop_last() =~= refs_view(pre));
        assert(refs_view(next).last() == refs@[i as int]@);
        if ps.get(refs[i].name()).is_none() {
            out.push(refs[i].duplicate());
            assert(refs_view(out@) =~= refs_view(before).push(refs@[i as int]@));
        }
        i = i + 1;
    }
    assert(refs@.subrange(0, i as int) =~= refs@);
    out
}

fn undecided_of(r: ResolveResult) -> (out: (Vec<PropertyRef>, Expression))
    ensures
        (refs_view(out.0@), out.1@) == undecided_part(r@),
{
    match r {
        ResolveResult::Undefined(refs, e) => (refs, e),
        _ => {
            let v: Vec<PropertyRef> = Vec::new();
            assert(refs_view(v@) =~= Seq::<RefView>::empty());
            (v, Expression::Empty)
        },
    }
}

fn missing_of(r: &ResolveResult, ps: &PropertySet) -> (out: Vec<PropertyRef>)
    ensures
        refs_view(out@) == missing_part(r@, ps@),
{
    match r {
        ResolveResult::False(refs, _) => missing_refs(refs, ps),
        _ => {
            let v: Vec<PropertyRef> = Vec::new();
            assert(refs_view(v@) =~= Seq::<RefView>::empty());
            v
        },
    }
}

/// Matches a demand with an offer: each side's constraint is evaluated against the other's
/// properties.
pub fn match_weak(demand: &PreparedDemand, offer: &PreparedOffer) -> (r: MatchResult)
    ensures
        r@ == weak_match(
            demand.constraints@,
            demand.properties@,
            offer.constraints@,
            offer.properties@,
        ),
{
    let d = evaluate(&demand.constraints, &offer.properties);
    let o = evaluate(&offer.constraints, &demand.properties);
    let d_undefined = matches!(d, ResolveResult::Undefined(_, _));
    let o_undefined = matches!(o, ResolveResult::Undefined(_, _));
    let d_false = matches!(d, ResolveResult::False(_, _));
    let o_false = matches!(o, ResolveResult::False(_, _));
    if d_undefined || o_undefined {
        MatchResult::Undefined(undecided_of(d), undecided_of(o))
    } else if d_false || o_false {
        let dm = missing_of(&d, &offer.properties);
        let om = missing_of(&o, &demand.properties);
        MatchResult::False(dm, om)
    } else {
        MatchResult::True
    }
}

/// Swapping which side is the demand swaps the two halves of the result, and keeps its kind.
pub proof fn lemma_match_symmetric(
    dc: ExprView,
    dp: Seq<PropertyView>,
    oc: ExprView,
    op: Seq<PropertyView>,
)
    ensures
        ({
            let ab = weak_match(dc, dp, oc, op);
            let ba = weak_match(oc, op, dc, dp);
            &&& ab is True <==> ba is True
            &&& ab is False <==> ba is False
            &&& ab is Undefined <==> ba is Undefined
            &&& ab matches MatchResultView::False(x, y) ==> ba == MatchResultView::False(y, x)
            &&& ab matches MatchResultView::Undefined(x, y) ==> ba == MatchResultView::Undefined(
                y,
                x,
            )
        }),
{
}

/// The classification of a demand/offer pair.
#[derive(Debug, PartialEq, Eq)]
pub enum Match {
    Yes,
    /// The constraint of each side that evaluated false, if it did.
    No { demand_mismatch: Option<Expression>, offer_mismatch: Option<Expression> },
    /// The sub-expression of each side that could not be decided, if any.
    Undefined { demand_undefined: Option<Expression>, offer_undefined: Option<Expression> },
}

pub ghost enum MatchView {
    Yes,
    No(Option<ExprView>, Option<ExprView>),
    Undefined(Option<ExprView>, Option<ExprView>),
}

pub open spec fn opt_view(e: Option<Expression>) -> Option<ExprView> {
    match e {
        Some(x) => Some(x@),
        None => None,
    }
}

impl View for Match {
    type V = MatchView;

    open spec fn view(&self) -> MatchView {
        match self {
            Match::Yes => MatchView::Yes,
            Match::No { demand_mismatch, offer_mismatch } => MatchView::No(
                opt_view(*demand_mismatch),
                opt_view(*offer_mismatch),
            ),
            Match::Undefined { demand_undefined, offer_undefined } => MatchView::Undefined(
                opt_view(*demand_undefined),
                opt_view(*offer_undefined),
            ),
        }
    }
}

pub open spec fn cause(r: ResolveView) -> Option<ExprView> {
    match r {
        ResolveView::Undefined(_, e) => Some(e),
        _ => None,
    }
}

/// `Yes` iff both directions are true; else undecided if either side is, else a mismatch naming
/// the constraint of each side that failed.
pub open spec fn classify(dc: ExprView, dp: Seq<PropertyView>, oc: ExprView, op: Seq<PropertyView>) -> MatchView {
    let d = eval(dc, op);
    let o = eval(oc, dp);
    if d is Undefined || o is Undefined {
        MatchView::Undefined(cause(d), cause(o))
    } else if d is False || o is False {
        MatchView::No(
            if d is False {
                Some(dc)
            } else {
                None
            },
            if o is False {
                Some(oc)
            } else {
                None
            },
        )
    } else {
        MatchView::Yes
    }
}

fn cause_of(r: ResolveResult) -> (out: Option<Expression>)
    ensures
        opt_view(out) == cause(r@),
{
    match r {
        ResolveResult::Undefined(_, e) => Some(e),
        _ => None,
    }
}

/// Classifies an already prepared demand and offer.
pub fn match_prepared(demand: &PreparedDemand, offer: &PreparedOffer) -> (m: Match)
    ensures
        m@ == classify(
            demand.constraints@,
            demand.properties@,
            offer.constraints@,
            offer.properties@,
        ),
{
    let d = evaluate(&demand.constraints, &offer.properties);
    let o = evaluate(&offer.constraints, &demand.properties);
    let d_undefined = matches!(d, ResolveResult::Undefined(_, _));
    let o_undefined = matches!(o, ResolveResult::Undefined(_, _));
    let d_false = matches!(d, ResolveResult::False(_, _));
    let o_false = matches!(o, ResolveResult::False(_, _));
    if d_undefined || o_undefined {
        Match::Undefined { demand_undefined: cause_of(d), offer_undefined: cause_of(o) }
    } else if d_false || o_false {
        Match::No {
            demand_mismatch: if d_false {
                Some(demand.constraints.duplicate())
            } else {
                None
            },
            offer_mismatch: if o_false {
                Some(offer.constraints.duplicate())
            } else {
                None
            },
        }
    } else {
        Match::Yes
    }
}

/// Parses both sides and classifies the pair.
pub fn match_demand_offer(
    demand_properties: &Vec<String>,
    demand_constraints: &String,
    offer_properties: &Vec<String>,
    offer_constraints: &String,
) -> (r: Result<Match, PrepareError>)
    ensures
        match r {
            Ok(m) => (exists|d: Prepared, o: Prepared|
                prepared_from(d, demand_properties@, demand_constraints@) && prepared_from(
                    o,
                    offer_properties@,
                    offer_constraints@,
                )) && forall|d: Prepared, o: Prepared|
                prepared_from(d, demand_properties@, demand_constraints@) && prepared_from(
                    o,
                    offer_properties@,
                    offer_constraints@,
                ) ==> m@ == classify(
                    d.constraints@,
                    d.properties@,
                    o.constraints@,
                    o.properties@,
                ),
            Err(PrepareError::Property(_)) => some_line_invalid(demand_properties@)
                || some_line_invalid(offer_properties@),
            Err(PrepareError::Constraint(_)) => !writable(demand_constraints@) || !writable(
                offer_constraints@,
            ),
        },
{
    let d = match prepare(demand_properties, demand_constraints) {
        Ok(d) => d,
        Err(e) => {
            return Err(e);
        },
    };
    let o = match prepare(offer_properties, offer_constraints) {
        Ok(o) => o,
        Err(e) => {
            return Err(e);
        },
    };
    let ghost (dg, og) = (d, o);
    let demand = PreparedDemand { properties: d.properties, constraints: d.constraints };
    let offer = PreparedOffer { properties: o.properties, constraints: o.constraints };
    let m = match_prepared(&demand, &offer);
    assert(prepared_from(dg, demand_properties@, demand_constraints@));
    assert(prepared_from(og, offer_properties@, offer_constraints@));
    Ok(m)
}

/// Swapping which side is the demand swaps the two halves of the classification and keeps its
/// kind.
pub proof fn lemma_classify_symmetric(
    dc: ExprView,
    dp: Seq<PropertyView>,
    oc: ExprView,
    op: Seq<PropertyView>,
)
    ensures
        ({
            let ab = classify(dc, dp, oc, op);
            let ba = classify(oc, op, dc, dp);
            &&& ab is Yes <==> ba is Yes
            &&& ab is No <==> ba is No
            &&& ab is Undefined <==> ba is Undefined
            &&& ab matches MatchView::No(x, y) ==> ba == MatchView::No(y, x)
            &&& ab matches MatchView::Undefined(x, y) ==> ba == MatchView::Undefined(y, x)
        }),
{
}

} // verus!
