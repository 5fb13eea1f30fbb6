use vstd::prelude::*;
use vstd::string::*;

use crate::expression::{exprs_view, lemma_exprs_view_len, ExprView, Expression, PropertyRef, RefView};
use crate::property::{aspect_of, lookup, PropertySet, PropertyValue, PropertyView, Scalar, ScalarView, ValueView};
use crate::text::{i64_of, numeral_value, parse_i64_range, range_is};

verus! {

/// The outcome of evaluating a constraint against the other side's properties.
#[derive(Debug, PartialEq, Eq)]
pub enum ResolveResult {
    True,
    /// The references and values that were not satisfied.
    False(Vec<PropertyRef>, Vec<String>),
    /// The references that could not be decided, and the expression that held them.
    Undefined(Vec<PropertyRef>, Expression),
}

pub ghost enum ResolveView {
    True,
    False(Seq<RefView>, Seq<Seq<char>>),
    Undefined(Seq<RefView>, ExprView),
}

pub open spec fn refs_view(v: Seq<PropertyRef>) -> Seq<RefView> {
    v.map_values(|r: PropertyRef| r@)
}

pub open spec fn strings_view(v: Seq<String>) -> Seq<Seq<char>> {
    v.map_values(|s: String| s@)
}

impl View for ResolveResult {
    type V = ResolveView;

    open spec fn view(&self) -> ResolveView {
        match self {
            ResolveResult::True => ResolveView::True,
            ResolveResult::False(refs, vals) => ResolveView::False(
                refs_view(refs@),
                strings_view(vals@),
            ),
            ResolveResult::Undefined(refs, e) => ResolveView::Undefined(refs_view(refs@), e@),
        }
    }
}

pub open spec fn true_text() -> Seq<char> {
    seq!['t', 'r', 'u', 'e']
}

pub open spec fn false_text() -> Seq<char> {
    seq!['f', 'a', 'l', 's', 'e']
}

/// Whether a published literal equals the constraint's value text.
pub open spec fn scalar_equals(s: ScalarView, t: Seq<char>) -> bool {
    match s {
        ScalarView::Str(x) => x == t,
        ScalarView::Int(n) => numeral_value(t) == Some(n),
        ScalarView::Bool(b) => if b {
            t == true_text()
        } else {
            t == false_text()
        },
    }
}

pub open spec fn list_has(xs: Seq<ScalarView>, t: Seq<char>) -> bool {
    exists|i: int| 0 <= i < xs.len() && scalar_equals(#[trigger] xs[i], t)
}

/// Equality for a single value, membership for a list.
pub open spec fn value_equals(v: ValueView, t: Seq<char>) -> bool {
    match v {
        ValueView::Single(s) => scalar_equals(s, t),
        ValueView::List(xs) => list_has(xs, t),
        ValueView::Declared => false,
    }
}

pub ghost enum Order {
    Less,
    LessEqual,
    Greater,
    GreaterEqual,
}

pub open spec fn order_holds(o: Order, a: int, b: int) -> bool {
    match o {
        Order::Less => a < b,
        Order::LessEqual => a <= b,
        Order::Greater => a > b,
        Order::GreaterEqual => a >= b,
    }
}

pub open spec fn eval_present(r: RefView, e: ExprView, ps: Seq<PropertyView>) -> ResolveView {
    match lookup(ps, r.name) {
        None => ResolveView::False(seq![r], seq![]),
        Some(p) => match r.aspect {
            None => ResolveView::True,
            Some(a) => if aspect_of(p.aspects, a) is Some {
                ResolveView::True
            } else {
                ResolveView::Undefined(seq![r], e)
            },
        },
    }
}

pub open spec fn eval_equals(r: RefView, t: Seq<char>, e: ExprView, ps: Seq<PropertyView>) -> ResolveView {
    match lookup(ps, r.name) {
        None => ResolveView::Undefined(seq![r], e),
        Some(p) => match r.aspect {
            None => if value_equals(p.value, t) {
                ResolveView::True
            } else {
                ResolveView::False(seq![r], seq![t])
            },
            Some(a) => match aspect_of(p.aspects, a) {
                None => ResolveView::Undefined(seq![r], e),
                Some(x) => if x == t {
                    ResolveView::True
                } else {
                    ResolveView::False(seq![r], seq![t])
                },
            },
        },
    }
}

/// An ordering test: decided only between an integer property and an integer literal.
pub open spec fn eval_order(o: Order, r: RefView, t: Seq<char>, e: ExprView, ps: Seq<PropertyView>) -> ResolveView {
    match (lookup(ps, r.name), i64_of(t)) {
        (Some(p), Some(m)) => match (r.aspect, p.value) {
            (None, ValueView::Single(ScalarView::Int(n))) => if order_holds(o, n, m as int) {
                ResolveView::True
            } else {
                ResolveView::False(seq![r], seq![t])
            },
            _ => ResolveView::Undefined(seq![r], e),
        },
        _ => ResolveView::Undefined(seq![r], e),
    }
}

/// Ternary negation: `Undefined` stays `Undefined`.
pub open spec fn negate(v: ResolveView) -> ResolveView {
    match v {
        ResolveView::True => ResolveView::False(seq![], seq![]),
        ResolveView::False(_, _) => ResolveView::True,
        ResolveView::Undefined(_, _) => v,
    }
}

/// Adds one more conjunct: failures accumulate, else the first undecided one stays.
pub open spec fn and_step(a: ResolveView, b: ResolveView) -> ResolveView {
    match (a, b) {
        (ResolveView::False(r1, v1), ResolveView::False(r2, v2)) => ResolveView::False(r1 + r2, v1 + v2),
        (ResolveView::False(_, _), _) => a,
        (_, ResolveView::False(_, _)) => b,
        (ResolveView::Undefined(_, _), _) => a,
        (_, ResolveView::Undefined(_, _)) => b,
        _ => ResolveView::True,
    }
}

/// Adds one more disjunct: any truth wins, else the first undecided one, else failures accumulate.
pub open spec fn or_step(a: ResolveView, b: ResolveView) -> ResolveView {
    match (a, b) {
        (ResolveView::True, _) => a,
        (_, ResolveView::True) => b,
        (ResolveView::Undefined(_, _), _) => a,
        (_, ResolveView::Undefined(_, _)) => b,
        (ResolveView::False(r1, v1), ResolveView::False(r2, v2)) => ResolveView::False(r1 + r2, v1 + v2),
    }
}

/// The value of a constraint over a set of properties, in three-valued logic.
pub open spec fn eval(e: ExprView, ps: Seq<PropertyView>) -> ResolveView
    decreases e,
{
    match e {
        ExprView::Empty => ResolveView::True,
        ExprView::Present(r) => eval_present(r, e, ps),
        ExprView::Equals(r, t) => eval_equals(r, t, e, ps),
        ExprView::Less(r, t) => eval_order(Order::Less, r, t, e, ps),
        ExprView::LessEqual(r, t) => eval_order(Order::LessEqual, r, t, e, ps),
        ExprView::Greater(r, t) => eval_order(Order::Greater, r, t, e, ps),
        ExprView::GreaterEqual(r, t) => eval_order(Order::GreaterEqual, r, t, e, ps),
        ExprView::Not(c) => negate(eval(*c, ps)),
        ExprView::And(cs) => eval_and(cs, ps),
        ExprView::Or(cs) => eval_or(cs, ps),
    }
}

pub open spec fn eval_and(cs: Seq<ExprView>, ps: Seq<PropertyView>) -> ResolveView
    decreases cs,
{
    if cs.len() == 0 {
        ResolveView::True
    } else {
        and_step(eval_and(cs.drop_last(), ps), eval(cs.last(), ps))
    }
}

pub open spec fn eval_or(cs: Seq<ExprView>, ps: Seq<PropertyView>) -> ResolveView
    decreases cs,
{
    if cs.len() == 0 {
        ResolveView::False(seq![], seq![])
    } else {
        or_step(eval_or(cs.drop_last(), ps), eval(cs.last(), ps))
    }
}

fn text_int(t: &String) -> (r: Option<i64>)
    ensures
        r == i64_of(t@),
{
    let s = t.as_str();
    let n = s.unicode_len();
    assert(s@.subrange(0, n as int) =~= t@);
    parse_i64_range(s, 0, n)
}

fn text_is(t: &String, lit: &str) -> (r: bool)
    ensures
        r == (t@ == lit@),
{
    let s = t.as_str();
    let n = s.unicode_len();
    assert(s@.subrange(0, n as int) =~= t@);
    range_is(s, 0, n, lit)
}

fn scalar_matches(s: &Scalar, t: &String) -> (r: bool)
    ensures
        r == scalar_equals(s@, t@),
{
    match s {
        Scalar::Str(x) => *x == *t,
        Scalar::Int(n) => {
            match text_int(t) {
                Some(m) => m == *n,
                None => false,
            }
        },
        Scalar::Bool(b) => {
            proof {
                reveal_strlit("true");
                reveal_strlit("false");
            }
            if *b {
                let r = text_is(t, "true");
                assert("true"@ =~= true_text());
                r
            } else {
                let r = text_is(t, "false");
                assert("false"@ =~= false_text());
                r
            }
        },
    }
}

fn value_matches(v: &PropertyValue, t: &String) -> (r: bool)
    ensures
        r == value_equals(v@, t@),
{
    match v {
        PropertyValue::Single(s) => scalar_matches(s, t),
        PropertyValue::List(xs) => {
            let ghost model = match v@ {
                ValueView::List(m) => m,
                _ => Seq::empty(),
            };
            assert(model.len() == xs@.len());
            assert(forall|j: int| 0 <= j < xs@.len() ==> #[trigger] model[j] == xs@[j]@);
            let mut i: usize = 0;
            while i < xs.len()
                invariant
                    0 <= i <= xs@.len(),
                    v@ == ValueView::List(model),
                    model.len() == xs@.len(),
                    forall|j: int| 0 <= j < xs@.len() ==> #[trigger] model[j] == xs@[j]@,
                    forall|j: int| 0 <= j < i ==> !scalar_equals(#[trigger] model[j], t@),
                decreases xs@.len() - i,
            {
                if scalar_matches(&xs[i], t) {
                    assert(model[i as int] == xs@[i as int]@);
                    assert(0 <= i < model.len() && scalar_equals(model[i as int], t@));
                    return true;
                }
                i = i + 1;
            }
            false
        },
        PropertyValue::Declared => false,
    }
}

fn one_ref(r: &PropertyRef) -> (v: Vec<PropertyRef>)
    ensures
        refs_view(v@) == seq![r@],
{
    let mut v: Vec<PropertyRef> = Vec::new();
    v.push(r.duplicate());
    assert(refs_view(v@) =~= seq![r@]);
    v
}

fn failed(r: &PropertyRef, t: &String) -> (out: ResolveResult)
    ensures
        out@ == ResolveView::False(seq![r@], seq![t@]),
{
    let mut vals: Vec<String> = Vec::new();
    vals.push(t.clone());
    assert(strings_view(vals@) =~= seq![t@]);
    ResolveResult::False(one_ref(r), vals)
}

fn undecided(r: &PropertyRef, e: &Expression) -> (out: ResolveResult)
    ensures
        out@ == ResolveView::Undefined(seq![r@], e@),
{
    ResolveResult::Undefined(one_ref(r), e.duplicate())
}

fn resolve_present(r: &PropertyRef, e: &Expression, ps: &PropertySet) -> (out: ResolveResult)
    requires
        e@ == ExprView::Present(r@),
    ensures
        out@ == eval(e@, ps@),
{
    match ps.get(r.name()) {
        None => {
            let v: Vec<String> = Vec::new();
            assert(strings_view(v@) =~= seq![]);
            ResolveResult::False(one_ref(r), v)
        },
        Some(p) => match r {
            PropertyRef::Value(_, crate::expression::PropertyRefType::Any) => ResolveResult::True,
            PropertyRef::Value(_, crate::expression::PropertyRefType::Aspect(a)) => {
                match p.aspect(a) {
                    Some(_) => ResolveResult::True,
                    None => undecided(r, e),
                }
            },
        },
    }
}

fn resolve_equals(r: &PropertyRef, t: &String, e: &Expression, ps: &PropertySet) -> (out: ResolveResult)
    requires
        e@ == ExprView::Equals(r@, t@),
    ensures
        out@ == eval(e@, ps@),
{
    match ps.get(r.name()) {
        None => undecided(r, e),
        Some(p) => match r {
            PropertyRef::Value(_, crate::expression::PropertyRefType::Any) => {
                if value_matches(&p.value, t) {
                    ResolveResult::True
                } else {
                    failed(r, t)
                }
            },
            PropertyRef::Value(_, crate::expression::PropertyRefType::Aspect(a)) => {
                match p.aspect(a) {
                    None => undecided(r, e),
                    Some(x) => if *x == *t {
                        ResolveResult::True
                    } else {
                        failed(r, t)
                    },
                }
            },
        },
    }
}

fn resolve_order(o: Ghost<Order>, r: &PropertyRef, t: &String, e: &Expression, ps: &PropertySet) -> (out: ResolveResult)
    requires
        e@ == (match o@ {
            Order::Less => ExprView::Less(r@, t@),
            Order::LessEqual => ExprView::LessEqual(r@, t@),
            Order::Greater => ExprView::Greater(r@, t@),
            Order::GreaterEqual => ExprView::GreaterEqual(r@, t@),
        }),
    ensures
        out@ == eval(e@, ps@),
{
    let found = ps.get(r.name());
    let bound = text_int(t);
    match (found, bound) {
        (Some(p), Some(m)) => match (r, &p.value) {
            (
                PropertyRef::Value(_, crate::expression::PropertyRefType::Any),
                PropertyValue::Single(Scalar::Int(n)),
            ) => {
                let holds = match e {
                    Expression::Less(_, _) => *n < m,
                    Expression::LessEqual(_, _) => *n <= m,
                    Expression::Greater(_, _) => *n > m,
                    _ => *n >= m,
                };
                if holds {
                    ResolveResult::True
                } else {
                    failed(r, t)
                }
            },
            _ => undecided(r, e),
        },
        _ => undecided(r, e),
    }
}

/// Evaluates `e` against the other side's properties.
pub fn evaluate(e: &Expression, ps: &PropertySet) -> (out: ResolveResult)
    ensures
        out@ == eval(e@, ps@),
    decreases e,
{
    match e {
        Expression::Empty => ResolveResult::True,
        Expression::Present(r) => resolve_present(r, e, ps),
        Expression::Equals(r, t) => resolve_equals(r, t, e, ps),
        Expression::Less(r, t) => resolve_order(Ghost(Order::Less), r, t, e, ps),
        Expression::LessEqual(r, t) => resolve_order(Ghost(Order::LessEqual), r, t, e, ps),
        Expression::Greater(r, t) => resolve_order(Ghost(Order::Greater), r, t, e, ps),
        Expression::GreaterEqual(r, t) => resolve_order(Ghost(Order::GreaterEqual), r, t, e, ps),
        Expression::Not(c) => {
            let inner = evaluate(&**c, ps);
            match inner {
                ResolveResult::True => {
                    let refs: Vec<PropertyRef> = Vec::new();
                    let vals: Vec<String> = Vec::new();
                    assert(refs_view(refs@) =~= seq![]);
                    assert(strings_view(vals@) =~= seq![]);
                    ResolveResult::False(refs, vals)
                },
                ResolveResult::False(_, _) => ResolveResult::True,
                ResolveResult::Undefined(refs, x) => ResolveResult::Undefined(refs, x),
            }
        },
        Expression::And(cs) => fold_children(cs, ps, true),
        Expression::Or(cs) => fold_children(cs, ps, false),
    }
}

fn combine(a: ResolveResult, b: ResolveResult, conj: bool) -> (out: ResolveResult)
    ensures
        out@ == (if conj {
            and_step(a@, b@)
        } else {
            or_step(a@, b@)
        }),
{
    match (a, b) {
        (ResolveResult::False(mut r1, mut v1), ResolveResult::False(mut r2, mut v2)) => {
            let ghost (a1, b1, a2, b2) = (r1@, v1@, r2@, v2@);
            r1.append(&mut r2);
            v1.append(&mut v2);
            assert(refs_view(r1@) =~= refs_view(a1) + refs_view(a2));
            assert(strings_view(v1@) =~= strings_view(b1) + strings_view(b2));
            ResolveResult::False(r1, v1)
        },
        (a, b) => {
            if conj {
                match (a, b) {
                    (ResolveResult::False(r, v), _) => ResolveResult::False(r, v),
                    (_, ResolveResult::False(r, v)) => ResolveResult::False(r, v),
                    (ResolveResult::Undefined(r, x), _) => ResolveResult::Undefined(r, x),
                    (_, ResolveResult::Undefined(r, x)) => ResolveResult::Undefined(r, x),
                    _ => ResolveResult::True,
                }
            } else {
                match (a, b) {
                    (ResolveResult::True, _) => ResolveResult::True,
                    (_, ResolveResult::True) => ResolveResult::True,
                    (ResolveResult::Undefined(r, x), _) => ResolveResult::Undefined(r, x),
                    (_, ResolveResult::Undefined(r, x)) => ResolveResult::Undefined(r, x),
                    (a, _) => a,
                }
            }
        },
    }
}

fn fold_children(cs: &Vec<Expression>, ps: &PropertySet, conj: bool) -> (out: ResolveResult)
    ensures
        out@ == (if conj {
            eval_and(exprs_view(cs@), ps@)
        } else {
            eval_or(exprs_view(cs@), ps@)
        }),
    decreases cs,
{
    let ghost model = exprs_view(cs@);
    proof {
        lemma_exprs_view_len(cs@);
    }
    let mut acc = if conj {
        ResolveResult::True
    } else {
        let refs: Vec<PropertyRef> = Vec::new();
        let vals: Vec<String> = Vec::new();
        assert(refs_view(refs@) =~= seq![]);
        assert(strings_view(vals@) =~= seq![]);
        ResolveResult::False(refs, vals)
    };
    let mut i: usize = 0;
    while i < cs.len()
        invariant
            0 <= i <= cs@.len(),
            model == exprs_view(cs@),
            model.len() == cs@.len(),
            acc@ == (if conj {
                eval_and(model.subrange(0, i as int), ps@)
            } else {
                eval_or(model.subrange(0, i as int), ps@)
            }),
        decreases cs@.len() - i,
    {
        let next = evaluate(&cs[i], ps);
        proof {
            lemma_exprs_view_prefix_of(cs@, i as int);
            assert(model.subrange(0, i + 1).drop_last() =~= model.subrange(0, i as int));
        }
        acc = combine(acc, next, conj);
        i = i + 1;
    }
    assert(model.subrange(0, i as int) =~= model);
    acc
}

proof fn lemma_exprs_view_prefix_of(cs: Seq<Expression>, i: int)
    requires
        0 <= i < cs.len(),
    ensures
        exprs_view(cs)[i] == cs[i]@,
    decreases cs.len(),
{
    lemma_exprs_view_len(cs);
    if i < cs.len() - 1 {
        lemma_exprs_view_len(cs.drop_last());
        lemma_exprs_view_prefix_of(cs.drop_last(), i);
    }
}

/// Whether `r` names a property of `ps`, and, for an aspect reference, one of its aspects.
pub open spec fn ref_resolves(r: RefView, ps: Seq<PropertyView>) -> bool {
    match lookup(ps, r.name) {
        None => false,
        Some(p) => match r.aspect {
            None => true,
            Some(a) => aspect_of(p.aspects, a) is Some,
        },
    }
}

/// Whether an ordering test compares an integer property with an integer literal.
pub open spec fn order_resolves(r: RefView, t: Seq<char>, ps: Seq<PropertyView>) -> bool {
    &&& r.aspect is None
    &&& i64_of(t) is Some
    &&& lookup(ps, r.name) matches Some(p) && p.value matches ValueView::Single(ScalarView::Int(_))
}

/// Whether every reference in `e` resolves in `ps`, with integers on both sides of each ordering test.
pub open spec fn all_resolve(e: ExprView, ps: Seq<PropertyView>) -> bool
    decreases e,
{
    match e {
        ExprView::Empty => true,
        ExprView::Present(r) => ref_resolves(r, ps),
        ExprView::Equals(r, _) => ref_resolves(r, ps),
        ExprView::Less(r, t) => order_resolves(r, t, ps),
        ExprView::LessEqual(r, t) => order_resolves(r, t, ps),
        ExprView::Greater(r, t) => order_resolves(r, t, ps),
        ExprView::GreaterEqual(r, t) => order_resolves(r, t, ps),
        ExprView::Not(c) => all_resolve(*c, ps),
        ExprView::And(cs) => all_resolve_each(cs, ps),
        ExprView::Or(cs) => all_resolve_each(cs, ps),
    }
}

pub open spec fn all_resolve_each(cs: Seq<ExprView>, ps: Seq<PropertyView>) -> bool
    decreases cs,
{
    if cs.len() == 0 {
        true
    } else {
        all_resolve_each(cs.drop_last(), ps) && all_resolve(cs.last(), ps)
    }
}

/// When every reference of a constraint resolves, its value is decided: never `Undefined`.
pub proof fn lemma_resolved_is_decided(e: ExprView, ps: Seq<PropertyView>)
    requires
        all_resolve(e, ps),
    ensures
        !(eval(e, ps) is Undefined),
    decreases e,
{
    match e {
        ExprView::Not(c) => {
            lemma_resolved_is_decided(*c, ps);
        },
        ExprView::And(cs) => {
            lemma_resolved_children_decided(cs, ps);
        },
        ExprView::Or(cs) => {
            lemma_resolved_children_decided(cs, ps);
        },
        _ => {},
    }
}

proof fn lemma_resolved_children_decided(cs: Seq<ExprView>, ps: Seq<PropertyView>)
    requires
        all_resolve_each(cs, ps),
    ensures
        !(eval_and(cs, ps) is Undefined),
        !(eval_or(cs, ps) is Undefined),
    decreases cs,
{
    if cs.len() > 0 {
        lemma_resolved_children_decided(cs.drop_last(), ps);
        lemma_resolved_is_decided(cs.last(), ps);
    }
}

/// Negating twice keeps whether a constraint is true, false or undecided, and keeps a true or
/// undecided result exactly.
pub proof fn lemma_double_negation(e: ExprView, ps: Seq<PropertyView>)
    ensures
        ({
            let twice = eval(ExprView::Not(Box::new(ExprView::Not(Box::new(e)))), ps);
            let once = eval(e, ps);
            &&& (twice is True <==> once is True)
            &&& (twice is False <==> once is False)
            &&& (twice is Undefined <==> once is Undefined)
            &&& (!(once is False) ==> twice == once)
        }),
{
    assert(eval(ExprView::Not(Box::new(e)), ps) == negate(eval(e, ps)));
}

/// A comparison with a property that the other side does not publish is undecided, not false.
pub proof fn lemma_absent_is_undefined(r: RefView, t: Seq<char>, ps: Seq<PropertyView>)
    requires
        lookup(ps, r.name) is None,
    ensures
        eval(ExprView::Equals(r, t), ps) is Undefined,
        eval(ExprView::Less(r, t), ps) is Undefined,
        eval(ExprView::LessEqual(r, t), ps) is Undefined,
        eval(ExprView::Greater(r, t), ps) is Undefined,
        eval(ExprView::GreaterEqual(r, t), ps) is Undefined,
{
}

/// An existence test on a property's value holds whenever the property is published, whatever
/// its value.
pub proof fn lemma_wildcard_matches(name: Seq<char>, ps: Seq<PropertyView>)
    requires
        lookup(ps, name) is Some,
    ensures
        eval(ExprView::Present(RefView { name, aspect: None }), ps) == ResolveView::True,
{
}

} // verus!
