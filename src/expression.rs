use vstd::prelude::*;

verus! {

/// How a reference reads its property: by value, or by one of its aspects.
#[derive(Clone, Debug, PartialEq, Eq)]
pub enum PropertyRefType {
    Any,
    Aspect(String),
}

/// A reference to a named property inside a constraint.
#[derive(Clone, Debug, PartialEq, Eq)]
pub enum PropertyRef {
    Value(String, PropertyRefType),
}

pub ghost struct RefView {
    pub name: Seq<char>,
    pub aspect: Option<Seq<char>>,
}

impl View for PropertyRef {
    type V = RefView;

    open spec fn view(&self) -> RefView {
        match self {
            PropertyRef::Value(name, PropertyRefType::Any) => RefView { name: name@, aspect: None },
            PropertyRef::Value(name, PropertyRefType::Aspect(a)) => RefView {
                name: name@,
                aspect: Some(a@),
            },
        }
    }
}

impl PropertyRef {
    /// The name of the referenced property.
    pub fn name(&self) -> (r: &String)
        ensures
            r@ == self@.name,
    {
        match self {
            PropertyRef::Value(name, _) => name,
        }
    }

    /// A copy of this reference.
    pub fn duplicate(&self) -> (r: PropertyRef)
        ensures
            r@ == self@,
    {
        match self {
            PropertyRef::Value(name, PropertyRefType::Any) => PropertyRef::Value(
                name.clone(),
                PropertyRefType::Any,
            ),
            PropertyRef::Value(name, PropertyRefType::Aspect(a)) => PropertyRef::Value(
                name.clone(),
                PropertyRefType::Aspect(a.clone()),
            ),
        }
    }
}

/// A parsed constraint.
#[derive(Debug, PartialEq, Eq)]
pub enum Expression {
    /// No constraint at all.
    Empty,
    /// The property exists (`(name=*)`).
    Present(PropertyRef),
    Equals(PropertyRef, String),
    Less(PropertyRef, String),
    LessEqual(PropertyRef, String),
    Greater(PropertyRef, String),
    GreaterEqual(PropertyRef, String),
    Not(Box<Expression>),
    And(Vec<Expression>),
    Or(Vec<Expression>),
}

pub ghost enum ExprView {
    Empty,
    Present(RefView),
    Equals(RefView, Seq<char>),
    Less(RefView, Seq<char>),
    LessEqual(RefView, Seq<char>),
    Greater(RefView, Seq<char>),
    GreaterEqual(RefView, Seq<char>),
    Not(Box<ExprView>),
    And(Seq<ExprView>),
    Or(Seq<ExprView>),
}

pub open spec fn expr_view(e: Expression) -> ExprView
    decreases e,
{
    match e {
        Expression::Empty => ExprView::Empty,
        Expression::Present(r) => ExprView::Present(r@),
        Expression::Equals(r, v) => ExprView::Equals(r@, v@),
        Expression::Less(r, v) => ExprView::Less(r@, v@),
        Expression::LessEqual(r, v) => ExprView::LessEqual(r@, v@),
        Expression::Greater(r, v) => ExprView::Greater(r@, v@),
        Expression::GreaterEqual(r, v) => ExprView::GreaterEqual(r@, v@),
        Expression::Not(c) => ExprView::Not(Box::new(expr_view(*c))),
        Expression::And(cs) => ExprView::And(exprs_view(cs@)),
        Expression::Or(cs) => ExprView::Or(exprs_view(cs@)),
    }
}

pub open spec fn exprs_view(cs: Seq<Expression>) -> Seq<ExprView>
    decreases cs,
{
    if cs.len() == 0 {
        Seq::empty()
    } else {
        exprs_view(cs.drop_last()).push(expr_view(cs.last()))
    }
}

impl View for Expression {
    type V = ExprView;

    open spec fn view(&self) -> ExprView {
        expr_view(*self)
    }
}

pub proof fn lemma_exprs_view_len(cs: Seq<Expression>)
    ensures
        exprs_view(cs).len() == cs.len(),
    decreases cs.len(),
{
    if cs.len() > 0 {
        lemma_exprs_view_len(cs.drop_last());
    }
}

pub proof fn lemma_exprs_view_prefix(cs: Seq<Expression>, i: int)
    requires
        0 <= i < cs.len(),
    ensures
        exprs_view(cs.subrange(0, i + 1)) == exprs_view(cs.subrange(0, i)).push(expr_view(cs[i])),
{
    assert(cs.subrange(0, i + 1).drop_last() =~= cs.subrange(0, i));
}

impl Expression {
    /// A copy of this expression.
    pub fn duplicate(&self) -> (r: Expression)
        ensures
            r@ == self@,
        decreases self,
    {
        match self {
            Expression::Empty => Expression::Empty,
            Expression::Present(r) => Expression::Present(r.duplicate()),
            Expression::Equals(r, v) => Expression::Equals(r.duplicate(), v.clone()),
            Expression::Less(r, v) => Expression::Less(r.duplicate(), v.clone()),
            Expression::LessEqual(r, v) => Expression::LessEqual(r.duplicate(), v.clone()),
            Expression::Greater(r, v) => Expression::Greater(r.duplicate(), v.clone()),
            Expression::GreaterEqual(r, v) => Expression::GreaterEqual(r.duplicate(), v.clone()),
            Expression::Not(c) => Expression::Not(Box::new((**c).duplicate())),
            Expression::And(cs) => Expression::And(duplicate_all(cs)),
            Expression::Or(cs) => Expression::Or(duplicate_all(cs)),
        }
    }
}

fn duplicate_all(cs: &Vec<Expression>) -> (r: Vec<Expression>)
    ensures
        exprs_view(r@) == exprs_view(cs@),
    decreases cs,
{
    let mut out: Vec<Expression> = Vec::new();
    let mut i: usize = 0;
    while i < cs.len()
        invariant
            0 <= i <= cs@.len(),
            out@.len() == i,
            exprs_view(out@) == exprs_view(cs@.subrange(0, i as int)),
        decreases cs@.len() - i,
    {
        let c = cs[i].duplicate();
        proof {
            lemma_exprs_view_prefix(cs@, i as int);
        }
        let ghost before = out@;
        out.push(c);
        assert(out@.drop_last() =~= before);
        assert(exprs_view(out@) == exprs_view(before).push(expr_view(out@.last())));
        i = i + 1;
    }
    assert(cs@.subrange(0, i as int) =~= cs@);
    out
}

} // verus!
