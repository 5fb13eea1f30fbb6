use vstd::prelude::*;

verus! {

/// One typed literal: a string, an integer or a boolean.
#[derive(Clone, Debug, PartialEq, Eq)]
pub enum Scalar {
    Str(String),
    Int(i64),
    Bool(bool),
}

/// The model of a [`Scalar`].
pub ghost enum ScalarView {
    Str(Seq<char>),
    Int(int),
    Bool(bool),
}

impl View for Scalar {
    type V = ScalarView;

    open spec fn view(&self) -> ScalarView {
        match self {
            Scalar::Str(s) => ScalarView::Str(s@),
            Scalar::Int(n) => ScalarView::Int(*n as int),
            Scalar::Bool(b) => ScalarView::Bool(*b),
        }
    }
}

/// The value a property was published with.
#[derive(Clone, Debug, PartialEq, Eq)]
pub enum PropertyValue {
    Single(Scalar),
    List(Vec<Scalar>),
    /// Published by name only; its value is not known yet.
    Declared,
}

pub ghost enum ValueView {
    Single(ScalarView),
    List(Seq<ScalarView>),
    Declared,
}

impl View for PropertyValue {
    type V = ValueView;

    open spec fn view(&self) -> ValueView {
        match self {
            PropertyValue::Single(s) => ValueView::Single(s@),
            PropertyValue::List(v) => ValueView::List(v@.map_values(|x: Scalar| x@)),
            PropertyValue::Declared => ValueView::Declared,
        }
    }
}

/// A named piece of metadata attached to a property.
#[derive(Clone, Debug, PartialEq, Eq)]
pub struct Aspect {
    pub name: String,
    pub value: String,
}

/// One attribute of a demand or an offer.
#[derive(Clone, Debug, PartialEq, Eq)]
pub struct Property {
    pub name: String,
    pub value: PropertyValue,
    pub aspects: Vec<Aspect>,
}

pub ghost struct PropertyView {
    pub name: Seq<char>,
    pub value: ValueView,
    pub aspects: Seq<(Seq<char>, Seq<char>)>,
}

impl View for Property {
    type V = PropertyView;

    open spec fn view(&self) -> PropertyView {
        PropertyView {
            name: self.name@,
            value: self.value@,
            aspects: self.aspects@.map_values(|a: Aspect| (a.name@, a.value@)),
        }
    }
}

/// All properties of one side of a negotiation.
#[derive(Clone, Debug, PartialEq, Eq)]
pub struct PropertySet {
    pub properties: Vec<Property>,
}

impl View for PropertySet {
    type V = Seq<PropertyView>;

    open spec fn view(&self) -> Seq<PropertyView> {
        self.properties@.map_values(|p: Property| p@)
    }
}

/// The property called `name`: the first one of that name.
pub open spec fn lookup(ps: Seq<PropertyView>, name: Seq<char>) -> Option<PropertyView>
    decreases ps.len(),
{
    if ps.len() == 0 {
        None
    } else if ps[0].name == name {
        Some(ps[0])
    } else {
        lookup(ps.drop_first(), name)
    }
}

/// The value of the aspect called `name`: the first one of that name.
pub open spec fn aspect_of(aspects: Seq<(Seq<char>, Seq<char>)>, name: Seq<char>) -> Option<
    Seq<char>,
>
    decreases aspects.len(),
{
    if aspects.len() == 0 {
        None
    } else if aspects[0].0 == name {
        Some(aspects[0].1)
    } else {
        aspect_of(aspects.drop_first(), name)
    }
}

proof fn lemma_lookup_step(ps: Seq<PropertyView>, i: int, name: Seq<char>)
    requires
        0 <= i < ps.len(),
        ps[i].name != name,
    ensures
        lookup(ps.subrange(i, ps.len() as int), name) == lookup(
            ps.subrange(i + 1, ps.len() as int),
            name,
        ),
{
    assert(ps.subrange(i, ps.len() as int).drop_first() =~= ps.subrange(i + 1, ps.len() as int));
}

proof fn lemma_aspect_step(a: Seq<(Seq<char>, Seq<char>)>, i: int, name: Seq<char>)
    requires
        0 <= i < a.len(),
        a[i].0 != name,
    ensures
        aspect_of(a.subrange(i, a.len() as int), name) == aspect_of(
            a.subrange(i + 1, a.len() as int),
            name,
        ),
{
    assert(a.subrange(i, a.len() as int).drop_first() =~= a.subrange(i + 1, a.len() as int));
}

impl Property {
    /// The value of the aspect `name` of this property, if it has one.
    pub fn aspect(&self, name: &String) -> (r: Option<&String>)
        ensures
            r matches Some(v) ==> aspect_of(self@.aspects, name@) == Some(v@),
            r is None ==> aspect_of(self@.aspects, name@) is None,
    {
        let ghost a = self@.aspects;
        let mut i: usize = 0;
        assert(a.subrange(0, a.len() as int) =~= a);
        while i < self.aspects.len()
            invariant
                a == self@.aspects,
                a.len() == self.aspects@.len(),
                0 <= i <= a.len(),
                aspect_of(a, name@) == aspect_of(a.subrange(i as int, a.len() as int), name@),
            decreases a.len() - i,
        {
            assert(a[i as int] == (self.aspects@[i as int].name@, self.aspects@[i as int].value@));
            if self.aspects[i].name == *name {
                return Some(&self.aspects[i].value);
            }
            proof {
                lemma_aspect_step(a, i as int, name@);
            }
            i = i + 1;
        }
        None
    }
}

impl PropertySet {
    /// A set with no properties.
    pub fn new() -> (r: PropertySet)
        ensures
            r@ == Seq::<PropertyView>::empty(),
    {
        let r = PropertySet { properties: Vec::new() };
        assert(r@ =~= Seq::<PropertyView>::empty());
        r
    }

    /// The property called `name`, if the set holds one.
    pub fn get(&self, name: &String) -> (r: Option<&Property>)
        ensures
            r matches Some(p) ==> lookup(self@, name@) == Some(p@),
            r is None ==> lookup(self@, name@) is None,
    {
        let ghost ps = self@;
        let mut i: usize = 0;
        assert(ps.subrange(0, ps.len() as int) =~= ps);
        while i < self.properties.len()
            invariant
                ps == self@,
                ps.len() == self.properties@.len(),
                0 <= i <= ps.len(),
                lookup(ps, name@) == lookup(ps.subrange(i as int, ps.len() as int), name@),
            decreases ps.len() - i,
        {
            if self.properties[i].name == *name {
                return Some(&self.properties[i]);
            }
            proof {
                lemma_lookup_step(ps, i as int, name@);
            }
            i = i + 1;
        }
        None
    }
}

proof fn lemma_lookup_first(ps: Seq<PropertyView>, i: int, n: Seq<char>)
    requires
        0 <= i < ps.len(),
        ps[i].name == n,
        forall|j: int| 0 <= j < i ==> ps[j].name != n,
    ensures
        lookup(ps, n) == Some(ps[i]),
    decreases i,
{
    if i > 0 {
        lemma_lookup_first(ps.drop_first(), i - 1, n);
    }
}

proof fn lemma_lookup_none(ps: Seq<PropertyView>, n: Seq<char>)
    requires
        forall|j: int| 0 <= j < ps.len() ==> ps[j].name != n,
    ensures
        lookup(ps, n) is None,
    decreases ps.len(),
{
    if ps.len() > 0 {
        lemma_lookup_none(ps.drop_first(), n);
    }
}

proof fn lemma_lookup_update_other(ps: Seq<PropertyView>, i: int, q: PropertyView, m: Seq<char>)
    requires
        0 <= i < ps.len(),
        ps[i].name == q.name,
        m != q.name,
    ensures
        lookup(ps.update(i, q), m) == lookup(ps, m),
    decreases ps.len(),
{
    if i > 0 {
        lemma_lookup_update_other(ps.drop_first(), i - 1, q, m);
        assert(ps.update(i, q).drop_first() =~= ps.drop_first().update(i - 1, q));
    } else {
        assert(ps.update(i, q).drop_first() =~= ps.drop_first());
    }
}

impl PropertySet {
    /// Attaches aspect `aspect` with `value` to the property called `name`, in front of the
    /// aspects it already has; a set without such a property stays as it is.
    pub fn set_property_aspect(&mut self, name: &str, aspect: &str, value: &str)
        ensures
            forall|n: Seq<char>| n != name@ ==> lookup(final(self)@, n) == lookup(old(self)@, n),
            lookup(final(self)@, name@) == match lookup(old(self)@, name@) {
                None => None,
                Some(p) => Some(
                    PropertyView { aspects: seq![(aspect@, value@)] + p.aspects, ..p },
                ),
            },
    {
        let key = name.to_owned();
        let ghost ps = self@;
        let mut i: usize = 0;
        while i < self.properties.len() && self.properties[i].name != key
            invariant
                ps == self@,
                ps.len() == self.properties@.len(),
                0 <= i <= ps.len(),
                key@ == name@,
                forall|j: int| 0 <= j < i ==> ps[j].name != name@,
            decreases ps.len() - i,
        {
            i = i + 1;
        }
        if i == self.properties.len() {
            proof {
                lemma_lookup_none(ps, name@);
            }
            return;
        }
        proof {
            lemma_lookup_first(ps, i as int, name@);
        }
        let entry = Aspect { name: aspect.to_owned(), value: value.to_owned() };
        let ghost old_aspects = self.properties@[i as int].aspects@;
        self.properties[i].aspects.insert(0, entry);
        let ghost q = self.properties@[i as int]@;
        assert(q.aspects =~= seq![(aspect@, value@)] + ps[i as int].aspects);
        assert(self@ =~= ps.update(i as int, q));
        proof {
            lemma_lookup_first(self@, i as int, name@);
            assert forall|n: Seq<char>| n != name@ implies lookup(self@, n) == lookup(ps, n) by {
                lemma_lookup_update_other(ps, i as int, q, n);
            }
        }
    }
}

} // verus!
