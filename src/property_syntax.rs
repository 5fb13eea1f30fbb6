use vstd::prelude::*;
use vstd::string::*;

use crate::constraint::is_name_char;
use crate::property::{Property, PropertySet, PropertyValue, PropertyView, Scalar, ScalarView, ValueView};
use crate::resolve::{false_text, true_text};
use crate::text::{i64_of, parse_i64_range, range_is};

verus! {

/// A property line that could not be read, and why.
#[derive(Clone, Copy, Debug, PartialEq, Eq)]
pub enum PropertyError {
    EmptyName,
    InvalidName,
    InvalidValue,
}

/// The literal that `t` writes: a quoted string without inner quotes, `true`, `false`, or an integer.
pub open spec fn scalar_of(t: Seq<char>) -> Option<ScalarView> {
    if t.len() >= 2 && t[0] == '"' && t.last() == '"' && !t.subrange(1, t.len() - 1).contains('"') {
        Some(ScalarView::Str(t.subrange(1, t.len() - 1)))
    } else if t == true_text() {
        Some(ScalarView::Bool(true))
    } else if t == false_text() {
        Some(ScalarView::Bool(false))
    } else {
        match i64_of(t) {
            Some(n) => Some(ScalarView::Int(n as int)),
            None => None,
        }
    }
}

/// The pieces of `s` between commas, read from the left.
pub open spec fn comma_items(s: Seq<char>) -> Seq<Seq<char>>
    decreases s.len(),
{
    if s.len() == 0 {
        seq![Seq::empty()]
    } else {
        let prev = comma_items(s.drop_last());
        if s.last() == ',' {
            prev.push(Seq::empty())
        } else {
            prev.update(prev.len() - 1, prev.last().push(s.last()))
        }
    }
}

/// The literals of a list body: nothing, or literals separated by commas.
pub open spec fn list_of(s: Seq<char>) -> Option<Seq<ScalarView>> {
    let items = comma_items(s);
    if s.len() == 0 {
        Some(Seq::empty())
    } else if forall|i: int| 0 <= i < items.len() ==> (#[trigger] scalar_of(items[i])) is Some {
        Some(items.map_values(|x: Seq<char>| scalar_of(x)->0))
    } else {
        None
    }
}

/// The value that `t` writes: a list in brackets, or one literal.
pub open spec fn value_of(t: Seq<char>) -> Option<ValueView> {
    if t.len() >= 2 && t[0] == '[' && t.last() == ']' {
        match list_of(t.subrange(1, t.len() - 1)) {
            Some(xs) => Some(ValueView::List(xs)),
            None => None,
        }
    } else {
        match scalar_of(t) {
            Some(x) => Some(ValueView::Single(x)),
            None => None,
        }
    }
}

/// The position of the first `=` in `s`.
pub open spec fn first_eq(s: Seq<char>) -> Option<int>
    decreases s.len(),
{
    if s.len() == 0 {
        None
    } else {
        match first_eq(s.drop_last()) {
            Some(k) => Some(k),
            None => if s.last() == '=' {
                Some(s.len() - 1)
            } else {
                None
            },
        }
    }
}

pub open spec fn property_name_ok(n: Seq<char>) -> bool {
    n.len() > 0 && forall|i: int| 0 <= i < n.len() ==> is_name_char(#[trigger] n[i])
}

/// The name and value that a property line writes: `name` alone declares a property with no
/// value yet; `name=value` gives it one.
pub open spec fn property_of(line: Seq<char>) -> Option<(Seq<char>, ValueView)> {
    match first_eq(line) {
        None => if property_name_ok(line) {
            Some((line, ValueView::Declared))
        } else {
            None
        },
        Some(k) => {
            let name = line.subrange(0, k);
            match value_of(line.subrange(k + 1, line.len() as int)) {
                Some(v) => if property_name_ok(name) {
                    Some((name, v))
                } else {
                    None
                },
                None => None,
            }
        },
    }
}

proof fn lemma_first_eq(s: Seq<char>, k: int)
    requires
        0 <= k <= s.len(),
        forall|i: int| 0 <= i < k ==> s[i] != '=',
    ensures
        k < s.len() && s[k] == '=' ==> first_eq(s) == Some(k),
        k == s.len() ==> first_eq(s) is None,
    decreases s.len(),
{
    if s.len() > 0 {
        let t = s.drop_last();
        let k2 = if k < t.len() {
            k
        } else {
            t.len() as int
        };
        lemma_first_eq(t, k2);
    }
}

proof fn lemma_items_keep(s: Seq<char>, k: int)
    requires
        0 <= k <= s.len(),
    ensures
        comma_items(s).len() >= comma_items(s.subrange(0, k)).len(),
        comma_items(s.subrange(0, k)).len() >= 1,
        forall|j: int|
            0 <= j < comma_items(s.subrange(0, k)).len() - 1 ==> #[trigger] comma_items(s)[j]
                == comma_items(s.subrange(0, k))[j],
    decreases s.len(),
{
    if k == s.len() {
        assert(s.subrange(0, k) =~= s);
    } else {
        lemma_items_keep(s.drop_last(), k);
        assert(s.drop_last().subrange(0, k) =~= s.subrange(0, k));
    }
    lemma_items_nonempty(s.subrange(0, k));
    lemma_items_nonempty(s);
}

proof fn lemma_items_nonempty(s: Seq<char>)
    ensures
        comma_items(s).len() >= 1,
    decreases s.len(),
{
    if s.len() > 0 {
        lemma_items_nonempty(s.drop_last());
    }
}

proof fn lemma_not_numeral(t: Seq<char>)
    requires
        t.len() > 0,
        t[0] == '"' || t[0] == '[',
    ensures
        i64_of(t) is None,
{
    assert(!crate::text::is_digit(t[0]));
}

fn has_quote(s: &str, from: usize, to: usize) -> (r: bool)
    requires
        from <= to <= s@.len(),
    ensures
        r == s@.subrange(from as int, to as int).contains('"'),
{
    let mut i = from;
    while i < to
        invariant
            from <= i <= to <= s@.len(),
            forall|j: int| from <= j < i ==> s@[j] != '"',
        decreases to - i,
    {
        if s.get_char(i) == '"' {
            assert(s@.subrange(from as int, to as int)[i - from] == '"');
            return true;
        }
        i = i + 1;
    }
    assert forall|j: int| 0 <= j < to - from implies s@.subrange(from as int, to as int)[j] != '"' by {
        assert(s@.subrange(from as int, to as int)[j] == s@[from + j]);
    }
    false
}

/// Reads the literal `s[from..to]`.
fn parse_scalar(s: &str, from: usize, to: usize) -> (r: Option<Scalar>)
    requires
        from <= to <= s@.len(),
    ensures
        match r {
            Some(x) => scalar_of(s@.subrange(from as int, to as int)) == Some(x@),
            None => scalar_of(s@.subrange(from as int, to as int)) is None,
        },
{
    let ghost t = s@.subrange(from as int, to as int);
    proof {
        reveal_strlit("true");
        reveal_strlit("false");
    }
    if to - from >= 2 && s.get_char(from) == '"' && s.get_char(to - 1) == '"' {
        assert(t[0] == '"' && t.last() == '"');
        assert(t.subrange(1, t.len() - 1) =~= s@.subrange(from + 1, to - 1));
        if has_quote(s, from + 1, to - 1) {
            assert(t != true_text());
            assert(t != false_text());
            proof {
                lemma_not_numeral(t);
            }
            return None;
        }
        let body = s.substring_char(from + 1, to - 1).to_owned();
        return Some(Scalar::Str(body));
    }
    if range_is(s, from, to, "true") {
        assert("true"@ =~= true_text());
        return Some(Scalar::Bool(true));
    }
    assert("true"@ =~= true_text());
    if range_is(s, from, to, "false") {
        assert("false"@ =~= false_text());
        return Some(Scalar::Bool(false));
    }
    assert("false"@ =~= false_text());
    match parse_i64_range(s, from, to) {
        Some(n) => Some(Scalar::Int(n)),
        None => None,
    }
}

/// Reads a list body `s[from..to]`: literals separated by commas.
fn parse_list(s: &str, from: usize, to: usize) -> (r: Option<Vec<Scalar>>)
    requires
        from <= to <= s@.len(),
    ensures
        match r {
            Some(xs) => list_of(s@.subrange(from as int, to as int)) == Some(
                xs@.map_values(|x: Scalar| x@),
            ),
            None => list_of(s@.subrange(from as int, to as int)) is None,
        },
{
    let ghost t = s@.subrange(from as int, to as int);
    let mut xs: Vec<Scalar> = Vec::new();
    if from == to {
        assert(xs@.map_values(|x: Scalar| x@) =~= Seq::<ScalarView>::empty());
        return Some(xs);
    }
    let mut start = from;
    let mut i = from;
    assert(t.subrange(0, 0) =~= Seq::<char>::empty());
    while i < to
        invariant
            from <= start <= i <= to <= s@.len(),
            from < to,
            t == s@.subrange(from as int, to as int),
            comma_items(t.subrange(0, i - from)).len() == xs@.len() + 1,
            comma_items(t.subrange(0, i - from)).last() == s@.subrange(start as int, i as int),
            forall|j: int|
                0 <= j < xs@.len() ==> scalar_of(#[trigger] comma_items(t.subrange(0, i - from))[j])
                    == Some(xs@[j]@),
        decreases to - i,
    {
        let ghost pre = t.subrange(0, i - from);
        let ghost next = t.subrange(0, i + 1 - from);
        assert(next.drop_last() =~= pre);
        assert(next.last() == s@[i as int]);
        if s.get_char(i) == ',' {
            match parse_scalar(s, start, i) {
                Some(x) => {
                    xs.push(x);
                },
                None => {
                    proof {
                        lemma_items_keep(t, i + 1 - from);
                        let k = (xs@.len()) as int;
                        assert(comma_items(next)[k] == s@.subrange(start as int, i as int));
                        assert(comma_items(t)[k] == comma_items(next)[k]);
                    }
                    return None;
                },
            }
            start = i + 1;
            assert(s@.subrange(start as int, i + 1) =~= Seq::<char>::empty());
        } else {
            assert(s@.subrange(start as int, i + 1) =~= s@.subrange(start as int, i as int).push(
                s@[i as int],
            ));
        }
        i = i + 1;
    }
    assert(t.subrange(0, i - from) =~= t);
    match parse_scalar(s, start, to) {
        Some(x) => {
            xs.push(x);
            let ghost items = comma_items(t);
            assert(xs@.map_values(|x: Scalar| x@) =~= items.map_values(
                |x: Seq<char>| scalar_of(x)->0,
            ));
            Some(xs)
        },
        None => None,
    }
}

/// Reads one property line: `name`, or `name=value`.
pub fn parse_property(line: &str) -> (r: Result<Property, PropertyError>)
    ensures
        match r {
            Ok(p) => property_of(line@) == Some((p@.name, p@.value)) && p@.aspects.len() == 0,
            Err(_) => property_of(line@) is None,
        },
{
    let n = line.unicode_len();
    let mut k: usize = 0;
    let mut named = true;
    while k < n && line.get_char(k) != '='
        invariant
            n == line@.len(),
            0 <= k <= n,
            forall|i: int| 0 <= i < k ==> line@[i] != '=',
            named == forall|i: int| 0 <= i < k ==> is_name_char(#[trigger] line@[i]),
        decreases n - k,
    {
        let c = line.get_char(k);
        if c == '(' || c == ')' || c == '[' || c == ']' || c == '<' || c == '>' {
            named = false;
        }
        k = k + 1;
    }
    proof {
        lemma_first_eq(line@, k as int);
    }
    let ghost name = line@.subrange(0, k as int);
    assert(k == 0 || named == property_name_ok(name)) by {
        if k > 0 {
            if named {
                assert forall|i: int| 0 <= i < name.len() implies is_name_char(#[trigger] name[i]) by {
                    assert(name[i] == line@[i]);
                }
            } else {
                let i = choose|i: int| 0 <= i < k && !is_name_char(#[trigger] line@[i]);
                assert(name[i] == line@[i]);
            }
        }
    }
    if k == 0 {
        return Err(PropertyError::EmptyName);
    }
    if !named {
        return Err(PropertyError::InvalidName);
    }
    let name_text = line.substring_char(0, k).to_owned();
    let empty: Vec<crate::property::Aspect> = Vec::new();
    if k == n {
        assert(name =~= line@);
        let p = Property { name: name_text, value: PropertyValue::Declared, aspects: empty };
        return Ok(p);
    }
    let ghost t = line@.subrange(k + 1, n as int);
    let vstart = k + 1;
    if n - vstart >= 2 && line.get_char(vstart) == '[' && line.get_char(n - 1) == ']' {
        assert(t.subrange(1, t.len() - 1) =~= line@.subrange(vstart + 1, n - 1));
        match parse_list(line, vstart + 1, n - 1) {
            Some(xs) => {
                let p = Property { name: name_text, value: PropertyValue::List(xs), aspects: empty };
                Ok(p)
            },
            None => Err(PropertyError::InvalidValue),
        }
    } else {
        match parse_scalar(line, vstart, n) {
            Some(x) => {
                let p = Property { name: name_text, value: PropertyValue::Single(x), aspects: empty };
                Ok(p)
            },
            None => Err(PropertyError::InvalidValue),
        }
    }
}

/// Builds a property set from property lines, in their order.
pub fn parse_properties(lines: &Vec<String>) -> (r: Result<PropertySet, PropertyError>)
    ensures
        match r {
            Ok(ps) => ps@.len() == lines@.len() && forall|i: int|
                0 <= i < lines@.len() ==> property_of(#[trigger] lines@[i]@) == Some(
                    (ps@[i].name, ps@[i].value),
                ) && ps@[i].aspects.len() == 0,
            Err(_) => exists|i: int| 0 <= i < lines@.len() && property_of(#[trigger] lines@[i]@) is None,
        },
{
    let mut props: Vec<Property> = Vec::new();
    let mut i: usize = 0;
    while i < lines.len()
        invariant
            0 <= i <= lines@.len(),
            props@.len() == i,
            forall|j: int|
                0 <= j < i ==> property_of(#[trigger] lines@[j]@) == Some(
                    (props@[j]@.name, props@[j]@.value),
                ) && props@[j]@.aspects.len() == 0,
        decreases lines@.len() - i,
    {
        match parse_property(lines[i].as_str()) {
            Ok(p) => {
                props.push(p);
            },
            Err(e) => {
                assert(property_of(lines@[i as int]@) is None);
                return Err(e);
            },
        }
        i = i + 1;
    }
    let ps = PropertySet { properties: props };
    Ok(ps)
}

} // verus!
