use vstd::prelude::*;
use vstd::string::*;

use crate::expression::{
    exprs_view, lemma_exprs_view_len, lemma_exprs_view_prefix, ExprView, Expression,
    PropertyRef, PropertyRefType, RefView,
};

verus! {

/// What went wrong while reading a constraint.
#[derive(Clone, Copy, Debug, PartialEq, Eq)]
pub enum ParseErrorKind {
    ExpectedOpen,
    ExpectedClose,
    EmptyName,
    EmptyAspect,
    ExpectedOperator,
    EmptyValue,
    EmptyList,
    UnexpectedEnd,
    TrailingInput,
}

/// A malformed constraint: what was wrong, and the character position where it was found.
#[derive(Clone, Copy, Debug, PartialEq, Eq)]
pub struct ParseError {
    pub kind: ParseErrorKind,
    pub position: usize,
}

/// Characters that may stand in a property or aspect name.
pub open spec fn is_name_char(c: char) -> bool {
    c != '(' && c != ')' && c != '[' && c != ']' && c != '=' && c != '<' && c != '>'
}

/// Characters that may stand in a value.
pub open spec fn is_value_char(c: char) -> bool {
    c != '(' && c != ')'
}

pub open spec fn name_ok(n: Seq<char>) -> bool {
    &&& n.len() > 0
    &&& forall|i: int| 0 <= i < n.len() ==> is_name_char(#[trigger] n[i])
    &&& n[0] != '&' && n[0] != '|' && n[0] != '!'
}

pub open spec fn aspect_ok(a: Seq<char>) -> bool {
    &&& a.len() > 0
    &&& forall|i: int| 0 <= i < a.len() ==> is_name_char(#[trigger] a[i])
}

pub open spec fn value_ok(t: Seq<char>) -> bool {
    &&& t.len() > 0
    &&& forall|i: int| 0 <= i < t.len() ==> is_value_char(#[trigger] t[i])
}

pub open spec fn ref_ok(r: RefView) -> bool {
    name_ok(r.name) && match r.aspect {
        Some(a) => aspect_ok(a),
        None => true,
    }
}

/// Whether `e` is a filter that the constraint syntax can write.
pub open spec fn filter_ok(e: ExprView) -> bool
    decreases e,
{
    match e {
        ExprView::Empty => false,
        ExprView::Present(r) => ref_ok(r),
        ExprView::Equals(r, t) => ref_ok(r) && value_ok(t) && t != seq!['*'],
        ExprView::Less(r, t) => ref_ok(r) && value_ok(t) && t[0] != '=',
        ExprView::LessEqual(r, t) => ref_ok(r) && value_ok(t),
        ExprView::Greater(r, t) => ref_ok(r) && value_ok(t) && t[0] != '=',
        ExprView::GreaterEqual(r, t) => ref_ok(r) && value_ok(t),
        ExprView::Not(c) => filter_ok(*c),
        ExprView::And(cs) => cs.len() > 0 && filters_ok(cs),
        ExprView::Or(cs) => cs.len() > 0 && filters_ok(cs),
    }
}

pub open spec fn filters_ok(cs: Seq<ExprView>) -> bool
    decreases cs,
{
    if cs.len() == 0 {
        true
    } else {
        filters_ok(cs.drop_last()) && filter_ok(cs.last())
    }
}

pub open spec fn ref_text(r: RefView) -> Seq<char> {
    match r.aspect {
        None => r.name,
        Some(a) => r.name + seq!['['] + a + seq![']'],
    }
}

/// How a filter is written.
pub open spec fn filter_text(e: ExprView) -> Seq<char>
    decreases e,
{
    match e {
        ExprView::Empty => Seq::empty(),
        ExprView::Present(r) => seq!['('] + ref_text(r) + seq!['=', '*', ')'],
        ExprView::Equals(r, t) => seq!['('] + ref_text(r) + seq!['='] + t + seq![')'],
        ExprView::Less(r, t) => seq!['('] + ref_text(r) + seq!['<'] + t + seq![')'],
        ExprView::LessEqual(r, t) => seq!['('] + ref_text(r) + seq!['<', '='] + t + seq![')'],
        ExprView::Greater(r, t) => seq!['('] + ref_text(r) + seq!['>'] + t + seq![')'],
        ExprView::GreaterEqual(r, t) => seq!['('] + ref_text(r) + seq!['>', '='] + t + seq![')'],
        ExprView::Not(c) => seq!['(', '!'] + filter_text(*c) + seq![')'],
        ExprView::And(cs) => seq!['(', '&'] + filters_text(cs) + seq![')'],
        ExprView::Or(cs) => seq!['(', '|'] + filters_text(cs) + seq![')'],
    }
}

pub open spec fn filters_text(cs: Seq<ExprView>) -> Seq<char>
    decreases cs,
{
    if cs.len() == 0 {
        Seq::empty()
    } else {
        filters_text(cs.drop_last()) + filter_text(cs.last())
    }
}

/// A whole constraint: no filter at all, or one filter.
pub open spec fn constraint_ok(e: ExprView) -> bool {
    e is Empty || filter_ok(e)
}

/// Whether `t` stands in `s` at position `pos`.
pub open spec fn starts_at(s: Seq<char>, pos: int, t: Seq<char>) -> bool {
    0 <= pos && pos + t.len() <= s.len() && s.subrange(pos, pos + t.len()) == t
}

pub open spec fn is_op_char(c: char) -> bool {
    c == '=' || c == '<' || c == '>'
}

/// Reading the reference `r` from `start` succeeds when an operator follows it.
pub open spec fn ref_readable(s: Seq<char>, start: int, r: RefView) -> bool {
    &&& ref_ok(r)
    &&& starts_at(s, start, ref_text(r))
    &&& start + ref_text(r).len() < s.len()
    &&& is_op_char(s[start + ref_text(r).len()])
}

proof fn lemma_starts_at_char(s: Seq<char>, pos: int, t: Seq<char>, k: int)
    requires
        starts_at(s, pos, t),
        0 <= k < t.len(),
    ensures
        s[pos + k] == t[k],
{
    assert(s.subrange(pos, pos + t.len())[k] == s[pos + k]);
}

proof fn lemma_starts_at_split(s: Seq<char>, pos: int, a: Seq<char>, b: Seq<char>)
    requires
        starts_at(s, pos, a + b),
    ensures
        starts_at(s, pos, a),
        starts_at(s, pos + a.len(), b),
{
    lemma_starts_at_sub(s, pos, a + b, 0, a.len() as int);
    lemma_starts_at_sub(s, pos, a + b, a.len() as int, (a.len() + b.len()) as int);
    assert((a + b).subrange(0, a.len() as int) =~= a);
    assert((a + b).subrange(a.len() as int, (a.len() + b.len()) as int) =~= b);
}

proof fn lemma_starts_at_sub(s: Seq<char>, pos: int, t: Seq<char>, i: int, j: int)
    requires
        starts_at(s, pos, t),
        0 <= i <= j <= t.len(),
    ensures
        s.subrange(pos + i, pos + j) == t.subrange(i, j),
{
    let w = s.subrange(pos, pos + t.len());
    assert(s.subrange(pos + i, pos + j) =~= w.subrange(i, j));
}

fn err<T>(kind: ParseErrorKind, position: usize) -> (r: Result<T, ParseError>)
    ensures
        r matches Err(e) && e.kind == kind && e.position == position,
{
    Err(ParseError { kind, position })
}

fn char_at(s: &str, n: usize, pos: usize) -> (r: Option<char>)
    requires
        n == s@.len(),
    ensures
        pos < n ==> r == Some(s@[pos as int]),
        pos >= n ==> r is None,
{
    if pos < n {
        Some(s.get_char(pos))
    } else {
        None
    }
}

/// Reads a run of name characters from `pos`; returns where it stops.
fn scan_name(s: &str, n: usize, pos: usize) -> (end: usize)
    requires
        n == s@.len(),
        pos <= n,
    ensures
        pos <= end <= n,
        forall|i: int| pos <= i < end ==> is_name_char(#[trigger] s@[i]),
        end < n ==> !is_name_char(s@[end as int]),
{
    let mut i = pos;
    while i < n
        invariant
            n == s@.len(),
            pos <= i <= n,
            forall|j: int| pos <= j < i ==> is_name_char(#[trigger] s@[j]),
        decreases n - i,
    {
        let c = s.get_char(i);
        if c == '(' || c == ')' || c == '[' || c == ']' || c == '=' || c == '<' || c == '>' {
            return i;
        }
        i = i + 1;
    }
    i
}

/// Reads a run of value characters from `pos`; returns where it stops.
fn scan_value(s: &str, n: usize, pos: usize) -> (end: usize)
    requires
        n == s@.len(),
        pos <= n,
    ensures
        pos <= end <= n,
        forall|i: int| pos <= i < end ==> is_value_char(#[trigger] s@[i]),
        end < n ==> !is_value_char(s@[end as int]),
{
    let mut i = pos;
    while i < n
        invariant
            n == s@.len(),
            pos <= i <= n,
            forall|j: int| pos <= j < i ==> is_value_char(#[trigger] s@[j]),
        decreases n - i,
    {
        let c = s.get_char(i);
        if c == '(' || c == ')' {
            return i;
        }
        i = i + 1;
    }
    i
}

fn substring(s: &str, from: usize, to: usize) -> (r: String)
    requires
        from <= to <= s@.len(),
    ensures
        r@ == s@.subrange(from as int, to as int),
{
    s.substring_char(from, to).to_owned()
}

fn item_ref(name: String, aspect: Option<String>) -> (r: PropertyRef)
    ensures
        r@ == (RefView {
            name: name@,
            aspect: match aspect {
                Some(a) => Some(a@),
                None => None,
            },
        }),
{
    match aspect {
        Some(a) => PropertyRef::Value(name, PropertyRefType::Aspect(a)),
        None => PropertyRef::Value(name, PropertyRefType::Any),
    }
}

/// Reads a property reference, `name` or `name[aspect]`, from `start`.
fn parse_ref(s: &str, n: usize, start: usize) -> (r: Result<(PropertyRef, usize), ParseError>)
    requires
        n == s@.len(),
        start < n,
        s@[start as int] != '&' && s@[start as int] != '|' && s@[start as int] != '!',
    ensures
        r matches Ok((rf, end)) ==> start < end <= n && ref_ok(rf@) && s@.subrange(
            start as int,
            end as int,
        ) == ref_text(rf@),
        forall|x: RefView|
            ref_readable(s@, start as int, x) ==> (r matches Ok((rf, end)) && rf@ == x && end
                == start + ref_text(x).len()),
{
    let name_end = scan_name(s, n, start);
    proof {
        assert forall|x: RefView| ref_readable(s@, start as int, x) implies name_end == start
            + x.name.len() by {
            let t = ref_text(x);
            let k = x.name.len() as int;
            assert(starts_at(s@, start as int, x.name)) by {
                match x.aspect {
                    None => {},
                    Some(a) => {
                        assert(t =~= x.name + (seq!['['] + a + seq![']']));
                        lemma_starts_at_split(s@, start as int, x.name, seq!['['] + a + seq![']']);
                    },
                }
            }
            if name_end < start + k {
                lemma_starts_at_char(s@, start as int, x.name, name_end - start);
            }
            if name_end > start + k {
                match x.aspect {
                    None => {},
                    Some(a) => {
                        lemma_starts_at_char(s@, start as int, t, k);
                    },
                }
                assert(is_name_char(s@[start + k]));
            }
        }
    }
    if name_end == start {
        return err(ParseErrorKind::EmptyName, start);
    }
    let name = substring(s, start, name_end);
    if char_at(s, n, name_end) != Some('[') {
        let rf = item_ref(name, None);
        proof {
            assert forall|x: RefView| ref_readable(s@, start as int, x) implies rf@ == x && name_end
                == start + ref_text(x).len() by {
                match x.aspect {
                    None => {
                        assert(s@.subrange(start as int, name_end as int) == x.name);
                    },
                    Some(a) => {
                        lemma_starts_at_char(s@, start as int, ref_text(x), x.name.len() as int);
                    },
                }
            }
        }
        return Ok((rf, name_end));
    }
    let a_end = scan_name(s, n, name_end + 1);
    proof {
        assert forall|x: RefView| ref_readable(s@, start as int, x) implies (x.aspect matches Some(a)
            && a_end == name_end + 1 + a.len()) by {
            let t = ref_text(x);
            let k = x.name.len() as int;
            match x.aspect {
                None => {
                    assert(t == x.name);
                },
                Some(a) => {
                    assert(t =~= x.name + seq!['['] + a + seq![']']);
                    let m = a.len() as int;
                    if a_end < name_end + 1 + m {
                        lemma_starts_at_char(s@, start as int, t, a_end - start);
                        assert(t[a_end - start] == a[a_end - name_end - 1]);
                    }
                    if a_end > name_end + 1 + m {
                        lemma_starts_at_char(s@, start as int, t, k + 1 + m);
                        assert(is_name_char(s@[name_end + 1 + m]));
                    }
                },
            }
        }
    }
    if a_end == name_end + 1 {
        return err(ParseErrorKind::EmptyAspect, name_end + 1);
    }
    if char_at(s, n, a_end) != Some(']') {
        proof {
            assert forall|x: RefView| !ref_readable(s@, start as int, x) by {
                if ref_readable(s@, start as int, x) {
                    let a = x.aspect->0;
                    assert(ref_text(x) =~= x.name + seq!['['] + a + seq![']']);
                    lemma_starts_at_char(s@, start as int, ref_text(x), (x.name.len() + 1 + a.len()) as int);
                }
            }
        }
        return err(ParseErrorKind::ExpectedClose, a_end);
    }
    let aspect = substring(s, name_end + 1, a_end);
    let rf = item_ref(name, Some(aspect));
    assert(s@.subrange(start as int, a_end + 1) =~= ref_text(rf@));
    proof {
        assert forall|x: RefView| ref_readable(s@, start as int, x) implies rf@ == x && a_end + 1
            == start + ref_text(x).len() by {
            let a = x.aspect->0;
            assert(ref_text(x) =~= x.name + seq!['['] + a + seq![']']);
            assert(s@.subrange(start as int, start + ref_text(x).len()) == ref_text(x));
            let k = x.name.len() as int;
            lemma_starts_at_sub(s@, start as int, ref_text(x), 0, k);
            lemma_starts_at_sub(s@, start as int, ref_text(x), k + 1, k + 1 + a.len());
            assert(ref_text(x).subrange(0, k) =~= x.name);
            assert(ref_text(x).subrange(k + 1, k + 1 + a.len()) =~= a);
        }
    }
    Ok((rf, a_end + 1))
}

pub open spec fn is_item(x: ExprView) -> bool {
    x is Present || x is Equals || x is Less || x is LessEqual || x is Greater || x is GreaterEqual
}

/// The reference, operator text and value text of a comparison.
pub open spec fn item_parts(x: ExprView) -> (RefView, Seq<char>, Seq<char>) {
    match x {
        ExprView::Present(r) => (r, seq!['='], seq!['*']),
        ExprView::Equals(r, t) => (r, seq!['='], t),
        ExprView::Less(r, t) => (r, seq!['<'], t),
        ExprView::LessEqual(r, t) => (r, seq!['<', '='], t),
        ExprView::Greater(r, t) => (r, seq!['>'], t),
        ExprView::GreaterEqual(r, t) => (r, seq!['>', '='], t),
        _ => (RefView { name: Seq::empty(), aspect: None }, Seq::empty(), Seq::empty()),
    }
}

pub open spec fn item_readable(s: Seq<char>, pos: int, x: ExprView) -> bool {
    is_item(x) && filter_ok(x) && starts_at(s, pos, filter_text(x))
}

proof fn lemma_item_text(x: ExprView)
    requires
        is_item(x),
        filter_ok(x),
    ensures
        ({
            let (r, op, t) = item_parts(x);
            &&& filter_text(x) =~= seq!['('] + ref_text(r) + op + t + seq![')']
            &&& ref_ok(r)
            &&& value_ok(t)
            &&& op.len() >= 1 && is_op_char(op[0])
            &&& (op.len() == 1 && op[0] != '=' ==> t[0] != '=')
            &&& (op.len() == 2 ==> op[1] == '=')
            &&& (x is Present <==> (op == seq!['='] && t == seq!['*']))
        }),
{
    match x {
        ExprView::Present(r) => {
            assert(filter_text(x) =~= seq!['('] + ref_text(r) + seq!['='] + seq!['*'] + seq![')']);
        },
        ExprView::Equals(r, t) => {
            assert(filter_text(x) =~= seq!['('] + ref_text(r) + seq!['='] + t + seq![')']);
        },
        ExprView::Less(r, t) => {
            assert(filter_text(x) =~= seq!['('] + ref_text(r) + seq!['<'] + t + seq![')']);
        },
        ExprView::LessEqual(r, t) => {
            assert(filter_text(x) =~= seq!['('] + ref_text(r) + seq!['<', '='] + t + seq![')']);
        },
        ExprView::Greater(r, t) => {
            assert(filter_text(x) =~= seq!['('] + ref_text(r) + seq!['>'] + t + seq![')']);
        },
        ExprView::GreaterEqual(r, t) => {
            assert(filter_text(x) =~= seq!['('] + ref_text(r) + seq!['>', '='] + t + seq![')']);
        },
        _ => {},
    }
}

proof fn lemma_item_ref(s: Seq<char>, pos: int, x: ExprView)
    requires
        item_readable(s, pos, x),
    ensures
        ref_readable(s, pos + 1, item_parts(x).0),
{
    lemma_item_text(x);
    let (r, op, t) = item_parts(x);
    let whole = filter_text(x);
    let k = ref_text(r).len() as int;
    lemma_starts_at_sub(s, pos, whole, 1, 1 + k);
    assert(whole.subrange(1, 1 + k) =~= ref_text(r));
    lemma_starts_at_char(s, pos, whole, 1 + k);
}

proof fn lemma_item_op(s: Seq<char>, pos: int, x: ExprView)
    requires
        item_readable(s, pos, x),
    ensures
        ({
            let (r, o, t) = item_parts(x);
            let q0 = pos + 1 + ref_text(r).len();
            &&& q0 + 1 < s.len()
            &&& s[q0] == o[0]
            &&& s[q0 + 1] == if o.len() == 2 {
                o[1]
            } else {
                t[0]
            }
        }),
{
    lemma_item_text(x);
    let (r, o, t) = item_parts(x);
    let whole = filter_text(x);
    let k = 1 + ref_text(r).len() as int;
    lemma_starts_at_char(s, pos, whole, k);
    lemma_starts_at_char(s, pos, whole, k + 1);
}

proof fn lemma_item_value(s: Seq<char>, pos: int, x: ExprView, q: int, v_end: int)
    requires
        item_readable(s, pos, x),
        q == pos + 1 + ref_text(item_parts(x).0).len() + item_parts(x).1.len(),
        q <= v_end <= s.len(),
        forall|i: int| q <= i < v_end ==> is_value_char(#[trigger] s[i]),
        v_end < s.len() ==> !is_value_char(s[v_end]),
    ensures
        v_end == q + item_parts(x).2.len(),
        v_end < s.len() && s[v_end] == ')',
        v_end + 1 == pos + filter_text(x).len(),
        s.subrange(q, v_end) == item_parts(x).2,
{
    lemma_item_text(x);
    let (r, o, t) = item_parts(x);
    let whole = filter_text(x);
    let k = 1 + ref_text(r).len() as int + o.len() as int;
    if v_end < q + t.len() {
        lemma_starts_at_char(s, pos, whole, v_end - pos);
        assert(whole[v_end - pos] == t[v_end - q]);
    }
    lemma_starts_at_char(s, pos, whole, k + t.len() as int);
    lemma_starts_at_sub(s, pos, whole, k, k + t.len() as int);
    assert(whole.subrange(k, k + t.len() as int) =~= t);
}

/// Reads one comparison, `(name=value)`, `(name[aspect]<=value)` and the like, from `pos`.
#[verifier::rlimit(50)]
fn parse_item(s: &str, n: usize, pos: usize) -> (r: Result<(Expression, usize), ParseError>)
    requires
        n == s@.len(),
        pos + 1 < n,
        s@[pos as int] == '(',
        s@[pos + 1] != '&' && s@[pos + 1] != '|' && s@[pos + 1] != '!',
    ensures
        r matches Ok((e, end)) ==> pos < end <= n && filter_ok(e@) && s@.subrange(pos as int, end as int)
            == filter_text(e@),
        forall|x: ExprView|
            item_readable(s@, pos as int, x) ==> (r matches Ok((e, end)) && e@ == x && end == pos
                + filter_text(x).len()),
{
    proof {
        assert forall|x: ExprView| item_readable(s@, pos as int, x) implies ref_readable(
            s@,
            pos + 1,
            item_parts(x).0,
        ) by {
            lemma_item_ref(s@, pos as int, x);
        }
    }
    let (rf, ref_end) = match parse_ref(s, n, pos + 1) {
        Ok(x) => x,
        Err(e) => {
            return Err(e);
        },
    };
    let mut q = ref_end;
    // 0: equals, 1: less, 2: less or equal, 3: greater, 4: greater or equal
    let op: u8;
    match char_at(s, n, q) {
        Some('=') => {
            op = 0;
            q = q + 1;
        },
        Some('<') => {
            if char_at(s, n, q + 1) == Some('=') {
                op = 2;
                q = q + 2;
            } else {
                op = 1;
                q = q + 1;
            }
        },
        Some('>') => {
            if char_at(s, n, q + 1) == Some('=') {
                op = 4;
                q = q + 2;
            } else {
                op = 3;
                q = q + 1;
            }
        },
        _ => {
            proof {
                assert forall|x: ExprView| !item_readable(s@, pos as int, x) by {
                    if item_readable(s@, pos as int, x) {
                        lemma_item_op(s@, pos as int, x);
                        lemma_item_text(x);
                    }
                }
            }
            return err(ParseErrorKind::ExpectedOperator, q);
        },
    }
    proof {
        assert forall|x: ExprView| item_readable(s@, pos as int, x) implies ({
            let (r, o, t) = item_parts(x);
            &&& q == pos + 1 + ref_text(r).len() + o.len()
            &&& (op == 0 <==> o == seq!['='])
            &&& (op == 1 <==> o == seq!['<'])
            &&& (op == 2 <==> o == seq!['<', '='])
            &&& (op == 3 <==> o == seq!['>'])
            &&& (op == 4 <==> o == seq!['>', '='])
        }) by {
            lemma_item_op(s@, pos as int, x);
            lemma_item_text(x);
        }
    }
    let v_end = scan_value(s, n, q);
    if v_end == q {
        proof {
            assert forall|x: ExprView| !item_readable(s@, pos as int, x) by {
                if item_readable(s@, pos as int, x) {
                    lemma_item_value(s@, pos as int, x, q as int, v_end as int);
                    lemma_item_text(x);
                }
            }
        }
        return err(ParseErrorKind::EmptyValue, q);
    }
    if char_at(s, n, v_end) != Some(')') {
        proof {
            assert forall|x: ExprView| !item_readable(s@, pos as int, x) by {
                if item_readable(s@, pos as int, x) {
                    lemma_item_value(s@, pos as int, x, q as int, v_end as int);
                }
            }
        }
        return err(ParseErrorKind::ExpectedClose, v_end);
    }
    let ghost t = s@.subrange(q as int, v_end as int);
    let ghost head = s@.subrange(pos as int, q as int);
    let ghost rt = ref_text(rf@);
    assert(s@.subrange(pos as int, v_end + 1) =~= head + t + seq![')']);
    assert(value_ok(t));
    assert(t[0] == s@[q as int]);
    let star = v_end == q + 1 && s.get_char(q) == '*';
    assert(star == (t =~= seq!['*']));
    let e = if op == 0 {
        assert(head =~= seq!['('] + rt + seq!['=']);
        if star {
            Expression::Present(rf)
        } else {
            Expression::Equals(rf, substring(s, q, v_end))
        }
    } else if op == 1 {
        assert(head =~= seq!['('] + rt + seq!['<']);
        Expression::Less(rf, substring(s, q, v_end))
    } else if op == 2 {
        assert(head =~= seq!['('] + rt + seq!['<', '=']);
        Expression::LessEqual(rf, substring(s, q, v_end))
    } else if op == 3 {
        assert(head =~= seq!['('] + rt + seq!['>']);
        Expression::Greater(rf, substring(s, q, v_end))
    } else {
        assert(head =~= seq!['('] + rt + seq!['>', '=']);
        Expression::GreaterEqual(rf, substring(s, q, v_end))
    };
    proof {
        assert forall|x: ExprView| item_readable(s@, pos as int, x) implies e@ == x && v_end + 1
            == pos + filter_text(x).len() by {
            lemma_item_value(s@, pos as int, x, q as int, v_end as int);
            lemma_item_text(x);
        }
    }
    Ok((e, v_end + 1))
}

pub open spec fn filter_readable(s: Seq<char>, pos: int, x: ExprView) -> bool {
    filter_ok(x) && starts_at(s, pos, filter_text(x))
}

pub open spec fn children_of(x: ExprView) -> Seq<ExprView> {
    match x {
        ExprView::And(cs) => cs,
        ExprView::Or(cs) => cs,
        _ => Seq::empty(),
    }
}

proof fn lemma_filters_ok_each(cs: Seq<ExprView>, k: int)
    requires
        filters_ok(cs),
        0 <= k < cs.len(),
    ensures
        filter_ok(cs[k]),
    decreases cs.len(),
{
    if k < cs.len() - 1 {
        lemma_filters_ok_each(cs.drop_last(), k);
    }
}

proof fn lemma_filters_text_split(cs: Seq<ExprView>, k: int, j: int)
    requires
        0 <= k <= j <= cs.len(),
    ensures
        filters_text(cs.subrange(0, j)) == filters_text(cs.subrange(0, k)) + filters_text(
            cs.subrange(k, j),
        ),
    decreases j - k,
{
    if j == k {
        assert(cs.subrange(k, j) =~= Seq::<ExprView>::empty());
        assert(filters_text(cs.subrange(0, k)) + Seq::<char>::empty() =~= filters_text(
            cs.subrange(0, k),
        ));
    } else {
        lemma_filters_text_split(cs, k, j - 1);
        assert(cs.subrange(0, j).drop_last() =~= cs.subrange(0, j - 1));
        assert(cs.subrange(k, j).drop_last() =~= cs.subrange(k, j - 1));
        assert(filters_text(cs.subrange(0, j)) =~= filters_text(cs.subrange(0, k)) + filters_text(
            cs.subrange(k, j),
        ));
    }
}

proof fn lemma_filter_shape(x: ExprView)
    requires
        filter_ok(x),
    ensures
        filter_text(x).len() >= 3,
        filter_text(x)[0] == '(',
        filter_text(x).last() == ')',
        filter_text(x)[1] == '!' <==> x is Not,
        filter_text(x)[1] == '&' <==> x is And,
        filter_text(x)[1] == '|' <==> x is Or,
        is_item(x) || x is Not || x is And || x is Or,
{
    match x {
        ExprView::Not(c) => {},
        ExprView::And(cs) => {},
        ExprView::Or(cs) => {},
        _ => {
            lemma_item_text(x);
            let (r, o, t) = item_parts(x);
            assert(filter_text(x)[1] == ref_text(r)[0]);
            assert(ref_text(r)[0] == r.name[0]);
        },
    }
}

/// Where child `k` of a list filter read from `pos` starts.
pub open spec fn child_at(pos: int, cs: Seq<ExprView>, k: int) -> int {
    pos + 2 + filters_text(cs.subrange(0, k)).len()
}

proof fn lemma_list_child(s: Seq<char>, pos: int, x: ExprView, k: int)
    requires
        filter_readable(s, pos, x),
        x is And || x is Or,
        0 <= k <= children_of(x).len(),
    ensures
        k < children_of(x).len() ==> filter_readable(s, child_at(pos, children_of(x), k), children_of(x)[k]),
        k < children_of(x).len() ==> s[child_at(pos, children_of(x), k)] == '(',
        k == children_of(x).len() ==> child_at(pos, children_of(x), k) < s.len() && s[child_at(pos, children_of(x), k)] == ')'
            && child_at(pos, children_of(x), k) + 1 == pos + filter_text(x).len(),
{
    let cs = children_of(x);
    let n = cs.len() as int;
    let whole = filter_text(x);
    assert(cs.subrange(0, n) =~= cs);
    assert(whole =~= seq!['(', whole[1]] + filters_text(cs) + seq![')']);
    lemma_filters_text_split(cs, k, n);
    let pre = filters_text(cs.subrange(0, k));
    if k < n {
        lemma_filters_ok_each(cs, k);
        let tail = cs.subrange(k, n);
        lemma_filters_text_split(tail, 1, n - k);
        assert(tail.subrange(0, n - k) =~= tail);
        assert(tail.subrange(0, 1) =~= seq![cs[k]]);
        assert(seq![cs[k]].drop_last() =~= Seq::<ExprView>::empty());
        assert(filters_text(Seq::<ExprView>::empty()) == Seq::<char>::empty());
        assert(filters_text(seq![cs[k]]) == filters_text(Seq::<ExprView>::empty()) + filter_text(
            cs[k],
        ));
        assert(filters_text(seq![cs[k]]) =~= filter_text(cs[k]));
        let rest = filters_text(tail.subrange(1, n - k));
        assert(filters_text(cs) =~= pre + filter_text(cs[k]) + rest);
        assert(whole =~= (seq!['(', whole[1]] + pre) + (filter_text(cs[k]) + (rest + seq![')'])));
        lemma_starts_at_split(s, pos, seq!['(', whole[1]] + pre, filter_text(cs[k]) + (rest + seq![')']));
        lemma_starts_at_split(s, child_at(pos, cs, k), filter_text(cs[k]), rest + seq![')']);
        lemma_filter_shape(cs[k]);
        lemma_starts_at_char(s, child_at(pos, cs, k), filter_text(cs[k]), 0);
    } else {
        assert(cs.subrange(k, n) =~= Seq::<ExprView>::empty());
        lemma_starts_at_char(s, pos, whole, whole.len() - 1);
    }
}

/// Reads one filter from `pos`; on success also returns the position just after it.
fn parse_filter(s: &str, n: usize, pos: usize) -> (r: Result<(Expression, usize), ParseError>)
    requires
        n == s@.len(),
        pos <= n,
    ensures
        r matches Ok((e, end)) ==> pos < end <= n && filter_ok(e@) && s@.subrange(pos as int, end as int)
            == filter_text(e@),
        forall|x: ExprView|
            filter_readable(s@, pos as int, x) ==> (r matches Ok((e, end)) && e@ == x && end == pos
                + filter_text(x).len()),
    decreases n - pos,
{
    proof {
        assert forall|x: ExprView| filter_readable(s@, pos as int, x) implies pos + 1 < n && s@[pos as int] == '('
            && (s@[pos + 1] == '!' <==> x is Not) && (s@[pos + 1] == '&' <==> x is And) && (s@[pos
            + 1] == '|' <==> x is Or) by {
            lemma_filter_shape(x);
            lemma_starts_at_char(s@, pos as int, filter_text(x), 0);
            lemma_starts_at_char(s@, pos as int, filter_text(x), 1);
        }
    }
    match char_at(s, n, pos) {
        Some('(') => {},
        Some(_) => {
            return err(ParseErrorKind::ExpectedOpen, pos);
        },
        None => {
            return err(ParseErrorKind::UnexpectedEnd, pos);
        },
    }
    let p = pos + 1;
    let c = match char_at(s, n, p) {
        Some(c) => c,
        None => {
            return err(ParseErrorKind::UnexpectedEnd, p);
        },
    };
    if c == '!' {
        proof {
            assert forall|x: ExprView| filter_readable(s@, pos as int, x) implies (x matches ExprView::Not(
                y,
            ) && filter_readable(s@, p + 1, *y) && s@[p + 1 + filter_text(*y).len()] == ')' && p
                + 1 + filter_text(*y).len() + 1 == pos + filter_text(x).len() && p + 1
                + filter_text(*y).len() < n) by {
                let y = *(x->Not_0);
                let whole = filter_text(x);
                assert(whole =~= seq!['(', '!'] + (filter_text(y) + seq![')']));
                lemma_starts_at_split(s@, pos as int, seq!['(', '!'], filter_text(y) + seq![')']);
                lemma_starts_at_split(s@, p + 1, filter_text(y), seq![')']);
                lemma_starts_at_char(s@, p + 1 + filter_text(y).len(), seq![')'], 0);
            }
        }
        let (inner, q) = match parse_filter(s, n, p + 1) {
            Ok(x) => x,
            Err(e) => {
                return Err(e);
            },
        };
        if char_at(s, n, q) != Some(')') {
            return err(ParseErrorKind::ExpectedClose, q);
        }
        let e = Expression::Not(Box::new(inner));
        assert(s@.subrange(pos as int, q + 1) =~= seq!['(', '!'] + s@.subrange(p + 1, q as int)
            + seq![')']);
        return Ok((e, q + 1));
    }
    if c != '&' && c != '|' {
        proof {
            assert forall|x: ExprView| filter_readable(s@, pos as int, x) implies item_readable(s@, pos as int, x) by {
                lemma_filter_shape(x);
            }
        }
        return parse_item(s, n, pos);
    }
    let mut children: Vec<Expression> = Vec::new();
    let mut q = p + 1;
    assert(s@.subrange(p + 1, q as int) =~= filters_text(exprs_view(children@)));
    proof {
        lemma_exprs_view_len(children@);
        assert forall|x: ExprView| filter_readable(s@, pos as int, x) implies (x is And || x is Or) && children@.len()
            <= children_of(x).len() && exprs_view(children@) == children_of(x).subrange(0, children@.len() as int)
            && q == child_at(pos as int, children_of(x), children@.len() as int) by {
            assert(children_of(x).subrange(0, 0) =~= Seq::<ExprView>::empty());
        }
    }
    while char_at(s, n, q) == Some('(')
        invariant
            n == s@.len(),
            p + 1 <= q <= n,
            pos < p,
            p == pos + 1,
            s@.subrange(p + 1, q as int) == filters_text(exprs_view(children@)),
            filters_ok(exprs_view(children@)),
            forall|x: ExprView|
                filter_readable(s@, pos as int, x) ==> (x is And || x is Or) && children@.len()
                    <= children_of(x).len() && exprs_view(children@) == children_of(x).subrange(
                    0,
                    children@.len() as int,
                ) && q == child_at(pos as int, children_of(x), children@.len() as int),
        decreases n - q,
    {
        proof {
            lemma_exprs_view_len(children@);
            assert forall|x: ExprView| filter_readable(s@, pos as int, x) implies children@.len()
                < children_of(x).len() && filter_readable(s@, q as int, children_of(x)[children@.len() as int]) by {
                let k = children@.len() as int;
                lemma_list_child(s@, pos as int, x, k);
            }
        }
        let ghost k0 = children@.len() as int;
        let (child, q2) = match parse_filter(s, n, q) {
            Ok(x) => x,
            Err(e) => {
                return Err(e);
            },
        };
        let ghost before = children@;
        children.push(child);
        proof {
            assert(children@.drop_last() =~= before);
            assert(exprs_view(children@) == exprs_view(before).push(child@));
            assert(exprs_view(children@).drop_last() =~= exprs_view(before));
            assert(s@.subrange(p + 1, q2 as int) =~= s@.subrange(p + 1, q as int) + s@.subrange(
                q as int,
                q2 as int,
            ));
            lemma_exprs_view_len(children@);
            assert forall|x: ExprView| filter_readable(s@, pos as int, x) implies exprs_view(children@)
                == children_of(x).subrange(0, children@.len() as int) && q2 == child_at(
                pos as int,
                children_of(x),
                children@.len() as int,
            ) by {
                let cs = children_of(x);
                assert(cs.subrange(0, k0 + 1) =~= cs.subrange(0, k0).push(cs[k0]));
                assert(cs.subrange(0, k0 + 1).drop_last() =~= cs.subrange(0, k0));
            }
        }
        q = q2;
    }
    proof {
        lemma_exprs_view_len(children@);
        assert forall|x: ExprView| filter_readable(s@, pos as int, x) implies children@.len()
            == children_of(x).len() by {
            let k = children@.len() as int;
            lemma_list_child(s@, pos as int, x, k);
        }
    }
    if children.len() == 0 {
        return err(ParseErrorKind::EmptyList, q);
    }
    if char_at(s, n, q) != Some(')') {
        proof {
            assert forall|x: ExprView| !filter_readable(s@, pos as int, x) by {
                if filter_readable(s@, pos as int, x) {
                    lemma_list_child(s@, pos as int, x, children@.len() as int);
                }
            }
        }
        return err(ParseErrorKind::ExpectedClose, q);
    }
    proof {
        lemma_exprs_view_len(children@);
    }
    assert(s@.subrange(pos as int, q + 1) =~= seq!['(', c] + s@.subrange(p + 1, q as int) + seq![')']);
    proof {
        assert forall|x: ExprView| filter_readable(s@, pos as int, x) implies exprs_view(children@)
            == children_of(x) && q + 1 == pos + filter_text(x).len() by {
            lemma_list_child(s@, pos as int, x, children@.len() as int);
            assert(children_of(x).subrange(0, children@.len() as int) =~= children_of(x));
        }
    }
    let e = if c == '&' {
        Expression::And(children)
    } else {
        Expression::Or(children)
    };
    Ok((e, q + 1))
}

/// Whether `s` writes the constraint `x`.
pub open spec fn writes(s: Seq<char>, x: ExprView) -> bool {
    constraint_ok(x) && if x is Empty {
        s.len() == 0
    } else {
        s == filter_text(x)
    }
}

/// Parses a constraint string: empty for no constraint, else exactly one filter. It succeeds
/// exactly on the texts of well-formed constraints, and gives back the constraint written.
pub fn parse_constraints(s: &str) -> (r: Result<Expression, ParseError>)
    ensures
        r matches Ok(e) ==> writes(s@, e@),
        forall|x: ExprView| writes(s@, x) ==> (r matches Ok(e) && e@ == x),
{
    let n = s.unicode_len();
    if n == 0 {
        proof {
            assert forall|x: ExprView| writes(s@, x) implies x is Empty by {
                if !(x is Empty) {
                    lemma_filter_shape(x);
                }
            }
        }
        return Ok(Expression::Empty);
    }
    proof {
        assert forall|x: ExprView| writes(s@, x) implies filter_readable(s@, 0, x) by {
            assert(s@.subrange(0, s@.len() as int) =~= s@);
        }
    }
    let (e, end) = match parse_filter(s, n, 0) {
        Ok(x) => x,
        Err(e) => {
            return Err(e);
        },
    };
    if end != n {
        return err(ParseErrorKind::TrailingInput, end);
    }
    assert(s@.subrange(0, n as int) =~= s@);
    Ok(e)
}

/// The text `(name=*)` writes exactly one constraint: the existence test of `name`.
pub proof fn lemma_wildcard_text(name: Seq<char>, x: ExprView)
    requires
        name_ok(name),
        writes(seq!['('] + name + seq!['=', '*', ')'], x),
    ensures
        x == ExprView::Present(RefView { name, aspect: None }),
{
    let s = seq!['('] + name + seq!['=', '*', ')'];
    let k = name.len() as int;
    assert(s[0] == '(' && s[1] == name[0]);
    assert(!(x is Empty));
    lemma_filter_shape(x);
    lemma_item_text(x);
    let (r, o, t) = item_parts(x);
    let rt = ref_text(r);
    let m = r.name.len() as int;
    assert(filter_text(x) == s);
    assert(filter_text(x) =~= seq!['('] + rt + o + t + seq![')']);
    assert(forall|i: int| 0 <= i < m ==> s[1 + i] == r.name[i]);
    assert(forall|i: int| 0 <= i < k ==> s[1 + i] == name[i]);
    if m < k {
        assert(s[1 + m] == name[m]);
        assert(is_name_char(name[m]));
        if r.aspect is Some {
            assert(s[1 + m] == '[');
        } else {
            assert(s[1 + m] == o[0]);
        }
    }
    if m > k {
        assert(s[1 + k] == '=');
        assert(s[1 + k] == r.name[k]);
        assert(is_name_char(r.name[k]));
    }
    assert(m == k);
    assert(r.name =~= name);
    if r.aspect is Some {
        assert(s[1 + k] == '[');
    }
    assert(rt == r.name);
    assert(s[1 + k] == o[0]);
    assert(o[0] == '=');
    assert(o.len() == 1) by {
        if o.len() == 2 {
            assert(s[2 + k] == o[1]);
        }
    }
    assert(t =~= seq!['*']) by {
        assert(s.len() == k + 4);
        assert(t.len() == 1);
        assert(t[0] == s[2 + k]);
    }
}

} // verus!
