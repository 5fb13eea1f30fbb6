use market_core::constraint::{parse_constraints, ParseErrorKind};
use market_core::expression::{Expression, PropertyRef, PropertyRefType};
use market_core::property::{PropertySet, PropertyValue, Scalar};
use market_core::property_syntax::{parse_properties, parse_property, PropertyError};
use market_core::resolve::{evaluate, ResolveResult};
use market_core::text::parse_i64_range;

fn any_ref(name: &str) -> PropertyRef {
    PropertyRef::Value(String::from(name), PropertyRefType::Any)
}

fn props(v: &[&str]) -> PropertySet {
    parse_properties(&v.iter().map(|s| s.to_string()).collect()).unwrap()
}

fn eval(constraint: &str, v: &[&str]) -> ResolveResult {
    evaluate(&parse_constraints(constraint).unwrap(), &props(v))
}

#[test]
fn property_literals_are_typed() {
    assert_eq!(parse_property("a=\"x y\"").unwrap().value, PropertyValue::Single(Scalar::Str("x y".to_string())));
    assert_eq!(parse_property("a=-42").unwrap().value, PropertyValue::Single(Scalar::Int(-42)));
    assert_eq!(parse_property("a=true").unwrap().value, PropertyValue::Single(Scalar::Bool(true)));
    assert_eq!(parse_property("a=false").unwrap().value, PropertyValue::Single(Scalar::Bool(false)));
    assert_eq!(
        parse_property("a=[\"x\",3,true]").unwrap().value,
        PropertyValue::List(vec![Scalar::Str("x".to_string()), Scalar::Int(3), Scalar::Bool(true)])
    );
    assert_eq!(parse_property("a=[]").unwrap().value, PropertyValue::List(vec![]));
    assert_eq!(parse_property("golem.inf.mem").unwrap().value, PropertyValue::Declared);
    assert_eq!(parse_property("golem.inf.mem").unwrap().name, "golem.inf.mem");
}

#[test]
fn property_errors() {
    assert_eq!(parse_property("=1").unwrap_err(), PropertyError::EmptyName);
    assert_eq!(parse_property("").unwrap_err(), PropertyError::EmptyName);
    assert_eq!(parse_property("a(b)=1").unwrap_err(), PropertyError::InvalidName);
    assert_eq!(parse_property("a=x").unwrap_err(), PropertyError::InvalidValue);
    assert_eq!(parse_property("a=\"x\"y\"").unwrap_err(), PropertyError::InvalidValue);
    assert_eq!(parse_property("a=[1,,2]").unwrap_err(), PropertyError::InvalidValue);
    assert_eq!(parse_property("a=99999999999999999999").unwrap_err(), PropertyError::InvalidValue);
}

#[test]
fn integer_bounds() {
    let max = "9223372036854775807";
    let min = "-9223372036854775808";
    assert_eq!(parse_i64_range(max, 0, max.len()), Some(i64::MAX));
    assert_eq!(parse_i64_range(min, 0, min.len()), Some(i64::MIN));
    let over = "9223372036854775808";
    assert_eq!(parse_i64_range(over, 0, over.len()), None);
    assert_eq!(parse_i64_range("-", 0, 1), None);
    assert_eq!(parse_i64_range("12a", 0, 3), None);
    assert_eq!(parse_i64_range("x120", 1, 4), Some(120));
}

#[test]
fn constraint_trees() {
    assert_eq!(parse_constraints("").unwrap(), Expression::Empty);
    assert_eq!(
        parse_constraints("(|(a<=5)(!(b[c]>x)))").unwrap(),
        Expression::Or(vec![
            Expression::LessEqual(any_ref("a"), "5".to_string()),
            Expression::Not(Box::new(Expression::Greater(
                PropertyRef::Value("b".to_string(), PropertyRefType::Aspect("c".to_string())),
                "x".to_string()
            ))),
        ])
    );
    assert_eq!(parse_constraints("(a>=1)").unwrap(), Expression::GreaterEqual(any_ref("a"), "1".to_string()));
    assert_eq!(parse_constraints("(a<1)").unwrap(), Expression::Less(any_ref("a"), "1".to_string()));
    assert_eq!(parse_constraints("(a=*)").unwrap(), Expression::Present(any_ref("a")));
}

#[test]
fn constraint_errors_name_kind_and_position() {
    let e = parse_constraints("a=1").unwrap_err();
    assert_eq!((e.kind, e.position), (ParseErrorKind::ExpectedOpen, 0));
    let e = parse_constraints("(a=1").unwrap_err();
    assert_eq!((e.kind, e.position), (ParseErrorKind::ExpectedClose, 4));
    let e = parse_constraints("(=1)").unwrap_err();
    assert_eq!((e.kind, e.position), (ParseErrorKind::EmptyName, 1));
    let e = parse_constraints("(a[]=1)").unwrap_err();
    assert_eq!((e.kind, e.position), (ParseErrorKind::EmptyAspect, 3));
    let e = parse_constraints("(a)").unwrap_err();
    assert_eq!((e.kind, e.position), (ParseErrorKind::ExpectedOperator, 2));
    let e = parse_constraints("(a=)").unwrap_err();
    assert_eq!((e.kind, e.position), (ParseErrorKind::EmptyValue, 3));
    let e = parse_constraints("(&)").unwrap_err();
    assert_eq!((e.kind, e.position), (ParseErrorKind::EmptyList, 2));
    let e = parse_constraints("(").unwrap_err();
    assert_eq!((e.kind, e.position), (ParseErrorKind::UnexpectedEnd, 1));
    let e = parse_constraints("(a=1)(b=2)").unwrap_err();
    assert_eq!((e.kind, e.position), (ParseErrorKind::TrailingInput, 5));
}

#[test]
fn numeric_comparisons() {
    assert_eq!(eval("(mem>=8)", &["mem=8"]), ResolveResult::True);
    assert_eq!(eval("(mem>8)", &["mem=8"]), ResolveResult::False(vec![any_ref("mem")], vec!["8".to_string()]));
    assert_eq!(eval("(mem<9)", &["mem=8"]), ResolveResult::True);
    assert_eq!(eval("(mem<=7)", &["mem=8"]), ResolveResult::False(vec![any_ref("mem")], vec!["7".to_string()]));
    assert!(matches!(eval("(mem>8)", &["mem=\"big\""]), ResolveResult::Undefined(_, _)));
    assert!(matches!(eval("(mem>x)", &["mem=8"]), ResolveResult::Undefined(_, _)));
    assert!(matches!(eval("(mem>8)", &[]), ResolveResult::Undefined(_, _)));
}

#[test]
fn equality_by_type() {
    assert_eq!(eval("(n=007)", &["n=7"]), ResolveResult::True);
    assert_eq!(eval("(b=true)", &["b=true"]), ResolveResult::True);
    assert_eq!(eval("(b=false)", &["b=true"]), ResolveResult::False(vec![any_ref("b")], vec!["false".to_string()]));
    assert_eq!(eval("(l=2)", &["l=[1,2,3]"]), ResolveResult::True);
    assert_eq!(eval("(l=4)", &["l=[1,2,3]"]), ResolveResult::False(vec![any_ref("l")], vec!["4".to_string()]));
    assert_eq!(eval("(d=x)", &["d"]), ResolveResult::False(vec![any_ref("d")], vec!["x".to_string()]));
}

#[test]
fn and_collects_every_failure() {
    assert_eq!(
        eval("(&(a=1)(b=2)(c=3))", &["a=9", "b=2", "c=9"]),
        ResolveResult::False(vec![any_ref("a"), any_ref("c")], vec!["1".to_string(), "3".to_string()])
    );
    assert!(matches!(eval("(&(a=1)(z=2))", &["a=1"]), ResolveResult::Undefined(_, _)));
    assert_eq!(
        eval("(&(a=2)(z=2))", &["a=1"]),
        ResolveResult::False(vec![any_ref("a")], vec!["2".to_string()])
    );
}

#[test]
fn or_is_the_dual_of_and() {
    assert_eq!(eval("(|(a=2)(b=2))", &["a=1", "b=2"]), ResolveResult::True);
    assert!(matches!(eval("(|(a=2)(z=2))", &["a=1"]), ResolveResult::Undefined(_, _)));
    assert_eq!(
        eval("(|(a=2)(b=3))", &["a=1", "b=2"]),
        ResolveResult::False(vec![any_ref("a"), any_ref("b")], vec!["2".to_string(), "3".to_string()])
    );
}

#[test]
fn negation_is_ternary() {
    assert_eq!(eval("(!(a=1))", &["a=1"]), ResolveResult::False(vec![], vec![]));
    assert_eq!(eval("(!(a=2))", &["a=1"]), ResolveResult::True);
    assert_eq!(eval("(!(!(a=1)))", &["a=1"]), ResolveResult::True);
    assert_eq!(eval("(!(!(a=2)))", &["a=1"]), ResolveResult::False(vec![], vec![]));
    assert_eq!(
        eval("(!(!(z=1)))", &["a=1"]),
        ResolveResult::Undefined(vec![any_ref("z")], Expression::Equals(any_ref("z"), "1".to_string()))
    );
}

#[test]
fn resolved_references_are_decided() {
    let set = ["a=1", "b=\"x\"", "c=[1,2]", "d"];
    for c in ["(a=1)", "(&(a=2)(b=x))", "(|(c=3)(!(d=*)))", "(a>0)", "(!(b=y))"] {
        assert!(!matches!(eval(c, &set), ResolveResult::Undefined(_, _)), "{}", c);
    }
}
