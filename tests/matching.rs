use market_core::expression::{Expression, PropertyRef, PropertyRefType};
use market_core::matching::{
    match_demand_offer, match_weak, Demand, Match, MatchResult, Offer, PreparedDemand,
    PreparedOffer,
};

fn any_ref(name: &str) -> PropertyRef {
    PropertyRef::Value(String::from(name), PropertyRefType::Any)
}

#[test]
fn match_weak_simple_match() {
    let mut demand = Demand::default();
    demand.properties.push(String::from("d1=\"v1\""));
    demand.constraints = String::from("(o1=v2)");

    let mut offer = Offer::default();
    offer.properties.push(String::from("o1=\"v2\""));
    offer.constraints = String::from("(d1=v1)");

    assert_eq!(
        match_weak(&PreparedDemand::from(&demand).unwrap(), &PreparedOffer::from(&offer).unwrap()),
        MatchResult::True
    );
}

#[test]
fn match_weak_simple_no_match() {
    let mut demand = Demand::default();
    demand.properties.push(String::from("d1=\"v1\""));
    demand.constraints = String::from("(o1=v2)");

    let mut offer = Offer::default();
    offer.properties.push(String::from("o1=\"v2\""));
    offer.constraints = String::from("(d1=v3)");

    assert_eq!(
        match_weak(&PreparedDemand::from(&demand).unwrap(), &PreparedOffer::from(&offer).unwrap()),
        MatchResult::False(vec![], vec![])
    );
}

#[test]
fn match_weak_simple_undefined() {
    let mut demand = Demand::default();
    demand.properties.push(String::from("d1=\"v1\""));
    demand.constraints = String::from("(o3=v2)"); // unresolved property

    let mut offer = Offer::default();
    offer.properties.push(String::from("o1=\"v2\""));
    offer.constraints = String::from("(d1=v3)");

    assert_eq!(
        match_weak(&PreparedDemand::from(&demand).unwrap(), &PreparedOffer::from(&offer).unwrap()),
        MatchResult::Undefined(
            (vec![any_ref("o3")], Expression::Equals(any_ref("o3"), String::from("v2"))),
            (vec![], Expression::Empty)
        )
    );
}

#[test]
fn match_weak_dynamic_property_match() {
    let mut demand = Demand::default();
    demand.properties.push(String::from("d1=\"v1\""));
    demand.constraints = String::from("(o1=*)");

    let mut offer = Offer::default();
    offer.properties.push(String::from("o1"));
    offer.constraints = String::from("(d1=v1)");

    assert_eq!(
        match_weak(&PreparedDemand::from(&demand).unwrap(), &PreparedOffer::from(&offer).unwrap()),
        MatchResult::True
    );
}

#[test]
fn match_weak_dynamic_property_no_match() {
    let mut demand = Demand::default();
    demand.properties.push(String::from("d1=\"v1\""));
    demand.constraints = String::from("(o1dblah=*)");

    let mut offer = Offer::default();
    offer.properties.push(String::from("o1"));
    offer.constraints = String::from("(d1=v1)");

    assert_eq!(
        match_weak(&PreparedDemand::from(&demand).unwrap(), &PreparedOffer::from(&offer).unwrap()),
        MatchResult::False(vec![any_ref("o1dblah")], vec![])
    );
}

#[test]
fn match_weak_simple_aspect_match() {
    let mut demand = Demand::default();
    demand.properties.push(String::from("d1=\"v1\""));
    demand.constraints = String::from("(&(o1=v2)(o1[aspect]=dblah))");

    let mut offer = Offer::default();
    offer.properties.push(String::from("o1=\"v2\""));
    offer.constraints = String::from("(d1=v1)");

    let prepared_demand = PreparedDemand::from(&demand).unwrap();
    let mut prepared_offer = PreparedOffer::from(&offer).unwrap();

    prepared_offer.properties.set_property_aspect("o1", "aspect", "dblah");

    assert_eq!(match_weak(&prepared_demand, &prepared_offer), MatchResult::True);
}

#[test]
fn aspect_missing_on_present_property_is_undefined() {
    let mut demand = Demand::default();
    demand.constraints = String::from("(o1[aspect]=dblah)");
    let mut offer = Offer::default();
    offer.properties.push(String::from("o1=\"v2\""));
    let result = match_weak(
        &PreparedDemand::from(&demand).unwrap(),
        &PreparedOffer::from(&offer).unwrap(),
    );
    assert!(matches!(result, MatchResult::Undefined(_, _)));
}

fn lines(v: &[&str]) -> Vec<String> {
    v.iter().map(|s| s.to_string()).collect()
}

#[test]
fn demand_offer_pair_matches() {
    let m = match_demand_offer(
        &lines(&["d1=\"v1\""]),
        &String::from("(o1=v2)"),
        &lines(&["o1=\"v2\""]),
        &String::from("(d1=v1)"),
    )
    .unwrap();
    assert_eq!(m, Match::Yes);
}

#[test]
fn demand_offer_mismatch_cites_offer_side() {
    let m = match_demand_offer(
        &lines(&["d1=\"v1\""]),
        &String::from("(o1=v2)"),
        &lines(&["o1=\"v2\""]),
        &String::from("(d1=v3)"),
    )
    .unwrap();
    assert_eq!(
        m,
        Match::No {
            demand_mismatch: None,
            offer_mismatch: Some(Expression::Equals(any_ref("d1"), String::from("v3"))),
        }
    );
}

#[test]
fn swapping_sides_swaps_the_classification() {
    let ab = match_demand_offer(
        &lines(&["d1=\"v1\""]),
        &String::from("(o1=v2)"),
        &lines(&["o1=\"v2\""]),
        &String::from("(d1=v3)"),
    )
    .unwrap();
    let ba = match_demand_offer(
        &lines(&["o1=\"v2\""]),
        &String::from("(d1=v3)"),
        &lines(&["d1=\"v1\""]),
        &String::from("(o1=v2)"),
    )
    .unwrap();
    assert_eq!(
        ab,
        Match::No {
            demand_mismatch: None,
            offer_mismatch: Some(Expression::Equals(any_ref("d1"), String::from("v3"))),
        }
    );
    assert_eq!(
        ba,
        Match::No {
            demand_mismatch: Some(Expression::Equals(any_ref("d1"), String::from("v3"))),
            offer_mismatch: None,
        }
    );
}

#[test]
fn absent_property_is_undefined_not_false() {
    let m = match_demand_offer(
        &lines(&["d1=\"v1\""]),
        &String::from("(o3=v2)"),
        &lines(&["o1=\"v2\""]),
        &String::from("(d1=v1)"),
    )
    .unwrap();
    assert_eq!(
        m,
        Match::Undefined {
            demand_undefined: Some(Expression::Equals(any_ref("o3"), String::from("v2"))),
            offer_undefined: None,
        }
    );
}

#[test]
fn wildcard_matches_any_published_value() {
    for value in ["o1=\"x\"", "o1=17", "o1=false", "o1=[1,2]", "o1"] {
        let m = match_demand_offer(
            &lines(&[]),
            &String::from("(o1=*)"),
            &lines(&[value]),
            &String::new(),
        )
        .unwrap();
        assert_eq!(m, Match::Yes, "offer property {}", value);
    }
}

#[test]
fn malformed_property_line_is_reported() {
    let r = match_demand_offer(
        &lines(&["d1=\"v1"]),
        &String::new(),
        &lines(&[]),
        &String::new(),
    );
    assert!(matches!(r, Err(market_core::matching::PrepareError::Property(_))));
}

#[test]
fn malformed_constraint_is_reported() {
    let r = match_demand_offer(&lines(&[]), &String::from("(o1=v2"), &lines(&[]), &String::new());
    assert!(matches!(r, Err(market_core::matching::PrepareError::Constraint(_))));
}
