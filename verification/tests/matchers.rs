use droute::matchers::Any;
use droute::matchers::Matcher;
use droute::state::State;

#[test]
fn basic() {
    assert!(
        Any(vec![Matcher::Always, Matcher::Not(Box::new(Matcher::Always))])
            .matches(&State::default())
    )
}

#[test]
fn any_empty_matches_nothing() {
    assert!(!Matcher::Any(vec![]).matches(&State::default()));
    assert!(!Any::new(vec![]).matches(&State::default()));
}

#[test]
fn all_empty_matches_everything() {
    assert!(Matcher::All(vec![]).matches(&State::default()));
}

#[test]
fn any_matches_iff_some_child_does() {
    let s = State::new("example.com".to_string(), 1);
    assert!(Matcher::Any(vec![Matcher::Qtype(2), Matcher::Qtype(1)]).matches(&s));
    assert!(!Matcher::Any(vec![Matcher::Qtype(2), Matcher::Qtype(3)]).matches(&s));
}

#[test]
fn all_matches_iff_every_child_does() {
    let s = State::new("example.com".to_string(), 1);
    assert!(Matcher::All(vec![
        Matcher::Qtype(1),
        Matcher::Domain(vec!["example.com".to_string()])
    ])
    .matches(&s));
    assert!(!Matcher::All(vec![Matcher::Qtype(1), Matcher::Qtype(2)]).matches(&s));
}

#[test]
fn double_negation_is_identity() {
    let s = State::new("example.com".to_string(), 1);
    let direct = Matcher::Qtype(1).matches(&s);
    let doubled =
        Matcher::Not(Box::new(Matcher::Not(Box::new(Matcher::Qtype(1))))).matches(&s);
    assert_eq!(direct, doubled);
    let direct2 = Matcher::Qtype(9).matches(&s);
    let doubled2 =
        Matcher::Not(Box::new(Matcher::Not(Box::new(Matcher::Qtype(9))))).matches(&s);
    assert_eq!(direct2, doubled2);
}

#[test]
fn domain_leaf_checks_query_name() {
    let m = Matcher::Domain(vec!["a.org".to_string(), "b.org".to_string()]);
    assert!(m.matches(&State::new("b.org".to_string(), 1)));
    assert!(!m.matches(&State::new("c.org".to_string(), 1)));
}
