use droute::builder::AnyBuilder;
use droute::builder::MatchError;
use droute::builder::MatcherBuilder;
use droute::state::State;

#[test]
fn any_builder_compiles_children_in_order() {
    let b = AnyBuilder::new()
        .add_matcher(MatcherBuilder::Qtype(28))
        .add_matcher(MatcherBuilder::Domain(vec!["example.com".to_string()]));
    let m = b.compile().unwrap();
    assert!(m.matches(&State::new("example.com".to_string(), 1)));
    assert!(m.matches(&State::new("other.org".to_string(), 28)));
    assert!(!m.matches(&State::new("other.org".to_string(), 1)));
}

#[test]
fn empty_any_builder_compiles_to_vacuous_false() {
    let m = AnyBuilder::new().compile().unwrap();
    assert!(!m.matches(&State::default()));
}

#[test]
fn default_builder_is_empty() {
    let m = AnyBuilder::default().compile().unwrap();
    assert!(!m.matches(&State::default()));
}

#[test]
fn failing_child_aborts_compilation_with_its_error() {
    let b = MatcherBuilder::Any(vec![
        MatcherBuilder::Qtype(1),
        MatcherBuilder::Domain(vec!["".to_string()]),
        MatcherBuilder::Qtype(2),
    ]);
    assert_eq!(
        b.compile().unwrap_err(),
        MatchError::InvalidDomain("".to_string())
    );
}

#[test]
fn nested_builder_failure_propagates_unchanged() {
    let b = MatcherBuilder::Not(Box::new(MatcherBuilder::All(vec![
        MatcherBuilder::Always,
        MatcherBuilder::Domain(vec!["ok.org".to_string(), "".to_string()]),
    ])));
    assert_eq!(
        b.compile().unwrap_err(),
        MatchError::InvalidDomain("".to_string())
    );
}

#[test]
fn compile_preserves_tree_semantics() {
    let b = MatcherBuilder::All(vec![
        MatcherBuilder::Not(Box::new(MatcherBuilder::Qtype(2))),
        MatcherBuilder::Domain(vec!["x.net".to_string()]),
    ]);
    let m = b.compile().unwrap();
    assert!(m.matches(&State::new("x.net".to_string(), 1)));
    assert!(!m.matches(&State::new("x.net".to_string(), 2)));
    assert!(!m.matches(&State::new("y.net".to_string(), 1)));
}
