use droute::matchers::Matcher;
use droute::state::State;
use droute::table::Rule;
use droute::table::Table;

#[test]
fn first_matching_rule_wins() {
    let rules = vec![
        Rule::new(Matcher::Qtype(1), "a".to_string()),
        Rule::new(Matcher::Always, "b".to_string()),
    ];
    let t = Table::new(rules, "d".to_string());
    assert_eq!(t.route(&State::new("x".to_string(), 1)), "a");
    assert_eq!(t.route(&State::new("x".to_string(), 2)), "b");
}

#[test]
fn second_rule_routes_when_first_does_not_match() {
    let rules = vec![
        Rule::new(Matcher::Qtype(1), "a".to_string()),
        Rule::new(Matcher::Qtype(2), "b".to_string()),
    ];
    let t = Table::new(rules, "d".to_string());
    assert_eq!(t.route(&State::new("x".to_string(), 2)), "b");
}

#[test]
fn no_match_routes_to_default() {
    let rules = vec![Rule::new(Matcher::Qtype(1), "a".to_string())];
    let t = Table::new(rules, "d".to_string());
    assert_eq!(t.route(&State::new("x".to_string(), 9)), "d");
}

#[test]
fn empty_table_routes_to_default() {
    let t = Table::new(vec![], "d".to_string());
    assert_eq!(t.route(&State::default()), "d");
}
