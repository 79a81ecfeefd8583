use droute::matchers::Matcher;
use droute::table::Rule;
use droute::table::Table;
use droute::upstreams::ResolveStep;
use droute::upstreams::Upstream;
use droute::upstreams::UpstreamDef;
use droute::upstreams::UpstreamError;
use droute::upstreams::Upstreams;

fn direct(tag: &str) -> UpstreamDef {
    UpstreamDef {
        tag: tag.to_string(),
        upstream: Upstream::Direct {
            endpoint: "127.0.0.1:53".to_string(),
            max_clients: 4,
            timeout_ms: 2000,
        },
    }
}

fn hybrid(tag: &str, members: &[&str]) -> UpstreamDef {
    UpstreamDef {
        tag: tag.to_string(),
        upstream: Upstream::Hybrid(members.iter().map(|m| m.to_string()).collect()),
    }
}

fn table_to(dest: &str, default: &str) -> Table {
    Table::new(
        vec![Rule::new(Matcher::Always, dest.to_string())],
        default.to_string(),
    )
}

#[test]
fn duplicate_tag_rejected() {
    let defs = vec![direct("a"), direct("a")];
    let err = Upstreams::new(defs, &table_to("a", "a")).unwrap_err();
    assert_eq!(err, UpstreamError::MultipleDef("a".to_string()));
}

#[test]
fn missing_rule_destination_rejected() {
    let defs = vec![direct("a")];
    let err = Upstreams::new(defs, &table_to("x", "a")).unwrap_err();
    assert_eq!(err, UpstreamError::MissingTag("x".to_string()));
}

#[test]
fn missing_default_tag_rejected() {
    let defs = vec![direct("a")];
    let err = Upstreams::new(defs, &table_to("a", "nowhere")).unwrap_err();
    assert_eq!(err, UpstreamError::MissingTag("nowhere".to_string()));
}

#[test]
fn missing_hybrid_member_rejected() {
    let defs = vec![direct("a"), hybrid("h", &["a", "ghost"])];
    let err = Upstreams::new(defs, &table_to("h", "a")).unwrap_err();
    assert_eq!(err, UpstreamError::MissingTag("ghost".to_string()));
}

#[test]
fn empty_hybrid_rejected() {
    let defs = vec![direct("a"), hybrid("h", &[])];
    let err = Upstreams::new(defs, &table_to("h", "a")).unwrap_err();
    assert_eq!(err, UpstreamError::EmptyHybrid("h".to_string()));
}

#[test]
fn self_referencing_hybrid_rejected() {
    let defs = vec![direct("a"), hybrid("h", &["a", "h"])];
    let err = Upstreams::new(defs, &table_to("h", "a")).unwrap_err();
    assert_eq!(err, UpstreamError::HybridRecursion("h".to_string()));
}

#[test]
fn indirect_hybrid_recursion_rejected() {
    let defs = vec![direct("a"), hybrid("h1", &["h2"]), hybrid("h2", &["h1", "a"])];
    let err = Upstreams::new(defs, &table_to("h1", "a")).unwrap_err();
    assert_eq!(err, UpstreamError::HybridRecursion("h1".to_string()));
}

#[test]
fn unused_upstream_reported() {
    let defs = vec![direct("a"), direct("b")];
    let err = Upstreams::new(defs, &table_to("a", "a")).unwrap_err();
    assert_eq!(err, UpstreamError::UnusedUpstreams(vec!["b".to_string()]));
}

#[test]
fn valid_registry_built_and_looked_up() {
    let defs = vec![direct("a"), hybrid("h", &["a", "b"]), direct("b")];
    let ups = Upstreams::new(defs, &table_to("h", "a")).unwrap();
    match ups.lookup(&"h".to_string()) {
        Some(Upstream::Hybrid(ms)) => {
            assert_eq!(ms, &vec!["a".to_string(), "b".to_string()]);
        }
        _ => panic!("hybrid definition expected under its tag"),
    }
    assert!(ups.lookup(&"zz".to_string()).is_none());
}

#[test]
fn plan_follows_the_definition() {
    let defs = vec![direct("a"), hybrid("h", &["a"])];
    let ups = Upstreams::new(defs, &table_to("h", "a")).unwrap();
    match ups.plan(&"a".to_string()) {
        ResolveStep::Exchange {
            endpoint,
            max_clients,
            timeout_ms,
        } => {
            assert_eq!(endpoint, "127.0.0.1:53");
            assert_eq!(max_clients, 4);
            assert_eq!(timeout_ms, 2000);
        }
        _ => panic!("a direct upstream must plan an exchange"),
    }
    match ups.plan(&"h".to_string()) {
        ResolveStep::Race(ms) => assert_eq!(ms, vec!["a".to_string()]),
        _ => panic!("a hybrid upstream must plan a race"),
    }
    assert!(matches!(
        ups.plan(&"zz".to_string()),
        ResolveStep::Undefined
    ));
}
