use callout::agents::{AgentRegistry, AgentState, STALE_SECS};

#[test]
fn registered_agent_is_known_by_name() {
    let mut r = AgentRegistry::new();
    let id = r.register("auth-refactor".to_string(), Some("Refactoring".to_string()), vec!["OAuth".to_string()]);
    assert_eq!(id.len(), 6);
    assert!(id.chars().all(|c| c.is_ascii_hexdigit() && !c.is_ascii_uppercase()));
    assert_eq!(r.name(&id), "auth-refactor");
    assert_eq!(r.context_terms(&id), vec!["OAuth".to_string()]);
    let all = r.all();
    assert_eq!(all.len(), 1);
    assert_eq!(all[0].state, AgentState::Idle);
    assert_eq!(all[0].description.as_deref(), Some("Refactoring"));
}

#[test]
fn unknown_agent_is_spoken_as_unknown() {
    let r = AgentRegistry::new();
    assert_eq!(r.name("nobody"), "unknown");
    assert!(r.context_terms("nobody").is_empty());
}

#[test]
fn remove_reports_whether_present() {
    let mut r = AgentRegistry::new();
    r.register_with("abc123".to_string(), 10, "Bot".to_string(), None, vec![]);
    assert!(r.remove("abc123"));
    assert!(!r.remove("abc123"));
    assert_eq!(r.name("abc123"), "unknown");
}

#[test]
fn set_state_and_touch_change_only_that_agent() {
    let mut r = AgentRegistry::new();
    r.register_with("aaa111".to_string(), 5, "A".to_string(), None, vec![]);
    r.register_with("bbb222".to_string(), 5, "B".to_string(), None, vec![]);
    r.set_state("aaa111", AgentState::Waiting);
    r.touch_at("bbb222", 50);
    r.set_state("zzz999", AgentState::Waiting);
    let all = r.all();
    assert_eq!(all.len(), 2);
    assert_eq!(all[0].id, "aaa111");
    assert_eq!(all[0].state, AgentState::Waiting);
    assert_eq!(all[0].last_seen, 5);
    assert_eq!(all[1].state, AgentState::Idle);
    assert_eq!(all[1].last_seen, 50);
}

#[test]
fn all_is_sorted_by_id() {
    let mut r = AgentRegistry::new();
    for id in ["c3c3c3", "a1a1a1", "b2b2b2"] {
        r.register_with(id.to_string(), 0, id.to_string(), None, vec![]);
    }
    let ids: Vec<String> = r.all().iter().map(|a| a.id.clone()).collect();
    assert_eq!(ids, vec!["a1a1a1", "b2b2b2", "c3c3c3"]);
}

#[test]
fn register_with_same_id_replaces() {
    let mut r = AgentRegistry::new();
    r.register_with("abc123".to_string(), 0, "Old".to_string(), None, vec![]);
    r.register_with("abc123".to_string(), 1, "New".to_string(), None, vec![]);
    assert_eq!(r.all().len(), 1);
    assert_eq!(r.name("abc123"), "New");
}

#[test]
fn prune_keeps_exactly_fresh_agents() {
    let mut r = AgentRegistry::new();
    r.register_with("old000".to_string(), 0, "Old".to_string(), None, vec![]);
    r.register_with("new000".to_string(), 101, "New".to_string(), None, vec![]);
    r.register_with("edge00".to_string(), 400 - STALE_SECS, "Edge".to_string(), None, vec![]);
    r.prune_stale_at(400, STALE_SECS);
    let ids: Vec<String> = r.all().iter().map(|a| a.id.clone()).collect();
    assert_eq!(ids, vec!["new000"]);
    r.prune_stale_at(400, STALE_SECS);
    assert_eq!(r.all().len(), 1);
}

#[test]
fn touched_agent_survives_prune() {
    let mut r = AgentRegistry::new();
    r.register_with("abc123".to_string(), 0, "Bot".to_string(), None, vec![]);
    r.touch_at("abc123", 1000);
    r.prune_stale_at(1000 + STALE_SECS - 1, STALE_SECS);
    assert_eq!(r.name("abc123"), "Bot");
    r.prune_stale();
    assert_eq!(r.all().len(), 1);
}
