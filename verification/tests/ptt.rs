use callout::agents::AgentRegistry;
use callout::glossary::Glossary;
use callout::ptt::{
    extract_agent_prefix, initial_prompt, long_enough, parse_code, parse_hotkey, plan_press,
    route_transcript, Hotkey, HotkeyError, KeyCode, Modifiers, PttRoute, MIN_SAMPLES,
};
use callout::router::{AskRouter, PendingAsk};

fn mods(alt: bool, ctrl: bool, shift: bool, meta: bool) -> Option<Modifiers> {
    Some(Modifiers { alt, ctrl, shift, meta })
}

fn cands(list: &[(&str, &str)]) -> Vec<(String, String)> {
    list.iter().map(|(a, b)| (a.to_string(), b.to_string())).collect()
}

fn ask(router: &mut AskRouter, id: &str) {
    let (tx, _rx) = tokio::sync::oneshot::channel();
    router.insert(
        id.to_string(),
        PendingAsk { agent_id: id.to_string(), question: "Q?".to_string(), choices: vec![], tx },
    );
}

#[test]
fn default_hotkey_parses() {
    assert_eq!(
        parse_hotkey("Alt+K"),
        Ok(Hotkey { mods: mods(true, false, false, false), code: KeyCode::Letter('K') })
    );
}

#[test]
fn hotkey_with_several_modifiers() {
    assert_eq!(
        parse_hotkey(" ctrl + Shift+f5 "),
        Ok(Hotkey { mods: mods(false, true, true, false), code: KeyCode::Function(5) })
    );
    assert_eq!(
        parse_hotkey("Cmd+Option+F12"),
        Ok(Hotkey { mods: mods(true, false, false, true), code: KeyCode::Function(12) })
    );
}

#[test]
fn bare_key_has_no_modifiers() {
    assert_eq!(parse_hotkey("space"), Ok(Hotkey { mods: None, code: KeyCode::Space }));
    assert_eq!(parse_code("f1"), Ok(KeyCode::Function(1)));
}

#[test]
fn hotkey_errors() {
    let e = parse_hotkey("Hyper+K").unwrap_err();
    assert_eq!(e, HotkeyError::UnknownModifier("HYPER".to_string()));
    assert_eq!(e.message(), "unknown modifier: HYPER");
    let e = parse_hotkey("Alt+F13").unwrap_err();
    assert_eq!(e, HotkeyError::UnknownKey("F13".to_string()));
    assert_eq!(e.message(), "unknown key: \"F13\". Use F1–F12, A–Z, or Space");
    assert!(parse_hotkey("Alt+").is_err());
}

#[test]
fn short_recordings_are_ignored() {
    assert_eq!(MIN_SAMPLES, 1600);
    assert!(!long_enough(1599));
    assert!(long_enough(1600));
}

#[test]
fn agent_prefix_exact_longest_first() {
    let c = cands(&[("id1", "cursor"), ("id2", "cursor agent")]);
    assert_eq!(
        extract_agent_prefix("Cursor agent, yes do it", &c),
        Some(("id2".to_string(), "yes do it".to_string()))
    );
    assert_eq!(
        extract_agent_prefix("cursor: no", &c),
        Some(("id1".to_string(), "no".to_string()))
    );
}

#[test]
fn agent_prefix_fuzzy_and_missing() {
    let c = cands(&[("id1", "frontend"), ("id2", "backend")]);
    assert_eq!(
        extract_agent_prefix("frontand yes", &c),
        Some(("id1".to_string(), "yes".to_string()))
    );
    assert_eq!(extract_agent_prefix("what time is it", &c), None);
}

#[test]
fn press_targets_preselected_agent_with_question() {
    let mut router = AskRouter::new();
    let agents = AgentRegistry::new();
    ask(&mut router, "a1");
    let plan = plan_press(Some("a1".to_string()), &router, &agents);
    assert_eq!(plan.target, Some("a1".to_string()));
    assert!(plan.candidates.is_empty());
    assert!(!plan.clear_active);
}

#[test]
fn press_lists_all_waiting_agents_otherwise() {
    let mut router = AskRouter::new();
    let mut agents = AgentRegistry::new();
    agents.register_with("a1".to_string(), 0, "frontend".to_string(), None, vec![]);
    ask(&mut router, "a1");
    ask(&mut router, "b2");
    let plan = plan_press(Some("gone".to_string()), &router, &agents);
    assert_eq!(plan.target, None);
    assert!(plan.clear_active);
    let mut got = plan.candidates.clone();
    got.sort();
    assert_eq!(got, cands(&[("a1", "frontend"), ("b2", "unknown")]));
}

#[test]
fn prompt_primes_with_terms_or_names() {
    let mut agents = AgentRegistry::new();
    agents.register_with("a1".to_string(), 0, "api".to_string(), None, vec!["OAuth".to_string()]);
    let g = Glossary::new(vec!["Assistant".to_string()], vec![]);
    assert_eq!(initial_prompt(Some("a1"), &vec![], &g, &agents), "Assistant, OAuth");
    let c = cands(&[("a1", "api"), ("b2", "web")]);
    assert_eq!(initial_prompt(None, &c, &g, &agents), "api, web");
    assert_eq!(initial_prompt(None, &vec![], &g, &agents), "");
}

#[test]
fn route_single_candidate_answers_directly() {
    let c = cands(&[("a1", "api")]);
    match route_transcript(None, &c, "yes".to_string()) {
        PttRoute::Resolve { agent_id, answer } => {
            assert_eq!(agent_id, "a1");
            assert_eq!(answer, "yes");
        }
        _ => panic!("expected Resolve"),
    }
    match route_transcript(Some("z9".to_string()), &c, "no".to_string()) {
        PttRoute::Resolve { agent_id, .. } => assert_eq!(agent_id, "z9"),
        _ => panic!("expected Resolve"),
    }
}

#[test]
fn route_several_candidates_by_name() {
    let c = cands(&[("a1", "api"), ("b2", "web")]);
    match route_transcript(None, &c, "web, ship it".to_string()) {
        PttRoute::Resolve { agent_id, answer } => {
            assert_eq!(agent_id, "b2");
            assert_eq!(answer, "ship it");
        }
        _ => panic!("expected Resolve"),
    }
    match route_transcript(None, &c, "web".to_string()) {
        PttRoute::SelectAgent { agent_id, speech } => {
            assert_eq!(agent_id, "b2");
            assert_eq!(speech, "Answering web. Hold to reply.");
        }
        _ => panic!("expected SelectAgent"),
    }
    match route_transcript(None, &c, "hmm".to_string()) {
        PttRoute::AskForName { speech } => {
            assert_eq!(speech, "Say the agent name first: api or web")
        }
        _ => panic!("expected AskForName"),
    }
    assert!(matches!(route_transcript(None, &vec![], "x".to_string()), PttRoute::Discard));
}

#[test]
fn http_ptt_prompt_and_resolution() {
    let mut router = AskRouter::new();
    let mut agents = AgentRegistry::new();
    let g = Glossary::new(vec!["Axum".to_string()], vec![]);
    assert_eq!(callout::ptt::http_prompt(&router, &agents, &g), "");
    assert!(callout::ptt::take_first_answer(&mut router, "yes".to_string()).is_none());
    agents.register_with("a1".to_string(), 0, "api".to_string(), None, vec!["JWT".to_string()]);
    let (tx, mut rx) = tokio::sync::oneshot::channel();
    router.insert(
        "a1".to_string(),
        PendingAsk { agent_id: "a1".to_string(), question: "Q?".to_string(), choices: vec![], tx },
    );
    assert_eq!(callout::ptt::http_prompt(&router, &agents, &g), "Axum, JWT");
    let (id, tx, resp) = callout::ptt::take_first_answer(&mut router, "ship it".to_string()).unwrap();
    assert_eq!(id, "a1");
    assert_eq!(resp.answer.as_deref(), Some("ship it"));
    assert_eq!(resp.raw.as_deref(), Some("ship it"));
    assert!(tx.send(resp).is_ok());
    assert_eq!(rx.try_recv().unwrap().answer.as_deref(), Some("ship it"));
    assert!(router.is_empty());
}
