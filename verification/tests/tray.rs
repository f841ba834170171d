use callout::agents::{AgentRegistry, AgentState};
use callout::router::{AskRouter, PendingAsk};
use callout::tray::{
    agent_from_menu_id, consults_processed, format_hotkey, icon_change, icon_look, icon_rgba,
    icon_state, menu_entries, mic_pixels, truncate, IconState, MenuEntry, MenuRow, MenuSnapshot,
    Rgba,
};

fn labels(entries: &[MenuEntry]) -> Vec<String> {
    entries
        .iter()
        .map(|e| match e {
            MenuEntry::Separator => "---".to_string(),
            MenuEntry::Item { label, .. } => label.clone(),
        })
        .collect()
}

#[test]
fn truncate_keeps_short_text() {
    assert_eq!(truncate("Delete files?", 30), "Delete files?");
    assert_eq!(truncate("abcdef", 3), "abc…");
    assert_eq!(truncate("héllo wörld", 5), "héllo…");
    assert_eq!(truncate("", 0), "");
}

#[test]
fn hotkeys_use_menu_bar_glyphs() {
    assert_eq!(format_hotkey("Alt+K"), "⌥K");
    assert_eq!(format_hotkey("Ctrl+Shift+F5"), "⌃⇧F5");
    assert_eq!(format_hotkey("cmd + space"), "⌘SPACE");
}

#[test]
fn menu_ids_name_agents() {
    assert_eq!(agent_from_menu_id("agent:abc123"), Some("abc123".to_string()));
    assert_eq!(agent_from_menu_id("quit"), None);
}

#[test]
fn icon_priority() {
    assert_eq!(icon_state(true, true, true), IconState::Recording);
    assert_eq!(icon_state(false, true, true), IconState::Speaking);
    assert_eq!(icon_state(false, false, true), IconState::Processed);
    assert_eq!(icon_state(false, false, false), IconState::Idle);
    assert!(consults_processed(false, false));
    assert!(!consults_processed(true, false));
}

#[test]
fn icon_changes_only_on_transition() {
    assert!(icon_change(IconState::Idle, IconState::Idle).is_none());
    let look = icon_change(IconState::Idle, IconState::Recording).unwrap();
    assert_eq!(look.badge, Some(Rgba { r: 220, g: 38, b: 38, a: 255 }));
    assert!(!look.template);
    assert_eq!(look.tooltip, "callout — recording");
    let idle = icon_look(IconState::Idle);
    assert!(idle.badge.is_none() && idle.template);
    assert_eq!(idle.tooltip, "callout");
    assert_eq!(icon_look(IconState::Speaking).badge, Some(Rgba { r: 251, g: 146, b: 60, a: 255 }));
    assert_eq!(icon_look(IconState::Processed).tooltip, "callout — heard you");
}

#[test]
fn mic_pixels_shape() {
    let on = mic_pixels();
    assert_eq!(on.len(), 22);
    assert!(on.iter().all(|row| row.len() == 22));
    assert!(!on[2][7] && on[2][8] && on[2][14] == false);
    assert!(on[11][7] && on[15][10] && on[17][11] && on[18][8] && !on[18][7]);
    assert_eq!(on.iter().flatten().filter(|p| **p).count(), 8 * 10 - 2 + 2 * 3 + 8 + 4 + 6);
}

#[test]
fn icon_bytes() {
    let plain = icon_rgba(None);
    assert_eq!(plain.len(), 22 * 22 * 4);
    let px = |v: &Vec<u8>, y: usize, x: usize| v[(y * 22 + x) * 4..(y * 22 + x) * 4 + 4].to_vec();
    assert_eq!(px(&plain, 5, 10), vec![0, 0, 0, 255]);
    assert_eq!(px(&plain, 0, 0), vec![0, 0, 0, 0]);
    let red = Rgba { r: 220, g: 38, b: 38, a: 255 };
    let badged = icon_rgba(Some(red));
    assert_eq!(px(&badged, 4, 17), vec![220, 38, 38, 255]);
    assert_eq!(px(&badged, 0, 15), vec![220, 38, 38, 255]);
    assert_eq!(px(&badged, 0, 14), vec![0, 0, 0, 0]);
    assert_eq!(px(&badged, 9, 10), vec![255, 255, 255, 255]);
    assert_eq!(px(&badged, 9, 8), vec![255, 255, 255, 255]);
    assert_eq!(px(&badged, 20, 0), vec![0, 0, 0, 0]);
}

#[test]
fn empty_menu() {
    let snap = MenuSnapshot::default();
    assert_eq!(
        labels(&menu_entries("⌥K", &snap)),
        vec!["No agents connected", "---", "Hold ⌥K to speak", "---", "Quit callout"]
    );
    match menu_entries("⌥K", &snap).last().unwrap() {
        MenuEntry::Item { id, enabled, .. } => {
            assert_eq!(id.as_deref(), Some("quit"));
            assert!(*enabled);
        }
        _ => panic!("expected Quit"),
    }
}

#[test]
fn menu_lists_agents_with_questions() {
    let mut agents = AgentRegistry::new();
    let mut router = AskRouter::new();
    agents.register_with("a1".to_string(), 0, "api".to_string(), None, vec![]);
    agents.register_with("b2".to_string(), 0, "web".to_string(), None, vec![]);
    agents.set_state("a1", AgentState::Waiting);
    let (tx, _rx) = tokio::sync::oneshot::channel();
    router.insert(
        "a1".to_string(),
        PendingAsk {
            agent_id: "a1".to_string(),
            question: "Should I delete all the generated files now?".to_string(),
            choices: vec![],
            tx,
        },
    );
    let snap = MenuSnapshot::capture(true, &agents, &router, &Some("a1".to_string()));
    assert_eq!(snap.rows.len(), 2);
    assert_eq!(snap.rows[0].question.as_deref(), Some("Should I delete all the genera…"));
    assert_eq!(snap.rows[1].question, None);
    let entries = menu_entries("⌥K", &snap);
    assert_eq!(
        labels(&entries),
        vec![
            "● Recording…",
            "---",
            "→ api  ⏳ Should I delete all the genera…",
            "web",
            "---",
            "Hold ⌥K to speak",
            "---",
            "Quit callout"
        ]
    );
    match &entries[2] {
        MenuEntry::Item { id, enabled, .. } => {
            assert_eq!(id.as_deref(), Some("agent:a1"));
            assert!(*enabled);
        }
        _ => panic!("expected agent item"),
    }
    match &entries[3] {
        MenuEntry::Item { id, enabled, .. } => {
            assert!(id.is_none());
            assert!(!*enabled);
        }
        _ => panic!("expected agent item"),
    }
    let again = MenuSnapshot::capture(true, &agents, &router, &Some("a1".to_string()));
    assert!(snap.same_as(&again));
    let other = MenuSnapshot::capture(false, &agents, &router, &Some("a1".to_string()));
    assert!(!snap.same_as(&other));
}

#[test]
fn waiting_without_question_shows_hourglass() {
    let snap = MenuSnapshot {
        recording: false,
        rows: vec![MenuRow {
            agent_id: "x".to_string(),
            name: "bot".to_string(),
            state: AgentState::Waiting,
            question: None,
        }],
        active_agent_id: None,
    };
    assert_eq!(labels(&menu_entries("F5", &snap))[0], "bot  ⏳");
}
