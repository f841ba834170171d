use callout::router::{answer_for, match_choice, response_for, AskResponse, AskRouter, Choice, PendingAsk};
use tokio::sync::oneshot;

fn choice(key: &str, label: &str) -> Choice {
    Choice { key: key.to_string(), label: label.to_string() }
}

fn pending(agent: &str, question: &str, choices: Vec<Choice>) -> (PendingAsk, oneshot::Receiver<AskResponse>) {
    let (tx, rx) = oneshot::channel();
    (
        PendingAsk { agent_id: agent.to_string(), question: question.to_string(), choices, tx },
        rx,
    )
}

fn abc() -> Vec<Choice> {
    vec![
        choice("A", "Yes, delete them"),
        choice("B", "No, keep them"),
        choice("C", "Skip for now"),
    ]
}

#[test]
fn exact_mention_of_label_selects_choice() {
    assert_eq!(match_choice(&abc(), "skip for now"), Some(2));
}

#[test]
fn first_mentioned_choice_wins() {
    let cs = vec![choice("deny", "deny"), choice("allow", "allow")];
    assert_eq!(match_choice(&cs, "allow, no wait, DENY"), Some(0));
    assert_eq!(answer_for(&cs, "Allow it"), "allow");
}

#[test]
fn fuzzy_match_selects_close_label() {
    assert_eq!(match_choice(&abc(), "no keep them"), Some(1));
    assert_eq!(answer_for(&abc(), "no keep them"), "B");
}

#[test]
fn unmatched_transcript_is_returned_raw() {
    let cs = vec![choice("x", "xylophone")];
    assert_eq!(match_choice(&cs, "zzz"), None);
    assert_eq!(answer_for(&cs, "zzz"), "zzz");
}

#[test]
fn free_answer_without_choices() {
    assert_eq!(answer_for(&vec![], "Use the staging database"), "Use the staging database");
    let r = response_for(&vec![], "ok".to_string());
    assert_eq!(r.answer.as_deref(), Some("ok"));
    assert_eq!(r.raw.as_deref(), Some("ok"));
}

#[test]
fn resolve_delivers_answer_once() {
    let mut router = AskRouter::new();
    let (ask, mut rx) = pending("abc123", "Delete?", abc());
    router.insert("abc123".to_string(), ask);
    assert_eq!(router.pending_question("abc123"), Some("Delete?"));
    assert_eq!(router.first_pending_id(), Some("abc123".to_string()));
    assert!(router.resolve("abc123", "yes, delete them".to_string()));
    let resp = rx.try_recv().unwrap();
    assert_eq!(resp.answer.as_deref(), Some("A"));
    assert_eq!(resp.raw.as_deref(), Some("yes, delete them"));
    assert!(!router.resolve("abc123", "again".to_string()));
    assert!(router.is_empty());
}

#[test]
fn newer_question_replaces_older() {
    let mut router = AskRouter::new();
    let (a1, _r1) = pending("abc123", "First?", vec![]);
    let (a2, _r2) = pending("abc123", "Second?", vec![]);
    router.insert("abc123".to_string(), a1);
    router.insert("abc123".to_string(), a2);
    assert_eq!(router.pending_question("abc123"), Some("Second?"));
    assert_eq!(router.pending_agent_ids(), vec!["abc123".to_string()]);
}

#[test]
fn remove_hands_back_the_ask() {
    let mut router = AskRouter::new();
    let (a, _r) = pending("x", "Q?", vec![]);
    router.insert("x".to_string(), a);
    let got = router.remove("x").unwrap();
    assert_eq!(got.question, "Q?");
    assert!(router.remove("x").is_none());
    assert_eq!(router.first_pending_id(), None);
}

#[test]
fn single_letter_key_matches_inside_words() {
    assert_eq!(match_choice(&abc(), "please skip"), Some(0));
}

#[test]
fn take_answer_hands_back_channel_and_response() {
    let mut router = AskRouter::new();
    let (ask, mut rx) = pending("abc123", "Delete?", abc());
    router.insert("abc123".to_string(), ask);
    let (tx, resp) = router.take_answer("abc123", "no, keep them".to_string()).unwrap();
    assert_eq!(resp.answer.as_deref(), Some("B"));
    assert_eq!(resp.raw.as_deref(), Some("no, keep them"));
    assert!(router.is_empty());
    assert!(router.take_answer("abc123", "again".to_string()).is_none());
    assert!(tx.send(resp).is_ok());
    assert_eq!(rx.try_recv().unwrap().answer.as_deref(), Some("B"));
}

#[test]
fn take_answer_returns_that_agents_channel() {
    let mut router = AskRouter::new();
    let (a1, mut rx1) = pending("a1", "First?", vec![]);
    let (a2, mut rx2) = pending("b2", "Second?", vec![]);
    router.insert("a1".to_string(), a1);
    router.insert("b2".to_string(), a2);
    let (tx, resp) = router.take_answer("b2", "for b2".to_string()).unwrap();
    assert!(tx.send(resp).is_ok());
    assert_eq!(rx2.try_recv().unwrap().answer.as_deref(), Some("for b2"));
    assert!(rx1.try_recv().is_err());
    assert_eq!(router.pending_question("a1"), Some("First?"));
}
