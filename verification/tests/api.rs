use callout::agents::AgentRegistry;
use callout::api::{
    self, ask_outcome, begin_ask, build_spoken_prompt, end_ask, plan_ask, ApiError, AskRequest,
    ChoiceInput, NotifyRequest, RegisterRequest, DEFAULT_TIMEOUT_SECS, MAX_TIMEOUT_SECS,
};
use callout::router::{AskResponse, AskRouter};

fn register_request(name: &str) -> RegisterRequest {
    RegisterRequest { name: name.to_string(), description: None, context_terms: vec![] }
}

fn ask_request(question: &str, timeout: Option<u64>, default: Option<&str>) -> AskRequest {
    AskRequest {
        agent_id: "abc123".to_string(),
        question: question.to_string(),
        choices: vec![],
        multi_select: false,
        timeout_seconds: timeout,
        default: default.map(|d| d.to_string()),
    }
}

#[test]
fn register_returns_6_char_agent_id() {
    let mut agents = AgentRegistry::new();
    let resp = api::register(&mut agents, register_request("Assistant")).unwrap();
    assert_eq!(resp.agent_id.len(), 6);
    assert_eq!(agents.name(&resp.agent_id), "Assistant");
}

#[test]
fn register_empty_name_is_400() {
    let mut agents = AgentRegistry::new();
    let err = api::register(&mut agents, register_request("  ")).err().unwrap();
    assert_eq!(err.status(), 400);
    assert!(!err.message().is_empty());
    assert_eq!(agents.all().len(), 0);
}

#[test]
fn deregister_existing_agent_is_204() {
    let mut agents = AgentRegistry::new();
    let id = api::register(&mut agents, register_request("Bot")).unwrap().agent_id;
    assert_eq!(api::deregister(&mut agents, &id).ok(), Some(204));
    assert_eq!(agents.all().len(), 0);
}

#[test]
fn deregister_unknown_agent_is_404() {
    let mut agents = AgentRegistry::new();
    let err = api::deregister(&mut agents, "zzzzzz").err().unwrap();
    assert_eq!(err.status(), 404);
    assert!(matches!(err, ApiError::NotFound(_)));
}

#[test]
fn status_returns_registered_agents() {
    let mut agents = AgentRegistry::new();
    let id = api::register(&mut agents, register_request("StatusBot")).unwrap().agent_id;
    let body = api::status(&agents);
    assert_eq!(body.agents.len(), 1);
    assert_eq!(body.agents[0].id, id);
    assert_eq!(body.agents[0].name, "StatusBot");
    assert_eq!(body.agents[0].state, "idle");
}

#[test]
fn status_empty_when_no_agents() {
    let agents = AgentRegistry::new();
    assert_eq!(api::status(&agents).agents.len(), 0);
}

#[test]
fn notify_empty_message_is_400() {
    let mut agents = AgentRegistry::new();
    let req = NotifyRequest { agent_id: "abc123".to_string(), message: "".to_string() };
    let err = api::notify(&mut agents, &req).err().unwrap();
    assert_eq!(err.status(), 400);
    assert!(matches!(err, ApiError::BadRequest(_)));
}

#[test]
fn notify_unknown_agent_succeeds_as_unknown() {
    let mut agents = AgentRegistry::new();
    let req = NotifyRequest { agent_id: "nobody".to_string(), message: "hello".to_string() };
    assert_eq!(api::notify(&mut agents, &req).ok(), Some("unknown: hello".to_string()));
}

#[test]
fn ask_empty_question_is_400() {
    let err = plan_ask(&ask_request("  ", None, None)).err().unwrap();
    assert_eq!(err.status(), 400);
    assert!(matches!(err, ApiError::BadRequest(_)));
}

#[test]
fn ask_invalid_timeout_is_400() {
    let err = plan_ask(&ask_request("Ready?", Some(9999), None)).err().unwrap();
    assert_eq!(err.status(), 400);
}

#[test]
fn ask_times_out_and_returns_default() {
    let req = ask_request("Shall we proceed?", Some(1), Some("yes"));
    assert_eq!(plan_ask(&req).ok(), Some(1));
    let body = ask_outcome(None, req.default.clone());
    assert!(body.timed_out);
    assert_eq!(body.answer.as_deref(), Some("yes"));
    assert_eq!(body.answers, vec!["yes".to_string()]);
    assert_eq!(body.raw, None);
}

#[test]
fn ask_timeout_bounds() {
    assert_eq!(plan_ask(&ask_request("q", None, None)).ok(), Some(DEFAULT_TIMEOUT_SECS));
    assert_eq!(plan_ask(&ask_request("q", Some(MAX_TIMEOUT_SECS), None)).ok(), Some(3600));
    assert_eq!(plan_ask(&ask_request("q", Some(0), None)).ok(), Some(0));
    assert!(plan_ask(&ask_request("q", Some(3601), None)).is_err());
}

#[test]
fn ask_timeout_without_default_has_no_answer() {
    let body = ask_outcome(None, None);
    assert!(body.timed_out);
    assert_eq!(body.answer, None);
    assert!(body.answers.is_empty());
}

#[test]
fn ask_answered_passes_reply_through() {
    let reply = AskResponse { answer: Some("B".to_string()), raw: Some("no keep them".to_string()) };
    let body = ask_outcome(Some(reply), Some("C".to_string()));
    assert!(!body.timed_out);
    assert_eq!(body.answer.as_deref(), Some("B"));
    assert_eq!(body.answers, vec!["B".to_string()]);
    assert_eq!(body.raw.as_deref(), Some("no keep them"));
}

#[test]
fn spoken_prompt_reads_choices() {
    let choices = vec![
        ChoiceInput { key: "A".to_string(), label: "Yes".to_string() },
        ChoiceInput { key: "B".to_string(), label: "No".to_string() },
    ];
    assert_eq!(
        build_spoken_prompt("auth-refactor", "Delete files?", &choices),
        "auth-refactor asks: Delete files?. A: Yes. B: No"
    );
    assert_eq!(build_spoken_prompt("x", "Go?", &[]), "x asks: Go?");
}

#[test]
fn ask_marks_agent_waiting_then_cleans_up() {
    let mut agents = AgentRegistry::new();
    let mut router = AskRouter::new();
    let id = api::register(&mut agents, register_request("Bot")).unwrap().agent_id;
    let mut req = ask_request("Ship it?", None, None);
    req.agent_id = id.clone();
    let (tx, _rx) = tokio::sync::oneshot::channel::<AskResponse>();
    let spoken = begin_ask(&mut agents, &mut router, &req, tx);
    assert_eq!(spoken, "Bot asks: Ship it?");
    assert_eq!(router.pending_question(&id), Some("Ship it?"));
    assert_eq!(api::status(&agents).agents[0].state, "waiting");
    end_ask(&mut agents, &mut router, &id);
    assert!(router.is_empty());
    assert_eq!(api::status(&agents).agents[0].state, "idle");
}

#[test]
fn notify_registered_agent_uses_its_name() {
    let mut agents = AgentRegistry::new();
    let id = api::register(&mut agents, register_request("builder")).unwrap().agent_id;
    let req = NotifyRequest { agent_id: id, message: "Build finished".to_string() };
    assert_eq!(api::notify(&mut agents, &req).ok(), Some("builder: Build finished".to_string()));
}
