//! Coding-agent hooks: the session registry, the spoken permission question,
//! the decision handed back, and the steps that find a session's agent id.
use vstd::prelude::*;
use crate::keyed::{
    has_key, keyed_map, lemma_keyed_at, lemma_keyed_empty, lemma_keyed_push, lemma_keyed_update,
    unique_keys,
};
use crate::router::{answer_spec, exact_hit, law_first_mentioned_choice_wins, ChoiceView};
use crate::text::{
    ascii_lower, char_pos, concat2, contains_seq, decimal, is_ascii_text, lowercase, owned,
    split_char, split_on, str_eq, to_lowercase, u64_to_decimal,
};

verus! {

// ---------------------------------------------------------------------------
// The session registry
// ---------------------------------------------------------------------------

/// The agent a coding-agent session talks as.
pub struct SessionEntry {
    pub agent_id: String,
}

spec fn session_key() -> spec_fn((String, SessionEntry)) -> Seq<char> {
    |e: (String, SessionEntry)| e.0@
}

spec fn session_val() -> spec_fn((String, SessionEntry)) -> Seq<char> {
    |e: (String, SessionEntry)| e.1.agent_id@
}

/// Session ids mapped to the agent ids they registered as.
pub struct SessionRegistry {
    entries: Vec<(String, SessionEntry)>,
}

impl View for SessionRegistry {
    type V = Map<Seq<char>, Seq<char>>;

    closed spec fn view(&self) -> Map<Seq<char>, Seq<char>> {
        keyed_map(self.entries@, session_key(), session_val())
    }
}

impl SessionRegistry {
    #[verifier::type_invariant]
    spec fn distinct_sessions(self) -> bool {
        unique_keys(self.entries@, session_key())
    }

    /// An empty registry.
    pub fn new() -> (r: Self)
        ensures
            r@ == Map::<Seq<char>, Seq<char>>::empty(),
    {
        let r = SessionRegistry { entries: Vec::new() };
        proof {
            lemma_keyed_empty(r.entries@, session_key(), session_val());
        }
        r
    }

    fn find(&self, session_id: &str) -> (r: Option<usize>)
        ensures
            match r {
                Some(i) => i < self.entries@.len() && self.entries@[i as int].0@ == session_id@,
                None => !has_key(self.entries@, session_key(), session_id@),
            },
    {
        let mut i: usize = 0;
        while i < self.entries.len()
            invariant
                i <= self.entries@.len(),
                forall|k: int| 0 <= k < i ==> (#[trigger] self.entries@[k]).0@ != session_id@,
            decreases self.entries.len() - i,
        {
            if str_eq(self.entries[i].0.as_str(), session_id) {
                return Some(i);
            }
            i = i + 1;
        }
        None
    }

    /// The agent id cached for `session_id`, if any.
    pub fn get(&self, session_id: &str) -> (r: Option<String>)
        ensures
            r is Some <==> self@.contains_key(session_id@),
            r matches Some(a) ==> a@ == self@[session_id@],
    {
        proof {
            use_type_invariant(self);
        }
        match self.find(session_id) {
            Some(i) => {
                proof {
                    lemma_keyed_at(self.entries@, session_key(), session_val(), i as int);
                }
                Some(self.entries[i].1.agent_id.clone())
            },
            None => None,
        }
    }

    /// Caches `agent_id` for `session_id`, replacing what was cached.
    pub fn insert(&mut self, session_id: String, entry: SessionEntry)
        ensures
            final(self)@ == old(self)@.insert(session_id@, entry.agent_id@),
    {
        proof {
            use_type_invariant(&*self);
        }
        let found = self.find(session_id.as_str());
        let e = (session_id, entry);
        let ghost before = self.entries@;
        let mut entries = Vec::new();
        std::mem::swap(&mut entries, &mut self.entries);
        match found {
            Some(i) => {
                proof {
                    lemma_keyed_update(before, session_key(), session_val(), i as int, e);
                }
                entries.set(i, e);
            },
            None => {
                proof {
                    lemma_keyed_push(before, session_key(), session_val(), e);
                }
                entries.push(e);
            },
        }
        self.entries = entries;
    }

    /// The entries as (session id, agent id) pairs, each session once.
    pub fn to_pairs(&self) -> (pairs: Vec<(String, String)>)
        ensures
            forall|i: int|
                0 <= i < pairs@.len() ==> self@.contains_key((#[trigger] pairs@[i]).0@)
                    && self@[pairs@[i].0@] == pairs@[i].1@,
            forall|k: Seq<char>|
                #[trigger] self@.contains_key(k) ==> exists|i: int|
                    0 <= i < pairs@.len() && (#[trigger] pairs@[i]).0@ == k,
    {
        proof {
            use_type_invariant(self);
        }
        let mut pairs: Vec<(String, String)> = Vec::new();
        let mut i: usize = 0;
        while i < self.entries.len()
            invariant
                i <= self.entries@.len(),
                pairs@.len() == i,
                forall|m: int| 0 <= m < i ==> (#[trigger] pairs@[m]).0@ == self.entries@[m].0@
                    && pairs@[m].1@ == self.entries@[m].1.agent_id@,
            decreases self.entries.len() - i,
        {
            pairs.push((self.entries[i].0.clone(), self.entries[i].1.agent_id.clone()));
            i = i + 1;
        }
        proof {
            assert forall|m: int| 0 <= m < pairs@.len() implies self@.contains_key(
                (#[trigger] pairs@[m]).0@,
            ) && self@[pairs@[m].0@] == pairs@[m].1@ by {
                lemma_keyed_at(self.entries@, session_key(), session_val(), m);
            }
            assert forall|k: Seq<char>| #[trigger] self@.contains_key(k) implies exists|m: int|
                0 <= m < pairs@.len() && (#[trigger] pairs@[m]).0@ == k by {
                let m = choose|m: int|
                    0 <= m < self.entries@.len() && session_key()(#[trigger] self.entries@[m])
                        == k;
                assert(pairs@[m].0@ == k);
            }
        }
        pairs
    }
}

// ---------------------------------------------------------------------------
// Finding a session's agent id
// ---------------------------------------------------------------------------

/// The next step in finding the agent id a session talks as.
pub enum ResolveAction {
    /// Ask the daemon which agent ids it knows; `cached` is the session's.
    CheckStatus { cached: String },
    /// Register a new agent under `name`.
    Register { name: String },
    /// Save the registry, then use `agent_id`.
    SaveThenUse { agent_id: String },
    /// Use `agent_id`.
    Use { agent_id: String },
}

/// A resolution step, as texts.
pub enum ResolveActionView {
    CheckStatus { cached: Seq<char> },
    Register { name: Seq<char> },
    SaveThenUse { agent_id: Seq<char> },
    Use { agent_id: Seq<char> },
}

impl View for ResolveAction {
    type V = ResolveActionView;

    open spec fn view(&self) -> ResolveActionView {
        match self {
            ResolveAction::CheckStatus { cached } => ResolveActionView::CheckStatus {
                cached: cached@,
            },
            ResolveAction::Register { name } => ResolveActionView::Register { name: name@ },
            ResolveAction::SaveThenUse { agent_id } => ResolveActionView::SaveThenUse {
                agent_id: agent_id@,
            },
            ResolveAction::Use { agent_id } => ResolveActionView::Use { agent_id: agent_id@ },
        }
    }
}

/// The first step for a session: check the cached agent id if there is one,
/// otherwise register under `name_hint`.
pub open spec fn start_action(
    registry: Map<Seq<char>, Seq<char>>,
    session_id: Seq<char>,
    name_hint: Seq<char>,
) -> ResolveActionView {
    if registry.contains_key(session_id) {
        ResolveActionView::CheckStatus { cached: registry[session_id] }
    } else {
        ResolveActionView::Register { name: name_hint }
    }
}

/// The step after the daemon listed the ids it knows: use the cached id if
/// it is among them; otherwise (the daemon restarted) register again.
pub open spec fn status_action(
    cached: Seq<char>,
    known_ids: Seq<Seq<char>>,
    name_hint: Seq<char>,
) -> ResolveActionView {
    if known_ids.contains(cached) {
        ResolveActionView::Use { agent_id: cached }
    } else {
        ResolveActionView::Register { name: name_hint }
    }
}

/// First step: a session with a cached agent id checks it is still known;
/// one without registers under `name_hint`.
pub fn resolve_start(
    registry: &SessionRegistry,
    session_id: &str,
    name_hint: &str,
) -> (a: ResolveAction)
    ensures
        a@ == start_action(registry@, session_id@, name_hint@),
{
    match registry.get(session_id) {
        Some(cached) => ResolveAction::CheckStatus { cached },
        None => ResolveAction::Register { name: name_hint.to_owned() },
    }
}

/// After the daemon listed the ids it knows: the cached id is used if it is
/// among them; otherwise (the daemon restarted) a new agent is registered.
pub fn resolve_after_status(
    cached: &str,
    known_ids: &Vec<String>,
    name_hint: &str,
) -> (a: ResolveAction)
    ensures
        a@ == status_action(cached@, known_ids@.map_values(|k: String| k@), name_hint@),
{
    let ghost kv = known_ids@.map_values(|k: String| k@);
    let mut i: usize = 0;
    while i < known_ids.len()
        invariant
            i <= known_ids@.len(),
            kv == known_ids@.map_values(|k: String| k@),
            forall|k: int| 0 <= k < i ==> (#[trigger] known_ids@[k])@ != cached@,
        decreases known_ids.len() - i,
    {
        if str_eq(known_ids[i].as_str(), cached) {
            assert(kv[i as int] == cached@);
            return ResolveAction::Use { agent_id: cached.to_owned() };
        }
        i = i + 1;
    }
    assert(!kv.contains(cached@)) by {
        if kv.contains(cached@) {
            let j = choose|j: int| 0 <= j < kv.len() && kv[j] == cached@;
            assert(known_ids@[j]@ == cached@);
        }
    }
    ResolveAction::Register { name: name_hint.to_owned() }
}

/// After a new agent was registered: its id is cached for the session, and
/// the registry is to be saved before the id is used.
pub fn resolve_after_register(
    registry: &mut SessionRegistry,
    session_id: &str,
    agent_id: String,
) -> (a: ResolveAction)
    ensures
        final(registry)@ == old(registry)@.insert(session_id@, agent_id@),
        a@ == (ResolveActionView::SaveThenUse { agent_id: agent_id@ }),
{
    let id = agent_id.clone();
    registry.insert(session_id.to_owned(), SessionEntry { agent_id });
    ResolveAction::SaveThenUse { agent_id: id }
}

/// A session's agent id is reused while the daemon still knows it; after the
/// daemon forgot it, the session registers again and the new id is what the
/// next hook of the session checks.
pub proof fn law_session_reuses_agent(
    registry: Map<Seq<char>, Seq<char>>,
    session_id: Seq<char>,
    known_ids: Seq<Seq<char>>,
    name_hint: Seq<char>,
    new_id: Seq<char>,
)
    requires
        registry.contains_key(session_id),
    ensures
        start_action(registry, session_id, name_hint) == (ResolveActionView::CheckStatus {
            cached: registry[session_id],
        }),
        known_ids.contains(registry[session_id]) ==> status_action(
            registry[session_id],
            known_ids,
            name_hint,
        ) == (ResolveActionView::Use { agent_id: registry[session_id] }),
        !known_ids.contains(registry[session_id]) ==> status_action(
            registry[session_id],
            known_ids,
            name_hint,
        ) == (ResolveActionView::Register { name: name_hint }),
        start_action(registry.insert(session_id, new_id), session_id, name_hint) == (
        ResolveActionView::CheckStatus { cached: new_id }),
{
}

/// Where the resolution steps lead for a session, given the ids the daemon
/// lists (`known`) and the id a new registration would get (`fresh`): the
/// agent id used, and the session registry afterwards.
pub open spec fn resolution(
    registry: Map<Seq<char>, Seq<char>>,
    session_id: Seq<char>,
    name_hint: Seq<char>,
    known: Seq<Seq<char>>,
    fresh: Seq<char>,
) -> (Seq<char>, Map<Seq<char>, Seq<char>>) {
    let registered = (fresh, registry.insert(session_id, fresh));
    match start_action(registry, session_id, name_hint) {
        ResolveActionView::CheckStatus { cached } => match status_action(cached, known, name_hint) {
            ResolveActionView::Use { agent_id } => (agent_id, registry),
            _ => registered,
        },
        _ => registered,
    }
}

/// A session registers once and then reuses its agent: after one resolution
/// gives `id`, every later resolution of the same session gives `id` again,
/// without registering, as long as the daemon still lists `id`.
pub proof fn law_register_once_then_reuse(
    registry: Map<Seq<char>, Seq<char>>,
    session_id: Seq<char>,
    name_hint: Seq<char>,
    known1: Seq<Seq<char>>,
    fresh1: Seq<char>,
    known2: Seq<Seq<char>>,
    fresh2: Seq<char>,
)
    requires
        known2.contains(resolution(registry, session_id, name_hint, known1, fresh1).0),
    ensures
        ({
            let first = resolution(registry, session_id, name_hint, known1, fresh1);
            &&& first.1.contains_key(session_id) && first.1[session_id] == first.0
            &&& resolution(first.1, session_id, name_hint, known2, fresh2) == first
        }),
{
}

/// A new session registers under its name, and its next hook checks the id
/// it got.
pub proof fn law_new_session_registers(
    registry: Map<Seq<char>, Seq<char>>,
    session_id: Seq<char>,
    name_hint: Seq<char>,
    new_id: Seq<char>,
)
    requires
        !registry.contains_key(session_id),
    ensures
        start_action(registry, session_id, name_hint) == (ResolveActionView::Register {
            name: name_hint,
        }),
        start_action(registry.insert(session_id, new_id), session_id, name_hint) == (
        ResolveActionView::CheckStatus { cached: new_id }),
{
}

// ---------------------------------------------------------------------------
// The permission question and the decision
// ---------------------------------------------------------------------------

/// What a PreToolUse hook reads of the tool's input: the `command` field when
/// it is a string, and the whole input as JSON text.
pub struct ToolInput {
    pub command: Option<String>,
    pub json_text: String,
}

/// How long a hook waits for a spoken answer, and the default of
/// `callout ask --timeout`.
pub const DEFAULT_ASK_TIMEOUT_SECS: u64 = 120;

/// The answer a permission question takes when nobody answers in time.
pub const PERMISSION_DEFAULT_ANSWER: &'static str = "n";

/// What the Stop hook says when a turn ends.
pub const STOP_MESSAGE: &'static str = "finished responding";

/// The name `callout notify` and `callout ask` register under.
pub const CLI_AGENT_NAME: &'static str = "callout-cli";

/// The session `callout notify` and `callout ask` use outside an agent session.
pub const MANUAL_SESSION_ID: &'static str = "manual";

/// The fields every hook payload carries, with their defaults.
pub struct HookFields {
    pub session_id: String,
    pub cwd: String,
}

/// The session id and working directory of a hook payload; a missing
/// session id reads as "unknown", a missing directory as ".".
pub fn hook_fields(session_id: Option<String>, cwd: Option<String>) -> (f: HookFields)
    ensures
        f.session_id@ == match session_id {
            Some(s) => s@,
            None => "unknown"@,
        },
        f.cwd@ == match cwd {
            Some(c) => c@,
            None => "."@,
        },
{
    HookFields {
        session_id: match session_id {
            Some(s) => s,
            None => owned("unknown"),
        },
        cwd: match cwd {
            Some(c) => c,
            None => owned("."),
        },
    }
}

/// The tool a PreToolUse payload names ("a tool" when missing), and its
/// input: the `command` string if any, and the input as JSON text ("{}" when
/// missing).
pub fn tool_call(tool_name: Option<String>, command: Option<String>, input_json: Option<String>) -> (r: (
    String,
    ToolInput,
))
    ensures
        r.0@ == match tool_name {
            Some(t) => t@,
            None => "a tool"@,
        },
        r.1.command == command,
        r.1.json_text@ == match input_json {
            Some(j) => j@,
            None => "{}"@,
        },
{
    let name = match tool_name {
        Some(t) => t,
        None => owned("a tool"),
    };
    let json_text = match input_json {
        Some(j) => j,
        None => owned("{}"),
    };
    (name, ToolInput { command, json_text })
}

/// The session a command-line call belongs to: the agent session it runs in,
/// or `MANUAL_SESSION_ID`.
pub fn cli_session_id(from_env: Option<String>) -> (s: String)
    ensures
        s@ == match from_env {
            Some(e) => e@,
            None => MANUAL_SESSION_ID@,
        },
{
    match from_env {
        Some(e) => e,
        None => owned(MANUAL_SESSION_ID),
    }
}

/// The question spoken for a tool call: the command when there is one,
/// otherwise the tool's input as JSON.
pub open spec fn question_text(agent_name: Seq<char>, tool_name: Seq<char>, detail: Seq<char>) -> Seq<
    char,
> {
    agent_name + " wants to run "@ + tool_name + ": "@ + detail + ". Allow?"@
}

/// Builds the spoken confirmation question for a tool call, and its two
/// answers: "deny" first, then "allow". Deny is listed first so that, since
/// the first mentioned choice wins, a transcript that mentions both denies.
pub fn pretooluse_question(
    agent_name: &str,
    tool_name: &str,
    tool_input: &ToolInput,
) -> (r: (String, Vec<(String, String)>))
    ensures
        r.0@ == question_text(
            agent_name@,
            tool_name@,
            match tool_input.command {
                Some(c) => c@,
                None => tool_input.json_text@,
            },
        ),
        r.1@.len() == 2,
        r.1@[0].0@ == "deny"@ && r.1@[0].1@ == "deny"@,
        r.1@[1].0@ == "allow"@ && r.1@[1].1@ == "allow"@,
{
    let detail = match &tool_input.command {
        Some(c) => c.as_str(),
        None => tool_input.json_text.as_str(),
    };
    let q = concat2(agent_name, " wants to run ");
    let q = concat2(q.as_str(), tool_name);
    let q = concat2(q.as_str(), ": ");
    let q = concat2(q.as_str(), detail);
    let q = concat2(q.as_str(), ". Allow?");
    let mut choices: Vec<(String, String)> = Vec::new();
    choices.push((owned("deny"), owned("deny")));
    choices.push((owned("allow"), owned("allow")));
    (q, choices)
}

/// An answer approves the tool call: "allow", or the lenient "y" or "yes",
/// in any case.
pub open spec fn answer_allows(answer: Option<Seq<char>>) -> bool {
    match answer {
        Some(a) => lowercase(a) == "allow"@ || lowercase(a) == "y"@ || lowercase(a) == "yes"@,
        None => false,
    }
}

/// What the PreToolUse hook prints: the decision for the answer when the
/// daemon was reached and the ask came back, and nothing at all otherwise, so
/// that the agent falls back to its own permission prompt (fail-safe: a
/// daemon that cannot be reached never approves).
pub fn pre_tool_use_output(asked: Option<AskResult>) -> (out: Option<String>)
    ensures
        asked is None ==> out is None,
        asked matches Some(r) ==> (out matches Some(j) && j@ == decision_text(
            answer_allows(
                match r.answer {
                    Some(a) => Some(a@),
                    None => None,
                },
            ),
        )),
{
    match asked {
        Some(r) => match &r.answer {
            Some(a) => Some(decision_json(Some(a.as_str()))),
            None => Some(decision_json(None)),
        },
        None => None,
    }
}

/// An ASCII answer approves: "allow", "y" or "yes" in any case.
pub open spec fn ascii_allows(a: Seq<char>) -> bool {
    ascii_lower(a) == "allow"@ || ascii_lower(a) == "y"@ || ascii_lower(a) == "yes"@
}

/// The PreToolUse decision JSON for an approval or a refusal.
pub open spec fn decision_text(allow: bool) -> Seq<char> {
    "{\"hookSpecificOutput\":{\"hookEventName\":\"PreToolUse\",\"permissionDecision\":\""@ + (
    if allow {
        "allow"@
    } else {
        "deny"@
    }) + "\",\"permissionDecisionReason\":\""@ + (if allow {
        "approved via voice"@
    } else {
        "denied via voice (or no response)"@
    }) + "\"}}"@
}

/// Maps a spoken answer to the PreToolUse hook decision, as JSON text.
/// No answer (a timeout) denies.
pub fn decision_json(answer: Option<&str>) -> (j: String)
    ensures
        j@ == decision_text(
            answer_allows(
                match answer {
                    Some(a) => Some(a@),
                    None => None,
                },
            ),
        ),
        answer matches Some(a) ==> (is_ascii_text(a@) ==> j@ == decision_text(ascii_allows(a@))),
{
    let allow = match answer {
        Some(a) => {
            let l = to_lowercase(a);
            str_eq(l.as_str(), "allow") || str_eq(l.as_str(), "y") || str_eq(l.as_str(), "yes")
        },
        None => false,
    };
    let j = concat2(
        "{\"hookSpecificOutput\":{\"hookEventName\":\"PreToolUse\",\"permissionDecision\":\"",
        if allow {
            "allow"
        } else {
            "deny"
        },
    );
    let j = concat2(j.as_str(), "\",\"permissionDecisionReason\":\"");
    let j = concat2(
        j.as_str(),
        if allow {
            "approved via voice"
        } else {
            "denied via voice (or no response)"
        },
    );
    concat2(j.as_str(), "\"}}")
}

/// The choices of the permission question, as the router sees them.
pub open spec fn permission_choices() -> Seq<ChoiceView> {
    seq![ChoiceView { key: "deny"@, label: "deny"@ }, ChoiceView { key: "allow"@, label: "allow"@ }]
}

/// The answer a permission question takes when nobody answers in time
/// refuses the tool call, and so does the "deny" choice: a timeout never
/// approves.
pub proof fn law_default_answer_denies()
    ensures
        is_ascii_text(PERMISSION_DEFAULT_ANSWER@),
        !ascii_allows(PERMISSION_DEFAULT_ANSWER@),
        is_ascii_text("deny"@),
        !ascii_allows("deny"@),
{
    reveal_strlit("n");
    reveal_strlit("deny");
    reveal_strlit("allow");
    reveal_strlit("y");
    reveal_strlit("yes");
    assert(ascii_lower("n"@) =~= "n"@);
    assert(ascii_lower("deny"@) =~= "deny"@);
    assert(ascii_lower("n"@)[0] != "y"@[0]);
    assert(ascii_lower("deny"@)[0] != "allow"@[0]);
}

/// No answer (a timeout) never approves a tool call.
pub proof fn law_no_answer_denies()
    ensures
        !answer_allows(None),
        decision_text(answer_allows(None)) == decision_text(false),
{
}

/// A spoken answer that mentions "deny" refuses the tool call even if it
/// also mentions "allow": deny is listed first, and the first mentioned
/// choice wins.
pub proof fn law_deny_mentioned_wins(raw: Seq<char>)
    requires
        contains_seq(lowercase(raw), lowercase("deny"@)),
    ensures
        answer_spec(permission_choices(), raw) == "deny"@,
{
    let cs = permission_choices();
    assert(exact_hit(lowercase(raw), cs[0]));
    law_first_mentioned_choice_wins(lowercase(raw), cs, 0);
}

// ---------------------------------------------------------------------------
// Small pieces of the hook commands
// ---------------------------------------------------------------------------

/// The last component of a Unix path (`Path::file_name`): the last piece
/// between slashes that is neither empty nor ".", unless that piece is "..".
pub open spec fn file_name_of(path: Seq<char>) -> Option<Seq<char>> {
    let pieces = split_on(path, '/').filter(|p: Seq<char>| p.len() > 0 && p != "."@);
    if pieces.len() == 0 || pieces.last() == ".."@ {
        None
    } else {
        Some(pieces.last())
    }
}

/// The name an agent is registered under when its working directory has no
/// last component to name it by.
pub const FALLBACK_AGENT_NAME: &'static str = "coding agent";

/// The name an agent gets from the working directory: its last component,
/// or `FALLBACK_AGENT_NAME`.
pub open spec fn agent_name_spec(cwd: Seq<char>) -> Seq<char> {
    match file_name_of(cwd) {
        Some(n) => n,
        None => FALLBACK_AGENT_NAME@,
    }
}

/// The name an agent is registered under, from its working directory.
pub fn agent_name_for(cwd: &str) -> (name: String)
    ensures
        name@ == agent_name_spec(cwd@),
{
    let pieces = split_char(cwd, '/');
    let ghost all = pieces@.map_values(|w: String| w@);
    let ghost keep = |p: Seq<char>| p.len() > 0 && p != "."@;
    // Scan backwards for the last piece that is kept.
    let mut i = pieces.len();
    proof {
        assert(all.take(i as int) =~= all);
    }
    while i > 0 && (str_eq(pieces[i - 1].as_str(), "") || str_eq(pieces[i - 1].as_str(), "."))
        invariant
            i <= pieces@.len(),
            all == pieces@.map_values(|w: String| w@),
            keep == (|p: Seq<char>| p.len() > 0 && p != "."@),
            all.filter(keep) == all.take(i as int).filter(keep),
        decreases i,
    {
        proof {
            assert(all.take(i - 1) =~= all.take(i as int).drop_last());
            assert(all.take(i as int).last() == all[i - 1]);
            reveal_strlit("");
            assert(all[i - 1] == pieces@[i - 1]@);
            if all[i - 1] != "."@ {
                assert(all[i - 1] == ""@);
            }
            assert(!keep(all[i - 1]));
            reveal(Seq::filter);
            assert(all.take(i as int).filter(keep) == all.take(i - 1).filter(keep));
        }
        i = i - 1;
    }
    proof {
        reveal(Seq::filter);
        if i > 0 {
            assert(all.take(i - 1) =~= all.take(i as int).drop_last());
            assert(all.take(i as int).last() == all[i - 1]);
            assert(keep(all[i - 1])) by {
                reveal_strlit("");
                assert(all[i - 1] == pieces@[i - 1]@);
                if all[i - 1].len() == 0 {
                    assert(all[i - 1] =~= ""@);
                }
            }
            assert(all.take(i as int).filter(keep) == all.take(i - 1).filter(keep).push(all[i - 1]));
        } else {
            assert(all.take(0).filter(keep) =~= Seq::<Seq<char>>::empty());
        }
    }
    if i == 0 || str_eq(pieces[i - 1].as_str(), "..") {
        owned(FALLBACK_AGENT_NAME)
    } else {
        pieces[i - 1].clone()
    }
}

/// The address of the daemon on this machine.
pub open spec fn base_url(port: u16) -> Seq<char> {
    "http://127.0.0.1:"@ + decimal(port as nat)
}

/// The address of the daemon listening on `port`.
pub fn base_url_for_port(port: u16) -> (url: String)
    ensures
        url@ == base_url(port),
{
    let p = u64_to_decimal(port as u64);
    concat2("http://127.0.0.1:", p.as_str())
}

/// The answer of a `callout ask`, as the daemon returned it.
pub struct AskResult {
    pub answer: Option<String>,
    pub timed_out: bool,
}

/// The line `callout ask` prints: the answer, or that there was none.
pub open spec fn ask_line(answer: Option<Seq<char>>, timed_out: bool) -> Seq<char> {
    match answer {
        Some(a) => a,
        None => if timed_out {
            "(no answer, timed out)"@
        } else {
            "(no answer)"@
        },
    }
}

/// The line printed for the result of `callout ask`.
pub fn ask_output_line(result: &AskResult) -> (line: String)
    ensures
        line@ == ask_line(
            match result.answer {
                Some(a) => Some(a@),
                None => None,
            },
            result.timed_out,
        ),
{
    match &result.answer {
        Some(a) => a.clone(),
        None => if result.timed_out {
            owned("(no answer, timed out)")
        } else {
            owned("(no answer)")
        },
    }
}

/// The (key, label) pair of a "key:label" argument: split at the first ':'.
pub open spec fn choice_arg(arg: Seq<char>) -> Option<(Seq<char>, Seq<char>)> {
    match char_pos(arg, ':') {
        Some(i) => Some((arg.take(i), arg.skip(i + 1))),
        None => None,
    }
}

/// The pairs of the arguments that have a ':', in order.
pub open spec fn choice_pairs(args: Seq<Seq<char>>) -> Seq<(Seq<char>, Seq<char>)>
    decreases args.len(),
{
    if args.len() == 0 {
        Seq::empty()
    } else {
        let prev = choice_pairs(args.drop_last());
        match choice_arg(args.last()) {
            Some(p) => prev.push(p),
            None => prev,
        }
    }
}

/// Splits a "key:label" argument at its first ':' (`str::split_once`).
pub fn split_choice_arg(arg: &str) -> (r: Option<(String, String)>)
    ensures
        match r {
            Some(p) => choice_arg(arg@) == Some((p.0@, p.1@)),
            None => choice_arg(arg@) is None,
        },
{
    let v = crate::text::chars_of(arg);
    let mut i: usize = 0;
    while i < v.len()
        invariant
            v@ == arg@,
            i <= v.len(),
            forall|k: int| 0 <= k < i ==> v@[k] != ':',
        decreases v.len() - i,
    {
        if v[i] == ':' {
            proof {
                crate::text::lemma_char_pos(arg@, ':', i as int);
            }
            let key = crate::text::string_of(&v, 0, i);
            let label = crate::text::string_of(&v, i + 1, v.len());
            proof {
                assert(v@.subrange(0, i as int) =~= arg@.take(i as int));
                assert(v@.subrange(i + 1, v@.len() as int) =~= arg@.skip(i + 1));
            }
            return Some((key, label));
        }
        i = i + 1;
    }
    proof {
        crate::text::lemma_char_pos(arg@, ':', i as int);
    }
    None
}

/// The (key, label) pairs of the "key:label" arguments; arguments without a
/// ':' are left out.
pub fn parse_choice_args(args: &[String]) -> (pairs: Vec<(String, String)>)
    ensures
        pairs@.map_values(|p: (String, String)| (p.0@, p.1@)) == choice_pairs(
            args@.map_values(|a: String| a@),
        ),
{
    let ghost av = args@.map_values(|a: String| a@);
    let mut pairs: Vec<(String, String)> = Vec::new();
    let mut i: usize = 0;
    while i < args.len()
        invariant
            i <= args@.len(),
            av == args@.map_values(|a: String| a@),
            pairs@.map_values(|p: (String, String)| (p.0@, p.1@)) == choice_pairs(av.take(i as int)),
        decreases args.len() - i,
    {
        proof {
            assert(av.take(i + 1).drop_last() =~= av.take(i as int));
        }
        let ghost before = pairs@.map_values(|p: (String, String)| (p.0@, p.1@));
        match split_choice_arg(args[i].as_str()) {
            Some(p) => {
                pairs.push(p);
                assert(pairs@.map_values(|p: (String, String)| (p.0@, p.1@)) =~= before.push(choice_arg(av[i as int])->0));
            },
            None => {},
        }
        i = i + 1;
    }
    proof {
        assert(av.take(args@.len() as int) =~= av);
    }
    pairs
}

} // verus!
