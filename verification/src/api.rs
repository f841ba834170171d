//! The HTTP API's requests and responses, and the decisions its handlers make.
use vstd::prelude::*;
use crate::agents::{lemma_seq_lt_irreflexive, name_of, sorted_by_id, AgentRegistry, AgentState, AgentView};
use crate::router::{choices_view, AskResponse, AskRouter, AskView, Choice, ChoiceView, PendingAsk};
use crate::text::{concat2, join, join_strings, owned, seq_lt, trim, trim_str};

verus! {

/// Why a request was refused, with the message returned as `{"error": ...}`.
#[derive(Debug)]
pub enum ApiError {
    BadRequest(String),
    NotFound(String),
    Internal(String),
}

impl ApiError {
    /// The HTTP status code of the error.
    pub fn status(&self) -> (code: u16)
        ensures
            code == match self {
                ApiError::BadRequest(_) => 400u16,
                ApiError::NotFound(_) => 404u16,
                ApiError::Internal(_) => 500u16,
            },
    {
        match self {
            ApiError::BadRequest(_) => 400,
            ApiError::NotFound(_) => 404,
            ApiError::Internal(_) => 500,
        }
    }

    /// The message of the error.
    pub fn message(&self) -> (m: &str)
        ensures
            m@ == match self {
                ApiError::BadRequest(s) => s@,
                ApiError::NotFound(s) => s@,
                ApiError::Internal(s) => s@,
            },
    {
        match self {
            ApiError::BadRequest(s) => s.as_str(),
            ApiError::NotFound(s) => s.as_str(),
            ApiError::Internal(s) => s.as_str(),
        }
    }
}

// ---------------------------------------------------------------------------
// POST /agents/register, DELETE /agents/{id}
// ---------------------------------------------------------------------------

/// `POST /agents/register`: who the agent is.
pub struct RegisterRequest {
    pub name: String,
    pub description: Option<String>,
    pub context_terms: Vec<String>,
}

/// The id a registered agent goes by.
pub struct RegisterResponse {
    pub agent_id: String,
}

/// A registration needs a name that is not blank.
pub fn validate_register(req: &RegisterRequest) -> (r: Result<(), ApiError>)
    ensures
        r is Ok <==> trim(req.name@).len() > 0,
        r matches Err(e) ==> e is BadRequest,
{
    let t = trim_str(req.name.as_str());
    if t.as_str().is_empty() {
        Err(ApiError::BadRequest(owned("name must not be empty")))
    } else {
        Ok(())
    }
}

/// Deregistration answers 204 when the agent existed, 404 otherwise.
pub fn deregister_outcome(removed: bool) -> (r: Result<u16, ApiError>)
    ensures
        removed ==> r == Ok::<u16, ApiError>(204u16),
        !removed ==> (r matches Err(e) && e is NotFound),
{
    if removed {
        Ok(204)
    } else {
        Err(ApiError::NotFound(owned("agent not found")))
    }
}

/// Handles a registration: a blank name is refused; otherwise the agent is
/// registered, idle, under a fresh six-character id.
pub fn register(agents: &mut AgentRegistry, req: RegisterRequest) -> (r: Result<
    RegisterResponse,
    ApiError,
>)
    ensures
        r is Ok <==> trim(req.name@).len() > 0,
        r matches Ok(resp) ==> resp.agent_id@.len() == 6 && (forall|i: int|
            0 <= i < 6 ==> crate::agents::is_lower_hex(#[trigger] resp.agent_id@[i]))
            && final(agents)@ == old(agents)@.insert(
            resp.agent_id@,
            crate::agents::new_agent_view(
                resp.agent_id@,
                req.name@,
                crate::agents::opt_str_view(req.description),
                crate::agents::strs_view(req.context_terms@),
                final(agents)@[resp.agent_id@].last_seen,
            ),
        ),
        r matches Err(e) ==> e is BadRequest && final(agents)@ == old(agents)@,
{
    validate_register(&req)?;
    let agent_id = agents.register(req.name, req.description, req.context_terms);
    Ok(RegisterResponse { agent_id })
}

/// Handles a deregistration: 204 when the agent existed (it is removed),
/// 404 otherwise.
pub fn deregister(agents: &mut AgentRegistry, id: &str) -> (r: Result<u16, ApiError>)
    ensures
        final(agents)@ == old(agents)@.remove(id@),
        old(agents)@.contains_key(id@) ==> r == Ok::<u16, ApiError>(204u16),
        !old(agents)@.contains_key(id@) ==> (r matches Err(e) && e is NotFound),
{
    let removed = agents.remove(id);
    deregister_outcome(removed)
}

// ---------------------------------------------------------------------------
// POST /notify
// ---------------------------------------------------------------------------

/// `POST /notify`: a message to speak for an agent.
pub struct NotifyRequest {
    pub agent_id: String,
    pub message: String,
}

/// A notification needs a message that is not blank.
pub fn validate_notify(req: &NotifyRequest) -> (r: Result<(), ApiError>)
    ensures
        r is Ok <==> trim(req.message@).len() > 0,
        r matches Err(e) ==> e is BadRequest,
{
    let t = trim_str(req.message.as_str());
    if t.as_str().is_empty() {
        Err(ApiError::BadRequest(owned("message must not be empty")))
    } else {
        Ok(())
    }
}

/// What is spoken for a notification: "<agent name>: <message>".
pub fn notify_speech(name: &str, message: &str) -> (s: String)
    ensures
        s@ == name@ + ": "@ + message@,
{
    let s = concat2(name, ": ");
    concat2(s.as_str(), message)
}

/// The agent's registry entry after it was heard from: its last sighting
/// moved, nothing else changed; an unknown id changes nothing.
pub open spec fn seen(
    before: Map<Seq<char>, AgentView>,
    after: Map<Seq<char>, AgentView>,
    id: Seq<char>,
) -> bool {
    if before.contains_key(id) {
        after == before.insert(id, AgentView { last_seen: after[id].last_seen, ..before[id] })
    } else {
        after == before
    }
}

/// Handles a notification: a blank message is refused; otherwise the agent
/// is marked seen and the text to speak is returned, under the agent's name
/// or "unknown" for an id that never registered.
pub fn notify(agents: &mut AgentRegistry, req: &NotifyRequest) -> (r: Result<String, ApiError>)
    ensures
        r is Ok <==> trim(req.message@).len() > 0,
        r matches Ok(s) ==> s@ == name_of(old(agents)@, req.agent_id@) + ": "@ + req.message@,
        r matches Ok(_) ==> seen(old(agents)@, final(agents)@, req.agent_id@),
        r matches Err(e) ==> e is BadRequest && final(agents)@ == old(agents)@,
{
    validate_notify(req)?;
    agents.touch(req.agent_id.as_str());
    let name = agents.name(req.agent_id.as_str());
    Ok(notify_speech(name.as_str(), req.message.as_str()))
}

// ---------------------------------------------------------------------------
// POST /ask
// ---------------------------------------------------------------------------

/// One possible answer of a question: its key and its spoken label.
pub struct ChoiceInput {
    pub key: String,
    pub label: String,
}

/// `POST /ask`: a question to speak and answer by voice.
pub struct AskRequest {
    pub agent_id: String,
    pub question: String,
    pub choices: Vec<ChoiceInput>,
    pub multi_select: bool,
    pub timeout_seconds: Option<u64>,
    pub default: Option<String>,
}

/// The answer to an ask: the selected answer (also as a list), what was
/// heard, and whether the wait timed out.
pub struct AskResponseBody {
    pub answer: Option<String>,
    pub answers: Vec<String>,
    pub raw: Option<String>,
    pub timed_out: bool,
}

/// How long an ask waits when the request does not say.
pub const DEFAULT_TIMEOUT_SECS: u64 = 120;

/// The longest wait an ask may request.
pub const MAX_TIMEOUT_SECS: u64 = 3600;

/// An ask needs a question that is not blank and, if it names a timeout, one
/// of at most `MAX_TIMEOUT_SECS` seconds. On success, the wait in seconds.
pub fn plan_ask(req: &AskRequest) -> (r: Result<u64, ApiError>)
    ensures
        r is Ok <==> trim(req.question@).len() > 0 && match req.timeout_seconds {
            Some(t) => t <= MAX_TIMEOUT_SECS,
            None => true,
        },
        r matches Ok(t) ==> t == match req.timeout_seconds {
            Some(t) => t,
            None => DEFAULT_TIMEOUT_SECS,
        },
        r matches Err(e) ==> e is BadRequest,
{
    let t = trim_str(req.question.as_str());
    if t.as_str().is_empty() {
        return Err(ApiError::BadRequest(owned("question must not be empty")));
    }
    match req.timeout_seconds {
        Some(secs) => {
            if secs > MAX_TIMEOUT_SECS {
                Err(ApiError::BadRequest(owned("timeout_seconds must be at most 3600")))
            } else {
                Ok(secs)
            }
        },
        None => Ok(DEFAULT_TIMEOUT_SECS),
    }
}

/// The question as it is spoken: "<name> asks: <question>", then, when there
/// are choices, ". " and the choices as "<key>: <label>" separated by ". ".
pub open spec fn spoken_prompt(name: Seq<char>, question: Seq<char>, choices: Seq<(Seq<char>, Seq<char>)>) -> Seq<char> {
    let head = name + " asks: "@ + question;
    if choices.len() == 0 {
        head
    } else {
        head + ". "@ + join(
            choices.map_values(|c: (Seq<char>, Seq<char>)| c.0 + ": "@ + c.1),
            ". "@,
        )
    }
}

/// The choices of a request as (key, label) texts.
pub open spec fn inputs_view(cs: Seq<ChoiceInput>) -> Seq<(Seq<char>, Seq<char>)> {
    cs.map_values(|c: ChoiceInput| (c.key@, c.label@))
}

/// The text spoken for a question.
pub fn build_spoken_prompt(name: &str, question: &str, choices: &[ChoiceInput]) -> (s: String)
    ensures
        s@ == spoken_prompt(name@, question@, inputs_view(choices@)),
{
    let s = concat2(name, " asks: ");
    let s = concat2(s.as_str(), question);
    if choices.len() == 0 {
        return s;
    }
    let ghost cv = inputs_view(choices@);
    let mut opts: Vec<String> = Vec::new();
    let mut i: usize = 0;
    while i < choices.len()
        invariant
            i <= choices@.len(),
            cv == inputs_view(choices@),
            opts@.len() == i,
            forall|m: int| 0 <= m < i ==> (#[trigger] opts@[m])@ == cv[m].0 + ": "@ + cv[m].1,
        decreases choices.len() - i,
    {
        let o = concat2(choices[i].key.as_str(), ": ");
        let o = concat2(o.as_str(), choices[i].label.as_str());
        opts.push(o);
        i = i + 1;
    }
    proof {
        assert(opts@.map_values(|p: String| p@) =~= cv.map_values(
            |c: (Seq<char>, Seq<char>)| c.0 + ": "@ + c.1,
        ));
    }
    let joined = join_strings(&opts, ". ");
    let s = concat2(s.as_str(), ". ");
    concat2(s.as_str(), joined.as_str())
}

/// The choices of a request, as the router keeps them.
pub open spec fn input_choices(cs: Seq<ChoiceInput>) -> Seq<ChoiceView> {
    cs.map_values(|c: ChoiceInput| ChoiceView { key: c.key@, label: c.label@ })
}

fn to_choices(inputs: &Vec<ChoiceInput>) -> (cs: Vec<Choice>)
    ensures
        choices_view(cs@) == input_choices(inputs@),
{
    let mut cs: Vec<Choice> = Vec::new();
    let mut i: usize = 0;
    while i < inputs.len()
        invariant
            i <= inputs@.len(),
            cs@.len() == i,
            forall|k: int|
                0 <= k < i ==> (#[trigger] cs@[k])@ == (ChoiceView {
                    key: inputs@[k].key@,
                    label: inputs@[k].label@,
                }),
        decreases inputs.len() - i,
    {
        cs.push(Choice { key: inputs[i].key.clone(), label: inputs[i].label.clone() });
        i = i + 1;
    }
    assert(choices_view(cs@) =~= input_choices(inputs@));
    cs
}

/// The registry entry after an agent began or stopped waiting: seen and in
/// `state`; an unknown id changes nothing.
pub open spec fn seen_in_state(
    before: Map<Seq<char>, AgentView>,
    after: Map<Seq<char>, AgentView>,
    id: Seq<char>,
    state: AgentState,
) -> bool {
    if before.contains_key(id) {
        after == before.insert(
            id,
            AgentView { last_seen: after[id].last_seen, state, ..before[id] },
        )
    } else {
        after == before
    }
}

/// The first half of an ask: the agent is marked seen and waiting, its
/// question becomes the one pending for it (replacing an earlier one), and
/// the text to speak is returned.
pub fn begin_ask(
    agents: &mut AgentRegistry,
    router: &mut AskRouter,
    req: &AskRequest,
    tx: tokio::sync::oneshot::Sender<AskResponse>,
) -> (spoken: String)
    ensures
        spoken@ == spoken_prompt(
            name_of(old(agents)@, req.agent_id@),
            req.question@,
            inputs_view(req.choices@),
        ),
        seen_in_state(old(agents)@, final(agents)@, req.agent_id@, AgentState::Waiting),
        final(router)@ == old(router)@.insert(
            req.agent_id@,
            AskView {
                agent_id: req.agent_id@,
                question: req.question@,
                choices: input_choices(req.choices@),
            },
        ),
        final(router).channels() == old(router).channels().insert(req.agent_id@, tx),
{
    let id = req.agent_id.as_str();
    let ghost a0 = agents@;
    agents.touch(id);
    agents.set_state(id, AgentState::Waiting);
    proof {
        if a0.contains_key(id@) {
            assert(agents@ =~= a0.insert(
                id@,
                AgentView { last_seen: agents@[id@].last_seen, state: AgentState::Waiting, ..a0[id@] },
            ));
        }
    }
    let name = agents.name(id);
    let spoken = build_spoken_prompt(name.as_str(), req.question.as_str(), req.choices.as_slice());
    let ask = PendingAsk {
        agent_id: req.agent_id.clone(),
        question: req.question.clone(),
        choices: to_choices(&req.choices),
        tx,
    };
    router.insert(req.agent_id.clone(), ask);
    spoken
}

/// The second half of an ask, whatever its outcome: the agent is idle again
/// and nothing is pending for it.
pub fn end_ask(agents: &mut AgentRegistry, router: &mut AskRouter, agent_id: &str)
    ensures
        final(agents)@ == if old(agents)@.contains_key(agent_id@) {
            old(agents)@.insert(
                agent_id@,
                AgentView { state: AgentState::Idle, ..old(agents)@[agent_id@] },
            )
        } else {
            old(agents)@
        },
        final(router)@ == old(router)@.remove(agent_id@),
        final(router).channels() == old(router).channels().remove(agent_id@),
{
    agents.set_state(agent_id, AgentState::Idle);
    let _ = router.remove(agent_id);
}

/// After an ask, answered or timed out, the agent is registered exactly as
/// before, idle, and no question is pending for it; the other agents'
/// questions are untouched.
pub proof fn law_ask_cleans_up(
    agents0: Map<Seq<char>, AgentView>,
    agents1: Map<Seq<char>, AgentView>,
    router0: Map<Seq<char>, AskView>,
    id: Seq<char>,
    ask: AskView,
)
    requires
        seen_in_state(agents0, agents1, id, AgentState::Waiting),
    ensures
        ({
            let agents2 = if agents1.contains_key(id) {
                agents1.insert(id, AgentView { state: AgentState::Idle, ..agents1[id] })
            } else {
                agents1
            };
            let router2 = router0.insert(id, ask).remove(id);
            &&& agents2.dom() == agents0.dom()
            &&& agents2.contains_key(id) ==> agents2[id].state == AgentState::Idle
                && agents2[id].name == agents0[id].name
            &&& !router2.contains_key(id)
            &&& router2 == router0.remove(id)
        }),
{
    let router2 = router0.insert(id, ask).remove(id);
    assert(router2 =~= router0.remove(id));
    if agents0.contains_key(id) {
        let agents2 = agents1.insert(id, AgentView { state: AgentState::Idle, ..agents1[id] });
        assert(agents2.dom() =~= agents0.dom());
    }
}

/// An optional string, as text.
pub open spec fn opt_view(o: Option<String>) -> Option<Seq<char>> {
    match o {
        Some(s) => Some(s@),
        None => None,
    }
}

/// An optional text as a list of zero or one texts.
pub open spec fn opt_seq(o: Option<Seq<char>>) -> Seq<Seq<char>> {
    match o {
        Some(s) => seq![s],
        None => Seq::empty(),
    }
}

fn opt_to_vec(o: &Option<String>) -> (v: Vec<String>)
    ensures
        v@.map_values(|s: String| s@) == opt_seq(opt_view(*o)),
{
    let mut v: Vec<String> = Vec::new();
    if let Some(s) = o {
        v.push(s.clone());
    }
    assert(v@.map_values(|s: String| s@) =~= opt_seq(opt_view(*o)));
    v
}

/// The response to an ask: the asker's answer when one came before the
/// timeout (`reply`), or else the request's default, marked as timed out.
pub fn ask_outcome(reply: Option<AskResponse>, default_answer: Option<String>) -> (body:
    AskResponseBody)
    ensures
        match reply {
            Some(resp) => {
                &&& opt_view(body.answer) == opt_view(resp.answer)
                &&& body.answers@.map_values(|s: String| s@) == opt_seq(opt_view(resp.answer))
                &&& opt_view(body.raw) == opt_view(resp.raw)
                &&& !body.timed_out
            },
            None => {
                &&& opt_view(body.answer) == opt_view(default_answer)
                &&& body.answers@.map_values(|s: String| s@) == opt_seq(opt_view(default_answer))
                &&& body.raw is None
                &&& body.timed_out
            },
        },
{
    match reply {
        Some(resp) => {
            let answers = opt_to_vec(&resp.answer);
            AskResponseBody { answer: resp.answer, answers, raw: resp.raw, timed_out: false }
        },
        None => {
            let answers = opt_to_vec(&default_answer);
            AskResponseBody { answer: default_answer, answers, raw: None, timed_out: true }
        },
    }
}

// ---------------------------------------------------------------------------
// GET /status
// ---------------------------------------------------------------------------

/// One agent in `GET /status`.
pub struct AgentStatus {
    pub id: String,
    pub name: String,
    pub state: String,
    pub last_seen_secs: u64,
}

/// `GET /status`: every agent.
pub struct StatusResponse {
    pub agents: Vec<AgentStatus>,
}

/// How an agent's state is written in the status: "idle" or "waiting".
pub open spec fn state_word(s: AgentState) -> Seq<char> {
    match s {
        AgentState::Idle => "idle"@,
        AgentState::Waiting => "waiting"@,
    }
}

/// The status row of an agent at time `now`.
pub open spec fn status_row(a: AgentView, now: u64, row: AgentStatus) -> bool {
    &&& row.id@ == a.id
    &&& row.name@ == a.name
    &&& row.state@ == state_word(a.state)
    &&& row.last_seen_secs == if now >= a.last_seen {
        (now - a.last_seen) as u64
    } else {
        0u64
    }
}

/// `rows` is the status of every agent of `agents` at time `now`, in
/// increasing order of id.
pub open spec fn status_of(
    agents: Map<Seq<char>, AgentView>,
    now: u64,
    rows: Seq<AgentStatus>,
) -> bool {
    exists|list: Seq<&crate::agents::Agent>|
        {
            &&& sorted_by_id(list)
            &&& list.len() == rows.len()
            &&& forall|i: int|
                0 <= i < list.len() ==> agents.contains_key((#[trigger] list[i]).id@)
                    && agents[list[i].id@] == list[i]@ && status_row(list[i]@, now, rows[i])
            &&& forall|k: Seq<char>|
                #[trigger] agents.contains_key(k) ==> exists|i: int|
                    0 <= i < list.len() && (#[trigger] list[i]).id@ == k
        }
}

/// The status of every agent at time `now`, in increasing order of id.
pub fn status_at(agents: &AgentRegistry, now: u64) -> (resp: StatusResponse)
    ensures
        status_of(agents@, now, resp.agents@),
{
    let list = agents.all();
    let mut rows: Vec<AgentStatus> = Vec::new();
    let mut i: usize = 0;
    while i < list.len()
        invariant
            i <= list@.len(),
            rows@.len() == i,
            forall|m: int| 0 <= m < i ==> status_row(list@[m]@, now, #[trigger] rows@[m]),
        decreases list.len() - i,
    {
        let a = list[i];
        let state = match a.state {
            AgentState::Idle => owned("idle"),
            AgentState::Waiting => owned("waiting"),
        };
        rows.push(
            AgentStatus {
                id: a.id.clone(),
                name: a.name.clone(),
                state,
                last_seen_secs: now.saturating_sub(a.last_seen),
            },
        );
        i = i + 1;
    }
    let resp = StatusResponse { agents: rows };
    assert(forall|m: int| 0 <= m < list@.len() ==> status_row(list@[m]@, now, #[trigger] resp.agents@[m]));
    assert(status_of(agents@, now, resp.agents@)) by {
        let l = list@;
        assert(sorted_by_id(l));
    }
    resp
}

/// The status of every agent now: at the registry's clock, read anew, which
/// is never earlier than the clock nor than any agent's last sighting.
pub fn status(agents: &AgentRegistry) -> (resp: StatusResponse)
    ensures
        exists|now: u64| status_of(agents@, now, resp.agents@),
        exists|now: u64|
            {
                &&& now >= agents.clock()
                &&& forall|k: Seq<char>| #[trigger] agents@.contains_key(k) ==> agents@[k].last_seen <= now
                &&& status_of(agents@, now, resp.agents@)
            },
{
    let now = agents.now_secs();
    status_at(agents, now)
}

/// The status taken at a time no earlier than any agent's last sighting
/// lists every agent exactly once, and reports for each how long it has been
/// silent: its last sighting plus the reported seconds is that time.
pub proof fn law_status_reports_silence(
    agents: Map<Seq<char>, AgentView>,
    now: u64,
    rows: Seq<AgentStatus>,
)
    requires
        status_of(agents, now, rows),
        forall|k: Seq<char>| #[trigger] agents.contains_key(k) ==> agents[k].last_seen <= now,
    ensures
        forall|i: int|
            0 <= i < rows.len() ==> agents.contains_key((#[trigger] rows[i]).id@)
                && rows[i].last_seen_secs + agents[rows[i].id@].last_seen == now
                && rows[i].name@ == agents[rows[i].id@].name
                && rows[i].state@ == state_word(agents[rows[i].id@].state),
        forall|k: Seq<char>|
            #[trigger] agents.contains_key(k) ==> exists|i: int| 0 <= i < rows.len() && (#[trigger] rows[i]).id@ == k,
        forall|i: int, j: int| 0 <= i < j < rows.len() ==> (#[trigger] rows[i]).id@ != (#[trigger] rows[j]).id@,
{
    let list = choose|list: Seq<&crate::agents::Agent>|
        {
            &&& sorted_by_id(list)
            &&& list.len() == rows.len()
            &&& forall|i: int|
                0 <= i < list.len() ==> agents.contains_key((#[trigger] list[i]).id@)
                    && agents[list[i].id@] == list[i]@ && status_row(list[i]@, now, rows[i])
            &&& forall|k: Seq<char>|
                #[trigger] agents.contains_key(k) ==> exists|i: int|
                    0 <= i < list.len() && (#[trigger] list[i]).id@ == k
        };
    assert forall|i: int| 0 <= i < rows.len() implies agents.contains_key((#[trigger] rows[i]).id@)
        && rows[i].last_seen_secs + agents[rows[i].id@].last_seen == now
        && rows[i].name@ == agents[rows[i].id@].name
        && rows[i].state@ == state_word(agents[rows[i].id@].state) by {
        assert(status_row(list[i]@, now, rows[i]));
        assert(agents.contains_key(list[i].id@));
    }
    assert forall|k: Seq<char>| #[trigger] agents.contains_key(k) implies exists|i: int|
        0 <= i < rows.len() && (#[trigger] rows[i]).id@ == k by {
        let i = choose|i: int| 0 <= i < list.len() && (#[trigger] list[i]).id@ == k;
        assert(status_row(list[i]@, now, rows[i]));
    }
    assert forall|i: int, j: int| 0 <= i < j < rows.len() implies (#[trigger] rows[i]).id@ != (#[trigger] rows[j]).id@ by {
        assert(status_row(list[i]@, now, rows[i]));
        assert(status_row(list[j]@, now, rows[j]));
        assert(seq_lt(list[i].id@, list[j].id@));
        lemma_seq_lt_irreflexive(list[i].id@);
    }
}

} // verus!
