//! The registry of connected agents.
use vstd::prelude::*;
use crate::keyed::{has_key, keyed_map, lemma_keyed_at, lemma_keyed_push, lemma_keyed_remove, lemma_keyed_take_succ, lemma_keyed_update, unique_keys};
use crate::text::{chars_of, owned, seq_lt, str_eq, str_lt, string_of};

verus! {

// ---------------------------------------------------------------------------
// Outside items: the monotonic clock and random identifiers
// ---------------------------------------------------------------------------

/// `std::time::Instant`, carried opaquely as the registry clock.
#[verifier::external_type_specification]
#[verifier::external_body]
pub struct ExInstant(std::time::Instant);

/// `Instant::now`: a reading of the monotonic clock. Nothing is claimed of it.
#[verifier::external_body]
fn instant_now() -> std::time::Instant {
    std::time::Instant::now()
}

/// `Instant::elapsed`, in whole seconds (`Duration::as_secs`). The time that
/// passed is not known here, so nothing is claimed of the result.
#[verifier::external_body]
fn elapsed_secs(since: &std::time::Instant) -> u64 {
    since.elapsed().as_secs()
}

/// A lowercase hexadecimal digit.
pub open spec fn is_lower_hex(c: char) -> bool {
    ('0' <= c && c <= '9') || ('a' <= c && c <= 'f')
}

/// `Uuid::new_v4().to_string()`: a random version-4 UUID in hyphenated form.
/// uuid's `Display` writes 36 characters whose first eight are lowercase
/// hexadecimal digits; which digits is left open (they are random).
#[verifier::external_body]
fn random_uuid_text() -> (s: String)
    ensures
        s@.len() == 36,
        forall|i: int| 0 <= i < 8 ==> is_lower_hex(#[trigger] s@[i]),
{
    uuid::Uuid::new_v4().to_string()
}

// ---------------------------------------------------------------------------
// Agents
// ---------------------------------------------------------------------------

/// Whether an agent is blocked on a question.
#[derive(Clone, Copy, Debug, PartialEq, Eq, Structural)]
pub enum AgentState {
    Idle,
    Waiting,
}

/// A registered agent.
pub struct Agent {
    pub id: String,
    pub name: String,
    pub description: Option<String>,
    pub context_terms: Vec<String>,
    pub state: AgentState,
    /// Seconds on the registry's clock when the agent was last heard from.
    pub last_seen: u64,
}

/// What an agent holds, as mathematical values.
pub struct AgentView {
    pub id: Seq<char>,
    pub name: Seq<char>,
    pub description: Option<Seq<char>>,
    pub context_terms: Seq<Seq<char>>,
    pub state: AgentState,
    pub last_seen: u64,
}

/// An optional string, as text.
pub open spec fn opt_str_view(o: Option<String>) -> Option<Seq<char>> {
    match o {
        Some(s) => Some(s@),
        None => None,
    }
}

/// A list of strings, as texts.
pub open spec fn strs_view(v: Seq<String>) -> Seq<Seq<char>> {
    v.map_values(|s: String| s@)
}

impl View for Agent {
    type V = AgentView;

    open spec fn view(&self) -> AgentView {
        AgentView {
            id: self.id@,
            name: self.name@,
            description: opt_str_view(self.description),
            context_terms: strs_view(self.context_terms@),
            state: self.state,
            last_seen: self.last_seen,
        }
    }
}

/// How long an agent may stay silent before it is pruned.
pub const STALE_SECS: u64 = 300;

/// An agent last seen at `last_seen` is still fresh at `now`.
pub open spec fn is_fresh(last_seen: u64, now: u64, max_age: u64) -> bool {
    (if now >= last_seen { now - last_seen } else { 0 }) < max_age
}

/// The name an id is spoken as: the agent's name, or "unknown".
pub open spec fn name_of(m: Map<Seq<char>, AgentView>, id: Seq<char>) -> Seq<char> {
    if m.contains_key(id) {
        m[id].name
    } else {
        "unknown"@
    }
}

/// The extra transcription terms of an agent, or none.
pub open spec fn terms_of(m: Map<Seq<char>, AgentView>, id: Seq<char>) -> Seq<Seq<char>> {
    if m.contains_key(id) {
        m[id].context_terms
    } else {
        Seq::empty()
    }
}

/// The agents of `m` that are fresh at `now`.
pub open spec fn fresh_only(m: Map<Seq<char>, AgentView>, now: u64, max_age: u64) -> Map<
    Seq<char>,
    AgentView,
> {
    Map::new(
        |k: Seq<char>| m.contains_key(k) && is_fresh(m[k].last_seen, now, max_age),
        |k: Seq<char>| m[k],
    )
}

/// The view of a freshly registered agent.
pub open spec fn new_agent_view(
    id: Seq<char>,
    name: Seq<char>,
    description: Option<Seq<char>>,
    context_terms: Seq<Seq<char>>,
    now: u64,
) -> AgentView {
    AgentView { id, name, description, context_terms, state: AgentState::Idle, last_seen: now }
}

// ---------------------------------------------------------------------------
// The map that a vector of agents with distinct ids stands for
// ---------------------------------------------------------------------------

/// The key of an agent in the registry: its id.
pub open spec fn agent_key() -> spec_fn(Agent) -> Seq<char> {
    |a: Agent| a.id@
}

/// The value of an agent in the registry: its view.
pub open spec fn agent_val() -> spec_fn(Agent) -> AgentView {
    |a: Agent| a@
}

/// Some agent of `s` has id `k`.
pub open spec fn has_id(s: Seq<Agent>, k: Seq<char>) -> bool {
    has_key(s, agent_key(), k)
}

/// No two agents of `s` share an id.
pub open spec fn unique_ids(s: Seq<Agent>) -> bool {
    unique_keys(s, agent_key())
}

/// The agents of `s` by id.
pub open spec fn agent_map(s: Seq<Agent>) -> Map<Seq<char>, AgentView> {
    keyed_map(s, agent_key(), agent_val())
}

proof fn lemma_map_at(s: Seq<Agent>, j: int)
    requires
        unique_ids(s),
        0 <= j < s.len(),
    ensures
        agent_map(s).contains_key(s[j].id@),
        agent_map(s)[s[j].id@] == s[j]@,
{
    lemma_keyed_at(s, agent_key(), agent_val(), j);
}

// ---------------------------------------------------------------------------
// Lexicographic order facts
// ---------------------------------------------------------------------------

/// No text comes before itself.
pub proof fn lemma_seq_lt_irreflexive(a: Seq<char>)
    ensures
        !seq_lt(a, a),
    decreases a.len(),
{
    if a.len() > 0 {
        lemma_seq_lt_irreflexive(a.drop_first());
    }
}

/// Text order is transitive.
pub proof fn lemma_seq_lt_transitive(a: Seq<char>, b: Seq<char>, c: Seq<char>)
    requires
        seq_lt(a, b),
        seq_lt(b, c),
    ensures
        seq_lt(a, c),
    decreases a.len(),
{
    if a.len() > 0 && b.len() > 0 && c.len() > 0 && a[0] == b[0] && b[0] == c[0] {
        lemma_seq_lt_transitive(a.drop_first(), b.drop_first(), c.drop_first());
    }
}

/// Of two different texts, one comes before the other.
pub proof fn lemma_seq_lt_total(a: Seq<char>, b: Seq<char>)
    requires
        a != b,
    ensures
        seq_lt(a, b) || seq_lt(b, a),
    decreases a.len(),
{
    if a.len() == 0 && b.len() == 0 {
        assert(a =~= b);
    } else if a.len() == 0 {
        assert(seq_lt(a, b));
    } else if b.len() == 0 {
        assert(seq_lt(b, a));
    } else if a[0] == b[0] {
        if a.drop_first() =~= b.drop_first() {
            assert(a =~= seq![a[0]] + a.drop_first());
            assert(b =~= seq![b[0]] + b.drop_first());
            assert(false);
        } else {
            lemma_seq_lt_total(a.drop_first(), b.drop_first());
            assert(seq_lt(a, b) == seq_lt(a.drop_first(), b.drop_first()));
            assert(seq_lt(b, a) == seq_lt(b.drop_first(), a.drop_first()));
        }
    } else {
        vstd::utf8::char_u32_cast(a[0], a[0] as u32);
        vstd::utf8::char_u32_cast(b[0], b[0] as u32);
    }
}

/// The agents of `r` are in strictly increasing order of id.
pub open spec fn sorted_by_id(r: Seq<&Agent>) -> bool {
    forall|i: int, j: int| 0 <= i < j < r.len() ==> seq_lt((#[trigger] r[i]).id@, (#[trigger] r[j]).id@)
}


/// Every element of `l` is one of `agents[..n]`.
pub open spec fn drawn_from(l: Seq<&Agent>, agents: Seq<Agent>, n: int) -> bool {
    forall|i: int| 0 <= i < l.len() ==> exists|m: int| 0 <= m < n && #[trigger] l[i] == &agents[m]
}

/// Every one of `agents[..n]` has its id in `l`.
pub open spec fn covers(l: Seq<&Agent>, agents: Seq<Agent>, n: int) -> bool {
    forall|m: int| 0 <= m < n ==> exists|i: int| 0 <= i < l.len() && (#[trigger] l[i]).id@ == (#[trigger] agents[m]).id@
}

proof fn lemma_insert_position(agents: Seq<Agent>, before: Seq<&Agent>, p: int, n: int)
    requires
        unique_ids(agents),
        0 <= n < agents.len(),
        0 <= p <= before.len(),
        sorted_by_id(before),
        drawn_from(before, agents, n),
        forall|q: int| 0 <= q < p ==> !seq_lt(agents[n].id@, (#[trigger] before[q]).id@),
        p < before.len() ==> seq_lt(agents[n].id@, before[p].id@),
    ensures
        forall|q: int| 0 <= q < p ==> seq_lt((#[trigger] before[q]).id@, agents[n].id@),
        forall|q: int| p <= q < before.len() ==> seq_lt(agents[n].id@, (#[trigger] before[q]).id@),
{
    let a = &agents[n];
    assert forall|q: int| 0 <= q < p implies seq_lt((#[trigger] before[q]).id@, a.id@) by {
        let m = choose|m: int| 0 <= m < n && before[q] == &agents[m];
        assert(agents[m].id@ != agents[n].id@);
        lemma_seq_lt_total(before[q].id@, a.id@);
    }
    assert forall|q: int| p <= q < before.len() implies seq_lt(a.id@, (#[trigger] before[q]).id@) by {
        if q > p {
            lemma_seq_lt_transitive(a.id@, before[p].id@, before[q].id@);
        }
    }
}

proof fn lemma_insert_sorted(before: Seq<&Agent>, p: int, a: &Agent)
    requires
        0 <= p <= before.len(),
        sorted_by_id(before),
        forall|q: int| 0 <= q < p ==> seq_lt((#[trigger] before[q]).id@, a.id@),
        forall|q: int| p <= q < before.len() ==> seq_lt(a.id@, (#[trigger] before[q]).id@),
    ensures
        sorted_by_id(before.insert(p, a)),
{
    let list = before.insert(p, a);
    assert forall|i: int, j: int| 0 <= i < j < list.len() implies seq_lt((#[trigger] list[i]).id@, (#[trigger] list[j]).id@) by {
        if j == p {
            assert(list[i] == before[i]);
        } else if i == p {
            assert(list[j] == before[j - 1]);
        } else if j < p {
            assert(list[i] == before[i] && list[j] == before[j]);
        } else if i < p {
            assert(list[i] == before[i] && list[j] == before[j - 1]);
            lemma_seq_lt_transitive(before[i].id@, a.id@, before[j - 1].id@);
        } else {
            assert(list[i] == before[i - 1] && list[j] == before[j - 1]);
        }
    }
}

proof fn lemma_insert_members(agents: Seq<Agent>, before: Seq<&Agent>, p: int, n: int)
    requires
        0 <= n < agents.len(),
        0 <= p <= before.len(),
        drawn_from(before, agents, n),
        covers(before, agents, n),
    ensures
        drawn_from(before.insert(p, &agents[n]), agents, n + 1),
        covers(before.insert(p, &agents[n]), agents, n + 1),
{
    let list = before.insert(p, &agents[n]);
    assert forall|i: int| 0 <= i < list.len() implies exists|m: int| 0 <= m < n + 1 && #[trigger] list[i] == &agents[m] by {
        if i == p {
            assert(list[i] == &agents[n]);
        } else if i < p {
            assert(list[i] == before[i]);
        } else {
            assert(list[i] == before[i - 1]);
        }
    }
    assert forall|m: int| 0 <= m < n + 1 implies exists|i: int| 0 <= i < list.len() && (#[trigger] list[i]).id@ == (#[trigger] agents[m]).id@ by {
        if m == n {
            assert(list[p].id@ == agents[m].id@);
        } else {
            let i = choose|i: int| 0 <= i < before.len() && (#[trigger] before[i]).id@ == agents[m].id@;
            if i < p {
                assert(list[i] == before[i]);
            } else {
                assert(list[i + 1] == before[i]);
            }
        }
    }
}

// ---------------------------------------------------------------------------
// The registry
// ---------------------------------------------------------------------------

/// The agents known to the daemon, keyed by id.
pub struct AgentRegistry {
    agents: Vec<Agent>,
    clock: std::time::Instant,
    /// The latest time, in seconds on `clock`, that the registry has recorded.
    latest: u64,
}

impl View for AgentRegistry {
    type V = Map<Seq<char>, AgentView>;

    closed spec fn view(&self) -> Map<Seq<char>, AgentView> {
        agent_map(self.agents@)
    }
}

impl AgentRegistry {
    #[verifier::type_invariant]
    spec fn distinct_ids(self) -> bool {
        &&& unique_ids(self.agents@)
        &&& forall|i: int| 0 <= i < self.agents@.len() ==> (#[trigger] self.agents@[i]).last_seen <= self.latest
    }

    /// The registry's clock: the latest time (in seconds since the registry
    /// was created) that it has recorded.
    pub closed spec fn clock(&self) -> u64 {
        self.latest
    }

    /// No agent was seen later than the registry's clock.
    pub open spec fn clock_bounds(&self) -> bool {
        forall|k: Seq<char>| #[trigger] self@.contains_key(k) ==> self@[k].last_seen <= self.clock()
    }

    proof fn lemma_clock_bounds(&self)
        requires
            self.inv(),
        ensures
            self.clock_bounds(),
    {
        assert forall|k: Seq<char>| #[trigger] self@.contains_key(k) implies self@[k].last_seen <= self.clock() by {
            let i = choose|i: int| 0 <= i < self.agents@.len() && (#[trigger] self.agents@[i]).id@ == k;
            lemma_map_at(self.agents@, i);
        }
    }

    spec fn inv(&self) -> bool {
        self.distinct_ids()
    }

    /// An empty registry, its clock at zero.
    pub fn new() -> (r: Self)
        ensures
            r@ == Map::<Seq<char>, AgentView>::empty(),
            r.clock() == 0,
    {
        let r = AgentRegistry { agents: Vec::new(), clock: instant_now(), latest: 0 };
        assert(agent_map(r.agents@) =~= Map::<Seq<char>, AgentView>::empty());
        r
    }

    /// The current time in seconds since the registry was created, on the
    /// monotonic clock, never earlier than the registry's clock: the time
    /// that passed is not known here, only that it does not go back.
    pub(crate) fn now_secs(&self) -> (now: u64)
        ensures
            now >= self.clock(),
            forall|k: Seq<char>| #[trigger] self@.contains_key(k) ==> self@[k].last_seen <= now,
    {
        proof {
            use_type_invariant(self);
            self.lemma_clock_bounds();
        }
        let e = elapsed_secs(&self.clock);
        if e >= self.latest {
            e
        } else {
            self.latest
        }
    }

    fn find(&self, id: &str) -> (r: Option<usize>)
        ensures
            match r {
                Some(i) => i < self.agents@.len() && self.agents@[i as int].id@ == id@,
                None => !has_id(self.agents@, id@),
            },
    {
        let mut i: usize = 0;
        while i < self.agents.len()
            invariant
                i <= self.agents@.len(),
                forall|k: int| 0 <= k < i ==> (#[trigger] self.agents@[k]).id@ != id@,
            decreases self.agents.len() - i,
        {
            if str_eq(self.agents[i].id.as_str(), id) {
                return Some(i);
            }
            i = i + 1;
        }
        None
    }

    /// Registers an agent under a fresh random six-character id, seen now.
    pub fn register(
        &mut self,
        name: String,
        description: Option<String>,
        context_terms: Vec<String>,
    ) -> (id: String)
        ensures
            id@.len() == 6,
            forall|i: int| 0 <= i < 6 ==> is_lower_hex(#[trigger] id@[i]),
            final(self)@ == old(self)@.insert(
                id@,
                new_agent_view(
                    id@,
                    name@,
                    opt_str_view(description),
                    strs_view(context_terms@),
                    final(self)@[id@].last_seen,
                ),
            ),
            final(self).clock() >= old(self).clock(),
            final(self)@[id@].last_seen == final(self).clock(),
            final(self).clock_bounds(),
    {
        let uuid = random_uuid_text();
        let uv = chars_of(uuid.as_str());
        let id = string_of(&uv, 0, 6);
        let now = self.now_secs();
        let idc = id.clone();
        self.register_with(idc, now, name, description, context_terms);
        proof {
            use_type_invariant(&*self);
            self.lemma_clock_bounds();
        }
        id
    }

    /// Registers an agent under `id`, seen at `now`, replacing any agent that
    /// had that id.
    pub fn register_with(
        &mut self,
        id: String,
        now: u64,
        name: String,
        description: Option<String>,
        context_terms: Vec<String>,
    )
        ensures
            final(self)@ == old(self)@.insert(
                id@,
                new_agent_view(id@, name@, opt_str_view(description), strs_view(context_terms@), now),
            ),
            final(self).clock() == if now >= old(self).clock() { now } else { old(self).clock() },
    {
        proof {
            use_type_invariant(&*self);
        }
        if now > self.latest {
            self.latest = now;
        }
        let agent = Agent {
            id,
            name,
            description,
            context_terms,
            state: AgentState::Idle,
            last_seen: now,
        };
        let found = self.find(agent.id.as_str());
        let ghost before = self.agents@;
        let mut agents = Vec::new();
        std::mem::swap(&mut agents, &mut self.agents);
        match found {
            Some(i) => {
                proof {
                    lemma_keyed_update(before, agent_key(), agent_val(), i as int, agent);
                }
                agents.set(i, agent);
            },
            None => {
                proof {
                    lemma_keyed_push(before, agent_key(), agent_val(), agent);
                }
                agents.push(agent);
            },
        }
        self.agents = agents;
    }

    /// Removes the agent with `id`; says whether there was one.
    pub fn remove(&mut self, id: &str) -> (removed: bool)
        ensures
            removed == old(self)@.contains_key(id@),
            final(self)@ == old(self)@.remove(id@),
            final(self).clock() == old(self).clock(),
    {
        proof {
            use_type_invariant(&*self);
        }
        match self.find(id) {
            Some(i) => {
                proof {
                    lemma_keyed_remove(self.agents@, agent_key(), agent_val(), i as int);
                    lemma_map_at(self.agents@, i as int);
                }
                let mut agents = Vec::new();
                std::mem::swap(&mut agents, &mut self.agents);
                let _ = agents.remove(i);
                self.agents = agents;
                true
            },
            None => {
                assert(agent_map(self.agents@).remove(id@) =~= agent_map(self.agents@));
                false
            },
        }
    }

    /// Marks the agent with `id`, if any, as seen now: its last sighting
    /// becomes the registry's clock, read anew and never going back.
    pub fn touch(&mut self, id: &str)
        ensures
            old(self)@.contains_key(id@) ==> final(self)@ == old(self)@.insert(
                id@,
                AgentView { last_seen: final(self)@[id@].last_seen, ..old(self)@[id@] },
            ),
            !old(self)@.contains_key(id@) ==> final(self)@ == old(self)@,
            final(self).clock() >= old(self).clock(),
            old(self)@.contains_key(id@) ==> final(self)@[id@].last_seen == final(self).clock(),
            final(self).clock_bounds(),
    {
        let now = self.now_secs();
        self.touch_at(id, now);
        proof {
            use_type_invariant(&*self);
            self.lemma_clock_bounds();
        }
    }

    /// Marks the agent with `id`, if any, as seen at `now`.
    pub fn touch_at(&mut self, id: &str, now: u64)
        ensures
            final(self)@ == if old(self)@.contains_key(id@) {
                old(self)@.insert(id@, AgentView { last_seen: now, ..old(self)@[id@] })
            } else {
                old(self)@
            },
            final(self).clock() == if now >= old(self).clock() { now } else { old(self).clock() },
    {
        proof {
            use_type_invariant(&*self);
        }
        if now > self.latest {
            self.latest = now;
        }
        if let Some(i) = self.find(id) {
            proof {
                lemma_map_at(self.agents@, i as int);
            }
            let ghost before = self.agents@;
            let mut agents = Vec::new();
            std::mem::swap(&mut agents, &mut self.agents);
            let mut a = agents.remove(i);
            a.last_seen = now;
            agents.insert(i, a);
            proof {
                assert(agents@ =~= before.update(i as int, a));
                lemma_keyed_update(before, agent_key(), agent_val(), i as int, a);
            }
            self.agents = agents;
        }
    }

    /// Sets the state of the agent with `id`, if any.
    pub fn set_state(&mut self, id: &str, state: AgentState)
        ensures
            final(self)@ == if old(self)@.contains_key(id@) {
                old(self)@.insert(id@, AgentView { state, ..old(self)@[id@] })
            } else {
                old(self)@
            },
            final(self).clock() == old(self).clock(),
    {
        proof {
            use_type_invariant(&*self);
        }
        if let Some(i) = self.find(id) {
            proof {
                lemma_map_at(self.agents@, i as int);
            }
            let ghost before = self.agents@;
            let mut agents = Vec::new();
            std::mem::swap(&mut agents, &mut self.agents);
            let mut a = agents.remove(i);
            a.state = state;
            agents.insert(i, a);
            proof {
                assert(agents@ =~= before.update(i as int, a));
                lemma_keyed_update(before, agent_key(), agent_val(), i as int, a);
            }
            self.agents = agents;
        }
    }

    /// The name of the agent with `id`, or "unknown".
    pub fn name(&self, id: &str) -> (n: String)
        ensures
            n@ == name_of(self@, id@),
    {
        proof {
            use_type_invariant(self);
        }
        match self.find(id) {
            Some(i) => {
                proof {
                    lemma_map_at(self.agents@, i as int);
                }
                self.agents[i].name.clone()
            },
            None => owned("unknown"),
        }
    }

    /// The extra transcription terms of the agent with `id`, or none.
    pub fn context_terms(&self, id: &str) -> (terms: Vec<String>)
        ensures
            strs_view(terms@) == terms_of(self@, id@),
    {
        proof {
            use_type_invariant(self);
        }
        match self.find(id) {
            Some(i) => {
                proof {
                    lemma_map_at(self.agents@, i as int);
                }
                clone_strings(&self.agents[i].context_terms)
            },
            None => {
                let v: Vec<String> = Vec::new();
                assert(strs_view(v@) =~= Seq::<Seq<char>>::empty());
                v
            },
        }
    }

    /// Every agent, in increasing order of id.
    #[verifier::rlimit(40)]
    pub fn all(&self) -> (list: Vec<&Agent>)
        ensures
            sorted_by_id(list@),
            forall|i: int|
                0 <= i < list@.len() ==> self@.contains_key((#[trigger] list@[i]).id@)
                    && self@[list@[i].id@] == list@[i]@,
            forall|k: Seq<char>|
                #[trigger] self@.contains_key(k) ==> exists|i: int|
                    0 <= i < list@.len() && (#[trigger] list@[i]).id@ == k,
    {
        proof {
            use_type_invariant(self);
        }
        let mut list: Vec<&Agent> = Vec::new();
        let mut n: usize = 0;
        while n < self.agents.len()
            invariant
                n <= self.agents@.len(),
                unique_ids(self.agents@),
                sorted_by_id(list@),
                drawn_from(list@, self.agents@, n as int),
                covers(list@, self.agents@, n as int),
            decreases self.agents.len() - n,
        {
            let a = &self.agents[n];
            // First position whose id is greater than a's.
            let mut p: usize = 0;
            while p < list.len() && !str_lt(a.id.as_str(), list[p].id.as_str())
                invariant
                    p <= list@.len(),
                    forall|q: int| 0 <= q < p ==> !seq_lt(a.id@, (#[trigger] list@[q]).id@),
                decreases list.len() - p,
            {
                p = p + 1;
            }
            let ghost before = list@;
            list.insert(p, a);
            proof {
                assert(list@ =~= before.insert(p as int, a));
                lemma_insert_position(self.agents@, before, p as int, n as int);
                lemma_insert_sorted(before, p as int, a);
                lemma_insert_members(self.agents@, before, p as int, n as int);
            }
            n = n + 1;
        }
        proof {
            assert forall|i: int| 0 <= i < list@.len() implies self@.contains_key((#[trigger] list@[i]).id@)
                && self@[list@[i].id@] == list@[i]@ by {
                let m = choose|m: int| 0 <= m < n && list@[i] == &self.agents@[m];
                lemma_map_at(self.agents@, m);
            }
            assert forall|k: Seq<char>| #[trigger] self@.contains_key(k) implies exists|i: int|
                0 <= i < list@.len() && (#[trigger] list@[i]).id@ == k by {
                let m = choose|m: int| 0 <= m < self.agents@.len() && (#[trigger] self.agents@[m]).id@ == k;
                assert(self.agents@[m].id@ == k);
            }
        }
        list
    }

    /// Drops every agent not heard from in the last five minutes, by the
    /// registry's clock, read anew and never going back.
    pub fn prune_stale(&mut self)
        ensures
            exists|now: u64| final(self)@ == fresh_only(old(self)@, now, STALE_SECS),
            final(self).clock() >= old(self).clock(),
            final(self)@ == fresh_only(old(self)@, final(self).clock(), STALE_SECS),
            final(self).clock_bounds(),
    {
        proof {
            use_type_invariant(&*self);
        }
        let now = self.now_secs();
        self.latest = now;
        self.prune_stale_at(now, STALE_SECS);
        proof {
            use_type_invariant(&*self);
            self.lemma_clock_bounds();
        }
    }

    /// Drops every agent whose last sighting is `max_age` seconds or more
    /// before `now`.
    pub fn prune_stale_at(&mut self, now: u64, max_age: u64)
        ensures
            final(self)@ == fresh_only(old(self)@, now, max_age),
            final(self).clock() == old(self).clock(),
    {
        proof {
            use_type_invariant(&*self);
        }
        let ghost orig = self.agents@;
        let ghost lat = self.latest;
        let mut rest: Vec<Agent> = Vec::new();
        std::mem::swap(&mut rest, &mut self.agents);
        let mut kept: Vec<Agent> = Vec::new();
        let ghost mut k: int = 0;
        assert(orig.skip(0) =~= orig);
        assert(agent_map(kept@) =~= fresh_only(agent_map(orig.take(0)), now, max_age));
        while rest.len() > 0
            invariant
                unique_ids(orig),
                0 <= k <= orig.len(),
                rest@ == orig.skip(k),
                unique_ids(kept@),
                agent_map(kept@) == fresh_only(agent_map(orig.take(k)), now, max_age),
                forall|i: int| 0 <= i < kept@.len() ==> has_id(orig.take(k), (#[trigger] kept@[i]).id@),
                forall|i: int| 0 <= i < orig.len() ==> (#[trigger] orig[i]).last_seen <= lat,
                forall|i: int| 0 <= i < kept@.len() ==> (#[trigger] kept@[i]).last_seen <= lat,
                self.latest == lat,
            decreases rest.len(),
        {
            let a = rest.remove(0);
            proof {
                assert(a == orig[k]);
                assert(rest@ =~= orig.skip(k + 1));
                lemma_keyed_take_succ(orig, agent_key(), k);
                lemma_keyed_push(orig.take(k), agent_key(), agent_val(), a);
            }
            if now.saturating_sub(a.last_seen) < max_age {
                proof {
                    if has_id(kept@, a.id@) {
                        let i = choose|i: int| 0 <= i < kept@.len() && (#[trigger] kept@[i]).id@ == a.id@;
                        assert(has_id(orig.take(k), kept@[i].id@));
                    }
                    lemma_keyed_push(kept@, agent_key(), agent_val(), a);
                    assert(agent_map(kept@.push(a)) =~= fresh_only(agent_map(orig.take(k + 1)), now, max_age));
                }
                kept.push(a);
            } else {
                proof {
                    assert(!has_id(orig.take(k), a.id@));
                    assert(agent_map(kept@) =~= fresh_only(agent_map(orig.take(k + 1)), now, max_age)) by {
                        assert forall|key: Seq<char>| agent_map(kept@).contains_key(key) implies key != a.id@ by {
                            let i = choose|i: int| 0 <= i < kept@.len() && (#[trigger] kept@[i]).id@ == key;
                            assert(has_id(orig.take(k), kept@[i].id@));
                        }
                    }
                }
            }
            proof {
                assert forall|i: int| 0 <= i < kept@.len() implies has_id(orig.take(k + 1), (#[trigger] kept@[i]).id@) by {
                    if has_id(orig.take(k), kept@[i].id@) {
                        let m = choose|m: int| 0 <= m < k && (#[trigger] orig.take(k)[m]).id@ == kept@[i].id@;
                        assert(orig.take(k + 1)[m] == orig.take(k)[m]);
                    } else {
                        assert(orig.take(k + 1)[k] == a);
                    }
                }
                k = k + 1;
            }
        }
        proof {
            assert(orig.take(k) =~= orig);
        }
        self.agents = kept;
    }
}

/// A copy of a list of strings.
pub fn clone_strings(v: &Vec<String>) -> (r: Vec<String>)
    ensures
        r@ == v@,
        strs_view(r@) == strs_view(v@),
{
    let mut r: Vec<String> = Vec::new();
    let mut i: usize = 0;
    while i < v.len()
        invariant
            i <= v.len(),
            r@ == v@.take(i as int),
        decreases v.len() - i,
    {
        r.push(v[i].clone());
        assert(v@.take(i + 1) =~= v@.take(i as int).push(v@[i as int]));
        i = i + 1;
    }
    assert(v@.take(v.len() as int) =~= v@);
    r
}

// ---------------------------------------------------------------------------
// Laws of the registry
// ---------------------------------------------------------------------------

/// A registered agent is known under its id, by the name it registered with,
/// with its context terms, idle; every other id is spoken as before.
pub proof fn law_register_then_lookup(
    m: Map<Seq<char>, AgentView>,
    id: Seq<char>,
    name: Seq<char>,
    description: Option<Seq<char>>,
    terms: Seq<Seq<char>>,
    now: u64,
)
    ensures
        ({
            let m2 = m.insert(id, new_agent_view(id, name, description, terms, now));
            &&& m2.contains_key(id)
            &&& name_of(m2, id) == name
            &&& terms_of(m2, id) == terms
            &&& m2[id].state == AgentState::Idle
            &&& forall|k: Seq<char>| k != id ==> name_of(m2, k) == name_of(m, k)
        }),
{
}

/// Once an agent is deregistered it is spoken as "unknown", and a second
/// deregistration finds nothing to remove.
pub proof fn law_deregister_forgets(m: Map<Seq<char>, AgentView>, id: Seq<char>)
    ensures
        name_of(m.remove(id), id) == "unknown"@,
        !m.remove(id).contains_key(id),
        m.remove(id).remove(id) == m.remove(id),
{
    assert(m.remove(id).remove(id) =~= m.remove(id));
}

/// Touching an agent changes nothing but when it was last seen: the same
/// agents stay registered, under the same names and states; and an agent
/// touched at `now` survives a prune at `now` (for any positive age limit).
pub proof fn law_touch_keeps_agent(
    m: Map<Seq<char>, AgentView>,
    id: Seq<char>,
    now: u64,
    max_age: u64,
)
    requires
        m.contains_key(id),
        max_age > 0,
    ensures
        ({
            let m2 = m.insert(id, AgentView { last_seen: now, ..m[id] });
            &&& m2.dom() == m.dom()
            &&& forall|k: Seq<char>|
                #[trigger] m.contains_key(k) ==> m2[k].name == m[k].name && m2[k].state
                    == m[k].state && m2[k].context_terms == m[k].context_terms
            &&& fresh_only(m2, now, max_age).contains_key(id)
        }),
{
    let m2 = m.insert(id, AgentView { last_seen: now, ..m[id] });
    assert(m2.dom() =~= m.dom());
}

/// An agent last heard from at `seen` is kept by every prune made less than
/// `STALE_SECS` seconds later.
pub proof fn law_recent_agent_survives_prune(m: Map<Seq<char>, AgentView>, id: Seq<char>, now: u64)
    requires
        m.contains_key(id),
        m[id].last_seen <= now < m[id].last_seen + STALE_SECS,
    ensures
        fresh_only(m, now, STALE_SECS).contains_key(id),
        fresh_only(m, now, STALE_SECS)[id] == m[id],
{
}

/// Pruning keeps only registered agents, and pruning again at the same time
/// removes nothing more.
pub proof fn law_prune_idempotent(m: Map<Seq<char>, AgentView>, now: u64, max_age: u64)
    ensures
        fresh_only(m, now, max_age).dom().subset_of(m.dom()),
        fresh_only(fresh_only(m, now, max_age), now, max_age) == fresh_only(m, now, max_age),
{
    assert(fresh_only(fresh_only(m, now, max_age), now, max_age) =~= fresh_only(m, now, max_age));
}

/// A prune at the registry's clock drops exactly the agents that have been
/// silent for `STALE_SECS` seconds or more by that clock, and keeps the
/// others unchanged.
pub proof fn law_prune_at_clock(m: Map<Seq<char>, AgentView>, clock: u64, id: Seq<char>)
    requires
        forall|k: Seq<char>| #[trigger] m.contains_key(k) ==> m[k].last_seen <= clock,
    ensures
        fresh_only(m, clock, STALE_SECS).contains_key(id) <==> (m.contains_key(id) && clock
            - m[id].last_seen < STALE_SECS),
        fresh_only(m, clock, STALE_SECS).contains_key(id) ==> fresh_only(m, clock, STALE_SECS)[id]
            == m[id],
{
    if m.contains_key(id) {
        assert(m[id].last_seen <= clock);
    }
}

/// The agent seen at the registry's clock (as `register` and `touch` leave
/// it) is the most recently seen of all, and the last to be pruned: any
/// prune at or after the clock that keeps some agent keeps it too, and any
/// prune less than `STALE_SECS` seconds after the clock keeps it.
pub proof fn law_latest_agent_outlives_others(r: &AgentRegistry, id: Seq<char>, now: u64)
    requires
        r.clock_bounds(),
        r@.contains_key(id),
        r@[id].last_seen == r.clock(),
        now >= r.clock(),
    ensures
        forall|k: Seq<char>| #[trigger] r@.contains_key(k) ==> r@[k].last_seen <= r@[id].last_seen,
        forall|k: Seq<char>|
            #[trigger] fresh_only(r@, now, STALE_SECS).contains_key(k) ==> fresh_only(
                r@,
                now,
                STALE_SECS,
            ).contains_key(id),
        now < r.clock() + STALE_SECS ==> fresh_only(r@, now, STALE_SECS).contains_key(id),
{
    assert forall|k: Seq<char>| #[trigger] fresh_only(r@, now, STALE_SECS).contains_key(k) implies fresh_only(
        r@,
        now,
        STALE_SECS,
    ).contains_key(id) by {
        assert(r@.contains_key(k));
        assert(r@[k].last_seen <= r.clock());
    }
}

} // verus!
