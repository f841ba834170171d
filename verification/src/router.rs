//! Questions waiting for a spoken answer, one per agent, and how a transcript
//! resolves them.
use vstd::prelude::*;
use crate::keyed::{
    has_key, keyed_map, lemma_keyed_at, lemma_keyed_empty, lemma_keyed_push, lemma_keyed_remove,
    lemma_keyed_update, unique_keys,
};
use crate::text::{
    contains_seq, contains_str, jaro_winkler_bits, jaro_winkler_score, lowercase, str_eq,
    to_lowercase,
};

verus! {

/// `tokio::sync::oneshot::Sender`, carried opaquely to the asker.
#[verifier::external_type_specification]
#[verifier::external_body]
#[verifier::reject_recursive_types(T)]
pub struct ExOneshotSender<T>(tokio::sync::oneshot::Sender<T>);

/// A possible answer: the key that is returned and the label that is read out.
pub struct Choice {
    pub key: String,
    pub label: String,
}

/// A choice, as texts.
pub struct ChoiceView {
    pub key: Seq<char>,
    pub label: Seq<char>,
}

impl View for Choice {
    type V = ChoiceView;

    open spec fn view(&self) -> ChoiceView {
        ChoiceView { key: self.key@, label: self.label@ }
    }
}

/// Choices, as texts.
pub open spec fn choices_view(cs: Seq<Choice>) -> Seq<ChoiceView> {
    cs.map_values(|c: Choice| c@)
}

/// What an asker receives when its question is answered.
pub struct AskResponse {
    pub answer: Option<String>,
    pub raw: Option<String>,
}

/// A question waiting for an answer, with the channel its asker listens on.
pub struct PendingAsk {
    pub agent_id: String,
    pub question: String,
    pub choices: Vec<Choice>,
    pub tx: tokio::sync::oneshot::Sender<AskResponse>,
}

/// A waiting question, as texts (without its channel).
pub struct AskView {
    pub agent_id: Seq<char>,
    pub question: Seq<char>,
    pub choices: Seq<ChoiceView>,
}

impl View for PendingAsk {
    type V = AskView;

    open spec fn view(&self) -> AskView {
        AskView {
            agent_id: self.agent_id@,
            question: self.question@,
            choices: choices_view(self.choices@),
        }
    }
}

/// `oneshot::Sender::send`: hands the response to the asker, and says whether
/// the asker was still listening. That depends on the other side of the
/// channel, so nothing is claimed of the result.
#[verifier::external_body]
fn deliver(tx: tokio::sync::oneshot::Sender<AskResponse>, resp: AskResponse) -> bool {
    tx.send(resp).is_ok()
}

// ---------------------------------------------------------------------------
// Matching a transcript against the choices
// ---------------------------------------------------------------------------

/// Bit pattern of the double nearest 4/5: a fuzzy score must exceed it.
pub const CHOICE_SCORE_THRESHOLD_BITS: u64 = 0x3FE9_9999_9999_999A;

/// The lowercased transcript mentions the choice's key or label, lowercased.
pub open spec fn exact_hit(t: Seq<char>, c: ChoiceView) -> bool {
    contains_seq(t, lowercase(c.key)) || contains_seq(t, lowercase(c.label))
}

/// The first choice at or after `i` that the transcript mentions.
pub open spec fn first_exact_from(t: Seq<char>, cs: Seq<ChoiceView>, i: int) -> Option<int>
    decreases cs.len() - i,
{
    if i < 0 || i >= cs.len() {
        None
    } else if exact_hit(t, cs[i]) {
        Some(i)
    } else {
        first_exact_from(t, cs, i + 1)
    }
}

/// A choice's fuzzy score (bits of a Jaro-Winkler similarity): the better of
/// the label's and the key's.
pub open spec fn choice_score(t: Seq<char>, c: ChoiceView) -> u64 {
    let a = jaro_winkler_bits(t, lowercase(c.label));
    let b = jaro_winkler_bits(t, lowercase(c.key));
    if a >= b {
        a
    } else {
        b
    }
}

/// The fuzzy score of each choice against the transcript.
pub open spec fn choice_scores(t: Seq<char>, cs: Seq<ChoiceView>) -> Seq<u64> {
    cs.map_values(|c: ChoiceView| choice_score(t, c))
}

/// Among the scores above `thresh`, the position of the greatest; the last
/// one when several are equal.
pub open spec fn best_above(scores: Seq<u64>, thresh: u64) -> Option<int>
    decreases scores.len(),
{
    if scores.len() == 0 {
        None
    } else {
        let prev = best_above(scores.drop_last(), thresh);
        let i = scores.len() - 1;
        if scores[i] > thresh && (prev is None || scores[i] >= scores[prev->0]) {
            Some(i)
        } else {
            prev
        }
    }
}

proof fn lemma_best_above_bound(scores: Seq<u64>, thresh: u64)
    ensures
        best_above(scores, thresh) matches Some(k) ==> 0 <= k < scores.len(),
    decreases scores.len(),
{
    if scores.len() > 0 {
        lemma_best_above_bound(scores.drop_last(), thresh);
    }
}

proof fn lemma_first_exact_bound(t: Seq<char>, cs: Seq<ChoiceView>, i: int)
    ensures
        first_exact_from(t, cs, i) matches Some(k) ==> i <= k < cs.len(),
    decreases cs.len() - i,
{
    if 0 <= i < cs.len() {
        lemma_first_exact_bound(t, cs, i + 1);
    }
}

/// The choice a lowercased transcript `t` selects: the first one it
/// mentions, else the best fuzzy match above the threshold, else none.
pub open spec fn choice_for(t: Seq<char>, cs: Seq<ChoiceView>) -> Option<int> {
    match first_exact_from(t, cs, 0) {
        Some(i) => Some(i),
        None => best_above(choice_scores(t, cs), CHOICE_SCORE_THRESHOLD_BITS),
    }
}

/// The answer a transcript gives to a question with these choices: the
/// selected key, or the transcript itself when there are no choices or none
/// is selected.
pub open spec fn answer_spec(cs: Seq<ChoiceView>, raw: Seq<char>) -> Seq<char> {
    if cs.len() == 0 {
        raw
    } else {
        match choice_for(lowercase(raw), cs) {
            Some(i) => cs[i].key,
            None => raw,
        }
    }
}

/// Which choice a transcript selects (by position).
pub fn match_choice(choices: &Vec<Choice>, transcript: &str) -> (r: Option<usize>)
    ensures
        r is None <==> choice_for(lowercase(transcript@), choices_view(choices@)) is None,
        r matches Some(i) ==> i < choices@.len() && choice_for(
            lowercase(transcript@),
            choices_view(choices@),
        ) == Some(i as int),
{
    let ghost cs = choices_view(choices@);
    let t = to_lowercase(transcript);
    let mut i: usize = 0;
    while i < choices.len()
        invariant
            i <= choices@.len(),
            cs == choices_view(choices@),
            t@ == lowercase(transcript@),
            first_exact_from(t@, cs, 0) == first_exact_from(t@, cs, i as int),
        decreases choices.len() - i,
    {
        let c = &choices[i];
        let lk = to_lowercase(c.key.as_str());
        let ll = to_lowercase(c.label.as_str());
        if contains_str(t.as_str(), lk.as_str()) || contains_str(t.as_str(), ll.as_str()) {
            return Some(i);
        }
        i = i + 1;
    }
    // Fuzzy fallback: the best score above the threshold, the last of equals.
    let mut best: Option<usize> = None;
    let mut best_score: u64 = 0;
    let mut j: usize = 0;
    let ghost scores = choice_scores(t@, cs);
    while j < choices.len()
        invariant
            j <= choices@.len(),
            cs == choices_view(choices@),
            scores == choice_scores(t@, cs),
            t@ == lowercase(transcript@),
            first_exact_from(t@, cs, 0) is None,
            best is None <==> best_above(scores.take(j as int), CHOICE_SCORE_THRESHOLD_BITS) is None,
            best matches Some(k) ==> k < j && best_score == scores[k as int] && best_above(
                scores.take(j as int),
                CHOICE_SCORE_THRESHOLD_BITS,
            ) == Some(k as int),
        decreases choices.len() - j,
    {
        let c = &choices[j];
        let ll = to_lowercase(c.label.as_str());
        let lk = to_lowercase(c.key.as_str());
        let a = jaro_winkler_score(t.as_str(), ll.as_str());
        let b = jaro_winkler_score(t.as_str(), lk.as_str());
        let score = if a >= b {
            a
        } else {
            b
        };
        proof {
            assert(scores.take(j + 1).drop_last() =~= scores.take(j as int));
            assert(scores[j as int] == score);
            lemma_best_above_bound(scores.take(j as int), CHOICE_SCORE_THRESHOLD_BITS);
        }
        if score > CHOICE_SCORE_THRESHOLD_BITS && (best.is_none() || score >= best_score) {
            best = Some(j);
            best_score = score;
        }
        j = j + 1;
    }
    proof {
        assert(scores.take(choices@.len() as int) =~= scores);
        lemma_first_exact_bound(t@, cs, 0);
    }
    best
}

/// The answer a transcript gives to a question with these choices.
pub fn answer_for(choices: &Vec<Choice>, raw: &str) -> (a: String)
    ensures
        a@ == answer_spec(choices_view(choices@), raw@),
{
    if choices.len() == 0 {
        return raw.to_owned();
    }
    match match_choice(choices, raw) {
        Some(i) => choices[i].key.clone(),
        None => raw.to_owned(),
    }
}

// ---------------------------------------------------------------------------
// The router
// ---------------------------------------------------------------------------

struct Entry {
    key: String,
    ask: PendingAsk,
}

spec fn entry_key() -> spec_fn(Entry) -> Seq<char> {
    |e: Entry| e.key@
}

spec fn entry_val() -> spec_fn(Entry) -> AskView {
    |e: Entry| e.ask@
}

spec fn entry_tx() -> spec_fn(Entry) -> tokio::sync::oneshot::Sender<AskResponse> {
    |e: Entry| e.ask.tx
}

/// The waiting questions, keyed by the id of the agent that asked.
pub struct AskRouter {
    pending: Vec<Entry>,
}

impl View for AskRouter {
    type V = Map<Seq<char>, AskView>;

    closed spec fn view(&self) -> Map<Seq<char>, AskView> {
        keyed_map(self.pending@, entry_key(), entry_val())
    }
}

impl AskRouter {
    #[verifier::type_invariant]
    spec fn distinct_keys(self) -> bool {
        unique_keys(self.pending@, entry_key())
    }

    /// The reply channel of each waiting question, by agent id; its keys are
    /// those of the view.
    pub closed spec fn channels(&self) -> Map<Seq<char>, tokio::sync::oneshot::Sender<AskResponse>> {
        keyed_map(self.pending@, entry_key(), entry_tx())
    }

    /// Every waiting question has a reply channel, and every channel belongs
    /// to a waiting question.
    pub proof fn lemma_channels_match_questions(&self)
        ensures
            self.channels().dom() == self@.dom(),
    {
        assert(self.channels().dom() =~= self@.dom());
    }

    /// A router with nothing waiting.
    pub fn new() -> (r: Self)
        ensures
            r@ == Map::<Seq<char>, AskView>::empty(),
            r.channels() == Map::<Seq<char>, tokio::sync::oneshot::Sender<AskResponse>>::empty(),
    {
        let r = AskRouter { pending: Vec::new() };
        proof {
            lemma_keyed_empty(r.pending@, entry_key(), entry_val());
            lemma_keyed_empty(r.pending@, entry_key(), entry_tx());
        }
        r
    }

    fn find(&self, agent_id: &str) -> (r: Option<usize>)
        ensures
            match r {
                Some(i) => i < self.pending@.len() && self.pending@[i as int].key@ == agent_id@,
                None => !has_key(self.pending@, entry_key(), agent_id@),
            },
    {
        let mut i: usize = 0;
        while i < self.pending.len()
            invariant
                i <= self.pending@.len(),
                forall|k: int| 0 <= k < i ==> (#[trigger] self.pending@[k]).key@ != agent_id@,
            decreases self.pending.len() - i,
        {
            if str_eq(self.pending[i].key.as_str(), agent_id) {
                return Some(i);
            }
            i = i + 1;
        }
        None
    }

    /// Records `ask` as the question waiting for `agent_id`, replacing any
    /// earlier one (whose asker then hears nothing).
    pub fn insert(&mut self, agent_id: String, ask: PendingAsk)
        ensures
            final(self)@ == old(self)@.insert(agent_id@, ask@),
            final(self).channels() == old(self).channels().insert(agent_id@, ask.tx),
    {
        proof {
            use_type_invariant(&*self);
        }
        let found = self.find(agent_id.as_str());
        let e = Entry { key: agent_id, ask };
        let ghost before = self.pending@;
        let mut pending = Vec::new();
        std::mem::swap(&mut pending, &mut self.pending);
        match found {
            Some(i) => {
                proof {
                    lemma_keyed_update(before, entry_key(), entry_val(), i as int, e);
                    lemma_keyed_update(before, entry_key(), entry_tx(), i as int, e);
                }
                pending.set(i, e);
            },
            None => {
                proof {
                    lemma_keyed_push(before, entry_key(), entry_val(), e);
                    lemma_keyed_push(before, entry_key(), entry_tx(), e);
                }
                pending.push(e);
            },
        }
        self.pending = pending;
    }

    /// Takes out the question waiting for `agent_id`, if any.
    pub fn remove(&mut self, agent_id: &str) -> (r: Option<PendingAsk>)
        ensures
            r is Some <==> old(self)@.contains_key(agent_id@),
            r matches Some(a) ==> a@ == old(self)@[agent_id@] && a.tx == old(self).channels()[agent_id@],
            final(self)@ == old(self)@.remove(agent_id@),
            final(self).channels() == old(self).channels().remove(agent_id@),
    {
        proof {
            use_type_invariant(&*self);
        }
        match self.find(agent_id) {
            Some(i) => {
                proof {
                    lemma_keyed_remove(self.pending@, entry_key(), entry_val(), i as int);
                    lemma_keyed_at(self.pending@, entry_key(), entry_val(), i as int);
                    lemma_keyed_remove(self.pending@, entry_key(), entry_tx(), i as int);
                    lemma_keyed_at(self.pending@, entry_key(), entry_tx(), i as int);
                }
                let mut pending = Vec::new();
                std::mem::swap(&mut pending, &mut self.pending);
                let e = pending.remove(i);
                self.pending = pending;
                Some(e.ask)
            },
            None => {
                assert(keyed_map(self.pending@, entry_key(), entry_val()).remove(agent_id@)
                    =~= keyed_map(self.pending@, entry_key(), entry_val()));
                assert(keyed_map(self.pending@, entry_key(), entry_tx()).remove(agent_id@)
                    =~= keyed_map(self.pending@, entry_key(), entry_tx()));
                None
            },
        }
    }

    /// The id of some agent with a waiting question, if there is one.
    pub fn first_pending_id(&self) -> (r: Option<String>)
        ensures
            r is None <==> self@.dom().is_empty(),
            r matches Some(id) ==> self@.contains_key(id@),
    {
        proof {
            use_type_invariant(self);
        }
        if self.pending.len() == 0 {
            assert(self@.dom() =~= Set::<Seq<char>>::empty());
            None
        } else {
            proof {
                lemma_keyed_at(self.pending@, entry_key(), entry_val(), 0);
            }
            Some(self.pending[0].key.clone())
        }
    }

    /// Nothing is waiting.
    pub fn is_empty(&self) -> (r: bool)
        ensures
            r == self@.dom().is_empty(),
    {
        proof {
            use_type_invariant(self);
        }
        if self.pending.len() == 0 {
            assert(self@.dom() =~= Set::<Seq<char>>::empty());
            true
        } else {
            proof {
                lemma_keyed_at(self.pending@, entry_key(), entry_val(), 0);
            }
            false
        }
    }

    /// The question waiting for `agent_id`, if any.
    pub fn pending_question(&self, agent_id: &str) -> (r: Option<&str>)
        ensures
            r is Some <==> self@.contains_key(agent_id@),
            r matches Some(q) ==> q@ == self@[agent_id@].question,
    {
        proof {
            use_type_invariant(self);
        }
        match self.find(agent_id) {
            Some(i) => {
                proof {
                    lemma_keyed_at(self.pending@, entry_key(), entry_val(), i as int);
                }
                Some(self.pending[i].ask.question.as_str())
            },
            None => None,
        }
    }

    /// The ids of all agents with a waiting question, each once.
    pub fn pending_agent_ids(&self) -> (ids: Vec<String>)
        ensures
            forall|i: int| 0 <= i < ids@.len() ==> self@.contains_key(#[trigger] ids@[i]@),
            forall|k: Seq<char>|
                #[trigger] self@.contains_key(k) ==> exists|i: int|
                    0 <= i < ids@.len() && (#[trigger] ids@[i])@ == k,
            forall|i: int, j: int|
                0 <= i < ids@.len() && 0 <= j < ids@.len() && i != j ==> (#[trigger] ids@[i])@
                    != (#[trigger] ids@[j])@,
    {
        proof {
            use_type_invariant(self);
        }
        let mut ids: Vec<String> = Vec::new();
        let mut n: usize = 0;
        while n < self.pending.len()
            invariant
                n <= self.pending@.len(),
                unique_keys(self.pending@, entry_key()),
                ids@.len() == n,
                forall|i: int| 0 <= i < n ==> (#[trigger] ids@[i])@ == self.pending@[i].key@,
            decreases self.pending.len() - n,
        {
            ids.push(self.pending[n].key.clone());
            n = n + 1;
        }
        proof {
            assert forall|i: int| 0 <= i < ids@.len() implies self@.contains_key(#[trigger] ids@[i]@) by {
                lemma_keyed_at(self.pending@, entry_key(), entry_val(), i);
            }
            assert forall|k: Seq<char>| #[trigger] self@.contains_key(k) implies exists|i: int|
                0 <= i < ids@.len() && (#[trigger] ids@[i])@ == k by {
                let m = choose|m: int| 0 <= m < self.pending@.len() && entry_key()(#[trigger] self.pending@[m]) == k;
                assert(ids@[m]@ == k);
            }
            assert forall|i: int, j: int|
                0 <= i < ids@.len() && 0 <= j < ids@.len() && i != j implies (#[trigger] ids@[i])@
                    != (#[trigger] ids@[j])@ by {
                assert(entry_key()(self.pending@[i]) != entry_key()(self.pending@[j]));
            }
        }
        ids
    }

    /// Takes out the question waiting for `agent_id` and answers it with
    /// `raw`: the asker's channel, and the response it is to receive (the
    /// selected choice's key, or `raw` itself, see `answer_spec`; and `raw`).
    pub fn take_answer(&mut self, agent_id: &str, raw: String) -> (r: Option<
        (tokio::sync::oneshot::Sender<AskResponse>, AskResponse),
    >)
        ensures
            r is Some <==> old(self)@.contains_key(agent_id@),
            final(self)@ == old(self)@.remove(agent_id@),
            final(self).channels() == old(self).channels().remove(agent_id@),
            r matches Some(p) ==> p.0 == old(self).channels()[agent_id@] && answers(
                p.1,
                old(self)@[agent_id@],
                raw@,
            ),
    {
        match self.remove(agent_id) {
            Some(ask) => {
                let resp = response_for(&ask.choices, raw);
                Some((ask.tx, resp))
            },
            None => None,
        }
    }

    /// Answers the question waiting for `agent_id` with `raw`: the response
    /// `take_answer` gives is handed to the asker's channel. Says whether a
    /// question was waiting.
    pub fn resolve(&mut self, agent_id: &str, raw: String) -> (resolved: bool)
        ensures
            resolved == old(self)@.contains_key(agent_id@),
            final(self)@ == old(self)@.remove(agent_id@),
            final(self).channels() == old(self).channels().remove(agent_id@),
    {
        match self.take_answer(agent_id, raw) {
            Some((tx, resp)) => {
                let _ = deliver(tx, resp);
                true
            },
            None => false,
        }
    }
}

/// `resp` is what the asker of `ask` receives when `raw` answers it: the
/// selected choice's key (or `raw` itself), and `raw`.
pub open spec fn answers(resp: AskResponse, ask: AskView, raw: Seq<char>) -> bool {
    &&& resp.answer matches Some(a) && a@ == answer_spec(ask.choices, raw)
    &&& resp.raw matches Some(w) && w@ == raw
}

/// The response an asker receives when `raw` answers its question: the
/// selected choice's key, or `raw` itself (see `answer_spec`), and `raw`.
pub fn response_for(choices: &Vec<Choice>, raw: String) -> (r: AskResponse)
    ensures
        r.answer matches Some(a) && a@ == answer_spec(choices_view(choices@), raw@),
        r.raw matches Some(w) && w@ == raw@,
{
    let answer = answer_for(choices, raw.as_str());
    AskResponse { answer: Some(answer), raw: Some(raw) }
}

// ---------------------------------------------------------------------------
// Laws of the router
// ---------------------------------------------------------------------------

/// A question just asked is the one pending for its agent.
pub proof fn law_ask_then_pending(m: Map<Seq<char>, AskView>, agent_id: Seq<char>, ask: AskView)
    ensures
        m.insert(agent_id, ask).contains_key(agent_id),
        m.insert(agent_id, ask)[agent_id].question == ask.question,
{
}

/// A question is answered at most once: after it is resolved nothing is
/// pending for its agent, so resolving again reports that nothing was waiting
/// and changes nothing.
pub proof fn law_resolve_once(m: Map<Seq<char>, AskView>, agent_id: Seq<char>)
    ensures
        !m.remove(agent_id).contains_key(agent_id),
        m.remove(agent_id).remove(agent_id) == m.remove(agent_id),
{
    assert(m.remove(agent_id).remove(agent_id) =~= m.remove(agent_id));
}

/// The first choice, in list order, whose key or label the transcript
/// mentions is the one selected, whatever the fuzzy scores of the others.
pub proof fn law_first_mentioned_choice_wins(t: Seq<char>, cs: Seq<ChoiceView>, i: int)
    requires
        0 <= i < cs.len(),
        exact_hit(t, cs[i]),
        forall|j: int| 0 <= j < i ==> !exact_hit(t, #[trigger] cs[j]),
    ensures
        choice_for(t, cs) == Some(i),
{
    lemma_first_exact_from(t, cs, 0, i);
}

proof fn lemma_first_exact_from(t: Seq<char>, cs: Seq<ChoiceView>, k: int, i: int)
    requires
        0 <= k <= i < cs.len(),
        exact_hit(t, cs[i]),
        forall|j: int| k <= j < i ==> !exact_hit(t, #[trigger] cs[j]),
    ensures
        first_exact_from(t, cs, k) == Some(i),
    decreases i - k,
{
    if k < i {
        lemma_first_exact_from(t, cs, k + 1, i);
    }
}

/// Without choices the answer is the transcript itself.
pub proof fn law_free_answer_is_transcript(raw: Seq<char>)
    ensures
        answer_spec(Seq::empty(), raw) == raw,
{
}

} // verus!
