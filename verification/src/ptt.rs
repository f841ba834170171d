//! Push-to-talk: the hotkey it listens for, and the decisions taken when the
//! key is pressed, released, and what was said is routed.
use vstd::prelude::*;
use crate::agents::{name_of, strs_view, terms_of, AgentRegistry};
use crate::glossary::Glossary;
use crate::router::{answers, AskResponse, AskRouter};
use crate::text::{
    char_count, chars_of, concat2, drop_upto, has_prefix, jaro_winkler_bits, jaro_winkler_score,
    join, join_strings, lowercase, sep_chars, skip_chars, slice_strings, split_char, split_on,
    split_whitespace, split_ws, starts_with_str, str_eq, take_upto, to_lowercase, to_uppercase,
    trim, trim_start_seps, trim_start_while, trim_str, uppercase,
};

verus! {

// ---------------------------------------------------------------------------
// The hotkey
// ---------------------------------------------------------------------------

/// Modifier keys held with the push-to-talk key.
#[derive(Clone, Copy, Debug, PartialEq, Eq, Structural)]
pub struct Modifiers {
    pub alt: bool,
    pub ctrl: bool,
    pub shift: bool,
    pub meta: bool,
}

impl Modifiers {
    /// No modifier held.
    pub open spec fn none() -> Modifiers {
        Modifiers { alt: false, ctrl: false, shift: false, meta: false }
    }

    /// None of the modifiers is held.
    pub open spec fn no_modifiers(self) -> bool {
        !self.alt && !self.ctrl && !self.shift && !self.meta
    }

    /// No modifier is held.
    pub fn is_empty(&self) -> (r: bool)
        ensures
            r == self.no_modifiers(),
    {
        !self.alt && !self.ctrl && !self.shift && !self.meta
    }
}

/// The key pressed with the modifiers.
#[derive(Clone, Copy, Debug, PartialEq, Eq, Structural)]
pub enum KeyCode {
    Space,
    /// A function key, F1 to F12.
    Function(u8),
    /// A letter key, 'A' to 'Z'.
    Letter(char),
}

/// A parsed push-to-talk hotkey; `mods` is `None` when no modifier is held.
#[derive(Clone, Copy, Debug, PartialEq, Eq, Structural)]
pub struct Hotkey {
    pub mods: Option<Modifiers>,
    pub code: KeyCode,
}

/// Why a hotkey description was refused.
#[derive(Debug, PartialEq, Eq)]
pub enum HotkeyError {
    /// A modifier that is not known (as written in upper case).
    UnknownModifier(String),
    /// A key that is not known (as written in upper case).
    UnknownKey(String),
}

/// A hotkey error, as text.
pub enum HotkeyErrorView {
    UnknownModifier(Seq<char>),
    UnknownKey(Seq<char>),
}

impl View for HotkeyError {
    type V = HotkeyErrorView;

    open spec fn view(&self) -> HotkeyErrorView {
        match self {
            HotkeyError::UnknownModifier(m) => HotkeyErrorView::UnknownModifier(m@),
            HotkeyError::UnknownKey(k) => HotkeyErrorView::UnknownKey(k@),
        }
    }
}

impl HotkeyErrorView {
    /// The message shown for the error.
    pub open spec fn message(self) -> Seq<char> {
        match self {
            HotkeyErrorView::UnknownModifier(m) => "unknown modifier: "@ + m,
            HotkeyErrorView::UnknownKey(k) => "unknown key: \""@ + k
                + "\". Use F1–F12, A–Z, or Space"@,
        }
    }
}

impl HotkeyError {
    /// The message shown for the error.
    pub fn message(&self) -> (m: String)
        ensures
            m@ == self@.message(),
    {
        match self {
            HotkeyError::UnknownModifier(m) => concat2("unknown modifier: ", m.as_str()),
            HotkeyError::UnknownKey(k) => {
                let s = concat2("unknown key: \"", k.as_str());
                concat2(s.as_str(), "\". Use F1–F12, A–Z, or Space")
            },
        }
    }
}

/// The modifier an upper-cased word names, if any.
pub open spec fn modifier_of(m: Seq<char>) -> Option<Modifiers> {
    let none = Modifiers::none();
    if m == "ALT"@ || m == "OPTION"@ || m == "OPT"@ {
        Some(Modifiers { alt: true, ..none })
    } else if m == "CTRL"@ || m == "CONTROL"@ {
        Some(Modifiers { ctrl: true, ..none })
    } else if m == "SHIFT"@ {
        Some(Modifiers { shift: true, ..none })
    } else if m == "META"@ || m == "CMD"@ || m == "COMMAND"@ || m == "SUPER"@ {
        Some(Modifiers { meta: true, ..none })
    } else {
        None
    }
}

/// The modifiers held in `a` or in `b`.
pub open spec fn union_mods(a: Modifiers, b: Modifiers) -> Modifiers {
    Modifiers {
        alt: a.alt || b.alt,
        ctrl: a.ctrl || b.ctrl,
        shift: a.shift || b.shift,
        meta: a.meta || b.meta,
    }
}

/// The modifiers named by upper-cased words, or the first word that names none.
pub open spec fn mods_of(words: Seq<Seq<char>>) -> Result<Modifiers, Seq<char>>
    decreases words.len(),
{
    if words.len() == 0 {
        Ok(Modifiers::none())
    } else {
        match mods_of(words.drop_last()) {
            Err(e) => Err(e),
            Ok(acc) => match modifier_of(words.last()) {
                Some(m) => Ok(union_mods(acc, m)),
                None => Err(words.last()),
            },
        }
    }
}

/// The function key number an upper-cased word names: "F1" to "F12".
pub open spec fn function_key_of(k: Seq<char>) -> Option<u8> {
    if k.len() == 2 && k[0] == 'F' && '1' <= k[1] && k[1] <= '9' {
        Some(((k[1] as u32) - ('0' as u32)) as u8)
    } else if k.len() == 3 && k[0] == 'F' && k[1] == '1' && '0' <= k[2] && k[2] <= '2' {
        Some((10 + (k[2] as u32) - ('0' as u32)) as u8)
    } else {
        None
    }
}

/// The key an upper-cased word names.
pub open spec fn key_code_of(k: Seq<char>) -> Option<KeyCode> {
    if k == "SPACE"@ {
        Some(KeyCode::Space)
    } else if function_key_of(k) is Some {
        Some(KeyCode::Function(function_key_of(k)->0))
    } else if k.len() == 1 && 'A' <= k[0] && k[0] <= 'Z' {
        Some(KeyCode::Letter(k[0]))
    } else {
        None
    }
}

/// The hotkey a description like "Ctrl+Shift+F5" names: the text is split at
/// '+', each piece trimmed; the last piece is the key, the others modifiers,
/// each compared in upper case.
pub open spec fn hotkey_of(s: Seq<char>) -> Result<Hotkey, HotkeyErrorView> {
    let parts = split_on(s, '+').map_values(|p: Seq<char>| trim(p));
    let mods = parts.drop_last().map_values(|p: Seq<char>| uppercase(p));
    let key = uppercase(parts.last());
    match mods_of(mods) {
        Err(m) => Err(HotkeyErrorView::UnknownModifier(m)),
        Ok(md) => match key_code_of(key) {
            None => Err(HotkeyErrorView::UnknownKey(key)),
            Some(code) => Ok(
                Hotkey {
                    mods: if md.no_modifiers() {
                        None
                    } else {
                        Some(md)
                    },
                    code,
                },
            ),
        },
    }
}

fn parse_modifier(m: &str) -> (r: Option<Modifiers>)
    ensures
        r == modifier_of(m@),
{
    let none = Modifiers { alt: false, ctrl: false, shift: false, meta: false };
    if str_eq(m, "ALT") || str_eq(m, "OPTION") || str_eq(m, "OPT") {
        Some(Modifiers { alt: true, ..none })
    } else if str_eq(m, "CTRL") || str_eq(m, "CONTROL") {
        Some(Modifiers { ctrl: true, ..none })
    } else if str_eq(m, "SHIFT") {
        Some(Modifiers { shift: true, ..none })
    } else if str_eq(m, "META") || str_eq(m, "CMD") || str_eq(m, "COMMAND") || str_eq(
        m,
        "SUPER",
    ) {
        Some(Modifiers { meta: true, ..none })
    } else {
        None
    }
}

/// The key an already upper-cased word names.
pub fn key_code_from_upper(k: &str) -> (r: Option<KeyCode>)
    ensures
        r == key_code_of(k@),
{
    if str_eq(k, "SPACE") {
        return Some(KeyCode::Space);
    }
    let v = crate::text::chars_of(k);
    if v.len() == 2 && v[0] == 'F' && '1' <= v[1] && v[1] <= '9' {
        return Some(KeyCode::Function(((v[1] as u32) - ('0' as u32)) as u8));
    }
    if v.len() == 3 && v[0] == 'F' && v[1] == '1' && '0' <= v[2] && v[2] <= '2' {
        return Some(KeyCode::Function((10 + (v[2] as u32) - ('0' as u32)) as u8));
    }
    if v.len() == 1 && 'A' <= v[0] && v[0] <= 'Z' {
        return Some(KeyCode::Letter(v[0]));
    }
    None
}

/// The key a word names, compared in upper case.
pub fn parse_code(s: &str) -> (r: Result<KeyCode, HotkeyError>)
    ensures
        match r {
            Ok(c) => key_code_of(uppercase(s@)) == Some(c),
            Err(e) => key_code_of(uppercase(s@)) is None && e@ == HotkeyErrorView::UnknownKey(
                uppercase(s@),
            ),
        },
{
    let k = to_uppercase(s);
    match key_code_from_upper(k.as_str()) {
        Some(c) => Ok(c),
        None => Err(HotkeyError::UnknownKey(k)),
    }
}

/// Parses a hotkey description such as "Alt+K" or "Ctrl+Shift+F5".
pub fn parse_hotkey(s: &str) -> (r: Result<Hotkey, HotkeyError>)
    ensures
        match r {
            Ok(h) => hotkey_of(s@) == Ok::<Hotkey, HotkeyErrorView>(h),
            Err(e) => hotkey_of(s@) == Err::<Hotkey, HotkeyErrorView>(e@),
        },
{
    let raw = split_char(s, '+');
    let ghost pieces = split_on(s@, '+');
    let ghost parts = pieces.map_values(|p: Seq<char>| trim(p));
    assert(raw@.len() == pieces.len());
    let n = raw.len();
    let mut mods = Modifiers { alt: false, ctrl: false, shift: false, meta: false };
    let mut i: usize = 0;
    let ghost words = parts.drop_last().map_values(|p: Seq<char>| uppercase(p));
    while i + 1 < n
        invariant
            n == raw@.len(),
            n == pieces.len(),
            n >= 1,
            i + 1 <= n,
            raw@.map_values(|w: String| w@) == pieces,
            pieces == split_on(s@, '+'),
            parts == pieces.map_values(|p: Seq<char>| trim(p)),
            words == parts.drop_last().map_values(|p: Seq<char>| uppercase(p)),
            mods_of(words.take(i as int)) == Ok::<Modifiers, Seq<char>>(mods),
        decreases n - i,
    {
        let t = trim_str(raw[i].as_str());
        let u = to_uppercase(t.as_str());
        proof {
            assert(raw@[i as int]@ == pieces[i as int]);
            assert(u@ == words[i as int]);
            assert(words.take(i + 1).drop_last() =~= words.take(i as int));
        }
        match parse_modifier(u.as_str()) {
            Some(m) => {
                mods = Modifiers {
                    alt: mods.alt || m.alt,
                    ctrl: mods.ctrl || m.ctrl,
                    shift: mods.shift || m.shift,
                    meta: mods.meta || m.meta,
                };
            },
            None => {
                proof {
                    assert(words.take(i + 1).last() == u@);
                    assert(mods_of(words.take(i + 1)) == Err::<Modifiers, Seq<char>>(u@));
                    lemma_mods_of_err_prefix(words, i as int + 1, u@);
                    assert(parts.drop_last().map_values(|p: Seq<char>| uppercase(p)) == words);
                }
                return Err(HotkeyError::UnknownModifier(u));
            },
        }
        i = i + 1;
    }
    proof {
        assert(words.take(i as int) =~= words);
        assert(raw@[n - 1]@ == pieces[n - 1]);
    }
    let t = trim_str(raw[n - 1].as_str());
    let k = to_uppercase(t.as_str());
    match key_code_from_upper(k.as_str()) {
        None => Err(HotkeyError::UnknownKey(k)),
        Some(code) => Ok(
            Hotkey {
                mods: if mods.is_empty() {
                    None
                } else {
                    Some(mods)
                },
                code,
            },
        ),
    }
}

/// An error met in a prefix stays the error of the whole list.
proof fn lemma_mods_of_err_prefix(words: Seq<Seq<char>>, k: int, e: Seq<char>)
    requires
        0 < k <= words.len(),
        mods_of(words.take(k)) == Err::<Modifiers, Seq<char>>(e),
    ensures
        mods_of(words) == Err::<Modifiers, Seq<char>>(e),
    decreases words.len() - k,
{
    if k < words.len() {
        assert(words.take(k + 1).drop_last() =~= words.take(k));
        lemma_mods_of_err_prefix(words, k + 1, e);
    } else {
        assert(words.take(k) =~= words);
    }
}

// ---------------------------------------------------------------------------
// Telling agents apart by voice
// ---------------------------------------------------------------------------

/// A candidate agent as (id, name).
pub type Candidate = (String, String);

/// Candidates (agent id, agent name), as texts.
pub open spec fn cands_view(c: Seq<Candidate>) -> Seq<(Seq<char>, Seq<char>)> {
    c.map_values(|p: Candidate| (p.0@, p.1@))
}

/// The length in bytes (UTF-8) of a candidate's name, as `str::len` gives it.
pub open spec fn name_bytes(c: (Seq<char>, Seq<char>)) -> usize {
    vstd::utf8::encode_utf8(c.1).len() as usize
}

/// `x` inserted before the first element of `sorted` with a shorter name.
pub open spec fn insert_by_len(sorted: Seq<(Seq<char>, Seq<char>)>, x: (Seq<char>, Seq<char>)) -> Seq<
    (Seq<char>, Seq<char>),
>
    decreases sorted.len(),
{
    if sorted.len() == 0 {
        seq![x]
    } else if name_bytes(sorted[0]) < name_bytes(x) {
        seq![x] + sorted
    } else {
        seq![sorted[0]] + insert_by_len(sorted.drop_first(), x)
    }
}

/// The candidates ordered longest name first, candidates with names of equal
/// length keeping their order (a stable sort by decreasing length).
pub open spec fn longest_first(s: Seq<(Seq<char>, Seq<char>)>) -> Seq<(Seq<char>, Seq<char>)>
    decreases s.len(),
{
    if s.len() == 0 {
        Seq::empty()
    } else {
        insert_by_len(longest_first(s.drop_last()), s.last())
    }
}

/// Bit pattern of the double nearest 0.85: a name's fuzzy score must exceed it.
pub const NAME_SCORE_THRESHOLD_BITS: u64 = 0x3FEB_3333_3333_3333;

/// The first candidate at or after `i` whose lowercased name begins `t`.
pub open spec fn exact_name_from(t: Seq<char>, s: Seq<(Seq<char>, Seq<char>)>, i: int) -> Option<int>
    decreases s.len() - i,
{
    if i < 0 || i >= s.len() {
        None
    } else if has_prefix(t, lowercase(s[i].1)) {
        Some(i)
    } else {
        exact_name_from(t, s, i + 1)
    }
}

/// How many words a lowercased name has.
pub open spec fn name_words(name: Seq<char>) -> int {
    split_ws(lowercase(name)).len() as int
}

/// The first words of `t`, as many as the name has, joined by single spaces.
pub open spec fn lead_words(t: Seq<char>, name: Seq<char>) -> Seq<char> {
    join(take_upto(split_ws(t), name_words(name)), " "@)
}

/// The first candidate at or after `i` whose lowercased name is close to the
/// transcript's leading words.
pub open spec fn fuzzy_name_from(t: Seq<char>, s: Seq<(Seq<char>, Seq<char>)>, i: int) -> Option<int>
    decreases s.len() - i,
{
    if i < 0 || i >= s.len() {
        None
    } else if jaro_winkler_bits(lead_words(t, s[i].1), lowercase(s[i].1))
        > NAME_SCORE_THRESHOLD_BITS {
        Some(i)
    } else {
        fuzzy_name_from(t, s, i + 1)
    }
}

/// The agent a transcript starts by naming, with the rest of what was said.
/// The transcript is trimmed and lowercased; candidates are tried longest
/// name first, first for a name the transcript begins with (the answer is
/// what follows, without leading colons, commas and whitespace), then for a
/// name close to its leading words (the answer is the remaining words, without
/// leading colons and commas, trimmed).
pub open spec fn agent_prefix(transcript: Seq<char>, cands: Seq<(Seq<char>, Seq<char>)>) -> Option<
    (Seq<char>, Seq<char>),
> {
    let t = lowercase(trim(transcript));
    let s = longest_first(cands);
    match exact_name_from(t, s, 0) {
        Some(j) => Some(
            (s[j].0, trim_start_while(t.skip(lowercase(s[j].1).len() as int), sep_chars(true))),
        ),
        None => match fuzzy_name_from(t, s, 0) {
            Some(j) => Some(
                (
                    s[j].0,
                    trim(
                        trim_start_while(
                            join(drop_upto(split_ws(t), name_words(s[j].1)), " "@),
                            sep_chars(false),
                        ),
                    ),
                ),
            ),
            None => None,
        },
    }
}

proof fn lemma_insert_by_len_at(s: Seq<(Seq<char>, Seq<char>)>, x: (Seq<char>, Seq<char>), p: int)
    requires
        0 <= p <= s.len(),
        forall|q: int| 0 <= q < p ==> name_bytes(#[trigger] s[q]) >= name_bytes(x),
        p < s.len() ==> name_bytes(s[p]) < name_bytes(x),
    ensures
        insert_by_len(s, x) == s.insert(p, x),
    decreases s.len(),
{
    if s.len() == 0 {
        assert(s.insert(p, x) =~= seq![x]);
    } else if p == 0 {
        assert(s.insert(p, x) =~= seq![x] + s);
    } else {
        let t = s.drop_first();
        assert forall|q: int| 0 <= q < p - 1 implies name_bytes(#[trigger] t[q]) >= name_bytes(x) by {
            assert(t[q] == s[q + 1]);
        }
        lemma_insert_by_len_at(t, x, p - 1);
        assert(s.insert(p, x) =~= seq![s[0]] + t.insert(p - 1, x));
    }
}

/// Positions of the candidates, longest name first.
fn longest_first_order(c: &Vec<Candidate>) -> (order: Vec<usize>)
    ensures
        forall|i: int| 0 <= i < order@.len() ==> (#[trigger] order@[i]) < c@.len(),
        order@.map_values(|i: usize| cands_view(c@)[i as int]) == longest_first(cands_view(c@)),
{
    let ghost cv = cands_view(c@);
    let mut order: Vec<usize> = Vec::new();
    let mut n: usize = 0;
    while n < c.len()
        invariant
            n <= c@.len(),
            cv == cands_view(c@),
            forall|i: int| 0 <= i < order@.len() ==> (#[trigger] order@[i]) < n,
            order@.map_values(|i: usize| cv[i as int]) == longest_first(cv.take(n as int)),
        decreases c.len() - n,
    {
        let len_n = c[n].1.as_str().len();
        let mut p: usize = 0;
        while p < order.len() && c[order[p]].1.as_str().len() >= len_n
            invariant
                p <= order@.len(),
                n < c@.len(),
                cv == cands_view(c@),
                len_n == name_bytes(cv[n as int]),
                forall|i: int| 0 <= i < order@.len() ==> (#[trigger] order@[i]) < n,
                forall|q: int| 0 <= q < p ==> name_bytes(#[trigger] cv[order@[q] as int]) >= len_n,
            decreases order.len() - p,
        {
            p = p + 1;
        }
        let ghost before = order@.map_values(|i: usize| cv[i as int]);
        let ghost old_order = order@;
        proof {
            assert forall|q: int| 0 <= q < p implies name_bytes(#[trigger] before[q]) >= name_bytes(cv[n as int]) by {
                assert(before[q] == cv[old_order[q] as int]);
            }
            if p < before.len() {
                assert(before[p as int] == cv[old_order[p as int] as int]);
            }
            lemma_insert_by_len_at(before, cv[n as int], p as int);
            assert(cv.take(n + 1).drop_last() =~= cv.take(n as int));
            assert(cv.take(n + 1).last() == cv[n as int]);
        }
        order.insert(p, n);
        proof {
            assert(order@ =~= old_order.insert(p as int, n));
            assert(order@.map_values(|i: usize| cv[i as int]) =~= before.insert(p as int, cv[n as int]));
        }
        n = n + 1;
    }
    proof {
        assert(cv.take(c@.len() as int) =~= cv);
    }
    order
}

/// The agent a transcript starts by naming, and the rest of what was said:
/// `(agent_id, answer)`.
pub fn extract_agent_prefix(transcript: &str, candidates: &Vec<Candidate>) -> (r: Option<
    (String, String),
>)
    ensures
        match r {
            Some(p) => agent_prefix(transcript@, cands_view(candidates@)) == Some((p.0@, p.1@)),
            None => agent_prefix(transcript@, cands_view(candidates@)) is None,
        },
{
    let ghost cv = cands_view(candidates@);
    let ghost s = longest_first(cv);
    let tt = trim_str(transcript);
    let t = to_lowercase(tt.as_str());
    let order = longest_first_order(candidates);
    proof {
        assert(order@.len() == s.len());
    }
    let mut q: usize = 0;
    while q < order.len()
        invariant
            q <= order@.len(),
            order@.len() == s.len(),
            cv == cands_view(candidates@),
            s == longest_first(cv),
            forall|i: int| 0 <= i < order@.len() ==> (#[trigger] order@[i]) < candidates@.len(),
            order@.map_values(|i: usize| cv[i as int]) == s,
            t@ == lowercase(trim(transcript@)),
            exact_name_from(t@, s, 0) == exact_name_from(t@, s, q as int),
        decreases order.len() - q,
    {
        let c = &candidates[order[q]];
        proof {
            assert(s[q as int] == cv[order@[q as int] as int]);
        }
        let n = to_lowercase(c.1.as_str());
        if starts_with_str(t.as_str(), n.as_str()) {
            let rest = skip_chars(t.as_str(), char_count(n.as_str()));
            let answer = trim_start_seps(rest.as_str(), true);
            return Some((c.0.clone(), answer));
        }
        q = q + 1;
    }
    let words = split_whitespace(t.as_str());
    let ghost wv = words@.map_values(|w: String| w@);
    let mut q: usize = 0;
    while q < order.len()
        invariant
            q <= order@.len(),
            order@.len() == s.len(),
            cv == cands_view(candidates@),
            s == longest_first(cv),
            forall|i: int| 0 <= i < order@.len() ==> (#[trigger] order@[i]) < candidates@.len(),
            order@.map_values(|i: usize| cv[i as int]) == s,
            t@ == lowercase(trim(transcript@)),
            exact_name_from(t@, s, 0) is None,
            wv == words@.map_values(|w: String| w@),
            wv == split_ws(t@),
            fuzzy_name_from(t@, s, 0) == fuzzy_name_from(t@, s, q as int),
        decreases order.len() - q,
    {
        let c = &candidates[order[q]];
        proof {
            assert(s[q as int] == cv[order@[q as int] as int]);
        }
        let n = to_lowercase(c.1.as_str());
        let wc = split_whitespace(n.as_str()).len();
        let k = if wc <= words.len() {
            wc
        } else {
            words.len()
        };
        let lead = slice_strings(&words, 0, k);
        let prefix = join_strings(&lead, " ");
        proof {
            assert(lead@.map_values(|w: String| w@) =~= take_upto(wv, wc as int));
        }
        if jaro_winkler_score(prefix.as_str(), n.as_str()) > NAME_SCORE_THRESHOLD_BITS {
            let tail = slice_strings(&words, k, words.len());
            proof {
                assert(tail@.map_values(|w: String| w@) =~= drop_upto(wv, wc as int));
            }
            let rest = join_strings(&tail, " ");
            let stripped = trim_start_seps(rest.as_str(), false);
            let answer = trim_str(stripped.as_str());
            return Some((c.0.clone(), answer));
        }
        q = q + 1;
    }
    None
}

// ---------------------------------------------------------------------------
// Press, release, and routing what was said
// ---------------------------------------------------------------------------

/// 16 kHz mono: a tenth of a second. Shorter recordings are taken for
/// accidental taps and ignored.
pub const MIN_SAMPLES: usize = 1_600;

/// A recording of `samples` samples is long enough to transcribe.
pub fn long_enough(samples: usize) -> (b: bool)
    ensures
        b == (samples >= MIN_SAMPLES),
{
    samples >= MIN_SAMPLES
}

/// What a key press aims at: the agent whose question the answer goes to, or
/// else the agents that could be meant, told apart by voice.
pub struct PressPlan {
    pub target: Option<String>,
    pub candidates: Vec<Candidate>,
    /// The pre-selected agent was stale (or unset) and is to be cleared.
    pub clear_active: bool,
}

/// `cands` lists each agent with a waiting question once, under its name.
pub open spec fn lists_pending(
    cands: Seq<(Seq<char>, Seq<char>)>,
    pending: Map<Seq<char>, crate::router::AskView>,
    agents: Map<Seq<char>, crate::agents::AgentView>,
) -> bool {
    &&& forall|i: int|
        0 <= i < cands.len() ==> pending.contains_key((#[trigger] cands[i]).0) && cands[i].1
            == name_of(agents, cands[i].0)
    &&& forall|k: Seq<char>|
        #[trigger] pending.contains_key(k) ==> exists|i: int|
            0 <= i < cands.len() && (#[trigger] cands[i]).0 == k
    &&& forall|i: int, j: int|
        0 <= i < cands.len() && 0 <= j < cands.len() && i != j ==> (#[trigger] cands[i]).0
            != (#[trigger] cands[j]).0
}

/// Decides, at the moment the key is pressed, which question the recording
/// will answer: the pre-selected agent's, if it still has one waiting;
/// otherwise every agent with a waiting question is a candidate.
pub fn plan_press(active: Option<String>, router: &AskRouter, agents: &AgentRegistry) -> (plan:
    PressPlan)
    ensures
        match active {
            Some(id) => router@.contains_key(id@),
            None => false,
        } ==> plan.target == active && plan.candidates@.len() == 0 && !plan.clear_active,
        !match active {
            Some(id) => router@.contains_key(id@),
            None => false,
        } ==> plan.target is None && plan.clear_active && lists_pending(
            cands_view(plan.candidates@),
            router@,
            agents@,
        ),
{
    if let Some(id) = &active {
        if router.pending_question(id.as_str()).is_some() {
            return PressPlan { target: active, candidates: Vec::new(), clear_active: false };
        }
    }
    let ids = router.pending_agent_ids();
    let mut candidates: Vec<Candidate> = Vec::new();
    let mut i: usize = 0;
    while i < ids.len()
        invariant
            i <= ids@.len(),
            candidates@.len() == i,
            forall|m: int| 0 <= m < i ==> (#[trigger] candidates@[m]).0@ == ids@[m]@
                && candidates@[m].1@ == name_of(agents@, ids@[m]@),
        decreases ids.len() - i,
    {
        let name = agents.name(ids[i].as_str());
        candidates.push((ids[i].clone(), name));
        i = i + 1;
    }
    proof {
        assert forall|m: int| 0 <= m < candidates@.len() implies router@.contains_key(
            (#[trigger] candidates@[m]).0@,
        ) && candidates@[m].1@ == name_of(agents@, candidates@[m].0@) by {
            assert(router@.contains_key(ids@[m]@));
        }
        assert forall|k: Seq<char>| #[trigger] router@.contains_key(k) implies exists|m: int|
            0 <= m < candidates@.len() && (#[trigger] candidates@[m]).0@ == k by {
            let m = choose|m: int| 0 <= m < ids@.len() && (#[trigger] ids@[m])@ == k;
            assert(candidates@[m].0@ == k);
        }
        assert forall|a: int, b: int|
            0 <= a < candidates@.len() && 0 <= b < candidates@.len() && a != b implies (
            #[trigger] candidates@[a]).0@ != (#[trigger] candidates@[b]).0@ by {
            assert(ids@[a]@ != ids@[b]@);
        }
        let cv = cands_view(candidates@);
        assert forall|k: Seq<char>| #[trigger] router@.contains_key(k) implies exists|m: int|
            0 <= m < cv.len() && (#[trigger] cv[m]).0 == k by {
            let m = choose|m: int| 0 <= m < ids@.len() && (#[trigger] ids@[m])@ == k;
            assert(cv[m].0 == k);
        }
        assert(lists_pending(cv, router@, agents@));
    }
    PressPlan { target: None, candidates, clear_active: true }
}

/// The prompt that primes transcription: the glossary's terms and the target
/// agent's terms; or, when agents must be told apart, their names.
pub open spec fn prompt_for(
    target: Option<Seq<char>>,
    cands: Seq<(Seq<char>, Seq<char>)>,
    terms: Seq<Seq<char>>,
    agents: Map<Seq<char>, crate::agents::AgentView>,
) -> Seq<char> {
    match target {
        Some(id) => join(terms + terms_of(agents, id), ", "@),
        None => if cands.len() > 0 {
            join(cands.map_values(|c: (Seq<char>, Seq<char>)| c.1), ", "@)
        } else {
            Seq::empty()
        },
    }
}

/// The names of the candidates, in order.
fn candidate_names(candidates: &Vec<Candidate>) -> (names: Vec<String>)
    ensures
        names@.map_values(|n: String| n@) == cands_view(candidates@).map_values(
            |c: (Seq<char>, Seq<char>)| c.1,
        ),
{
    let mut names: Vec<String> = Vec::new();
    let mut i: usize = 0;
    while i < candidates.len()
        invariant
            i <= candidates@.len(),
            names@.len() == i,
            forall|m: int| 0 <= m < i ==> (#[trigger] names@[m])@ == candidates@[m].1@,
        decreases candidates.len() - i,
    {
        names.push(candidates[i].1.clone());
        i = i + 1;
    }
    assert(names@.map_values(|n: String| n@) =~= cands_view(candidates@).map_values(
        |c: (Seq<char>, Seq<char>)| c.1,
    ));
    names
}

/// The transcription prompt for a press.
pub fn initial_prompt(
    target: Option<&str>,
    candidates: &Vec<Candidate>,
    glossary: &Glossary,
    agents: &AgentRegistry,
) -> (p: String)
    ensures
        p@ == prompt_for(
            match target {
                Some(t) => Some(t@),
                None => None,
            },
            cands_view(candidates@),
            glossary.term_list(),
            agents@,
        ),
{
    match target {
        Some(id) => {
            let terms = agents.context_terms(id);
            let p = glossary.whisper_prompt(terms.as_slice());
            assert(terms@.map_values(|s: String| s@) == strs_view(terms@));
            p
        },
        None => {
            if candidates.len() > 0 {
                let names = candidate_names(candidates);
                join_strings(&names, ", ")
            } else {
                String::new()
            }
        },
    }
}

/// What to do with what was said.
pub enum PttRoute {
    /// Answer the question waiting for `agent_id` with `answer`.
    Resolve { agent_id: String, answer: String },
    /// Only an agent's name was heard: pre-select it and say `speech`.
    SelectAgent { agent_id: String, speech: String },
    /// No agent's name was heard: say `speech`.
    AskForName { speech: String },
    /// Nothing was waiting when the key was pressed.
    Discard,
}

/// A routing decision, as texts.
pub enum PttRouteView {
    Resolve { agent_id: Seq<char>, answer: Seq<char> },
    SelectAgent { agent_id: Seq<char>, speech: Seq<char> },
    AskForName { speech: Seq<char> },
    Discard,
}

impl View for PttRoute {
    type V = PttRouteView;

    open spec fn view(&self) -> PttRouteView {
        match self {
            PttRoute::Resolve { agent_id, answer } => PttRouteView::Resolve {
                agent_id: agent_id@,
                answer: answer@,
            },
            PttRoute::SelectAgent { agent_id, speech } => PttRouteView::SelectAgent {
                agent_id: agent_id@,
                speech: speech@,
            },
            PttRoute::AskForName { speech } => PttRouteView::AskForName { speech: speech@ },
            PttRoute::Discard => PttRouteView::Discard,
        }
    }
}

/// The name of the first candidate with `id`, or "agent".
pub open spec fn candidate_name(cands: Seq<(Seq<char>, Seq<char>)>, id: Seq<char>) -> Seq<char>
    decreases cands.len(),
{
    if cands.len() == 0 {
        "agent"@
    } else if cands[0].0 == id {
        cands[0].1
    } else {
        candidate_name(cands.drop_first(), id)
    }
}

/// Where a (corrected) transcript goes: to the agent fixed at press time; to
/// the only candidate; to the candidate it starts by naming (or, when it is
/// nothing but that name, that agent is pre-selected for the next press); or,
/// when no name was heard, the user is asked to say one first.
pub open spec fn route_of(
    target: Option<Seq<char>>,
    cands: Seq<(Seq<char>, Seq<char>)>,
    corrected: Seq<char>,
) -> PttRouteView {
    match target {
        Some(id) => PttRouteView::Resolve { agent_id: id, answer: corrected },
        None => if cands.len() == 1 {
            PttRouteView::Resolve { agent_id: cands[0].0, answer: corrected }
        } else if cands.len() > 1 {
            match agent_prefix(corrected, cands) {
                Some((id, ans)) => if ans.len() > 0 {
                    PttRouteView::Resolve { agent_id: id, answer: ans }
                } else {
                    PttRouteView::SelectAgent {
                        agent_id: id,
                        speech: "Answering "@ + candidate_name(cands, id) + ". Hold to reply."@,
                    }
                },
                None => PttRouteView::AskForName {
                    speech: "Say the agent name first: "@ + join(
                        cands.map_values(|c: (Seq<char>, Seq<char>)| c.1),
                        " or "@,
                    ),
                },
            }
        } else {
            PttRouteView::Discard
        },
    }
}

fn find_candidate_name(candidates: &Vec<Candidate>, id: &str) -> (n: String)
    ensures
        n@ == candidate_name(cands_view(candidates@), id@),
{
    let ghost cv = cands_view(candidates@);
    let mut i: usize = 0;
    assert(cv.skip(0) =~= cv);
    while i < candidates.len()
        invariant
            i <= candidates@.len(),
            cv == cands_view(candidates@),
            candidate_name(cv, id@) == candidate_name(cv.skip(i as int), id@),
        decreases candidates.len() - i,
    {
        assert(cv.skip(i as int)[0] == cv[i as int]);
        if str_eq(candidates[i].0.as_str(), id) {
            return candidates[i].1.clone();
        }
        assert(cv.skip(i as int).drop_first() =~= cv.skip(i + 1));
        i = i + 1;
    }
    crate::text::owned("agent")
}

/// Decides where a corrected transcript goes (see `route_of`).
pub fn route_transcript(target: Option<String>, candidates: &Vec<Candidate>, corrected: String) -> (r:
    PttRoute)
    ensures
        r@ == route_of(
            match target {
                Some(t) => Some(t@),
                None => None,
            },
            cands_view(candidates@),
            corrected@,
        ),
{
    match target {
        Some(id) => PttRoute::Resolve { agent_id: id, answer: corrected },
        None => {
            if candidates.len() == 1 {
                PttRoute::Resolve { agent_id: candidates[0].0.clone(), answer: corrected }
            } else if candidates.len() > 1 {
                match extract_agent_prefix(corrected.as_str(), candidates) {
                    Some((id, ans)) => {
                        if char_count(ans.as_str()) > 0 {
                            PttRoute::Resolve { agent_id: id, answer: ans }
                        } else {
                            let name = find_candidate_name(candidates, id.as_str());
                            let s = concat2("Answering ", name.as_str());
                            let speech = concat2(s.as_str(), ". Hold to reply.");
                            PttRoute::SelectAgent { agent_id: id, speech }
                        }
                    },
                    None => {
                        let names = candidate_names(candidates);
                        let joined = join_strings(&names, " or ");
                        let speech = concat2("Say the agent name first: ", joined.as_str());
                        PttRoute::AskForName { speech }
                    },
                }
            } else {
                PttRoute::Discard
            }
        },
    }
}

// ---------------------------------------------------------------------------
// Push-to-talk over HTTP
// ---------------------------------------------------------------------------

/// What `POST /ptt/stop` does with the recording.
pub enum HttpStopStep {
    /// Nothing was being recorded.
    NotRecording,
    /// The recording is too short to transcribe.
    TooShort,
    /// No speech-to-text engine is loaded.
    NoEngine,
    /// Transcribe the recording and answer a waiting question with it.
    Transcribe,
}

/// The step for a stop request: `samples` is the length of the recording
/// just stopped, or `None` when nothing was being recorded; `engine` says
/// whether a speech-to-text engine is loaded.
pub fn http_stop_step(samples: Option<usize>, engine: bool) -> (step: HttpStopStep)
    ensures
        samples is None ==> step is NotRecording,
        samples matches Some(n) ==> (n < MIN_SAMPLES ==> step is TooShort),
        samples matches Some(n) ==> (n >= MIN_SAMPLES && !engine ==> step is NoEngine),
        samples matches Some(n) ==> (n >= MIN_SAMPLES && engine ==> step is Transcribe),
{
    match samples {
        None => HttpStopStep::NotRecording,
        Some(n) => {
            if !long_enough(n) {
                HttpStopStep::TooShort
            } else if !engine {
                HttpStopStep::NoEngine
            } else {
                HttpStopStep::Transcribe
            }
        },
    }
}

/// The transcription prompt for a recording made over HTTP: the glossary
/// terms and the context terms of an agent with a waiting question, or
/// nothing when no question waits.
pub fn http_prompt(router: &AskRouter, agents: &AgentRegistry, glossary: &Glossary) -> (p: String)
    ensures
        router@.dom().is_empty() ==> p@ == Seq::<char>::empty(),
        !router@.dom().is_empty() ==> exists|id: Seq<char>|
            #![trigger router@.contains_key(id)]
            router@.contains_key(id) && p@ == join(
                glossary.term_list() + terms_of(agents@, id),
                ", "@,
            ),
{
    match router.first_pending_id() {
        Some(id) => {
            let terms = agents.context_terms(id.as_str());
            let p = glossary.whisper_prompt(terms.as_slice());
            assert(terms@.map_values(|s: String| s@) == strs_view(terms@));
            assert(router@.contains_key(id@));
            p
        },
        None => String::new(),
    }
}

/// Answers a waiting question with what was said over HTTP: some agent with
/// a waiting question is taken out, with its asker's channel and the
/// response the asker is to receive for `answer`; with nothing waiting,
/// nothing happens. Sending the response is left to the caller.
pub fn take_first_answer(router: &mut AskRouter, answer: String) -> (r: Option<
    (String, tokio::sync::oneshot::Sender<AskResponse>, AskResponse),
>)
    ensures
        r is None <==> old(router)@.dom().is_empty(),
        r is None ==> final(router)@ == old(router)@,
        r matches Some(t) ==> old(router)@.contains_key(t.0@) && final(router)@ == old(
            router,
        )@.remove(t.0@) && final(router).channels() == old(router).channels().remove(t.0@)
            && t.1 == old(router).channels()[t.0@] && answers(t.2, old(router)@[t.0@], answer@),
{
    match router.first_pending_id() {
        Some(id) => {
            match router.take_answer(id.as_str(), answer) {
                Some((tx, resp)) => Some((id, tx, resp)),
                None => None,
            }
        },
        None => None,
    }
}

// ---------------------------------------------------------------------------
// Laws of push-to-talk routing
// ---------------------------------------------------------------------------

proof fn lemma_insert_by_len_members(
    sorted: Seq<(Seq<char>, Seq<char>)>,
    x: (Seq<char>, Seq<char>),
    j: int,
)
    requires
        0 <= j < insert_by_len(sorted, x).len(),
    ensures
        insert_by_len(sorted, x).len() == sorted.len() + 1,
        insert_by_len(sorted, x)[j] == x || sorted.contains(insert_by_len(sorted, x)[j]),
    decreases sorted.len(),
{
    if sorted.len() == 0 {
    } else if name_bytes(sorted[0]) < name_bytes(x) {
        if j > 0 {
            assert(insert_by_len(sorted, x)[j] == sorted[j - 1]);
        }
    } else {
        let rest = sorted.drop_first();
        lemma_insert_by_len_members(rest, x, 0);
        if j > 0 {
            lemma_insert_by_len_members(rest, x, j - 1);
            let e = insert_by_len(sorted, x)[j];
            assert(e == insert_by_len(rest, x)[j - 1]);
            if rest.contains(e) {
                let k = choose|k: int| 0 <= k < rest.len() && rest[k] == e;
                assert(sorted[k + 1] == e);
            }
        }
    }
}

proof fn lemma_longest_first_members(s: Seq<(Seq<char>, Seq<char>)>, j: int)
    requires
        0 <= j < longest_first(s).len(),
    ensures
        longest_first(s).len() == s.len(),
        s.contains(longest_first(s)[j]),
    decreases s.len(),
{
    let rest = longest_first(s.drop_last());
    lemma_insert_by_len_members(rest, s.last(), j);
    if s.drop_last().len() > 0 {
        lemma_longest_first_members(s.drop_last(), 0);
    }
    let e = longest_first(s)[j];
    if e == s.last() {
        assert(s[s.len() - 1] == e);
    } else {
        let k = choose|k: int| 0 <= k < rest.len() && rest[k] == e;
        lemma_longest_first_members(s.drop_last(), k);
        let m = choose|m: int| 0 <= m < s.drop_last().len() && s.drop_last()[m] == e;
        assert(s[m] == e);
    }
}

proof fn lemma_exact_name_in_range(t: Seq<char>, s: Seq<(Seq<char>, Seq<char>)>, i: int)
    ensures
        exact_name_from(t, s, i) matches Some(j) ==> 0 <= j < s.len(),
    decreases s.len() - i,
{
    if 0 <= i < s.len() {
        lemma_exact_name_in_range(t, s, i + 1);
    }
}

proof fn lemma_fuzzy_name_in_range(t: Seq<char>, s: Seq<(Seq<char>, Seq<char>)>, i: int)
    ensures
        fuzzy_name_from(t, s, i) matches Some(j) ==> 0 <= j < s.len(),
    decreases s.len() - i,
{
    if 0 <= i < s.len() {
        lemma_fuzzy_name_in_range(t, s, i + 1);
    }
}

/// The agent a transcript is taken to name is always one of the candidates.
pub proof fn law_prefix_names_a_candidate(
    transcript: Seq<char>,
    cands: Seq<(Seq<char>, Seq<char>)>,
)
    ensures
        agent_prefix(transcript, cands) matches Some(p) ==> exists|i: int|
            0 <= i < cands.len() && (#[trigger] cands[i]).0 == p.0,
{
    let t = lowercase(trim(transcript));
    let s = longest_first(cands);
    lemma_exact_name_in_range(t, s, 0);
    lemma_fuzzy_name_in_range(t, s, 0);
    let j = match exact_name_from(t, s, 0) {
        Some(j) => j,
        None => match fuzzy_name_from(t, s, 0) {
            Some(j) => j,
            None => -1,
        },
    };
    if j >= 0 {
        lemma_longest_first_members(cands, j);
        let i = choose|i: int| 0 <= i < cands.len() && cands[i] == s[j];
        assert(cands[i].0 == s[j].0);
    }
}

/// A spoken reply only ever answers, or pre-selects, an agent whose question
/// is waiting: the pre-selected agent when it still has one, otherwise one of
/// the candidates that `plan_press` listed.
pub proof fn law_reply_goes_to_waiting_agent(
    target: Option<Seq<char>>,
    cands: Seq<(Seq<char>, Seq<char>)>,
    corrected: Seq<char>,
    pending: Map<Seq<char>, crate::router::AskView>,
    agents: Map<Seq<char>, crate::agents::AgentView>,
)
    requires
        target matches Some(id) ==> pending.contains_key(id),
        target is None ==> lists_pending(cands, pending, agents),
    ensures
        route_of(target, cands, corrected) matches PttRouteView::Resolve { agent_id, .. }
            ==> pending.contains_key(agent_id),
        route_of(target, cands, corrected) matches PttRouteView::SelectAgent { agent_id, .. }
            ==> pending.contains_key(agent_id),
{
    if target is None && cands.len() > 1 {
        law_prefix_names_a_candidate(corrected, cands);
    }
}

} // verus!
