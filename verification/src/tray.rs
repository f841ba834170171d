//! The menu-bar item: which icon it shows, the pixels of each icon, and the
//! entries of its menu.
use vstd::prelude::*;
use crate::agents::{opt_str_view, AgentRegistry, AgentState, AgentView};
use crate::router::{AskRouter, AskView};
use crate::text::seq_lt;
use crate::text::{
    chars_of, concat2, has_prefix, join, join_strings, owned, skip_chars, split_char,
    split_on, starts_with_str, str_eq, string_of, to_uppercase, trim, trim_str, uppercase,
};

verus! {

// ---------------------------------------------------------------------------
// Icon state
// ---------------------------------------------------------------------------

/// What the menu-bar icon is showing.
#[derive(Clone, Copy, Debug, PartialEq, Eq, Structural)]
pub enum IconState {
    Idle,
    Recording,
    Processed,
    Speaking,
}

/// The icon for the daemon's flags: recording wins over speaking, speaking
/// over a transcript that was just processed.
pub open spec fn icon_state_for(recording: bool, speaking: bool, processed: bool) -> IconState {
    if recording {
        IconState::Recording
    } else if speaking {
        IconState::Speaking
    } else if processed {
        IconState::Processed
    } else {
        IconState::Idle
    }
}

/// Whether the "just processed" flag decides the icon at all; it is consumed
/// only when it does.
pub fn consults_processed(recording: bool, speaking: bool) -> (b: bool)
    ensures
        b == (!recording && !speaking),
{
    !recording && !speaking
}

/// The icon state for the daemon's flags.
pub fn icon_state(recording: bool, speaking: bool, processed: bool) -> (s: IconState)
    ensures
        s == icon_state_for(recording, speaking, processed),
{
    if recording {
        IconState::Recording
    } else if speaking {
        IconState::Speaking
    } else if processed {
        IconState::Processed
    } else {
        IconState::Idle
    }
}

/// A colour with alpha.
#[derive(Clone, Copy, Debug, PartialEq, Eq, Structural)]
pub struct Rgba {
    pub r: u8,
    pub g: u8,
    pub b: u8,
    pub a: u8,
}

/// The colour with these components.
pub open spec fn rgba(r: u8, g: u8, b: u8, a: u8) -> Rgba {
    Rgba { r, g, b, a }
}

/// How the icon looks in one state.
pub struct IconLook {
    /// The colour of the dot in the top-right corner; none for the plain
    /// template microphone.
    pub badge: Option<Rgba>,
    /// Whether the system may recolour the icon for light and dark menus.
    pub template: bool,
    pub tooltip: String,
}

/// An icon look, with its tooltip as text.
pub struct IconLookView {
    pub badge: Option<Rgba>,
    pub template: bool,
    pub tooltip: Seq<char>,
}

impl View for IconLook {
    type V = IconLookView;

    open spec fn view(&self) -> IconLookView {
        IconLookView { badge: self.badge, template: self.template, tooltip: self.tooltip@ }
    }
}

/// The look of each state: a red dot while recording, green once a
/// transcript was handled, orange while speaking, the template microphone
/// otherwise.
pub open spec fn look_of(s: IconState) -> IconLookView {
    match s {
        IconState::Recording => IconLookView {
            badge: Some(rgba(220, 38, 38, 255)),
            template: false,
            tooltip: "callout — recording"@,
        },
        IconState::Processed => IconLookView {
            badge: Some(rgba(34, 197, 94, 255)),
            template: false,
            tooltip: "callout — heard you"@,
        },
        IconState::Speaking => IconLookView {
            badge: Some(rgba(251, 146, 60, 255)),
            template: false,
            tooltip: "callout — speaking"@,
        },
        IconState::Idle => IconLookView { badge: None, template: true, tooltip: "callout"@ },
    }
}

/// The look of `s`.
pub fn icon_look(s: IconState) -> (l: IconLook)
    ensures
        l@ == look_of(s),
{
    match s {
        IconState::Recording => IconLook {
            badge: Some(Rgba { r: 220, g: 38, b: 38, a: 255 }),
            template: false,
            tooltip: crate::text::owned("callout — recording"),
        },
        IconState::Processed => IconLook {
            badge: Some(Rgba { r: 34, g: 197, b: 94, a: 255 }),
            template: false,
            tooltip: crate::text::owned("callout — heard you"),
        },
        IconState::Speaking => IconLook {
            badge: Some(Rgba { r: 251, g: 146, b: 60, a: 255 }),
            template: false,
            tooltip: crate::text::owned("callout — speaking"),
        },
        IconState::Idle => IconLook {
            badge: None,
            template: true,
            tooltip: crate::text::owned("callout"),
        },
    }
}

/// What to apply when the icon goes from `last` to `next`: nothing when the
/// state is unchanged, so that the menu bar is not redrawn needlessly.
pub fn icon_change(last: IconState, next: IconState) -> (r: Option<IconLook>)
    ensures
        r is None <==> last == next,
        r matches Some(l) ==> l@ == look_of(next),
{
    if last == next {
        None
    } else {
        Some(icon_look(next))
    }
}

// ---------------------------------------------------------------------------
// Icon pixels
// ---------------------------------------------------------------------------

/// Width and height of the icon, in pixels.
pub const ICON_SIZE: usize = 22;

/// The pixels of the microphone: a capsule (rows 2–11, columns 7–14, top
/// corners cut), the arms of the stand (rows 12–15), the bottom of the stand
/// (row 15), the stem (rows 16–17) and the base (row 18).
pub open spec fn mic_on(y: int, x: int) -> bool {
    ||| (2 <= y <= 11 && 7 <= x <= 14 && !(y == 2 && (x == 7 || x == 14)))
    ||| (12 <= y <= 15 && (x == 7 || x == 14))
    ||| (y == 15 && 7 <= x <= 14)
    ||| (16 <= y <= 17 && (x == 10 || x == 11))
    ||| (y == 18 && 8 <= x <= 13)
}

fn mic_on_at(y: usize, x: usize) -> (b: bool)
    ensures
        b == mic_on(y as int, x as int),
{
    (2 <= y && y <= 11 && 7 <= x && x <= 14 && !(y == 2 && (x == 7 || x == 14))) || (12 <= y && y
        <= 15 && (x == 7 || x == 14)) || (y == 15 && 7 <= x && x <= 14) || (16 <= y && y <= 17 && (x
        == 10 || x == 11)) || (y == 18 && 8 <= x && x <= 13)
}

/// The microphone as rows of pixels, `true` where it is drawn.
pub fn mic_pixels() -> (on: Vec<Vec<bool>>)
    ensures
        on@.len() == 22,
        forall|y: int| 0 <= y < 22 ==> (#[trigger] on@[y])@.len() == 22,
        forall|y: int, x: int| 0 <= y < 22 && 0 <= x < 22 ==> on@[y]@[x] == mic_on(y, x),
{
    let mut on: Vec<Vec<bool>> = Vec::new();
    let mut y: usize = 0;
    while y < ICON_SIZE
        invariant
            y <= 22,
            on@.len() == y,
            forall|r: int| 0 <= r < y ==> (#[trigger] on@[r])@.len() == 22,
            forall|r: int, x: int| 0 <= r < y && 0 <= x < 22 ==> on@[r]@[x] == mic_on(r, x),
        decreases 22 - y,
    {
        let mut row: Vec<bool> = Vec::new();
        let mut x: usize = 0;
        while x < ICON_SIZE
            invariant
                x <= 22,
                y < 22,
                row@.len() == x,
                forall|c: int| 0 <= c < x ==> row@[c] == mic_on(y as int, c),
            decreases 22 - x,
        {
            row.push(mic_on_at(y, x));
            x = x + 1;
        }
        on.push(row);
        y = y + 1;
    }
    on
}

/// Inside the round badge in the top-right corner: the pixel centre lies
/// within 4.5 pixels of (17.5, 4.5). Pixel centres are at half-integers, so
/// the test is `(x - 17)² + (y - 4)² < 20.25`, that is `≤ 20` on integers.
pub open spec fn in_badge(y: int, x: int) -> bool {
    (x - 17) * (x - 17) + (y - 4) * (y - 4) <= 20
}

fn in_badge_at(y: usize, x: usize) -> (b: bool)
    requires
        y < 22,
        x < 22,
    ensures
        b == in_badge(y as int, x as int),
{
    let dx: i64 = x as i64 - 17;
    let dy: i64 = y as i64 - 4;
    assert(0 <= dx * dx <= 289) by (nonlinear_arith)
        requires
            -17 <= dx <= 4,
    ;
    assert(0 <= dy * dy <= 324) by (nonlinear_arith)
        requires
            -4 <= dy <= 17,
    ;
    dx * dx + dy * dy <= 20
}

/// The four bytes of one pixel: the template microphone in black when there
/// is no badge; otherwise the badge colour inside the badge and the
/// microphone in white.
pub open spec fn pixel_rgba(badge: Option<Rgba>, y: int, x: int) -> Seq<u8> {
    match badge {
        None => if mic_on(y, x) {
            seq![0u8, 0u8, 0u8, 255u8]
        } else {
            seq![0u8, 0u8, 0u8, 0u8]
        },
        Some(c) => if in_badge(y, x) {
            seq![c.r, c.g, c.b, c.a]
        } else if mic_on(y, x) {
            seq![255u8, 255u8, 255u8, 255u8]
        } else {
            seq![0u8, 0u8, 0u8, 0u8]
        },
    }
}

/// The concatenation of `s`.
pub open spec fn flat(s: Seq<Seq<u8>>) -> Seq<u8>
    decreases s.len(),
{
    if s.len() == 0 {
        Seq::empty()
    } else {
        flat(s.drop_last()) + s.last()
    }
}

/// The bytes of row `y`, left to right.
pub open spec fn icon_row(badge: Option<Rgba>, y: int) -> Seq<u8> {
    flat(Seq::new(22, |x: int| pixel_rgba(badge, y, x)))
}

/// The icon as RGBA bytes, row by row from the top.
pub open spec fn icon_bytes(badge: Option<Rgba>) -> Seq<u8> {
    flat(Seq::new(22, |y: int| icon_row(badge, y)))
}

proof fn lemma_flat_take(s: Seq<Seq<u8>>, n: int)
    requires
        0 <= n < s.len(),
    ensures
        flat(s.take(n + 1)) == flat(s.take(n)) + s[n],
{
    assert(s.take(n + 1).drop_last() =~= s.take(n));
}

fn push_rgba(out: &mut Vec<u8>, r: u8, g: u8, b: u8, a: u8)
    ensures
        final(out)@ == old(out)@ + seq![r, g, b, a],
{
    out.push(r);
    out.push(g);
    out.push(b);
    out.push(a);
    assert(final(out)@ =~= old(out)@ + seq![r, g, b, a]);
}

/// The RGBA bytes of the icon with `badge` (the template microphone when
/// none): 22 × 22 pixels, four bytes each.
pub fn icon_rgba(badge: Option<Rgba>) -> (v: Vec<u8>)
    ensures
        v@ == icon_bytes(badge),
        v@.len() == 22 * 22 * 4,
{
    let on = mic_pixels();
    let ghost rows = Seq::new(22, |y: int| icon_row(badge, y));
    let mut out: Vec<u8> = Vec::new();
    let mut y: usize = 0;
    while y < ICON_SIZE
        invariant
            y <= 22,
            on@.len() == 22,
            forall|r: int| 0 <= r < 22 ==> (#[trigger] on@[r])@.len() == 22,
            forall|r: int, x: int| 0 <= r < 22 && 0 <= x < 22 ==> on@[r]@[x] == mic_on(r, x),
            rows == Seq::new(22, |r: int| icon_row(badge, r)),
            out@ == flat(rows.take(y as int)),
            out@.len() == 88 * y,
        decreases 22 - y,
    {
        let ghost px = Seq::new(22, |x: int| pixel_rgba(badge, y as int, x));
        let ghost start = out@;
        let mut x: usize = 0;
        assert(px.take(0) =~= Seq::<Seq<u8>>::empty());
        while x < ICON_SIZE
            invariant
                x <= 22,
                y < 22,
                on@.len() == 22,
                forall|r: int| 0 <= r < 22 ==> (#[trigger] on@[r])@.len() == 22,
                forall|r: int, c: int| 0 <= r < 22 && 0 <= c < 22 ==> on@[r]@[c] == mic_on(r, c),
                px == Seq::new(22, |c: int| pixel_rgba(badge, y as int, c)),
                out@ == start + flat(px.take(x as int)),
                out@.len() == start.len() + 4 * x,
            decreases 22 - x,
        {
            let drawn = on[y][x];
            assert(drawn == mic_on(y as int, x as int));
            proof {
                lemma_flat_take(px, x as int);
            }
            match badge {
                None => {
                    if drawn {
                        push_rgba(&mut out, 0, 0, 0, 255);
                    } else {
                        push_rgba(&mut out, 0, 0, 0, 0);
                    }
                },
                Some(c) => {
                    if in_badge_at(y, x) {
                        push_rgba(&mut out, c.r, c.g, c.b, c.a);
                    } else if drawn {
                        push_rgba(&mut out, 255, 255, 255, 255);
                    } else {
                        push_rgba(&mut out, 0, 0, 0, 0);
                    }
                },
            }
            assert(out@ =~= start + flat(px.take(x + 1)));
            x = x + 1;
        }
        proof {
            assert(px.take(22) =~= px);
            lemma_flat_take(rows, y as int);
            assert(rows[y as int] == flat(px));
        }
        y = y + 1;
    }
    proof {
        assert(rows.take(22) =~= rows);
    }
    out
}

// ---------------------------------------------------------------------------
// Labels
// ---------------------------------------------------------------------------

/// `s` itself when it has at most `max` characters, otherwise its first
/// `max` characters followed by an ellipsis.
pub open spec fn truncated(s: Seq<char>, max: nat) -> Seq<char> {
    if s.len() <= max {
        s
    } else {
        s.take(max as int) + "…"@
    }
}

/// Shortens `s` to `max_chars` characters and an ellipsis.
pub fn truncate(s: &str, max_chars: usize) -> (r: String)
    ensures
        r@ == truncated(s@, max_chars as nat),
{
    let v = chars_of(s);
    if v.len() <= max_chars {
        owned(s)
    } else {
        let head = string_of(&v, 0, max_chars);
        assert(v@.subrange(0, max_chars as int) =~= s@.take(max_chars as int));
        concat2(head.as_str(), "…")
    }
}

/// The symbol shown for one part of a hotkey, already uppercased: the
/// modifier glyphs of the menu bar, or the part itself.
pub open spec fn key_symbol(p: Seq<char>) -> Seq<char> {
    if p == "ALT"@ || p == "OPTION"@ || p == "OPT"@ {
        "⌥"@
    } else if p == "CTRL"@ || p == "CONTROL"@ {
        "⌃"@
    } else if p == "SHIFT"@ {
        "⇧"@
    } else if p == "META"@ || p == "CMD"@ || p == "COMMAND"@ || p == "SUPER"@ {
        "⌘"@
    } else {
        p
    }
}

/// A hotkey such as `Ctrl+Shift+F5` as the menu shows it (`⌃⇧F5`): each part
/// between `+` signs trimmed, uppercased and replaced by its symbol.
pub open spec fn hotkey_label(s: Seq<char>) -> Seq<char> {
    join(split_on(s, '+').map_values(|p: Seq<char>| key_symbol(uppercase(trim(p)))), Seq::empty())
}

fn symbol_for(p: &str) -> (r: String)
    ensures
        r@ == key_symbol(p@),
{
    if str_eq(p, "ALT") || str_eq(p, "OPTION") || str_eq(p, "OPT") {
        owned("⌥")
    } else if str_eq(p, "CTRL") || str_eq(p, "CONTROL") {
        owned("⌃")
    } else if str_eq(p, "SHIFT") {
        owned("⇧")
    } else if str_eq(p, "META") || str_eq(p, "CMD") || str_eq(p, "COMMAND") || str_eq(p, "SUPER") {
        owned("⌘")
    } else {
        owned(p)
    }
}

/// The hotkey `s` in menu-bar notation.
pub fn format_hotkey(s: &str) -> (r: String)
    ensures
        r@ == hotkey_label(s@),
{
    let parts = split_char(s, '+');
    let ghost pv = parts@.map_values(|w: String| w@);
    let mut out: Vec<String> = Vec::new();
    let mut i: usize = 0;
    while i < parts.len()
        invariant
            i <= parts@.len(),
            pv == parts@.map_values(|w: String| w@),
            out@.len() == i,
            forall|k: int|
                0 <= k < i ==> (#[trigger] out@[k])@ == key_symbol(uppercase(trim(pv[k]))),
        decreases parts.len() - i,
    {
        let t = trim_str(parts[i].as_str());
        let u = to_uppercase(t.as_str());
        let sym = symbol_for(u.as_str());
        out.push(sym);
        i = i + 1;
    }
    let ghost ov = out@.map_values(|w: String| w@);
    assert(ov =~= pv.map_values(|p: Seq<char>| key_symbol(uppercase(trim(p)))));
    proof {
        reveal_strlit("");
    }
    assert(""@ =~= Seq::<char>::empty());
    join_strings(&out, "")
}

/// The agent a menu item stands for, from its id `agent:<id>`.
pub fn agent_from_menu_id(id: &str) -> (r: Option<String>)
    ensures
        r is Some <==> has_prefix(id@, "agent:"@),
        r matches Some(a) ==> a@ == id@.skip(6),
{
    proof {
        reveal_strlit("agent:");
    }
    if starts_with_str(id, "agent:") {
        Some(skip_chars(id, 6))
    } else {
        None
    }
}

// ---------------------------------------------------------------------------
// Menu
// ---------------------------------------------------------------------------

/// One agent as the menu lists it.
pub struct MenuRow {
    pub agent_id: String,
    pub name: String,
    pub state: AgentState,
    /// The question the agent is waiting on, shortened.
    pub question: Option<String>,
}

/// A menu row, as texts.
pub struct MenuRowView {
    pub agent_id: Seq<char>,
    pub name: Seq<char>,
    pub state: AgentState,
    pub question: Option<Seq<char>>,
}

impl View for MenuRow {
    type V = MenuRowView;

    open spec fn view(&self) -> MenuRowView {
        MenuRowView {
            agent_id: self.agent_id@,
            name: self.name@,
            state: self.state,
            question: opt_str_view(self.question),
        }
    }
}

/// Everything the menu shows; the menu is rebuilt only when this changes.
pub struct MenuSnapshot {
    pub recording: bool,
    pub rows: Vec<MenuRow>,
    pub active_agent_id: Option<String>,
}

/// A menu snapshot, as texts.
pub struct MenuSnapshotView {
    pub recording: bool,
    pub rows: Seq<MenuRowView>,
    pub active_agent_id: Option<Seq<char>>,
}

impl View for MenuSnapshot {
    type V = MenuSnapshotView;

    open spec fn view(&self) -> MenuSnapshotView {
        MenuSnapshotView {
            recording: self.recording,
            rows: self.rows@.map_values(|r: MenuRow| r@),
            active_agent_id: opt_str_view(self.active_agent_id),
        }
    }
}

impl Default for MenuSnapshot {
    fn default() -> (s: Self)
        ensures
            !s@.recording,
            s@.rows.len() == 0,
            s@.active_agent_id is None,
    {
        MenuSnapshot { recording: false, rows: Vec::new(), active_agent_id: None }
    }
}

/// Longest question shown in the menu, in characters.
pub const MENU_QUESTION_CHARS: usize = 30;

/// The row for agent `a`, with the question it is waiting on, if any.
pub open spec fn row_for(a: AgentView, pending: Map<Seq<char>, AskView>) -> MenuRowView {
    MenuRowView {
        agent_id: a.id,
        name: a.name,
        state: a.state,
        question: if pending.contains_key(a.id) {
            Some(truncated(pending[a.id].question, 30))
        } else {
            None
        },
    }
}

fn opt_string_eq(a: &Option<String>, b: &Option<String>) -> (r: bool)
    ensures
        r == (opt_str_view(*a) == opt_str_view(*b)),
{
    match (a, b) {
        (Some(x), Some(y)) => str_eq(x.as_str(), y.as_str()),
        (None, None) => true,
        _ => false,
    }
}

fn opt_string_clone(a: &Option<String>) -> (r: Option<String>)
    ensures
        opt_str_view(r) == opt_str_view(*a),
{
    match a {
        Some(x) => Some(x.clone()),
        None => None,
    }
}

impl MenuSnapshot {
    /// What the menu should show now: every agent in order of id, with the
    /// question it is waiting on.
    pub fn capture(
        recording: bool,
        agents: &AgentRegistry,
        router: &AskRouter,
        active_agent_id: &Option<String>,
    ) -> (s: MenuSnapshot)
        ensures
            s@.recording == recording,
            s@.active_agent_id == opt_str_view(*active_agent_id),
            forall|i: int, j: int|
                0 <= i < j < s@.rows.len() ==> seq_lt(
                    (#[trigger] s@.rows[i]).agent_id,
                    (#[trigger] s@.rows[j]).agent_id,
                ),
            forall|i: int|
                0 <= i < s@.rows.len() ==> agents@.contains_key((#[trigger] s@.rows[i]).agent_id)
                    && s@.rows[i] == row_for(agents@[s@.rows[i].agent_id], router@),
            forall|k: Seq<char>|
                #[trigger] agents@.contains_key(k) ==> exists|i: int|
                    0 <= i < s@.rows.len() && (#[trigger] s@.rows[i]).agent_id == k,
    {
        let list = agents.all();
        let mut rows: Vec<MenuRow> = Vec::new();
        let mut i: usize = 0;
        while i < list.len()
            invariant
                i <= list@.len(),
                rows@.len() == i,
                forall|k: int|
                    0 <= k < i ==> (#[trigger] rows@[k])@ == row_for(list@[k]@, router@),
            decreases list.len() - i,
        {
            let a = list[i];
            let question = match router.pending_question(a.id.as_str()) {
                Some(q) => Some(truncate(q, MENU_QUESTION_CHARS)),
                None => None,
            };
            rows.push(
                MenuRow { agent_id: a.id.clone(), name: a.name.clone(), state: a.state, question },
            );
            i = i + 1;
        }
        let s = MenuSnapshot {
            recording,
            rows,
            active_agent_id: opt_string_clone(active_agent_id),
        };
        proof {
            assert forall|i: int| 0 <= i < s@.rows.len() implies (#[trigger] s@.rows[i]).agent_id
                == list@[i].id@ by {
                assert(s@.rows[i] == s.rows@[i]@);
            }
            assert forall|k: Seq<char>| #[trigger] agents@.contains_key(k) implies exists|i: int|
                0 <= i < s@.rows.len() && (#[trigger] s@.rows[i]).agent_id == k by {
                let i = choose|i: int| 0 <= i < list@.len() && (#[trigger] list@[i]).id@ == k;
                assert(s@.rows[i].agent_id == k);
            }
        }
        s
    }

    /// The two snapshots show the same menu.
    pub fn same_as(&self, other: &MenuSnapshot) -> (r: bool)
        ensures
            r == (self@ == other@),
    {
        if self.recording != other.recording || self.rows.len() != other.rows.len()
            || !opt_string_eq(&self.active_agent_id, &other.active_agent_id) {
            assert(self@.rows.len() == self.rows@.len());
            return false;
        }
        let mut i: usize = 0;
        while i < self.rows.len()
            invariant
                i <= self.rows@.len(),
                self.rows@.len() == other.rows@.len(),
                forall|k: int| 0 <= k < i ==> (#[trigger] self.rows@[k])@ == other.rows@[k]@,
            decreases self.rows.len() - i,
        {
            let a = &self.rows[i];
            let b = &other.rows[i];
            if !str_eq(a.agent_id.as_str(), b.agent_id.as_str()) || !str_eq(
                a.name.as_str(),
                b.name.as_str(),
            ) || a.state != b.state || !opt_string_eq(&a.question, &b.question) {
                assert(self@.rows[i as int] != other@.rows[i as int]);
                return false;
            }
            i = i + 1;
        }
        assert(self@.rows =~= other@.rows);
        true
    }
}

/// An entry of the menu.
pub enum MenuEntry {
    Separator,
    Item { id: Option<String>, label: String, enabled: bool },
}

/// A menu entry, as texts.
pub enum MenuEntryView {
    Separator,
    Item { id: Option<Seq<char>>, label: Seq<char>, enabled: bool },
}

impl View for MenuEntry {
    type V = MenuEntryView;

    open spec fn view(&self) -> MenuEntryView {
        match self {
            MenuEntry::Separator => MenuEntryView::Separator,
            MenuEntry::Item { id, label, enabled } => MenuEntryView::Item {
                id: opt_str_view(*id),
                label: label@,
                enabled: *enabled,
            },
        }
    }
}

/// A menu item.
pub open spec fn item(id: Option<Seq<char>>, label: Seq<char>, enabled: bool) -> MenuEntryView {
    MenuEntryView::Item { id, label, enabled }
}

/// The label of an agent's row: an arrow on the agent chosen for the next
/// answer, an hourglass and the question when it is waiting.
pub open spec fn row_label(row: MenuRowView, active: Option<Seq<char>>) -> Seq<char> {
    let prefix = if active == Some(row.agent_id) {
        "→ "@
    } else {
        Seq::empty()
    };
    match (row.state, row.question) {
        (AgentState::Waiting, Some(q)) => prefix + row.name + "  ⏳ "@ + q,
        (AgentState::Waiting, None) => prefix + row.name + "  ⏳"@,
        _ => prefix + row.name,
    }
}

/// An agent waiting on a question can be picked from the menu as the one the
/// next answer goes to; other rows are plain text.
pub open spec fn row_entry(row: MenuRowView, active: Option<Seq<char>>) -> MenuEntryView {
    if row.state == AgentState::Waiting && row.question is Some {
        item(Some("agent:"@ + row.agent_id), row_label(row, active), true)
    } else {
        item(None, row_label(row, active), false)
    }
}

/// The whole menu: a recording notice, the agents (or a note that there are
/// none), the push-to-talk hint, and Quit.
pub open spec fn menu_spec(ptt_label: Seq<char>, snap: MenuSnapshotView) -> Seq<MenuEntryView> {
    (if snap.recording {
        seq![item(None, "● Recording…"@, false), MenuEntryView::Separator]
    } else {
        Seq::empty()
    }) + (if snap.rows.len() == 0 {
        seq![item(None, "No agents connected"@, false)]
    } else {
        snap.rows.map_values(|r: MenuRowView| row_entry(r, snap.active_agent_id))
    }) + seq![
        MenuEntryView::Separator,
        item(None, "Hold "@ + ptt_label + " to speak"@, false),
        MenuEntryView::Separator,
        item(Some("quit"@), "Quit callout"@, true),
    ]
}

fn plain_item(label: String) -> (e: MenuEntry)
    ensures
        e@ == item(None, label@, false),
{
    MenuEntry::Item { id: None, label, enabled: false }
}

fn row_menu_entry(row: &MenuRow, active: &Option<String>) -> (e: MenuEntry)
    ensures
        e@ == row_entry(row@, opt_str_view(*active)),
{
    let is_active = match active {
        Some(a) => str_eq(a.as_str(), row.agent_id.as_str()),
        None => false,
    };
    let prefix = if is_active {
        "→ "
    } else {
        ""
    };
    proof {
        reveal_strlit("");
    }
    let base = concat2(prefix, row.name.as_str());
    let label = match (&row.state, &row.question) {
        (AgentState::Waiting, Some(q)) => {
            let l = concat2(base.as_str(), "  ⏳ ");
            concat2(l.as_str(), q.as_str())
        },
        (AgentState::Waiting, None) => concat2(base.as_str(), "  ⏳"),
        _ => base,
    };
    assert(label@ == row_label(row@, opt_str_view(*active)));
    if row.state == AgentState::Waiting && row.question.is_some() {
        MenuEntry::Item {
            id: Some(concat2("agent:", row.agent_id.as_str())),
            label,
            enabled: true,
        }
    } else {
        plain_item(label)
    }
}

/// The entries of the menu for `snap`, with `ptt_label` in the hint.
pub fn menu_entries(ptt_label: &str, snap: &MenuSnapshot) -> (v: Vec<MenuEntry>)
    ensures
        v@.map_values(|e: MenuEntry| e@) == menu_spec(ptt_label@, snap@),
{
    let mut v: Vec<MenuEntry> = Vec::new();
    if snap.recording {
        v.push(plain_item(owned("● Recording…")));
        v.push(MenuEntry::Separator);
    }
    let ghost head = v@.map_values(|e: MenuEntry| e@);
    assert(head =~= (if snap@.recording {
        seq![item(None, "● Recording…"@, false), MenuEntryView::Separator]
    } else {
        Seq::empty()
    }));
    let ghost start = v@.len();
    if snap.rows.len() == 0 {
        v.push(plain_item(owned("No agents connected")));
    } else {
        let mut i: usize = 0;
        while i < snap.rows.len()
            invariant
                i <= snap.rows@.len(),
                v@.len() == start + i,
                forall|k: int|
                    0 <= k < start ==> (#[trigger] v@[k])@ == head[k],
                forall|k: int|
                    0 <= k < i ==> (#[trigger] v@[start + k])@ == row_entry(
                        snap.rows@[k]@,
                        opt_str_view(snap.active_agent_id),
                    ),
                start == head.len(),
            decreases snap.rows.len() - i,
        {
            v.push(row_menu_entry(&snap.rows[i], &snap.active_agent_id));
            i = i + 1;
        }
    }
    let ghost mid = v@.map_values(|e: MenuEntry| e@);
    proof {
        let body = if snap@.rows.len() == 0 {
            seq![item(None, "No agents connected"@, false)]
        } else {
            snap@.rows.map_values(|r: MenuRowView| row_entry(r, snap@.active_agent_id))
        };
        assert(mid.len() == head.len() + body.len());
        assert forall|k: int| 0 <= k < mid.len() implies mid[k] == (head + body)[k] by {
            assert(mid[k] == v@[k]@);
            if k >= start && snap@.rows.len() > 0 {
                assert(snap@.rows[k - start] == snap.rows@[k - start]@);
                assert(v@[start + (k - start)] == v@[k]);
            }
        }
        assert(mid =~= head + body);
    }
    v.push(MenuEntry::Separator);
    v.push(plain_item(concat2(concat2("Hold ", ptt_label).as_str(), " to speak")));
    v.push(MenuEntry::Separator);
    v.push(MenuEntry::Item { id: Some(owned("quit")), label: owned("Quit callout"), enabled: true });
    assert(v@.map_values(|e: MenuEntry| e@) =~= menu_spec(ptt_label@, snap@));
    v
}

// ---------------------------------------------------------------------------
// Laws of the menu bar
// ---------------------------------------------------------------------------

/// Quit is always the last entry of the menu, and always enabled.
pub proof fn law_quit_is_last(ptt_label: Seq<char>, snap: MenuSnapshotView)
    ensures
        menu_spec(ptt_label, snap).len() >= 5,
        menu_spec(ptt_label, snap).last() == item(Some("quit"@), "Quit callout"@, true),
{
}

/// A shortened question keeps its first characters and is at most one
/// character (the ellipsis) longer than the limit; a short one is unchanged.
pub proof fn law_truncated_is_prefix(s: Seq<char>, max: nat)
    ensures
        truncated(s, max).len() <= max + 1,
        s.len() <= max ==> truncated(s, max) == s,
        s.len() > max ==> truncated(s, max).take(max as int) == s.take(max as int),
{
    if s.len() > max {
        reveal_strlit("…");
        assert((s.take(max as int) + "…"@).take(max as int) =~= s.take(max as int));
    }
}

/// Recording always shows the red badge, whatever else is going on; without
/// anything to show, the plain template microphone is back.
pub proof fn law_recording_shows_first(speaking: bool, processed: bool)
    ensures
        look_of(icon_state_for(true, speaking, processed)).badge == Some(rgba(220, 38, 38, 255)),
        look_of(icon_state_for(false, false, false)).badge is None,
        look_of(icon_state_for(false, false, false)).template,
{
}

} // verus!
