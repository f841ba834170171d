//! Text-to-speech voices: reading the system's voice list, and what
//! `callout voices` prints and checks.
use vstd::prelude::*;
use crate::text::{
    char_pos, lemma_char_pos,
    chars_of, concat2, has_char, has_prefix, join, join_strings, owned, push_char, seq_lt,
    split_whitespace, split_ws, starts_with_str, str_eq, str_lt, string_of, trim, trim_str,
    contains_char,
};

verus! {

/// An installed voice: its name and its locale (such as "en_US").
pub struct Voice {
    pub name: String,
    pub locale: String,
}

/// Voices as (name, locale) texts.
pub open spec fn voices_view(v: Seq<Voice>) -> Seq<(Seq<char>, Seq<char>)> {
    v.map_values(|x: Voice| (x.name@, x.locale@))
}

/// The part of `s` before its first `c`, if `c` occurs.
pub open spec fn before_char(s: Seq<char>, c: char) -> Option<Seq<char>> {
    match char_pos(s, c) {
        Some(i) => Some(s.take(i)),
        None => None,
    }
}

/// The voice described by a line of `say -v ?`, such as
/// "Ava (Premium)       en_US    # Hello! My name is Ava.": before the '#',
/// the last word is the locale (it must hold a '_') and the words before it,
/// joined by single spaces, the name (which must not be empty).
pub open spec fn voice_of_line(line: Seq<char>) -> Option<(Seq<char>, Seq<char>)> {
    match before_char(line, '#') {
        None => None,
        Some(b) => {
            let toks = split_ws(trim(b));
            if toks.len() == 0 {
                None
            } else if !has_char(toks.last(), '_') {
                None
            } else if join(toks.drop_last(), " "@).len() == 0 {
                None
            } else {
                Some((join(toks.drop_last(), " "@), toks.last()))
            }
        },
    }
}

fn prefix_before(s: &str, c: char) -> (r: Option<String>)
    ensures
        match r {
            Some(p) => before_char(s@, c) == Some(p@),
            None => before_char(s@, c) is None,
        },
{
    let v = chars_of(s);
    let mut i: usize = 0;
    while i < v.len()
        invariant
            v@ == s@,
            i <= v.len(),
            forall|k: int| 0 <= k < i ==> v@[k] != c,
        decreases v.len() - i,
    {
        if v[i] == c {
            let p = string_of(&v, 0, i);
            proof {
                lemma_char_pos(s@, c, i as int);
                assert(v@.subrange(0, i as int) =~= s@.take(i as int));
            }
            return Some(p);
        }
        i = i + 1;
    }
    proof {
        lemma_char_pos(s@, c, i as int);
    }
    None
}

/// Reads a line of `say -v ?` (see `voice_of_line`).
#[verifier::rlimit(40)]
pub fn parse_line(line: &str) -> (r: Option<Voice>)
    ensures
        match r {
            Some(v) => voice_of_line(line@) == Some((v.name@, v.locale@)),
            None => voice_of_line(line@) is None,
        },
{
    let before = match prefix_before(line, '#') {
        Some(b) => b,
        None => return None,
    };
    let t = trim_str(before.as_str());
    let mut tokens = split_whitespace(t.as_str());
    let ghost tv = tokens@.map_values(|w: String| w@);
    if tokens.len() == 0 {
        return None;
    }
    let locale = tokens.pop().unwrap();
    proof {
        assert(tokens@.map_values(|w: String| w@) =~= tv.drop_last());
    }
    if !contains_char(locale.as_str(), '_') {
        return None;
    }
    let name = join_strings(&tokens, " ");
    if name.as_str().is_empty() {
        return None;
    }
    Some(Voice { name, locale })
}

/// A voice named `name` is among `voices`.
pub fn is_installed(voices: &[Voice], name: &str) -> (b: bool)
    ensures
        b == exists|i: int| 0 <= i < voices@.len() && (#[trigger] voices@[i]).name@ == name@,
{
    let mut i: usize = 0;
    while i < voices.len()
        invariant
            i <= voices@.len(),
            forall|k: int| 0 <= k < i ==> (#[trigger] voices@[k]).name@ != name@,
        decreases voices.len() - i,
    {
        if str_eq(voices[i].name.as_str(), name) {
            return true;
        }
        i = i + 1;
    }
    false
}

// ---------------------------------------------------------------------------
// `callout voices list` and `callout voices set`
// ---------------------------------------------------------------------------

/// Voice order in the English list: by name.
pub open spec fn by_name() -> spec_fn((Seq<char>, Seq<char>), (Seq<char>, Seq<char>)) -> bool {
    |a: (Seq<char>, Seq<char>), b: (Seq<char>, Seq<char>)| seq_lt(a.0, b.0)
}

/// Voice order in the other languages' list: by locale, then by name.
pub open spec fn by_locale_then_name() -> spec_fn((Seq<char>, Seq<char>), (Seq<char>, Seq<char>)) -> bool {
    |a: (Seq<char>, Seq<char>), b: (Seq<char>, Seq<char>)|
        seq_lt(a.1, b.1) || (a.1 == b.1 && seq_lt(a.0, b.0))
}

/// `x` placed in `sorted` before the first element that comes after it.
pub open spec fn insert_stable<A>(sorted: Seq<A>, x: A, lt: spec_fn(A, A) -> bool) -> Seq<A>
    decreases sorted.len(),
{
    if sorted.len() == 0 {
        seq![x]
    } else if lt(x, sorted[0]) {
        seq![x] + sorted
    } else {
        seq![sorted[0]] + insert_stable(sorted.drop_first(), x, lt)
    }
}

/// `s` sorted by `lt`, elements that compare equal keeping their order (the
/// result of a stable sort).
pub open spec fn sort_stable<A>(s: Seq<A>, lt: spec_fn(A, A) -> bool) -> Seq<A>
    decreases s.len(),
{
    if s.len() == 0 {
        Seq::empty()
    } else {
        insert_stable(sort_stable(s.drop_last(), lt), s.last(), lt)
    }
}

proof fn lemma_insert_stable_at<A>(s: Seq<A>, x: A, lt: spec_fn(A, A) -> bool, p: int)
    requires
        0 <= p <= s.len(),
        forall|q: int| 0 <= q < p ==> !lt(x, #[trigger] s[q]),
        p < s.len() ==> lt(x, s[p]),
    ensures
        insert_stable(s, x, lt) == s.insert(p, x),
    decreases s.len(),
{
    if s.len() == 0 {
        assert(s.insert(p, x) =~= seq![x]);
    } else if p == 0 {
        assert(s.insert(p, x) =~= seq![x] + s);
    } else {
        let t = s.drop_first();
        assert forall|q: int| 0 <= q < p - 1 implies !lt(x, #[trigger] t[q]) by {
            assert(t[q] == s[q + 1]);
        }
        lemma_insert_stable_at(t, x, lt, p - 1);
        assert(s.insert(p, x) =~= seq![s[0]] + t.insert(p - 1, x));
    }
}

/// `a` comes before `b` in the given order.
fn voice_lt(a: &Voice, b: &Voice, locale_first: bool) -> (r: bool)
    ensures
        r == (if locale_first {
            by_locale_then_name()
        } else {
            by_name()
        })((a.name@, a.locale@), (b.name@, b.locale@)),
{
    if locale_first {
        str_lt(a.locale.as_str(), b.locale.as_str()) || (str_eq(a.locale.as_str(), b.locale.as_str())
            && str_lt(a.name.as_str(), b.name.as_str()))
    } else {
        str_lt(a.name.as_str(), b.name.as_str())
    }
}

/// The voices whose locale does (`english`) or does not start with "en_",
/// in order.
pub open spec fn pick(v: Seq<(Seq<char>, Seq<char>)>, english: bool) -> Seq<(Seq<char>, Seq<char>)> {
    v.filter(|x: (Seq<char>, Seq<char>)| has_prefix(x.1, "en_"@) == english)
}

/// The voices of one section of the list, sorted for it.
pub open spec fn section(v: Seq<(Seq<char>, Seq<char>)>, english: bool) -> Seq<(Seq<char>, Seq<char>)> {
    sort_stable(
        pick(v, english),
        if english {
            by_name()
        } else {
            by_locale_then_name()
        },
    )
}

/// Borrowed voices as (name, locale) texts.
pub open spec fn refs_view(s: Seq<&Voice>) -> Seq<(Seq<char>, Seq<char>)> {
    s.map_values(|v: &Voice| (v.name@, v.locale@))
}

/// The voices of one section, sorted: English voices by name, others by
/// locale and then name.
pub fn sorted_section(voices: &[Voice], english: bool) -> (r: Vec<(String, String)>)
    ensures
        r@.map_values(|p: (String, String)| (p.0@, p.1@)) == section(voices_view(voices@), english),
{
    let ghost vv = voices_view(voices@);
    let ghost lt = if english {
        by_name()
    } else {
        by_locale_then_name()
    };
    let ghost keep = |x: (Seq<char>, Seq<char>)| has_prefix(x.1, "en_"@) == english;
    let mut sorted: Vec<&Voice> = Vec::new();
    let mut n: usize = 0;
    proof {
        assert(vv.take(0).filter(keep) =~= Seq::<(Seq<char>, Seq<char>)>::empty());
        assert(refs_view(sorted@) =~= Seq::<(Seq<char>, Seq<char>)>::empty());
    }
    while n < voices.len()
        invariant
            n <= voices@.len(),
            vv == voices_view(voices@),
            lt == (if english {
                by_name()
            } else {
                by_locale_then_name()
            }),
            keep == (|x: (Seq<char>, Seq<char>)| has_prefix(x.1, "en_"@) == english),
            refs_view(sorted@) == sort_stable(vv.take(n as int).filter(keep), lt),
        decreases voices.len() - n,
    {
        let v = &voices[n];
        let ghost x = (v.name@, v.locale@);
        let is_en = starts_with_str(v.locale.as_str(), "en_");
        proof {
            reveal(Seq::filter);
            assert(vv[n as int] == x);
            assert(vv.take(n + 1).drop_last() =~= vv.take(n as int));
            assert(vv.take(n + 1).last() == x);
        }
        if is_en == english {
            let ghost before = refs_view(sorted@);
            let mut p: usize = 0;
            while p < sorted.len() && !voice_lt(v, sorted[p], !english)
                invariant
                    p <= sorted@.len(),
                    before == refs_view(sorted@),
                    x == (v.name@, v.locale@),
                    lt == (if english {
                        by_name()
                    } else {
                        by_locale_then_name()
                    }),
                    forall|q: int| 0 <= q < p ==> !lt(x, #[trigger] before[q]),
                decreases sorted.len() - p,
            {
                p = p + 1;
            }
            proof {
                lemma_insert_stable_at(before, x, lt, p as int);
                let s0 = vv.take(n as int).filter(keep);
                assert(s0.push(x).drop_last() =~= s0);
            }
            sorted.insert(p, v);
            proof {
                assert(refs_view(sorted@) =~= before.insert(p as int, x));
            }
        }
        n = n + 1;
    }
    proof {
        assert(vv.take(voices@.len() as int) =~= vv);
    }
    let mut r: Vec<(String, String)> = Vec::new();
    let mut i: usize = 0;
    while i < sorted.len()
        invariant
            i <= sorted@.len(),
            r@.len() == i,
            forall|m: int| 0 <= m < i ==> (#[trigger] r@[m]).0@ == sorted@[m].name@ && r@[m].1@ == sorted@[m].locale@,
        decreases sorted.len() - i,
    {
        r.push((sorted[i].name.clone(), sorted[i].locale.clone()));
        i = i + 1;
    }
    assert(r@.map_values(|p: (String, String)| (p.0@, p.1@)) =~= refs_view(sorted@));
    r
}

/// `n` spaces.
pub open spec fn spaces(n: int) -> Seq<char> {
    Seq::new(n as nat, |i: int| ' ')
}

/// `s` padded on the right with spaces to at least `w` characters (`{:<w}`).
pub open spec fn pad_right(s: Seq<char>, w: int) -> Seq<char> {
    if s.len() < w {
        s + spaces(w - s.len())
    } else {
        s
    }
}

/// `s` padded with spaces to at least `w` characters.
pub fn pad_to(s: &str, w: usize) -> (r: String)
    ensures
        r@ == pad_right(s@, w as int),
{
    let mut r = s.to_owned();
    let n = crate::text::char_count(s);
    let mut k = n;
    while k < w
        invariant
            n == s@.len(),
            n <= k <= w || (n > w && k == n),
            k >= n,
            r@ == s@ + spaces(k - n),
        decreases w - k,
    {
        push_char(&mut r, ' ');
        assert(spaces(k - n).push(' ') =~= spaces(k + 1 - n));
        assert(r@ =~= s@ + spaces(k + 1 - n));
        k = k + 1;
    }
    proof {
        if n < w {
            assert(k == w);
        } else {
            assert(spaces(0) =~= Seq::<char>::empty());
            assert(r@ =~= s@);
        }
    }
    r
}

/// A row of the voice list: name padded to 32, locale, and a mark on the
/// active voice.
pub open spec fn voice_row(v: (Seq<char>, Seq<char>), current: Seq<char>) -> Seq<char> {
    "  "@ + pad_right(v.0, 32) + " "@ + v.1 + (if v.0 == current {
        "  ← active"@
    } else {
        Seq::empty()
    })
}

/// What `callout voices list` prints, line by line.
pub open spec fn list_lines(vv: Seq<(Seq<char>, Seq<char>)>, current: Seq<char>) -> Seq<Seq<char>> {
    let en = section(vv, true).map_values(|v: (Seq<char>, Seq<char>)| voice_row(v, current));
    let other = section(vv, false).map_values(|v: (Seq<char>, Seq<char>)| voice_row(v, current));
    seq!["English voices:"@] + en + (if other.len() > 0 {
        seq![""@, "Other languages:"@] + other
    } else {
        Seq::empty()
    }) + seq![
        ""@,
        "Usage:"@,
        "  callout voices set \"Ava (Premium)\""@,
        "  callout voices download      # open System Settings to get more"@,
    ]
}

fn rows(section: &Vec<(String, String)>, current: &str) -> (r: Vec<String>)
    ensures
        r@.map_values(|s: String| s@) == section@.map_values(|p: (String, String)| (p.0@, p.1@)).map_values(
            |v: (Seq<char>, Seq<char>)| voice_row(v, current@),
        ),
{
    let mut r: Vec<String> = Vec::new();
    let mut i: usize = 0;
    while i < section.len()
        invariant
            i <= section@.len(),
            r@.len() == i,
            forall|m: int| 0 <= m < i ==> (#[trigger] r@[m])@ == voice_row((section@[m].0@, section@[m].1@), current@),
        decreases section.len() - i,
    {
        let (name, locale) = (&section[i].0, &section[i].1);
        let row = concat2("  ", pad_to(name.as_str(), 32).as_str());
        let row = concat2(row.as_str(), " ");
        let row = concat2(row.as_str(), locale.as_str());
        let row = if str_eq(name.as_str(), current) {
            concat2(row.as_str(), "  ← active")
        } else {
            row
        };
        proof {
            assert(row@ =~= voice_row((section@[i as int].0@, section@[i as int].1@), current@));
        }
        r.push(row);
        i = i + 1;
    }
    assert(r@.map_values(|s: String| s@) =~= section@.map_values(|p: (String, String)| (p.0@, p.1@)).map_values(
        |v: (Seq<char>, Seq<char>)| voice_row(v, current@),
    ));
    r
}

fn push_all(out: &mut Vec<String>, more: Vec<String>)
    ensures
        final(out)@.map_values(|s: String| s@) == old(out)@.map_values(|s: String| s@) + more@.map_values(|s: String| s@),
{
    let ghost start = out@.map_values(|s: String| s@);
    let ghost mv = more@.map_values(|s: String| s@);
    let mut i: usize = 0;
    while i < more.len()
        invariant
            i <= more@.len(),
            mv == more@.map_values(|s: String| s@),
            out@.map_values(|s: String| s@) == start + mv.take(i as int),
        decreases more.len() - i,
    {
        let ghost before = out@.map_values(|s: String| s@);
        out.push(more[i].clone());
        assert(out@.map_values(|s: String| s@) =~= before.push(more@[i as int]@));
        assert(mv.take(i + 1) =~= mv.take(i as int).push(more@[i as int]@));
        i = i + 1;
    }
    assert(mv.take(i as int) =~= mv);
}

/// The lines `callout voices list` prints; `current` is the configured voice.
pub fn list_output(voices: &[Voice], current: &str) -> (lines: Vec<String>)
    ensures
        lines@.map_values(|s: String| s@) == list_lines(voices_view(voices@), current@),
{
    let en = sorted_section(voices, true);
    let other = sorted_section(voices, false);
    let ghost vv = voices_view(voices@);
    let ghost en_rows = section(vv, true).map_values(|v: (Seq<char>, Seq<char>)| voice_row(v, current@));
    let ghost other_rows = section(vv, false).map_values(|v: (Seq<char>, Seq<char>)| voice_row(v, current@));
    let mut lines: Vec<String> = Vec::new();
    lines.push(owned("English voices:"));
    assert(lines@.map_values(|s: String| s@) =~= seq!["English voices:"@]);
    push_all(&mut lines, rows(&en, current));
    let ghost l1 = lines@.map_values(|s: String| s@);
    assert(l1 == seq!["English voices:"@] + en_rows);
    if other.len() > 0 {
        lines.push(owned(""));
        lines.push(owned("Other languages:"));
        assert(lines@.map_values(|s: String| s@) =~= l1 + seq![""@, "Other languages:"@]);
        push_all(&mut lines, rows(&other, current));
    }
    let ghost l2 = lines@.map_values(|s: String| s@);
    assert(l2 =~= seq!["English voices:"@] + en_rows + (if other_rows.len() > 0 {
        seq![""@, "Other languages:"@] + other_rows
    } else {
        Seq::empty()
    }));
    lines.push(owned(""));
    lines.push(owned("Usage:"));
    lines.push(owned("  callout voices set \"Ava (Premium)\""));
    lines.push(owned("  callout voices download      # open System Settings to get more"));
    assert(lines@.map_values(|s: String| s@) =~= l2 + seq![
        ""@,
        "Usage:"@,
        "  callout voices set \"Ava (Premium)\""@,
        "  callout voices download      # open System Settings to get more"@,
    ]);
    lines
}

/// The answer to `callout voices set <name>`: the confirmation to print when
/// the voice is installed, or the error otherwise.
pub fn check_voice_choice(voices: &[Voice], name: &str) -> (r: Result<String, String>)
    ensures
        r is Ok <==> exists|i: int| 0 <= i < voices@.len() && (#[trigger] voices@[i]).name@ == name@,
        r matches Ok(m) ==> m@ == "Voice set to \""@ + name@ + "\". Restart callout to apply."@,
        r matches Err(m) ==> m@ == "Voice \""@ + name@ + "\" is not installed.\nRun 'callout voices list' to see what's available, or\n'callout voices download' to get more."@,
{
    if is_installed(voices, name) {
        let m = concat2("Voice set to \"", name);
        Ok(concat2(m.as_str(), "\". Restart callout to apply."))
    } else {
        let m = concat2("Voice \"", name);
        Err(concat2(m.as_str(), "\" is not installed.\nRun 'callout voices list' to see what's available, or\n'callout voices download' to get more."))
    }
}

} // verus!
