//! The glossary: terms that prime transcription, and corrections applied to
//! what was transcribed.
use vstd::prelude::*;
use crate::agents::strs_view;
use crate::keyed::{
    has_key, keyed_map, lemma_keyed_empty, lemma_keyed_push, lemma_keyed_update,
    unique_keys,
};
use crate::text::{join, join_strings, replace, replace_str, str_eq};

verus! {

/// The map that a list of (from, to) pairs gives when read in order, later
/// pairs overriding earlier ones with the same `from`.
pub open spec fn pair_map(s: Seq<(Seq<char>, Seq<char>)>) -> Map<Seq<char>, Seq<char>>
    decreases s.len(),
{
    if s.len() == 0 {
        Map::empty()
    } else {
        pair_map(s.drop_last()).insert(s.last().0, s.last().1)
    }
}

/// (from, to) string pairs, as texts.
pub open spec fn pairs_view(s: Seq<(String, String)>) -> Seq<(Seq<char>, Seq<char>)> {
    s.map_values(|p: (String, String)| (p.0@, p.1@))
}

/// No two corrections of `l` share what is heard.
pub open spec fn distinct_froms(l: Seq<(Seq<char>, Seq<char>)>) -> bool {
    forall|i: int, j: int| 0 <= i < l.len() && 0 <= j < l.len() && i != j ==> (#[trigger] l[i]).0 != (#[trigger] l[j]).0
}

/// `text` with each correction applied in turn, in the order listed.
pub open spec fn apply_all(text: Seq<char>, cs: Seq<(Seq<char>, Seq<char>)>) -> Seq<char>
    decreases cs.len(),
{
    if cs.len() == 0 {
        text
    } else {
        let t = apply_all(text, cs.drop_last());
        replace(t, cs.last().0, cs.last().1)
    }
}

spec fn pair_key() -> spec_fn((String, String)) -> Seq<char> {
    |p: (String, String)| p.0@
}

spec fn pair_val() -> spec_fn((String, String)) -> Seq<char> {
    |p: (String, String)| p.1@
}

/// Glossary terms and corrections.
pub struct Glossary {
    terms: Vec<String>,
    /// Distinct `from` strings, each with its replacement.
    corrections: Vec<(String, String)>,
}

impl Glossary {
    #[verifier::type_invariant]
    spec fn distinct_corrections(self) -> bool {
        unique_keys(self.corrections@, pair_key())
    }

    /// The terms that prime transcription.
    pub closed spec fn term_list(&self) -> Seq<Seq<char>> {
        strs_view(self.terms@)
    }

    /// The corrections, in the order they are applied; their `from` strings
    /// are distinct.
    pub closed spec fn correction_list(&self) -> Seq<(Seq<char>, Seq<char>)> {
        pairs_view(self.corrections@)
    }

    /// The corrections as a map from what is heard to what is written.
    pub open spec fn correction_map(&self) -> Map<Seq<char>, Seq<char>> {
        pair_map(self.correction_list())
    }

    /// A glossary with `terms` and the corrections of `pairs`; of several
    /// pairs with the same `from`, the last one counts.
    pub fn new(terms: Vec<String>, pairs: Vec<(String, String)>) -> (g: Self)
        ensures
            g.term_list() == strs_view(terms@),
            g.correction_map() == pair_map(pairs_view(pairs@)),
    {
        let mut corrections: Vec<(String, String)> = Vec::new();
        proof {
            lemma_keyed_empty(corrections@, pair_key(), pair_val());
            assert(pairs_view(pairs@.take(0)) =~= Seq::<(Seq<char>, Seq<char>)>::empty());
        }
        let mut n: usize = 0;
        while n < pairs.len()
            invariant
                n <= pairs@.len(),
                unique_keys(corrections@, pair_key()),
                keyed_map(corrections@, pair_key(), pair_val()) == pair_map(pairs_view(pairs@.take(n as int))),
            decreases pairs.len() - n,
        {
            let p = (pairs[n].0.clone(), pairs[n].1.clone());
            proof {
                assert(pairs@.take(n + 1).drop_last() =~= pairs@.take(n as int));
                assert(pairs_view(pairs@.take(n + 1)).drop_last() =~= pairs_view(pairs@.take(n as int)));
            }
            let found = find_pair(&corrections, p.0.as_str());
            let ghost before = corrections@;
            match found {
                Some(j) => {
                    proof {
                        lemma_keyed_update(before, pair_key(), pair_val(), j as int, p);
                    }
                    corrections.set(j, p);
                },
                None => {
                    proof {
                        lemma_keyed_push(before, pair_key(), pair_val(), p);
                    }
                    corrections.push(p);
                },
            }
            n = n + 1;
        }
        proof {
            assert(pairs@.take(n as int) =~= pairs@);
        }
        let g = Glossary { terms, corrections };
        proof {
            lemma_list_map(g.corrections@);
            let l = g.correction_list();
            assert forall|i: int, j: int| 0 <= i < l.len() && 0 <= j < l.len() && i != j implies (#[trigger] l[i]).0 != (#[trigger] l[j]).0 by {
                assert(pair_key()(g.corrections@[i]) != pair_key()(g.corrections@[j]));
            }
        }
        g
    }

    /// The prompt that primes transcription: the glossary's terms and then
    /// `extra_terms`, separated by ", ".
    pub fn whisper_prompt(&self, extra_terms: &[String]) -> (p: String)
        ensures
            p@ == join(self.term_list() + extra_terms@.map_values(|s: String| s@), ", "@),
    {
        let mut terms: Vec<String> = Vec::new();
        let mut i: usize = 0;
        while i < self.terms.len()
            invariant
                i <= self.terms@.len(),
                terms@ == self.terms@.take(i as int),
            decreases self.terms.len() - i,
        {
            terms.push(self.terms[i].clone());
            assert(self.terms@.take(i + 1) =~= self.terms@.take(i as int).push(self.terms@[i as int]));
            i = i + 1;
        }
        let mut j: usize = 0;
        while j < extra_terms.len()
            invariant
                j <= extra_terms@.len(),
                terms@ == self.terms@ + extra_terms@.take(j as int),
            decreases extra_terms.len() - j,
        {
            terms.push(extra_terms[j].clone());
            assert(extra_terms@.take(j + 1) =~= extra_terms@.take(j as int).push(extra_terms@[j as int]));
            j = j + 1;
        }
        proof {
            assert(self.terms@.take(self.terms@.len() as int) =~= self.terms@);
            assert(extra_terms@.take(extra_terms@.len() as int) =~= extra_terms@);
            assert(terms@.map_values(|p: String| p@) =~= strs_view(self.terms@) + extra_terms@.map_values(|s: String| s@));
        }
        join_strings(&terms, ", ")
    }

    /// `text` with every correction applied, each replacing all occurrences
    /// of its `from` by its `to`.
    pub fn apply_corrections(&self, text: &str) -> (out: String)
        ensures
            out@ == apply_all(text@, self.correction_list()),
    {
        let mut out = text.to_owned();
        let mut i: usize = 0;
        while i < self.corrections.len()
            invariant
                i <= self.corrections@.len(),
                out@ == apply_all(text@, pairs_view(self.corrections@).take(i as int)),
            decreases self.corrections.len() - i,
        {
            let (from, to) = (&self.corrections[i].0, &self.corrections[i].1);
            proof {
                assert(pairs_view(self.corrections@).take(i + 1).drop_last() =~= pairs_view(self.corrections@).take(i as int));
            }
            out = replace_str(out.as_str(), from.as_str(), to.as_str());
            i = i + 1;
        }
        proof {
            assert(pairs_view(self.corrections@).take(self.corrections@.len() as int) =~= pairs_view(self.corrections@));
        }
        out
    }
}

fn find_pair(list: &Vec<(String, String)>, from: &str) -> (r: Option<usize>)
    ensures
        match r {
            Some(i) => i < list@.len() && list@[i as int].0@ == from@,
            None => !has_key(list@, pair_key(), from@),
        },
{
    let mut i: usize = 0;
    while i < list.len()
        invariant
            i <= list@.len(),
            forall|k: int| 0 <= k < i ==> (#[trigger] list@[k]).0@ != from@,
        decreases list.len() - i,
    {
        if str_eq(list[i].0.as_str(), from) {
            return Some(i);
        }
        i = i + 1;
    }
    None
}

/// A listing with distinct keys reads as the same map as the keyed view.
proof fn lemma_list_map(s: Seq<(String, String)>)
    requires
        unique_keys(s, pair_key()),
    ensures
        pair_map(pairs_view(s)) == keyed_map(s, pair_key(), pair_val()),
    decreases s.len(),
{
    if s.len() == 0 {
        lemma_keyed_empty(s, pair_key(), pair_val());
        assert(pair_map(pairs_view(s)) =~= Map::<Seq<char>, Seq<char>>::empty());
    } else {
        let t = s.drop_last();
        assert(pairs_view(s).drop_last() =~= pairs_view(t));
        assert(unique_keys(t, pair_key())) by {
            assert forall|i: int, j: int| 0 <= i < t.len() && 0 <= j < t.len() && i != j implies pair_key()(#[trigger] t[i]) != pair_key()(#[trigger] t[j]) by {
                assert(t[i] == s[i] && t[j] == s[j]);
            }
        }
        lemma_list_map(t);
        assert(!has_key(t, pair_key(), s.last().0@)) by {
            if has_key(t, pair_key(), s.last().0@) {
                let k = choose|k: int| 0 <= k < t.len() && pair_key()(#[trigger] t[k]) == s.last().0@;
                assert(t[k] == s[k]);
            }
        }
        assert(t.push(s.last()) =~= s);
        lemma_keyed_push(t, pair_key(), pair_val(), s.last());
    }
}

impl Default for Glossary {
    /// No terms and no corrections.
    fn default() -> (g: Self)
        ensures
            g.term_list() == Seq::<Seq<char>>::empty(),
            g.correction_list() == Seq::<(Seq<char>, Seq<char>)>::empty(),
    {
        let g = Glossary { terms: Vec::new(), corrections: Vec::new() };
        proof {
            lemma_keyed_empty(g.corrections@, pair_key(), pair_val());
            assert(strs_view(g.terms@) =~= Seq::<Seq<char>>::empty());
            assert(pairs_view(g.corrections@) =~= Seq::<(Seq<char>, Seq<char>)>::empty());
        }
        g
    }
}

proof fn lemma_pair_map_distinct(l: Seq<(Seq<char>, Seq<char>)>)
    requires
        distinct_froms(l),
    ensures
        forall|i: int|
            0 <= i < l.len() ==> pair_map(l).contains_key(#[trigger] l[i].0) && pair_map(l)[l[i].0]
                == l[i].1,
        forall|k: Seq<char>|
            #[trigger] pair_map(l).contains_key(k) ==> exists|i: int| 0 <= i < l.len() && l[i].0 == k,
    decreases l.len(),
{
    if l.len() > 0 {
        let t = l.drop_last();
        assert forall|i: int, j: int| 0 <= i < t.len() && 0 <= j < t.len() && i != j implies (#[trigger] t[i]).0 != (#[trigger] t[j]).0 by {
            assert(t[i] == l[i] && t[j] == l[j]);
        }
        lemma_pair_map_distinct(t);
        assert forall|i: int| 0 <= i < l.len() implies pair_map(l).contains_key(#[trigger] l[i].0)
            && pair_map(l)[l[i].0] == l[i].1 by {
            if i < l.len() - 1 {
                assert(t[i] == l[i]);
                assert(l[i].0 != l[l.len() - 1].0);
            }
        }
        assert forall|k: Seq<char>| #[trigger] pair_map(l).contains_key(k) implies exists|i: int|
            0 <= i < l.len() && l[i].0 == k by {
            if k != l.last().0 {
                assert(pair_map(t).contains_key(k));
                let i = choose|i: int| 0 <= i < t.len() && t[i].0 == k;
                assert(l[i] == t[i]);
            } else {
                assert(l[l.len() - 1].0 == k);
            }
        }
    }
}

/// A glossary applies each of its corrections once: its list holds exactly
/// the corrections of its map, each once.
pub proof fn law_corrections_listed_once(g: &Glossary)
    requires
        distinct_froms(g.correction_list()),
    ensures
        forall|i: int|
            0 <= i < g.correction_list().len() ==> g.correction_map().contains_key(
                #[trigger] g.correction_list()[i].0,
            ) && g.correction_map()[g.correction_list()[i].0] == g.correction_list()[i].1,
        forall|k: Seq<char>|
            #[trigger] g.correction_map().contains_key(k) ==> exists|i: int|
                0 <= i < g.correction_list().len() && g.correction_list()[i].0 == k,
{
    lemma_pair_map_distinct(g.correction_list());
}

/// A glossary without corrections leaves every transcript as it is.
pub proof fn law_no_corrections_keep_text(g: &Glossary, text: Seq<char>)
    requires
        g.correction_map().dom().is_empty(),
    ensures
        apply_all(text, g.correction_list()) == text,
{
    let l = g.correction_list();
    if l.len() > 0 {
        assert(pair_map(l).contains_key(l.last().0));
    }
}

/// A single correction replaces every occurrence of what is heard.
pub proof fn law_single_correction_replaces(text: Seq<char>, from: Seq<char>, to: Seq<char>)
    ensures
        apply_all(text, seq![(from, to)]) == replace(text, from, to),
{
    let cs = seq![(from, to)];
    assert(cs.drop_last() =~= Seq::<(Seq<char>, Seq<char>)>::empty());
    assert(apply_all(text, cs.drop_last()) == text);
    assert(cs.last() == (from, to));
}

} // verus!
