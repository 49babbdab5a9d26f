//! Substitution dictionary with prefix-aware phrase search.
//!
//! The text processor works on a growing tail of text, so a plain exact
//! lookup is not enough. A search distinguishes four outcomes:
//! - no key starts with the query (`NoMatch`);
//! - some key starts with it, none equals it (`PartialMatch`);
//! - a key equals it and a longer key starts with it, so a streaming caller
//!   must wait (`ExactMatchWithContinuation`);
//! - a key equals it and nothing longer competes (`ExactMatch`).
//!
//! Keys are kept in normalized form: whitespace runs collapsed to single
//! spaces, no leading or trailing whitespace, lowercased. Queries are not
//! normalized: a search goes by the literal text it is given.

use vstd::prelude::*;
use crate::substitution_toml::{SubstitutionToml, SubstitutionRule, rule_texts, string_views};
use crate::frankenstein_laboratory::supplementary_action_map::{
    ActionPair, SupplementaryAction, SupplementaryActionMap, SupplementaryRollback, chars_equal,
    lookup_pair, registry,
};
use crate::text::{chars_of, is_whitespace_char, is_ws, spec_to_lowercase, string_from_chars,
    to_lowercase};

verus! {

// -----------------------------------------------------------------------------
// Normalization
// -----------------------------------------------------------------------------

/// Collapsing whitespace, character by character: the text so far, and whether
/// a whitespace run is waiting to be written as one space before the next word.
pub open spec fn collapse_state(s: Seq<char>) -> (Seq<char>, bool)
    decreases s.len(),
{
    if s.len() == 0 {
        (seq![], false)
    } else {
        let (o, pending) = collapse_state(s.drop_last());
        let c = s.last();
        if is_ws(c) {
            (o, o.len() > 0)
        } else if pending {
            (o.push(' ').push(c), false)
        } else {
            (o.push(c), false)
        }
    }
}

/// The words of `s` joined by single spaces (`split_whitespace` then `join(" ")`).
pub open spec fn collapse_ws(s: Seq<char>) -> Seq<char> {
    collapse_state(s).0
}

/// The canonical lookup form of a phrase.
pub open spec fn spec_normalize(s: Seq<char>) -> Seq<char> {
    spec_to_lowercase(collapse_ws(s))
}

/// Text in collapsed shape, allowing one trailing space: every whitespace
/// character is a space that follows a non-whitespace character.
pub open spec fn collapsed_shape(s: Seq<char>) -> bool {
    forall|i: int|
        0 <= i < s.len() && is_ws(#[trigger] s[i]) ==> s[i] == ' ' && i > 0 && !is_ws(s[i - 1])
}

proof fn lemma_collapse_output(s: Seq<char>)
    ensures
        collapsed_shape(collapse_state(s).0),
        collapse_state(s).0.len() > 0 ==> !is_ws(collapse_state(s).0.last()),
        collapse_state(s).1 ==> collapse_state(s).0.len() > 0,
    decreases s.len(),
{
    if s.len() > 0 {
        lemma_collapse_output(s.drop_last());
        let (o, p) = collapse_state(s.drop_last());
        let c = s.last();
        if !is_ws(c) && p {
            let o2 = o.push(' ').push(c);
            assert forall|i: int| 0 <= i < o2.len() && is_ws(#[trigger] o2[i]) implies o2[i]
                == ' ' && i > 0 && !is_ws(o2[i - 1]) by {
                if i < o.len() {
                    assert(o2[i] == o[i]);
                    assert(o2[i - 1] == o[i - 1]);
                }
            }
        } else if !is_ws(c) {
            let o2 = o.push(c);
            assert forall|i: int| 0 <= i < o2.len() && is_ws(#[trigger] o2[i]) implies o2[i]
                == ' ' && i > 0 && !is_ws(o2[i - 1]) by {
                if i < o.len() {
                    assert(o2[i] == o[i]);
                    assert(o2[i - 1] == o[i - 1]);
                }
            }
        }
    }
}

proof fn lemma_collapse_of_shaped(s: Seq<char>)
    requires
        collapsed_shape(s),
    ensures
        collapse_state(s) == (if s.len() > 0 && is_ws(s.last()) {
            (s.drop_last(), true)
        } else {
            (s, false)
        }),
    decreases s.len(),
{
    if s.len() > 0 {
        let t = s.drop_last();
        assert(collapsed_shape(t)) by {
            assert forall|i: int| 0 <= i < t.len() && is_ws(#[trigger] t[i]) implies t[i] == ' '
                && i > 0 && !is_ws(t[i - 1]) by {
                assert(t[i] == s[i]);
                assert(s[i] == ' ' && i > 0 && !is_ws(s[i - 1]));
            }
        }
        lemma_collapse_of_shaped(t);
        let c = s.last();
        if is_ws(c) {
            assert(s[s.len() - 1] == c);
            assert(s.len() - 1 > 0 && !is_ws(s[s.len() - 2]));
            assert(t.last() == s[s.len() - 2]);
        } else if t.len() > 0 && is_ws(t.last()) {
            assert(t.last() == s[s.len() - 2]);
            assert(s[s.len() - 2] == ' ');
            assert(t.drop_last().push(' ').push(c) =~= s);
        } else {
            assert(t.push(c) =~= s);
        }
    }
}

/// Collapsing whitespace twice is collapsing it once.
pub proof fn law_collapse_idempotent(s: Seq<char>)
    ensures
        collapse_ws(collapse_ws(s)) == collapse_ws(s),
{
    lemma_collapse_output(s);
    lemma_collapse_of_shaped(collapse_ws(s));
}

/// Collapses whitespace: the words of `src`, joined by single spaces.
pub fn collapse_whitespace(src: &Vec<char>) -> (r: Vec<char>)
    ensures
        r@ == collapse_ws(src@),
{
    let mut out: Vec<char> = Vec::new();
    let mut pending = false;
    let mut i: usize = 0;
    while i < src.len()
        invariant
            i <= src@.len(),
            (out@, pending) == collapse_state(src@.take(i as int)),
        decreases src@.len() - i,
    {
        assert(src@.take(i + 1).drop_last() =~= src@.take(i as int));
        assert(src@.take(i + 1).last() == src@[i as int]);
        let c = src[i];
        if is_whitespace_char(c) {
            pending = out.len() > 0;
        } else {
            if pending {
                out.push(' ');
            }
            out.push(c);
            pending = false;
        }
        i = i + 1;
    }
    assert(src@.take(src@.len() as int) =~= src@);
    out
}

/// Converts a phrase to its canonical lookup form: words joined by single
/// spaces, then lowercased.
pub fn normalize_key_phrase(src: &str) -> (r: Vec<char>)
    ensures
        r@ == spec_normalize(src@),
{
    let chars = chars_of(src);
    let collapsed = collapse_whitespace(&chars);
    let joined = string_from_chars(collapsed.as_slice());
    let lowered = to_lowercase(joined.as_str());
    chars_of(lowered.as_str())
}

// -----------------------------------------------------------------------------
// Dictionary
// -----------------------------------------------------------------------------

/// A dictionary entry: the replacement text and the action (with its rollback).
#[derive(Debug)]
pub struct SubstitutionElement {
    pub replacement: String,
    pub act: SupplementaryAction,
    pub rb: Option<SupplementaryRollback>,
}

/// What an entry amounts to: replacement text, action, rollback.
pub type ElementView = (Seq<char>, SupplementaryAction, Option<SupplementaryRollback>);

pub open spec fn element_view(e: SubstitutionElement) -> ElementView {
    (e.replacement@, e.act, e.rb)
}

impl SubstitutionElement {
    /// The text that replaces the matched key phrase.
    pub fn replacement_text(&self) -> (r: &str)
        ensures
            r@ == self.replacement@,
    {
        self.replacement.as_str()
    }

    /// The action invoked with the substitution.
    pub fn action(&self) -> (a: SupplementaryAction)
        ensures
            a == self.act,
    {
        self.act
    }

    /// The rollback that undoes the action, if any.
    pub fn rollback(&self) -> (r: Option<SupplementaryRollback>)
        ensures
            r == self.rb,
    {
        self.rb
    }
}

/// Outcome of a phrase lookup.
pub enum SubstitutionSearchResult<'a> {
    /// No key starts with the query.
    NoMatch,
    /// Some keys start with the query, none equals it.
    PartialMatch,
    /// The query is a key and the match can be applied now.
    ExactMatch(&'a SubstitutionElement),
    /// The query is a key, but a longer key starts with it.
    ExactMatchWithContinuation(&'a SubstitutionElement),
}

/// Why a substitution configuration cannot be turned into a dictionary.
#[derive(Debug, PartialEq)]
pub enum SubstitutionMapError {
    /// A rule names a modifier that is not registered (the modifier).
    UnknownModifier(String),
    /// A key phrase is empty once normalized (the rule's replacement).
    EmptyKeyPhrase(String),
    /// Two key phrases normalize to the same key (that key).
    DuplicateKeyPhrase(String),
}

/// The mathematical form of a configuration error.
pub enum MapErrorView {
    UnknownModifier(Seq<char>),
    EmptyKeyPhrase(Seq<char>),
    DuplicateKeyPhrase(Seq<char>),
}

pub open spec fn map_error_view(e: SubstitutionMapError) -> MapErrorView {
    match e {
        SubstitutionMapError::UnknownModifier(s) => MapErrorView::UnknownModifier(s@),
        SubstitutionMapError::EmptyKeyPhrase(s) => MapErrorView::EmptyKeyPhrase(s@),
        SubstitutionMapError::DuplicateKeyPhrase(s) => MapErrorView::DuplicateKeyPhrase(s@),
    }
}

/// The dictionary's entries: normalized key and what it maps to.
pub type EntriesView = Seq<(Seq<char>, ElementView)>;

pub open spec fn has_key<E>(es: Seq<(Seq<char>, E)>, q: Seq<char>) -> bool {
    exists|i: int| 0 <= i < es.len() && (#[trigger] es[i]).0 == q
}

pub open spec fn has_prefix_key<E>(es: Seq<(Seq<char>, E)>, q: Seq<char>) -> bool {
    exists|i: int| 0 <= i < es.len() && q.is_prefix_of((#[trigger] es[i]).0)
}

pub open spec fn has_longer_key<E>(es: Seq<(Seq<char>, E)>, q: Seq<char>) -> bool {
    exists|i: int| 0 <= i < es.len() && q.is_prefix_of((#[trigger] es[i]).0) && es[i].0.len() > q.len()
}

/// No key occurs twice.
pub open spec fn distinct_keys<E>(es: Seq<(Seq<char>, E)>) -> bool {
    forall|i: int, j: int| 0 <= i < j < es.len() ==> (#[trigger] es[i]).0 != (#[trigger] es[j]).0
}

/// Adds the key phrases of one rule, all sharing element `e`, first error wins.
pub open spec fn add_keys<E>(acc: Seq<(Seq<char>, E)>, keys: Seq<Seq<char>>, e: E, replacement: Seq<char>) -> Result<
    Seq<(Seq<char>, E)>,
    MapErrorView,
>
    decreases keys.len(),
{
    if keys.len() == 0 {
        Ok(acc)
    } else {
        let k = spec_normalize(keys[0]);
        if k.len() == 0 {
            Err(MapErrorView::EmptyKeyPhrase(replacement))
        } else if has_key(acc, k) {
            Err(MapErrorView::DuplicateKeyPhrase(k))
        } else {
            add_keys(acc.push((k, e)), keys.drop_first(), e, replacement)
        }
    }
}

/// Builds the entries from rule texts (key phrases, replacement, modifier),
/// rule by rule; the first error wins.
pub open spec fn build_entries(
    acc: EntriesView,
    rules: Seq<(Seq<Seq<char>>, Seq<char>, Seq<char>)>,
) -> Result<EntriesView, MapErrorView>
    decreases rules.len(),
{
    if rules.len() == 0 {
        Ok(acc)
    } else {
        match lookup_pair(registry(), rules[0].2) {
            None => Err(MapErrorView::UnknownModifier(rules[0].2)),
            Some(p) => match add_keys(acc, rules[0].0, (rules[0].1, p.0, p.1), rules[0].1) {
                Ok(a) => build_entries(a, rules.drop_first()),
                Err(err) => Err(err),
            },
        }
    }
}

/// What a search outcome says about the query `q` against the entries.
pub open spec fn search_ok<'a>(
    es: EntriesView,
    q: Seq<char>,
    is_final: bool,
    r: SubstitutionSearchResult<'a>,
) -> bool {
    match r {
        SubstitutionSearchResult::NoMatch => q.len() == 0 || !has_prefix_key(es, q),
        SubstitutionSearchResult::PartialMatch => q.len() > 0 && !has_key(es, q)
            && has_prefix_key(es, q),
        SubstitutionSearchResult::ExactMatch(_) => q.len() > 0 && has_key(es, q) && (is_final
            || !has_longer_key(es, q)),
        SubstitutionSearchResult::ExactMatchWithContinuation(_) => q.len() > 0 && !is_final
            && has_key(es, q) && has_longer_key(es, q),
    }
}

/// A final search differs from a regular one on the same query only in that
/// it settles an exact match that a longer key continues: what the regular
/// search reports as `ExactMatchWithContinuation` the final one reports as
/// `ExactMatch`, and every other outcome is the same.
pub proof fn law_final_search_settles<'a>(
    es: EntriesView,
    q: Seq<char>,
    regular: SubstitutionSearchResult<'a>,
    fin: SubstitutionSearchResult<'a>,
)
    requires
        search_ok(es, q, false, regular),
        search_ok(es, q, true, fin),
    ensures
        !(fin is ExactMatchWithContinuation),
        regular is ExactMatchWithContinuation ==> fin is ExactMatch,
        regular is ExactMatch ==> fin is ExactMatch,
        regular is PartialMatch ==> fin is PartialMatch,
        regular is NoMatch ==> fin is NoMatch,
{
    if q.len() > 0 && has_key(es, q) {
        let i = choose|i: int| 0 <= i < es.len() && (#[trigger] es[i]).0 == q;
        assert(q.is_prefix_of(es[i].0));
    }
}

/// The in-memory substitution dictionary.
pub struct SubstitutionMap {
    entries: Vec<(Vec<char>, SubstitutionElement)>,
}

impl View for SubstitutionMap {
    type V = EntriesView;

    closed spec fn view(&self) -> EntriesView {
        self.entries@.map_values(
            |e: (Vec<char>, SubstitutionElement)| (e.0@, element_view(e.1)),
        )
    }
}

impl SubstitutionMap {
    /// The dictionary's entries are well formed: no key occurs twice.
    pub closed spec fn wf(&self) -> bool {
        distinct_keys(self@)
    }

    /// A well-formed dictionary has no key twice.
    pub proof fn lemma_wf_distinct(&self)
        requires
            self.wf(),
        ensures
            distinct_keys(self@),
    {
    }

    /// Whether some key equals `q`.
    fn find_key(&self, q: &Vec<char>) -> (r: Option<usize>)
        ensures
            r matches Some(i) ==> i < self@.len() && self@[i as int].0 == q@,
            r is None ==> !has_key(self@, q@),
    {
        let mut i: usize = 0;
        while i < self.entries.len()
            invariant
                i <= self@.len(),
                self@.len() == self.entries@.len(),
                forall|j: int| 0 <= j < i ==> (#[trigger] self@[j]).0 != q@,
            decreases self@.len() - i,
        {
            assert(self@[i as int].0 == self.entries@[i as int].0@);
            if chars_equal(&self.entries[i].0, q) {
                return Some(i);
            }
            i = i + 1;
        }
        None
    }

    /// Whether `a` starts with `p`.
    pub(crate) fn starts_with(a: &Vec<char>, p: &Vec<char>) -> (r: bool)
        ensures
            r == p@.is_prefix_of(a@),
    {
        if p.len() > a.len() {
            return false;
        }
        let mut i: usize = 0;
        while i < p.len()
            invariant
                p@.len() <= a@.len(),
                i <= p@.len(),
                forall|j: int| 0 <= j < i ==> a@[j] == p@[j],
            decreases p@.len() - i,
        {
            if a[i] != p[i] {
                assert(a@.subrange(0, p@.len() as int)[i as int] != p@[i as int]);
                return false;
            }
            i = i + 1;
        }
        assert(p@ =~= a@.subrange(0, p@.len() as int));
        true
    }

    /// Whether some key starts with the query.
    fn has_prefix_candidate(&self, q: &Vec<char>) -> (r: bool)
        ensures
            r == has_prefix_key(self@, q@),
    {
        let mut i: usize = 0;
        while i < self.entries.len()
            invariant
                i <= self@.len(),
                self@.len() == self.entries@.len(),
                forall|j: int| 0 <= j < i ==> !q@.is_prefix_of((#[trigger] self@[j]).0),
            decreases self@.len() - i,
        {
            assert(self@[i as int].0 == self.entries@[i as int].0@);
            if Self::starts_with(&self.entries[i].0, q) {
                return true;
            }
            i = i + 1;
        }
        false
    }

    /// Whether some key strictly longer than the query starts with it.
    fn has_continuation(&self, q: &Vec<char>) -> (r: bool)
        ensures
            r == has_longer_key(self@, q@),
    {
        let mut i: usize = 0;
        while i < self.entries.len()
            invariant
                i <= self@.len(),
                self@.len() == self.entries@.len(),
                forall|j: int|
                    0 <= j < i ==> !(q@.is_prefix_of((#[trigger] self@[j]).0) && self@[j].0.len()
                        > q@.len()),
            decreases self@.len() - i,
        {
            assert(self@[i as int].0 == self.entries@[i as int].0@);
            if self.entries[i].0.len() > q.len() && Self::starts_with(&self.entries[i].0, q) {
                return true;
            }
            i = i + 1;
        }
        false
    }

    /// Search on a query given as characters.
    fn search_chars<'a>(&'a self, q: &Vec<char>, is_final: bool) -> (r:
        SubstitutionSearchResult<'a>)
        ensures
            search_ok(self@, q@, is_final, r),
            match r {
                SubstitutionSearchResult::ExactMatch(e) => exists|i: int|
                    0 <= i < self@.len() && self@[i].0 == q@ && element_view(*e) == self@[i].1,
                SubstitutionSearchResult::ExactMatchWithContinuation(e) => exists|i: int|
                    0 <= i < self@.len() && self@[i].0 == q@ && element_view(*e) == self@[i].1,
                _ => true,
            },
    {
        if q.len() == 0 {
            return SubstitutionSearchResult::NoMatch;
        }
        match self.find_key(q) {
            Some(i) => {
                let element = &self.entries[i].1;
                assert(self@[i as int].1 == element_view(self.entries@[i as int].1));
                assert(q@.is_prefix_of(self@[i as int].0));
                if !is_final && self.has_continuation(q) {
                    return SubstitutionSearchResult::ExactMatchWithContinuation(element);
                }
                SubstitutionSearchResult::ExactMatch(element)
            },
            None => {
                if self.has_prefix_candidate(q) {
                    SubstitutionSearchResult::PartialMatch
                } else {
                    SubstitutionSearchResult::NoMatch
                }
            },
        }
    }

    /// Regular search, while the text may still grow. The query is taken
    /// literally. An exact match that a longer key continues is reported as
    /// `ExactMatchWithContinuation`.
    pub fn search<'a>(&'a self, query: &str) -> (r: SubstitutionSearchResult<'a>)
        ensures
            search_ok(self@, query@, false, r),
            match r {
                SubstitutionSearchResult::ExactMatch(e) => exists|i: int|
                    0 <= i < self@.len() && self@[i].0 == query@ && element_view(
                        *e,
                    ) == self@[i].1,
                SubstitutionSearchResult::ExactMatchWithContinuation(e) => exists|i: int|
                    0 <= i < self@.len() && self@[i].0 == query@ && element_view(
                        *e,
                    ) == self@[i].1,
                _ => true,
            },
    {
        let q = chars_of(query);
        self.search_chars(&q, false)
    }

    /// Final search, when no more input will extend the query: an exact match
    /// is reported as `ExactMatch` even when a longer key continues it.
    pub fn final_search<'a>(&'a self, query: &str) -> (r: SubstitutionSearchResult<'a>)
        ensures
            search_ok(self@, query@, true, r),
            match r {
                SubstitutionSearchResult::ExactMatch(e) => exists|i: int|
                    0 <= i < self@.len() && self@[i].0 == query@ && element_view(
                        *e,
                    ) == self@[i].1,
                _ => true,
            },
    {
        let q = chars_of(query);
        self.search_chars(&q, true)
    }

    /// Adds the key phrases of `rule`, all mapping to the rule's replacement
    /// with action pair `p`; stops at the first empty or duplicate key.
    fn add_rule_keys(&mut self, rule: &SubstitutionRule, p: ActionPair) -> (r: Result<
        (),
        SubstitutionMapError,
    >)
        requires
            distinct_keys(old(self)@),
        ensures
            distinct_keys(final(self)@),
            match r {
                Ok(_) => add_keys(
                    old(self)@,
                    string_views(rule.key_phrases@),
                    (rule.replacement@, p.0, p.1),
                    rule.replacement@,
                ) == Ok::<EntriesView, MapErrorView>(final(self)@),
                Err(e) => add_keys(
                    old(self)@,
                    string_views(rule.key_phrases@),
                    (rule.replacement@, p.0, p.1),
                    rule.replacement@,
                ) == Err::<EntriesView, MapErrorView>(map_error_view(e)),
            },
    {
        let ghost e: ElementView = (rule.replacement@, p.0, p.1);
        let ghost keys = string_views(rule.key_phrases@);
        let ghost map0 = self@;
        let mut ki: usize = 0;
        assert(keys.skip(0) =~= keys);
        while ki < rule.key_phrases.len()
            invariant
                ki <= rule.key_phrases@.len(),
                keys == string_views(rule.key_phrases@),
                keys.len() == rule.key_phrases@.len(),
                e == (rule.replacement@, p.0, p.1),
                distinct_keys(self@),
                add_keys(map0, keys, e, rule.replacement@) == add_keys(
                    self@,
                    keys.skip(ki as int),
                    e,
                    rule.replacement@,
                ),
                map0 == old(self)@,
            decreases rule.key_phrases@.len() - ki,
        {
            let ghost krest = keys.skip(ki as int);
            assert(krest[0] == rule.key_phrases@[ki as int]@);
            assert(krest.drop_first() =~= keys.skip(ki + 1));
            let key = normalize_key_phrase(rule.key_phrases[ki].as_str());
            if key.len() == 0 {
                return Err(SubstitutionMapError::EmptyKeyPhrase(rule.replacement.clone()));
            }
            if self.find_key(&key).is_some() {
                let k = string_from_chars(key.as_slice());
                return Err(SubstitutionMapError::DuplicateKeyPhrase(k));
            }
            let ghost before = self@;
            let ghost kv = key@;
            self.entries.push(
                (key, SubstitutionElement { replacement: rule.replacement.clone(), act: p.0, rb: p.1 }),
            );
            assert(self@ =~= before.push((kv, e)));
            proof {
                lemma_push_distinct(before, kv, e);
            }
            ki = ki + 1;
        }
        assert(keys.skip(ki as int) =~= Seq::<Seq<char>>::empty());
        Ok(())
    }

    /// Builds the dictionary from a substitution configuration. Fails on the
    /// first rule whose modifier is not registered, the first key phrase that
    /// normalizes to nothing, or the first key phrase whose normalized form is
    /// already a key.
    pub fn new(config: &SubstitutionToml) -> (r: Result<Self, SubstitutionMapError>)
        ensures
            match r {
                Ok(m) => m.wf() && build_entries(
                    seq![],
                    config.subs_vec@.map_values(|x: SubstitutionRule| rule_texts(x)),
                ) == Ok::<EntriesView, MapErrorView>(m@),
                Err(e) => build_entries(
                    seq![],
                    config.subs_vec@.map_values(|x: SubstitutionRule| rule_texts(x)),
                ) == Err::<EntriesView, MapErrorView>(map_error_view(e)),
            },
    {
        let actions = SupplementaryActionMap::new();
        let ghost rules = config.subs_vec@.map_values(|x: SubstitutionRule| rule_texts(x));
        let mut map = SubstitutionMap { entries: Vec::new() };
        assert(map@ =~= Seq::<(Seq<char>, ElementView)>::empty());
        let mut ri: usize = 0;
        assert(rules.skip(0) =~= rules);
        while ri < config.subs_vec.len()
            invariant
                ri <= config.subs_vec@.len(),
                rules == config.subs_vec@.map_values(|x: SubstitutionRule| rule_texts(x)),
                actions@ == registry(),
                distinct_keys(map@),
                build_entries(seq![], rules) == build_entries(map@, rules.skip(ri as int)),
            decreases config.subs_vec@.len() - ri,
        {
            let rule = &config.subs_vec[ri];
            let ghost rest = rules.skip(ri as int);
            assert(rest[0] == rule_texts(*rule));
            assert(rest.drop_first() =~= rules.skip(ri + 1));
            let pair = actions.get_pair(rule.modifier.as_str());
            match pair {
                None => {
                    return Err(SubstitutionMapError::UnknownModifier(rule.modifier.clone()));
                },
                Some(p) => {
                    let added = map.add_rule_keys(rule, p);
                    if let Err(e) = added {
                        return Err(e);
                    }
                },
            }
            ri = ri + 1;
        }
        assert(rules.skip(ri as int) =~= Seq::<(Seq<Seq<char>>, Seq<char>, Seq<char>)>::empty());
        Ok(map)
    }
}

pub(crate) proof fn lemma_push_distinct<E>(before: Seq<(Seq<char>, E)>, k: Seq<char>, e: E)
    requires
        distinct_keys(before),
        !has_key(before, k),
    ensures
        distinct_keys(before.push((k, e))),
{
    let after = before.push((k, e));
    assert forall|i: int, j: int| 0 <= i < j < after.len() implies (#[trigger] after[i]).0
        != (#[trigger] after[j]).0 by {
        if j == before.len() {
            assert(after[i] == before[i]);
            if before[i].0 == k {
                assert(has_key(before, k));
            }
        } else {
            assert(after[i] == before[i] && after[j] == before[j]);
        }
    }
}

} // verus!
