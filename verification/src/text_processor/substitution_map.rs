//! The substitution dictionary of the first text processor: normalized key
//! phrases, each mapped to its replacement text and an action of the first
//! registry. The search model is that of the dictionary with rollbacks: no
//! match, a partial match, an exact match that a longer key still continues,
//! an exact match.

use vstd::prelude::*;
use crate::frankenstein_laboratory::substitution_map::{
    MapErrorView, SubstitutionMapError, add_keys, distinct_keys, has_key, has_longer_key,
    has_prefix_key, lemma_push_distinct, map_error_view, normalize_key_phrase, spec_normalize,
};
use crate::frankenstein_laboratory::supplementary_action_map::chars_equal;
use crate::substitution_toml::{SubstitutionRule, SubstitutionToml, rule_texts, string_views};
use crate::text::string_from_chars;
use crate::text_processor::supplementary_action_map::{
    SupplementaryAction, SupplementaryActionMap, lookup, registry,
};

verus! {

/// A dictionary entry: the replacement text and its action.
#[derive(Debug)]
pub struct SubstitutionElement {
    pub replacement: String,
    pub act: SupplementaryAction,
}

/// What an entry amounts to: replacement text and action.
pub type FirstElementView = (Seq<char>, SupplementaryAction);

/// The entries: normalized key and what it maps to.
pub type FirstEntriesView = Seq<(Seq<char>, FirstElementView)>;

pub open spec fn first_element_view(e: SubstitutionElement) -> FirstElementView {
    (e.replacement@, e.act)
}

impl SubstitutionElement {
    /// The text that replaces the matched key phrase.
    pub fn replacement_text(&self) -> (r: &str)
        ensures
            r@ == self.replacement@,
    {
        self.replacement.as_str()
    }

    /// The action invoked with the substitution.
    pub fn action(&self) -> (a: SupplementaryAction)
        ensures
            a == self.act,
    {
        self.act
    }
}

/// Outcome of a phrase lookup.
pub enum SubstitutionSearchResult<'a> {
    /// No key starts with the query.
    NoMatch,
    /// Some keys start with the query, none equals it.
    PartialMatch,
    /// The query is a key and the match can be applied now.
    ExactMatch(&'a SubstitutionElement),
    /// The query is a key, but a longer key starts with it.
    ExactMatchWithContinuation(&'a SubstitutionElement),
}

/// What a search outcome says about the normalized query `q`; an element
/// handed out is that of the key `q`.
pub open spec fn first_search_ok<'a>(
    es: FirstEntriesView,
    q: Seq<char>,
    is_final: bool,
    r: SubstitutionSearchResult<'a>,
) -> bool {
    match r {
        SubstitutionSearchResult::NoMatch => q.len() == 0 || !has_prefix_key(es, q),
        SubstitutionSearchResult::PartialMatch => q.len() > 0 && !has_key(es, q)
            && has_prefix_key(es, q),
        SubstitutionSearchResult::ExactMatch(e) => q.len() > 0 && (is_final || !has_longer_key(
            es,
            q,
        )) && (exists|i: int|
            0 <= i < es.len() && es[i].0 == q && es[i].1 == first_element_view(*e)),
        SubstitutionSearchResult::ExactMatchWithContinuation(e) => q.len() > 0 && !is_final
            && has_longer_key(es, q) && (exists|i: int|
            0 <= i < es.len() && es[i].0 == q && es[i].1 == first_element_view(*e)),
    }
}

/// Builds the entries from rule texts (key phrases, replacement, modifier),
/// rule by rule, with the first registry; the first error wins.
pub open spec fn first_build_entries(
    acc: FirstEntriesView,
    rules: Seq<(Seq<Seq<char>>, Seq<char>, Seq<char>)>,
) -> Result<FirstEntriesView, MapErrorView>
    decreases rules.len(),
{
    if rules.len() == 0 {
        Ok(acc)
    } else {
        match lookup(registry(), rules[0].2) {
            None => Err(MapErrorView::UnknownModifier(rules[0].2)),
            Some(a) => match add_keys(acc, rules[0].0, (rules[0].1, a), rules[0].1) {
                Ok(x) => first_build_entries(x, rules.drop_first()),
                Err(err) => Err(err),
            },
        }
    }
}

/// The first dictionary.
pub struct SubstitutionMap {
    entries: Vec<(Vec<char>, SubstitutionElement)>,
}

impl View for SubstitutionMap {
    type V = FirstEntriesView;

    closed spec fn view(&self) -> FirstEntriesView {
        self.entries@.map_values(
            |e: (Vec<char>, SubstitutionElement)| (e.0@, first_element_view(e.1)),
        )
    }
}

impl SubstitutionMap {
    /// No key occurs twice.
    pub closed spec fn wf(&self) -> bool {
        distinct_keys(self@)
    }

    /// Whether some key equals `q`.
    fn find_key(&self, q: &Vec<char>) -> (r: Option<usize>)
        ensures
            r matches Some(i) ==> i < self@.len() && self@[i as int].0 == q@,
            r is None ==> !has_key(self@, q@),
    {
        let mut i: usize = 0;
        while i < self.entries.len()
            invariant
                i <= self@.len(),
                self@.len() == self.entries@.len(),
                forall|j: int| 0 <= j < i ==> (#[trigger] self@[j]).0 != q@,
            decreases self@.len() - i,
        {
            assert(self@[i as int].0 == self.entries@[i as int].0@);
            if chars_equal(&self.entries[i].0, q) {
                return Some(i);
            }
            i = i + 1;
        }
        None
    }

    /// Whether some key starts with the query.
    fn has_prefix_candidate(&self, q: &Vec<char>) -> (r: bool)
        ensures
            r == has_prefix_key(self@, q@),
    {
        let mut i: usize = 0;
        while i < self.entries.len()
            invariant
                i <= self@.len(),
                self@.len() == self.entries@.len(),
                forall|j: int| 0 <= j < i ==> !q@.is_prefix_of((#[trigger] self@[j]).0),
            decreases self@.len() - i,
        {
            assert(self@[i as int].0 == self.entries@[i as int].0@);
            if crate::frankenstein_laboratory::substitution_map::SubstitutionMap::starts_with(&self.entries[i].0, q) {
                return true;
            }
            i = i + 1;
        }
        false
    }

    /// Whether some key strictly longer than the query starts with it.
    fn has_continuation(&self, q: &Vec<char>) -> (r: bool)
        ensures
            r == has_longer_key(self@, q@),
    {
        let mut i: usize = 0;
        while i < self.entries.len()
            invariant
                i <= self@.len(),
                self@.len() == self.entries@.len(),
                forall|j: int|
                    0 <= j < i ==> !(q@.is_prefix_of((#[trigger] self@[j]).0) && self@[j].0.len()
                        > q@.len()),
            decreases self@.len() - i,
        {
            assert(self@[i as int].0 == self.entries@[i as int].0@);
            if self.entries[i].0.len() > q.len() && crate::frankenstein_laboratory::substitution_map::SubstitutionMap::starts_with(&self.entries[i].0, q) {
                return true;
            }
            i = i + 1;
        }
        false
    }

    /// Search on an already normalized query.
    fn search_normalized<'a>(&'a self, q: &Vec<char>, is_final: bool) -> (r:
        SubstitutionSearchResult<'a>)
        ensures
            first_search_ok(self@, q@, is_final, r),
    {
        if q.len() == 0 {
            return SubstitutionSearchResult::NoMatch;
        }
        match self.find_key(q) {
            Some(i) => {
                let element = &self.entries[i].1;
                assert(self@[i as int].1 == first_element_view(self.entries@[i as int].1));
                assert(q@.is_prefix_of(self@[i as int].0));
                if !is_final && self.has_continuation(q) {
                    return SubstitutionSearchResult::ExactMatchWithContinuation(element);
                }
                SubstitutionSearchResult::ExactMatch(element)
            },
            None => {
                if self.has_prefix_candidate(q) {
                    SubstitutionSearchResult::PartialMatch
                } else {
                    SubstitutionSearchResult::NoMatch
                }
            },
        }
    }

    /// Regular search, while the text may still grow. The query is normalized
    /// first. An exact match that a longer key continues is reported as
    /// `ExactMatchWithContinuation`.
    pub fn search<'a>(&'a self, query: &str) -> (r: SubstitutionSearchResult<'a>)
        ensures
            first_search_ok(self@, spec_normalize(query@), false, r),
    {
        let q = normalize_key_phrase(query);
        self.search_normalized(&q, false)
    }

    /// Final search, when no more input will extend the query: an exact match
    /// is reported as `ExactMatch` even when a longer key continues it.
    pub fn final_search<'a>(&'a self, query: &str) -> (r: SubstitutionSearchResult<'a>)
        ensures
            first_search_ok(self@, spec_normalize(query@), true, r),
    {
        let q = normalize_key_phrase(query);
        self.search_normalized(&q, true)
    }

    /// Adds the key phrases of `rule`, all mapping to the rule's replacement
    /// with action `a`; stops at the first empty or duplicate key.
    fn add_rule_keys(&mut self, rule: &SubstitutionRule, a: SupplementaryAction) -> (r: Result<
        (),
        SubstitutionMapError,
    >)
        requires
            distinct_keys(old(self)@),
        ensures
            distinct_keys(final(self)@),
            match r {
                Ok(_) => add_keys(
                    old(self)@,
                    string_views(rule.key_phrases@),
                    (rule.replacement@, a),
                    rule.replacement@,
                ) == Ok::<FirstEntriesView, MapErrorView>(final(self)@),
                Err(e) => add_keys(
                    old(self)@,
                    string_views(rule.key_phrases@),
                    (rule.replacement@, a),
                    rule.replacement@,
                ) == Err::<FirstEntriesView, MapErrorView>(
                    map_error_view(e),
                ),
            },
    {
        let ghost e: FirstElementView = (rule.replacement@, a);
        let ghost keys = string_views(rule.key_phrases@);
        let ghost map0 = self@;
        let mut ki: usize = 0;
        assert(keys.skip(0) =~= keys);
        while ki < rule.key_phrases.len()
            invariant
                ki <= rule.key_phrases@.len(),
                keys == string_views(rule.key_phrases@),
                keys.len() == rule.key_phrases@.len(),
                e == (rule.replacement@, a),
                distinct_keys(self@),
                add_keys(map0, keys, e, rule.replacement@) == add_keys(
                    self@,
                    keys.skip(ki as int),
                    e,
                    rule.replacement@,
                ),
                map0 == old(self)@,
            decreases rule.key_phrases@.len() - ki,
        {
            let ghost krest = keys.skip(ki as int);
            assert(krest[0] == rule.key_phrases@[ki as int]@);
            assert(krest.drop_first() =~= keys.skip(ki + 1));
            let key = normalize_key_phrase(rule.key_phrases[ki].as_str());
            if key.len() == 0 {
                return Err(SubstitutionMapError::EmptyKeyPhrase(rule.replacement.clone()));
            }
            if self.find_key(&key).is_some() {
                let k = string_from_chars(key.as_slice());
                return Err(SubstitutionMapError::DuplicateKeyPhrase(k));
            }
            let ghost before = self@;
            let ghost kv = key@;
            self.entries.push((key, SubstitutionElement { replacement: rule.replacement.clone(), act: a }));
            assert(self@ =~= before.push((kv, e)));
            proof {
                lemma_push_distinct(before, kv, e);
            }
            ki = ki + 1;
        }
        assert(keys.skip(ki as int) =~= Seq::<Seq<char>>::empty());
        Ok(())
    }

    /// Builds the dictionary, or says which rule of the configuration is
    /// wrong: the first rule whose modifier is not registered, the first key
    /// phrase that normalizes to nothing, or the first key phrase whose
    /// normalized form is already a key.
    fn build(config: &SubstitutionToml) -> (r: Result<Self, SubstitutionMapError>)
        ensures
            match r {
                Ok(m) => m.wf() && first_build_entries(
                    seq![],
                    config.subs_vec@.map_values(|x: SubstitutionRule| rule_texts(x)),
                ) == Ok::<FirstEntriesView, MapErrorView>(m@),
                Err(e) => first_build_entries(
                    seq![],
                    config.subs_vec@.map_values(|x: SubstitutionRule| rule_texts(x)),
                ) == Err::<FirstEntriesView, MapErrorView>(
                    map_error_view(e),
                ),
            },
    {
        let actions = SupplementaryActionMap::new();
        let ghost rules = config.subs_vec@.map_values(|x: SubstitutionRule| rule_texts(x));
        let mut map = SubstitutionMap { entries: Vec::new() };
        assert(map@ =~= Seq::<(Seq<char>, FirstElementView)>::empty());
        let mut ri: usize = 0;
        assert(rules.skip(0) =~= rules);
        while ri < config.subs_vec.len()
            invariant
                ri <= config.subs_vec@.len(),
                rules == config.subs_vec@.map_values(|x: SubstitutionRule| rule_texts(x)),
                actions@ == registry(),
                distinct_keys(map@),
                first_build_entries(seq![], rules) == first_build_entries(
                    map@,
                    rules.skip(ri as int),
                ),
            decreases config.subs_vec@.len() - ri,
        {
            let rule = &config.subs_vec[ri];
            let ghost rest = rules.skip(ri as int);
            assert(rest[0] == rule_texts(*rule));
            assert(rest.drop_first() =~= rules.skip(ri + 1));
            match actions.get(rule.modifier.as_str()) {
                None => {
                    return Err(SubstitutionMapError::UnknownModifier(rule.modifier.clone()));
                },
                Some(a) => {
                    let added = map.add_rule_keys(rule, a);
                    if let Err(e) = added {
                        return Err(e);
                    }
                },
            }
            ri = ri + 1;
        }
        assert(rules.skip(ri as int) =~= Seq::<(Seq<Seq<char>>, Seq<char>, Seq<char>)>::empty());
        Ok(map)
    }

    /// Builds the dictionary from a substitution configuration with the
    /// first registry. The configuration must be sound: every modifier
    /// registered, no key phrase that normalizes to nothing, no two key
    /// phrases with the same normalized form.
    pub fn new(config: &SubstitutionToml) -> (m: Self)
        requires
            first_build_entries(
                seq![],
                config.subs_vec@.map_values(|x: SubstitutionRule| rule_texts(x)),
            ) is Ok,
        ensures
            m.wf(),
            first_build_entries(
                seq![],
                config.subs_vec@.map_values(|x: SubstitutionRule| rule_texts(x)),
            ) == Ok::<FirstEntriesView, MapErrorView>(m@),
    {
        match Self::build(config) {
            Ok(m) => m,
            Err(_) => {
                proof {
                    assert(false);
                }
                SubstitutionMap { entries: Vec::new() }
            },
        }
    }

    /// Checks a substitution configuration and builds the dictionary from it
    /// when it is sound; otherwise names the first fault, as `build` finds it.
    pub fn try_new(config: &SubstitutionToml) -> (r: Result<Self, SubstitutionMapError>)
        ensures
            match r {
                Ok(m) => m.wf() && first_build_entries(
                    seq![],
                    config.subs_vec@.map_values(|x: SubstitutionRule| rule_texts(x)),
                ) == Ok::<FirstEntriesView, MapErrorView>(m@),
                Err(e) => first_build_entries(
                    seq![],
                    config.subs_vec@.map_values(|x: SubstitutionRule| rule_texts(x)),
                ) == Err::<FirstEntriesView, MapErrorView>(
                    map_error_view(e),
                ),
            },
    {
        match Self::build(config) {
            Ok(_) => Ok(Self::new(config)),
            Err(e) => Err(e),
        }
    }
}

} // verus!
