//! Substitution rules as they are written in the configuration file.

use vstd::prelude::*;

verus! {

/// Name of the substitution configuration file in the working directory.
pub const SUBSTITUTIONS_FILE_NAME: &'static str = "substitutions.toml";

/// A single text substitution rule: trigger phrases, the text that replaces
/// them, and the name of the supplementary action that goes with it.
#[derive(Debug, PartialEq)]
pub struct SubstitutionRule {
    /// Trigger phrases that activate this substitution.
    pub key_phrases: Vec<String>,
    /// The text that replaces the matched trigger phrase.
    pub replacement: String,
    /// Name of the supplementary action; it must be a registered one.
    pub modifier: String,
}

/// The texts of a list of strings.
pub open spec fn string_views(v: Seq<String>) -> Seq<Seq<char>> {
    v.map_values(|s: String| s@)
}

impl SubstitutionRule {
    /// Creates a rule.
    pub fn new(key_phrases: Vec<String>, replacement: &str, modifier: &str) -> (r: Self)
        ensures
            r.key_phrases@ == key_phrases@,
            r.replacement@ == replacement@,
            r.modifier@ == modifier@,
    {
        SubstitutionRule {
            key_phrases,
            replacement: String::from_str(replacement),
            modifier: String::from_str(modifier),
        }
    }
}

/// Root container of the substitution configuration.
#[derive(Debug, PartialEq)]
pub struct SubstitutionToml {
    /// All substitution rules, in file order.
    pub subs_vec: Vec<SubstitutionRule>,
}

/// The texts of the rules of the default configuration: key phrases,
/// replacement and modifier of each.
pub open spec fn default_rule_texts() -> Seq<(Seq<Seq<char>>, Seq<char>, Seq<char>)> {
    seq![
        (
            seq!["левая скобка"@, "скобка открывается"@, "left parenthesis"@, "open parenthesis"@],
            "("@,
            "suppress_space_after"@,
        ),
        (
            seq!["правая скобка"@, "скобка закрывается"@, "right parenthesis"@, "close parenthesis"@],
            ")"@,
            "suppress_space_before"@,
        ),
    ]
}

/// The texts of a rule.
pub open spec fn rule_texts(r: SubstitutionRule) -> (Seq<Seq<char>>, Seq<char>, Seq<char>) {
    (string_views(r.key_phrases@), r.replacement@, r.modifier@)
}

impl Default for SubstitutionToml {
    /// A minimal set of example rules: parentheses.
    fn default() -> (t: Self)
        ensures
            t.subs_vec@.map_values(|r: SubstitutionRule| rule_texts(r)) == default_rule_texts(),
    {
        let mut subs_vec: Vec<SubstitutionRule> = Vec::new();
        let left = vec![
            String::from_str("левая скобка"),
            String::from_str("скобка открывается"),
            String::from_str("left parenthesis"),
            String::from_str("open parenthesis"),
        ];
        let ghost lv = left@;
        subs_vec.push(SubstitutionRule::new(left, "(", "suppress_space_after"));
        let right = vec![
            String::from_str("правая скобка"),
            String::from_str("скобка закрывается"),
            String::from_str("right parenthesis"),
            String::from_str("close parenthesis"),
        ];
        let ghost rv = right@;
        subs_vec.push(SubstitutionRule::new(right, ")", "suppress_space_before"));
        assert(string_views(lv) =~= seq![
            "левая скобка"@,
            "скобка открывается"@,
            "left parenthesis"@,
            "open parenthesis"@,
        ]);
        assert(string_views(rv) =~= seq![
            "правая скобка"@,
            "скобка закрывается"@,
            "right parenthesis"@,
            "close parenthesis"@,
        ]);
        assert(subs_vec@.map_values(|r: SubstitutionRule| rule_texts(r)) =~= default_rule_texts());
        SubstitutionToml { subs_vec }
    }
}

} // verus!
