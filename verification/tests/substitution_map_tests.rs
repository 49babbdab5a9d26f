use wordsling::frankenstein_laboratory::substitution_map::{
    normalize_key_phrase, SubstitutionMap, SubstitutionMapError, SubstitutionSearchResult,
};
use wordsling::frankenstein_laboratory::supplementary_action_map::{
    SupplementaryAction, SupplementaryActionMap, SupplementaryRollback,
};
use wordsling::frankenstein_laboratory::supplementary_action_map::{apply_action, apply_rollback, WhenApplied};
use wordsling::frankenstein_laboratory::surgical_table::{Prong, SurgeTable};
use wordsling::substitution_toml::{SubstitutionRule, SubstitutionToml};
use wordsling::text_processor::substitution_map::{
    SubstitutionMap as FirstMap, SubstitutionSearchResult as FirstResult,
};
use wordsling::text_processor::supplementary_action_map::SupplementaryAction as FirstAction;

fn test_rules() -> SubstitutionToml {
    SubstitutionToml {
        subs_vec: vec![
            SubstitutionRule::new(vec!["точка".to_string()], ".", "do_nothing"),
            SubstitutionRule::new(vec!["точка с запятой".to_string()], ";", "do_nothing"),
        ],
    }
}

/// A dictionary with two entries: "точка" -> "." and "точка с запятой" -> ";".
fn make_test_map() -> FirstMap {
    FirstMap::new(&test_rules())
}

/// The same entries in the dictionary with rollbacks.
fn make_rollback_map() -> SubstitutionMap {
    SubstitutionMap::new(&test_rules()).expect("test dictionary must build")
}

#[test]
fn test_search_no_match() {
    let map = make_test_map();

    match map.search("морковка") {
        FirstResult::NoMatch => {}
        _ => panic!("Expected NoMatch"),
    }
}

#[test]
fn test_search_partial_match() {
    let map = make_test_map();

    match map.search("точ") {
        FirstResult::PartialMatch => {}
        _ => panic!("Expected PartialMatch"),
    }
}

#[test]
fn test_search_exact_match_with_continuation() {
    let map = make_test_map();

    match map.search("точка") {
        FirstResult::ExactMatchWithContinuation(element) => {
            assert_eq!(element.replacement_text(), ".");
        }
        _ => panic!("Expected ExactMatchWithContinuation"),
    }
}

#[test]
fn test_final_search_promotes_exact_match() {
    let map = make_test_map();

    match map.final_search("точка") {
        FirstResult::ExactMatch(element) => {
            assert_eq!(element.replacement_text(), ".");
        }
        _ => panic!("Expected ExactMatch"),
    }
}

#[test]
fn test_search_exact_unambiguous_match() {
    let map = make_test_map();

    match map.search("точка с запятой") {
        FirstResult::ExactMatch(element) => {
            assert_eq!(element.replacement_text(), ";");
        }
        _ => panic!("Expected ExactMatch"),
    }
}

#[test]
fn test_query_normalization_is_applied() {
    let map = make_test_map();

    match map.search("   ТОчка   С   Запятой   ") {
        FirstResult::ExactMatch(element) => {
            assert_eq!(element.replacement_text(), ";");
        }
        _ => panic!("Expected normalized ExactMatch"),
    }
}

#[test]
fn search_of_blank_query_is_no_match() {
    let map = make_rollback_map();
    assert!(matches!(map.search("   "), SubstitutionSearchResult::NoMatch));
    assert!(matches!(map.final_search(""), SubstitutionSearchResult::NoMatch));
}

#[test]
fn final_search_keeps_partial_match() {
    let map = make_rollback_map();
    assert!(matches!(map.final_search("точка с"), SubstitutionSearchResult::PartialMatch));
}

#[test]
fn normalization_collapses_trims_and_lowercases() {
    let n: String = normalize_key_phrase("\t Левая \n  СКОБКА  ").into_iter().collect();
    assert_eq!(n, "левая скобка");
    let empty: Vec<char> = normalize_key_phrase(" \u{2003} ");
    assert!(empty.is_empty());
}

#[test]
fn entries_carry_action_and_rollback() {
    let config = SubstitutionToml {
        subs_vec: vec![SubstitutionRule::new(
            vec!["левая скобка".to_string(), "скобка открывается".to_string()],
            "(",
            "suppress_whitespace_after",
        )],
    };
    let map = SubstitutionMap::new(&config).unwrap();
    match map.search("скобка открывается") {
        SubstitutionSearchResult::ExactMatch(e) => {
            assert_eq!(e.replacement_text(), "(");
            assert_eq!(e.action(), SupplementaryAction::SuppressWhitespaceAfter);
            assert_eq!(
                e.rollback(),
                Some(SupplementaryRollback::RollbackSuppressWhitespaceAfter)
            );
        }
        _ => panic!("Expected ExactMatch"),
    }
}

#[test]
fn default_configuration_names_unregistered_modifiers() {
    let config = SubstitutionToml::default();
    assert_eq!(
        SubstitutionMap::new(&config).err(),
        Some(SubstitutionMapError::UnknownModifier("suppress_space_after".to_string()))
    );
}

#[test]
fn empty_key_phrase_is_refused() {
    let config = SubstitutionToml {
        subs_vec: vec![SubstitutionRule::new(vec!["  ".to_string()], "x", "do_nothing")],
    };
    assert_eq!(
        SubstitutionMap::new(&config).err(),
        Some(SubstitutionMapError::EmptyKeyPhrase("x".to_string()))
    );
}

#[test]
fn duplicate_key_phrase_is_refused() {
    let config = SubstitutionToml {
        subs_vec: vec![
            SubstitutionRule::new(vec!["Точка".to_string()], ".", "do_nothing"),
            SubstitutionRule::new(vec![" точка ".to_string()], "!", "do_nothing"),
        ],
    };
    assert_eq!(
        SubstitutionMap::new(&config).err(),
        Some(SubstitutionMapError::DuplicateKeyPhrase("точка".to_string()))
    );
}

#[test]
fn empty_configuration_builds_empty_dictionary() {
    let map = SubstitutionMap::new(&SubstitutionToml { subs_vec: vec![] }).unwrap();
    assert!(matches!(map.search("что угодно"), SubstitutionSearchResult::NoMatch));
}

#[test]
fn action_registry_lookup() {
    let actions = SupplementaryActionMap::new();
    assert_eq!(actions.get_pair("do_nothing"), Some((SupplementaryAction::DoNothing, None)));
    assert_eq!(
        actions.get_pair("cancel_next_replacement"),
        Some((
            SupplementaryAction::CancelNextReplacement,
            Some(SupplementaryRollback::RollbackCancelNextReplacement)
        ))
    );
    assert_eq!(
        actions.get_pair("suppress_whitespace_before_and_capitalize_next_word"),
        Some((
            SupplementaryAction::SuppressWhitespaceBeforeAndCapitalizeNextWord,
            Some(SupplementaryRollback::RollbackCapitalizeNextWord)
        ))
    );
    assert_eq!(actions.get_pair("suppress_space_after"), None);
}

#[test]
fn rollback_dictionary_search_outcomes() {
    let map = make_rollback_map();
    assert!(matches!(map.search("морковка"), SubstitutionSearchResult::NoMatch));
    assert!(matches!(map.search("точ"), SubstitutionSearchResult::PartialMatch));
    match map.search("точка") {
        SubstitutionSearchResult::ExactMatchWithContinuation(e) => assert_eq!(e.replacement_text(), "."),
        _ => panic!("Expected ExactMatchWithContinuation"),
    }
    match map.final_search("точка") {
        SubstitutionSearchResult::ExactMatch(e) => assert_eq!(e.replacement_text(), "."),
        _ => panic!("Expected ExactMatch"),
    }
}

#[test]
fn first_dictionary_accepts_the_default_configuration() {
    let map = FirstMap::new(&SubstitutionToml::default());
    match map.search("Скобка  Открывается") {
        FirstResult::ExactMatch(e) => {
            assert_eq!(e.replacement_text(), "(");
            assert_eq!(e.action(), FirstAction::SuppressSpaceAfter);
        }
        _ => panic!("Expected ExactMatch"),
    }
    assert!(matches!(map.search("правая"), FirstResult::PartialMatch));
}

#[test]
fn first_dictionary_refuses_rollback_modifiers() {
    let config = SubstitutionToml {
        subs_vec: vec![SubstitutionRule::new(vec!["x".to_string()], "y", "capitalize_next_word")],
    };
    assert_eq!(
        FirstMap::try_new(&config).err(),
        Some(SubstitutionMapError::UnknownModifier("capitalize_next_word".to_string()))
    );
}

#[test]
fn normalization_is_idempotent() {
    let once: String = normalize_key_phrase("  Точка \t С  ЗАПЯТОЙ ").into_iter().collect();
    let twice: String = normalize_key_phrase(&once).into_iter().collect();
    assert_eq!(once, twice);
}

#[test]
fn rollback_undoes_the_flag_its_action_raised() {
    let mut table = SurgeTable::new(make_rollback_map());
    let mut prong = Prong { cb_start: 0, cb_end: 0, fb_start: 0, fb_end: 0, rollback_fn: None };
    let before = (
        table.flags.suppress_next_whitespace,
        table.flags.capitalize_next_word,
        table.flags.cancel_next_replacement,
    );
    apply_action(SupplementaryAction::CancelNextReplacement, &mut table, &mut prong, WhenApplied::Before);
    apply_action(SupplementaryAction::CancelNextReplacement, &mut table, &mut prong, WhenApplied::After);
    assert!(table.flags.cancel_next_replacement);
    apply_rollback(SupplementaryRollback::RollbackCancelNextReplacement, &mut table, &mut prong, WhenApplied::Before);
    apply_rollback(SupplementaryRollback::RollbackCancelNextReplacement, &mut table, &mut prong, WhenApplied::After);
    let after = (
        table.flags.suppress_next_whitespace,
        table.flags.capitalize_next_word,
        table.flags.cancel_next_replacement,
    );
    assert_eq!(before, after);
}

#[test]
fn first_dictionary_try_new_reports_empty_and_duplicate_keys() {
    let empty = SubstitutionToml {
        subs_vec: vec![SubstitutionRule::new(vec!["  ".to_string()], "y", "do_nothing")],
    };
    assert_eq!(
        FirstMap::try_new(&empty).err(),
        Some(SubstitutionMapError::EmptyKeyPhrase("y".to_string()))
    );
    let dup = SubstitutionToml {
        subs_vec: vec![SubstitutionRule::new(
            vec!["Два  Слова".to_string(), "два слова".to_string()],
            "2",
            "do_nothing",
        )],
    };
    assert_eq!(
        FirstMap::try_new(&dup).err(),
        Some(SubstitutionMapError::DuplicateKeyPhrase("два слова".to_string()))
    );
    assert!(FirstMap::try_new(&test_rules()).is_ok());
}

#[test]
fn laboratory_search_takes_the_query_literally() {
    let map = make_rollback_map();
    assert!(matches!(map.search("точка "), SubstitutionSearchResult::PartialMatch));
    assert!(matches!(map.search("Точка"), SubstitutionSearchResult::NoMatch));
    assert!(matches!(map.search("точка  с"), SubstitutionSearchResult::NoMatch));
    match map.final_search("точка") {
        SubstitutionSearchResult::ExactMatch(e) => assert_eq!(e.replacement_text(), "."),
        _ => panic!("Expected ExactMatch"),
    }
}
