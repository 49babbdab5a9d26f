use wordsling::conf_file::{appconf_port, Config, CONFIG_FILE_NAME};
use wordsling::substitution_toml::{SubstitutionRule, SubstitutionToml, SUBSTITUTIONS_FILE_NAME};
use wordsling::text::is_whitespace_char;
use wordsling::frankenstein_laboratory::substitution_map::{normalize_key_phrase, SubstitutionMap};
use wordsling::frankenstein_laboratory::surgical_table::SurgeTable;
use wordsling::pipeline::lexer_frlab_pipeline;
use wordsling::screen_transfer::process_screen_transfers;
use wordsling::text_processor::processor_step;
use wordsling::lexeme_transfer::LexemeTransfer;
use wordsling::screen_transfer::ScreenTransfer;

#[test]
fn default_config_values() {
    let c = Config::default();
    assert_eq!(c.port, "51234");
    assert_eq!(c.microphone_hotkey, "<left_alt>");
    assert_eq!(c.language_hotkey, "<left_alt>+<left_win>");
    assert_eq!(CONFIG_FILE_NAME, "conf.toml");
}

#[test]
fn config_from_file_wins_over_defaults() {
    let from_file = Config {
        port: "4000".to_string(),
        microphone_hotkey: "a".to_string(),
        language_hotkey: "b".to_string(),
    };
    let c = Config::new(Some(from_file));
    assert_eq!(appconf_port(&c), "4000");
    assert_eq!(Config::new(None), Config::default());
}

#[test]
fn default_substitutions_are_parentheses() {
    let t = SubstitutionToml::default();
    assert_eq!(SUBSTITUTIONS_FILE_NAME, "substitutions.toml");
    assert_eq!(t.subs_vec.len(), 2);
    assert_eq!(t.subs_vec[0].replacement, "(");
    assert_eq!(t.subs_vec[0].modifier, "suppress_space_after");
    assert_eq!(t.subs_vec[0].key_phrases[1], "скобка открывается");
    assert_eq!(t.subs_vec[1].replacement, ")");
    assert_eq!(t.subs_vec[1].modifier, "suppress_space_before");
    assert_eq!(t.subs_vec[1].key_phrases[3], "close parenthesis");
}

#[test]
fn rule_constructor_keeps_its_parts() {
    let r = SubstitutionRule::new(vec!["k".to_string()], "r", "m");
    assert_eq!(r.key_phrases, vec!["k".to_string()]);
    assert_eq!(r.replacement, "r");
    assert_eq!(r.modifier, "m");
}

#[test]
fn whitespace_agrees_with_std_on_every_char() {
    for u in 0u32..=0x10FFFF {
        if let Some(c) = char::from_u32(u) {
            assert_eq!(is_whitespace_char(c), c.is_whitespace(), "at U+{:04X}", u);
        }
    }
}

fn frlab_plain(chunks: &[&str]) -> String {
    let map = SubstitutionMap::new(&SubstitutionToml { subs_vec: vec![] }).unwrap();
    let mut table = SurgeTable::new(map);
    process_screen_transfers(&lexer_frlab_pipeline(chunks, &mut table))
}

#[test]
fn lowercasing_goes_through_std() {
    let n: String = normalize_key_phrase("ПрИвЕт ÄB").into_iter().collect();
    assert_eq!(n, "привет äb");
}

#[test]
fn capitalization_uppercases_the_first_letter_only() {
    // 'ß' upper-cases to two letters; digits are not letters.
    assert_eq!(frlab_plain(&["ßa b*"]), "SSa b");
    assert_eq!(frlab_plain(&["7x y*"]), "7X y");
    // Punctuation carries no letter: the flag waits for the next word.
    assert_eq!(frlab_plain(&["-да*"]), "-Да");
}

#[test]
fn pass_through_processor() {
    assert_eq!(
        processor_step(&LexemeTransfer::WordPart("сло".to_string())),
        Some(ScreenTransfer::Text("сло".to_string()))
    );
    assert_eq!(
        processor_step(&LexemeTransfer::Whitespace('\n')),
        Some(ScreenTransfer::Text("\n".to_string()))
    );
    assert_eq!(
        processor_step(&LexemeTransfer::BackspaceCount(7)),
        Some(ScreenTransfer::Backspace(7))
    );
    assert_eq!(processor_step(&LexemeTransfer::Stabilization), None);
}
