use wordsling::frankenstein_laboratory::substitution_map::SubstitutionMap;
use wordsling::frankenstein_laboratory::surgical_table::SurgeTable;
use wordsling::pipeline::{lexer_frlab_pipeline, run_pipeline};
use wordsling::screen_transfer::{process_screen_transfers, ScreenTransfer};
use wordsling::substitution_toml::{SubstitutionRule, SubstitutionToml};

/// A readable dump of a stream of screen commands, for failure messages.
fn dump_transfers(transfers: &[ScreenTransfer]) -> String {
    let mut out = String::new();
    for (index, transfer) in transfers.iter().enumerate() {
        match transfer {
            ScreenTransfer::Text(text) => out.push_str(&format!("{:>2}: Text({:?})\n", index, text)),
            ScreenTransfer::Backspace(count) => {
                out.push_str(&format!("{:>2}: Backspace({})\n", index, count))
            }
        }
    }
    out
}

fn rule(keys: &[&str], replacement: &str, modifier: &str) -> SubstitutionRule {
    SubstitutionRule::new(keys.iter().map(|k| k.to_string()).collect(), replacement, modifier)
}

fn table_with(rules: Vec<SubstitutionRule>) -> SurgeTable {
    let map = SubstitutionMap::new(&SubstitutionToml { subs_vec: rules }).unwrap();
    SurgeTable::new(map)
}

fn punctuation_rules() -> Vec<SubstitutionRule> {
    vec![
        rule(&["точка"], ".", "suppress_whitespace_before_and_capitalize_next_word"),
        rule(&["точка с запятой"], ";", "suppress_whitespace_before"),
    ]
}

/// "точка" is applied as it stands, so its candidate keeps its own start and
/// can still grow into "точка с запятой".
fn vacha_rules() -> Vec<SubstitutionRule> {
    vec![
        rule(&["точка"], ".", "do_nothing"),
        rule(&["точка с запятой"], ";", "suppress_whitespace_before"),
    ]
}

fn parentheses_rules() -> Vec<SubstitutionRule> {
    vec![
        rule(&["левая скобка", "скобка открывается"], "(", "suppress_whitespace_after"),
        rule(&["правая скобка", "скобка закрывается"], ")", "suppress_whitespace_before"),
    ]
}

fn frlab_text(chunks: &[&str], rules: Vec<SubstitutionRule>) -> (String, Vec<ScreenTransfer>) {
    let mut table = table_with(rules);
    let transfers = lexer_frlab_pipeline(chunks, &mut table);
    (process_screen_transfers(&transfers), transfers)
}

#[test]
fn lexer_plus_text_processor_debug_spec_phrase_through_lexer_and_frankenlab() {
    let chunks = &["Имею ли я [5]", "я\nзла", "тые горы.*"];

    let transfers = run_pipeline(chunks);
    let final_text = process_screen_transfers(&transfers);

    println!("{}", final_text);

    assert_eq!(
        final_text,
        "имею я\nзлатые горы.",
        "Неожиданный поток ScreenTransfer:\n{}",
        dump_transfers(&transfers)
    );
}

#[test]
fn test_lexer_frlab_test_debug_spec_phrase_through_lexer_and_frankenlab() {
    // "точка" is replaced eagerly, then rolled back when the longer key
    // "точка с запятой" grows out of it, across an erase of "за".
    let (final_text, transfers) =
        frlab_text(&["река вача точка с за", "[2]запятой течёт*"], vacha_rules());

    println!("{}", final_text);

    assert_eq!(
        final_text,
        "Река вача; течёт",
        "Неожиданный поток ScreenTransfer:\n{}",
        dump_transfers(&transfers)
    );
}

#[test]
fn parentheses_and_capitalization() {
    let (final_text, transfers) =
        frlab_text(&["он левая скобка тихо правая скобка ушёл*"], parentheses_rules());

    println!("{}", final_text);

    assert_eq!(
        final_text,
        "Он (тихо) ушёл",
        "Неожиданный поток ScreenTransfer:\n{}",
        dump_transfers(&transfers)
    );
}

#[test]
fn dot_capitalization() {
    let rules = vec![rule(&["точка"], ".", "suppress_whitespace_before_and_capitalize_next_word")];
    let (final_text, transfers) = frlab_text(&["привет точка как дела*"], rules);

    println!("{}", final_text);

    assert_eq!(
        final_text,
        "Привет. Как дела",
        "Неожиданный поток ScreenTransfer:\n{}",
        dump_transfers(&transfers)
    );
}

#[test]
fn eager_replacement_shows_before_stabilization() {
    // The short key is applied at once; text that follows is written after it.
    let (final_text, _) = frlab_text(&["река вача точка с за"], punctuation_rules());
    assert_eq!(final_text, "Река вача. С за");
}

#[test]
fn eager_replacement_is_kept_when_the_longer_key_fails() {
    let (final_text, _) = frlab_text(&["вода точка с моста*"], punctuation_rules());
    assert_eq!(final_text, "Вода. С моста");
}

#[test]
fn erase_into_a_substitution_rolls_it_back() {
    let rules = vec![rule(&["точка"], ".", "do_nothing")];
    // "точка" (5 raw characters) became "."; erasing 2 raw characters
    // restores the surviving raw text "точ".
    let (final_text, transfers) = frlab_text(&["да точка", "[2]"], rules);
    assert_eq!(final_text, "Да точ", "{}", dump_transfers(&transfers));
}

#[test]
fn leading_whitespace_is_suppressed_and_first_word_capitalized() {
    let (final_text, _) = frlab_text(&[" привет*"], vec![]);
    assert_eq!(final_text, "Привет");
}

#[test]
fn frlab_without_rules_copies_text() {
    let (final_text, _) = frlab_text(&["один два [4]три.*"], vec![]);
    assert_eq!(final_text, "Один три.");
}

#[test]
fn first_processor_erase_stops_at_stabilization() {
    let transfers = run_pipeline(&["раз два*", "[20]три"]);
    assert_eq!(process_screen_transfers(&transfers), "раз дватри");
}

#[test]
fn virtual_screen_applies_text_and_backspaces() {
    let transfers = vec![
        ScreenTransfer::Text("абв".to_string()),
        ScreenTransfer::Backspace(1),
        ScreenTransfer::Text("г".to_string()),
        ScreenTransfer::Backspace(10),
        ScreenTransfer::Text("д".to_string()),
    ];
    assert_eq!(process_screen_transfers(&transfers), "д");
}

#[test]
fn erase_after_stabilization_changes_nothing() {
    let (final_text, transfers) = frlab_text(&["да*", "[2]"], vec![]);
    assert_eq!(final_text, "Да");
    assert_eq!(transfers, vec![ScreenTransfer::Text("Да".to_string())]);
}
