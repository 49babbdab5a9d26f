use wordsling::lexeme_transfer::LexemeTransfer;
use wordsling::lexer::{is_punctuation, LexemeParser};
use wordsling::pipeline::lex_all;

fn word(s: &str) -> LexemeTransfer {
    LexemeTransfer::WordPart(s.to_string())
}

#[test]
fn test_spec_example() {
    let chunks = &["Имею ли я [4]", "я зла", "тые горы.*"];

    let lexemes = lex_all(chunks);

    let expected = vec![
        LexemeTransfer::WordStart,
        word("имею"),
        LexemeTransfer::WordEnd,
        LexemeTransfer::Whitespace(' '),
        LexemeTransfer::WordStart,
        word("ли"),
        LexemeTransfer::WordEnd,
        LexemeTransfer::Whitespace(' '),
        LexemeTransfer::WordStart,
        word("я"),
        LexemeTransfer::WordEnd,
        LexemeTransfer::Whitespace(' '),
        LexemeTransfer::EraseStart,
        LexemeTransfer::BackspaceCount(4),
        LexemeTransfer::EraseEnd,
        LexemeTransfer::WordStart,
        word("я"),
        LexemeTransfer::WordEnd,
        LexemeTransfer::Whitespace(' '),
        LexemeTransfer::WordStart,
        word("зла"),
        word("тые"),
        LexemeTransfer::WordEnd,
        LexemeTransfer::Whitespace(' '),
        LexemeTransfer::WordStart,
        word("горы"),
        LexemeTransfer::WordEnd,
        LexemeTransfer::Punctuation('.'),
        LexemeTransfer::Stabilization,
    ];

    assert_eq!(
        lexemes.len(),
        expected.len(),
        "Lexeme count mismatch: got {}, expected {}",
        lexemes.len(),
        expected.len()
    );

    for (i, (got, exp)) in lexemes.iter().zip(expected.iter()).enumerate() {
        assert_eq!(got, exp, "Mismatch at lexeme #{}", i);
    }
}

#[test]
fn lexer_open_word_is_closed_at_end_of_input() {
    let lexemes = lex_all(&["Слово"]);
    assert_eq!(
        lexemes,
        vec![LexemeTransfer::WordStart, word("слово"), LexemeTransfer::WordEnd]
    );
}

#[test]
fn lexer_chunk_end_hands_out_word_text_without_closing() {
    let mut parser = LexemeParser::new();
    let first = parser.push_chunk("ПРИ");
    assert_eq!(first, vec![LexemeTransfer::WordStart, word("при")]);
    let second = parser.push_chunk("вет ");
    assert_eq!(
        second,
        vec![word("вет"), LexemeTransfer::WordEnd, LexemeTransfer::Whitespace(' ')]
    );
    assert_eq!(parser.finish(), vec![]);
}

#[test]
fn lexer_chunk_boundaries_do_not_change_the_text() {
    let whole = lex_all(&["ab cd.*"]);
    let split = lex_all(&["a", "b c", "d", ".*"]);
    let text = |ls: &Vec<LexemeTransfer>| -> String {
        let mut s = String::new();
        for l in ls {
            match l {
                LexemeTransfer::WordPart(t) => s.push_str(t),
                LexemeTransfer::Whitespace(c) | LexemeTransfer::Punctuation(c) => s.push(*c),
                LexemeTransfer::WordStart => s.push('<'),
                LexemeTransfer::WordEnd => s.push('>'),
                LexemeTransfer::Stabilization => s.push('*'),
                _ => s.push('?'),
            }
        }
        s
    };
    assert_eq!(text(&whole), "<ab> <cd>.*");
    assert_eq!(text(&split), text(&whole));
}

#[test]
fn lexer_malformed_erase_command_is_discarded() {
    let lexemes = lex_all(&["[1x]"]);
    // '[' opens the command, 'x' discards it, ']' is then an ordinary word character.
    assert_eq!(
        lexemes,
        vec![
            LexemeTransfer::EraseStart,
            LexemeTransfer::WordStart,
            word("]"),
            LexemeTransfer::WordEnd,
        ]
    );
}

#[test]
fn lexer_erase_count_too_large_or_empty_is_zero() {
    assert_eq!(
        lex_all(&["[]"]),
        vec![LexemeTransfer::EraseStart, LexemeTransfer::BackspaceCount(0), LexemeTransfer::EraseEnd]
    );
    assert_eq!(
        lex_all(&["[99999999999]"]),
        vec![LexemeTransfer::EraseStart, LexemeTransfer::BackspaceCount(0), LexemeTransfer::EraseEnd]
    );
    assert_eq!(
        lex_all(&["[4294967295]"]),
        vec![
            LexemeTransfer::EraseStart,
            LexemeTransfer::BackspaceCount(4294967295),
            LexemeTransfer::EraseEnd
        ]
    );
}

#[test]
fn lexer_erase_command_split_across_chunks() {
    assert_eq!(
        lex_all(&["[1", "2]"]),
        vec![LexemeTransfer::EraseStart, LexemeTransfer::BackspaceCount(12), LexemeTransfer::EraseEnd]
    );
}

#[test]
fn lexer_punctuation_set() {
    for c in ['.', ',', ';', ':', '?', '!', '#', '/', '\'', '@', '-'] {
        assert!(is_punctuation(c));
    }
    for c in ['a', '(', ')', '*', '[', ']', ' ', 'я'] {
        assert!(!is_punctuation(c));
    }
    assert_eq!(
        lex_all(&["a,b"]),
        vec![
            LexemeTransfer::WordStart,
            word("a"),
            LexemeTransfer::WordEnd,
            LexemeTransfer::Punctuation(','),
            LexemeTransfer::WordStart,
            word("b"),
            LexemeTransfer::WordEnd,
        ]
    );
}

#[test]
fn lexer_unicode_whitespace_and_lowercasing() {
    assert_eq!(
        lex_all(&["ÄÖ\u{00A0}Ω"]),
        vec![
            LexemeTransfer::WordStart,
            word("äö"),
            LexemeTransfer::WordEnd,
            LexemeTransfer::Whitespace('\u{00A0}'),
            LexemeTransfer::WordStart,
            word("ω"),
            LexemeTransfer::WordEnd,
        ]
    );
}

#[test]
fn lexer_never_reports_user_activity() {
    let lexemes = lex_all(&["a [3] b.*", "c\t\nd"]);
    assert!(lexemes.iter().all(|l| *l != LexemeTransfer::UserActivityDetected));
}

#[test]
fn lexer_keeps_plain_text_in_order() {
    let mut parser = LexemeParser::new();
    let lexemes = parser.push_chunk("да, нет.\tили\n?");
    let mut text = String::new();
    for l in &lexemes {
        match l {
            LexemeTransfer::WordPart(t) => text.push_str(t),
            LexemeTransfer::Whitespace(c) | LexemeTransfer::Punctuation(c) => text.push(*c),
            _ => {}
        }
    }
    assert_eq!(text, "да, нет.\tили\n?");
}

#[test]
fn lexer_any_chunking_gives_the_same_word_text() {
    let input = "ab cd[1]e.*f";
    let merged = |ls: &Vec<LexemeTransfer>| -> Vec<String> {
        let mut out: Vec<String> = Vec::new();
        let mut word = String::new();
        for l in ls {
            match l {
                LexemeTransfer::WordPart(t) => word.push_str(t),
                other => {
                    if !word.is_empty() {
                        out.push(format!("W({})", word));
                        word.clear();
                    }
                    out.push(format!("{:?}", other));
                }
            }
        }
        if !word.is_empty() {
            out.push(format!("W({})", word));
        }
        out
    };
    let whole = merged(&lex_all(&[input]));
    let chars: Vec<char> = input.chars().collect();
    for cut in 0..=chars.len() {
        let a: String = chars[..cut].iter().collect();
        let b: String = chars[cut..].iter().collect();
        assert_eq!(merged(&lex_all(&[a.as_str(), b.as_str()])), whole, "cut at {}", cut);
    }
    let singles: Vec<String> = chars.iter().map(|c| c.to_string()).collect();
    let refs: Vec<&str> = singles.iter().map(|s| s.as_str()).collect();
    assert_eq!(merged(&lex_all(&refs)), whole);
}

#[test]
fn lexer_lowercases_the_same_whatever_the_chunking() {
    let text = |ls: &Vec<LexemeTransfer>| -> String {
        let mut s = String::new();
        for l in ls {
            if let LexemeTransfer::WordPart(t) = l {
                s.push_str(t);
            }
        }
        s
    };
    let whole = lex_all(&["ΑΣΑ ΟΔΟΣ"]);
    let split = lex_all(&["ΑΣ", "Α ΟΔΟ", "Σ"]);
    assert_eq!(text(&whole), "ασαοδοσ");
    assert_eq!(text(&split), text(&whole));
}
