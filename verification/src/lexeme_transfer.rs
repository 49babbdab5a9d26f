//! The lexemes that the lexer (and the user-activity tracker) hand to the
//! text processor.

use vstd::prelude::*;

verus! {

/// A single semantic element extracted from the incoming text stream.
///
/// Word boundaries are explicit events (`WordStart`, `WordEnd`); word content
/// comes separately as `WordPart`. Service constructs of the protocol (`*`,
/// `[n]`) are lexemes of their own.
#[derive(Debug, PartialEq)]
pub enum LexemeTransfer {
    /// Beginning of a word.
    WordStart,
    /// A fragment of a word (lowercased by the lexer).
    WordPart(String),
    /// End of a word.
    WordEnd,
    /// A single whitespace character.
    Whitespace(char),
    /// A single punctuation character.
    Punctuation(char),
    /// Start of an erase command: `[`.
    EraseStart,
    /// The backspace count of an erase command `[n]`.
    BackspaceCount(u32),
    /// End of an erase command: `]`.
    EraseEnd,
    /// Stabilization marker: `*`.
    Stabilization,
    /// The user has moved the mouse or touched a key.
    UserActivityDetected,
}

/// The mathematical form of a lexeme: word text as a sequence of characters.
pub enum LexemeView {
    WordStart,
    WordPart(Seq<char>),
    WordEnd,
    Whitespace(char),
    Punctuation(char),
    EraseStart,
    BackspaceCount(u32),
    EraseEnd,
    Stabilization,
    UserActivityDetected,
}

impl View for LexemeTransfer {
    type V = LexemeView;

    open spec fn view(&self) -> LexemeView {
        match self {
            LexemeTransfer::WordStart => LexemeView::WordStart,
            LexemeTransfer::WordPart(s) => LexemeView::WordPart(s@),
            LexemeTransfer::WordEnd => LexemeView::WordEnd,
            LexemeTransfer::Whitespace(c) => LexemeView::Whitespace(*c),
            LexemeTransfer::Punctuation(c) => LexemeView::Punctuation(*c),
            LexemeTransfer::EraseStart => LexemeView::EraseStart,
            LexemeTransfer::BackspaceCount(n) => LexemeView::BackspaceCount(*n),
            LexemeTransfer::EraseEnd => LexemeView::EraseEnd,
            LexemeTransfer::Stabilization => LexemeView::Stabilization,
            LexemeTransfer::UserActivityDetected => LexemeView::UserActivityDetected,
        }
    }
}

/// The views of a sequence of lexemes.
pub open spec fn lexeme_views(s: Seq<LexemeTransfer>) -> Seq<LexemeView> {
    s.map_values(|l: LexemeTransfer| l@)
}

} // verus!
