//! The first text processor: a pass-through from lexemes to screen commands,
//! and the surgical table without substitutions.

pub mod substitution_map;
pub mod supplementary_action_map;
pub mod surgical_table;

use vstd::prelude::*;
use crate::lexeme_transfer::LexemeTransfer;
use crate::screen_transfer::ScreenTransfer;
use crate::text::string_from_chars;

verus! {

/// The screen command a lexeme is forwarded as, unchanged: word text,
/// whitespace and punctuation as text, an erase count as backspaces. The other
/// lexemes are consumed silently.
pub fn processor_step(lexeme: &LexemeTransfer) -> (r: Option<ScreenTransfer>)
    ensures
        match lexeme {
            LexemeTransfer::WordPart(t) => r matches Some(ScreenTransfer::Text(s)) && s@ == t@,
            LexemeTransfer::Whitespace(c) => r matches Some(ScreenTransfer::Text(s)) && s@
                == seq![*c],
            LexemeTransfer::Punctuation(c) => r matches Some(ScreenTransfer::Text(s)) && s@
                == seq![*c],
            LexemeTransfer::BackspaceCount(n) => r == Some(ScreenTransfer::Backspace(*n as usize)),
            _ => r is None,
        },
{
    match lexeme {
        LexemeTransfer::WordPart(text) => Some(ScreenTransfer::Text(text.clone())),
        LexemeTransfer::Whitespace(c) => Some(ScreenTransfer::Text(string_from_chars(&[*c]))),
        LexemeTransfer::Punctuation(c) => Some(ScreenTransfer::Text(string_from_chars(&[*c]))),
        LexemeTransfer::BackspaceCount(n) => Some(ScreenTransfer::Backspace(*n as usize)),
        _ => None,
    }
}

} // verus!
