//! Output operations for the screen writer, and what they do to a text.

use vstd::prelude::*;
use crate::text::{chars_of, string_from_chars};

verus! {

/// A single output operation for the screen writer.
#[derive(Debug, PartialEq)]
pub enum ScreenTransfer {
    /// Text to paste into the focused window.
    Text(String),
    /// Number of backspaces to send.
    Backspace(usize),
}

/// The mathematical form of a screen operation.
pub enum TransferView {
    Text(Seq<char>),
    Backspace(usize),
}

impl View for ScreenTransfer {
    type V = TransferView;

    open spec fn view(&self) -> TransferView {
        match self {
            ScreenTransfer::Text(s) => TransferView::Text(s@),
            ScreenTransfer::Backspace(n) => TransferView::Backspace(*n),
        }
    }
}

/// The views of a sequence of screen operations.
pub open spec fn transfer_views(ts: Seq<ScreenTransfer>) -> Seq<TransferView> {
    ts.map_values(|t: ScreenTransfer| t@)
}

/// What one operation does to the visible text. A backspace on an empty text
/// does nothing, so more backspaces than characters leave the text empty.
pub open spec fn apply_transfer(screen: Seq<char>, t: ScreenTransfer) -> Seq<char> {
    match t {
        ScreenTransfer::Text(s) => screen + s@,
        ScreenTransfer::Backspace(n) => if n <= screen.len() {
            screen.take(screen.len() - n)
        } else {
            Seq::empty()
        },
    }
}

/// What a sequence of operations does to the visible text, first to last.
pub open spec fn apply_transfers(screen: Seq<char>, ts: Seq<ScreenTransfer>) -> Seq<char>
    decreases ts.len(),
{
    if ts.len() == 0 {
        screen
    } else {
        apply_transfer(apply_transfers(screen, ts.drop_last()), ts.last())
    }
}

/// Applying `a` then `b` is applying `a + b`.
pub proof fn lemma_apply_transfers_append(screen: Seq<char>, a: Seq<ScreenTransfer>, b: Seq<ScreenTransfer>)
    ensures
        apply_transfers(screen, a + b) == apply_transfers(apply_transfers(screen, a), b),
    decreases b.len(),
{
    if b.len() == 0 {
        assert(a + b =~= a);
    } else {
        lemma_apply_transfers_append(screen, a, b.drop_last());
        assert((a + b).drop_last() =~= a + b.drop_last());
        assert((a + b).last() == b.last());
    }
}

/// Applying a single operation.
pub proof fn lemma_apply_single(screen: Seq<char>, t: ScreenTransfer)
    ensures
        apply_transfers(screen, seq![t]) == apply_transfer(screen, t),
{
    assert(seq![t].drop_last() =~= Seq::<ScreenTransfer>::empty());
    assert(apply_transfers(screen, Seq::<ScreenTransfer>::empty()) == screen);
}

/// Applies a stream of screen transfers to an empty text buffer, as a virtual
/// screen: `Text` appends, `Backspace(n)` deletes up to `n` last characters.
pub fn process_screen_transfers(transfers: &[ScreenTransfer]) -> (r: String)
    ensures
        r@ == apply_transfers(Seq::empty(), transfers@),
{
    let mut buffer: Vec<char> = Vec::new();
    let mut i: usize = 0;
    while i < transfers.len()
        invariant
            i <= transfers@.len(),
            buffer@ == apply_transfers(Seq::empty(), transfers@.take(i as int)),
        decreases transfers@.len() - i,
    {
        assert(transfers@.take(i + 1).drop_last() =~= transfers@.take(i as int));
        match &transfers[i] {
            ScreenTransfer::Text(text) => {
                let chars = chars_of(text.as_str());
                buffer.extend_from_slice(chars.as_slice());
            },
            ScreenTransfer::Backspace(count) => {
                let count = *count;
                let ghost before = buffer@;
                let mut k: usize = 0;
                while k < count && buffer.len() > 0
                    invariant
                        k <= count,
                        k <= before.len(),
                        buffer@ == before.take(before.len() - k),
                    decreases count - k,
                {
                    buffer.pop();
                    k = k + 1;
                    assert(buffer@ =~= before.take(before.len() - k));
                }
                assert(count <= before.len() ==> buffer@ =~= before.take(before.len() - count));
                assert(count > before.len() ==> buffer@ =~= Seq::<char>::empty());
            },
        }
        i = i + 1;
    }
    assert(transfers@.take(transfers@.len() as int) =~= transfers@);
    string_from_chars(buffer.as_slice())
}

} // verus!
