//! The first surgical table: both boards hold the same text, erase commands
//! respect the stabilization anchor. No substitutions yet.

use vstd::prelude::*;
use crate::lexeme_transfer::{LexemeTransfer, LexemeView};
use crate::screen_transfer::{ScreenTransfer, TransferView, apply_transfers, apply_transfer, lemma_apply_single, transfer_views};
use crate::text::{chars_of, string_from_chars};

verus! {

/// Maximum number of characters meant to be kept on the boards.
pub const MAX_BOARD_CAPACITY: usize = 2000;

/// Service flags.
#[derive(Debug, Default)]
pub struct Flags {
    pub dummy_flag: bool,
}

impl Flags {
    /// Cleared flags.
    pub fn new() -> (f: Self)
        ensures
            !f.dummy_flag,
    {
        Flags { dummy_flag: false }
    }
}

/// Maps a position of the cutting board to one of the franken board.
#[derive(Clone, Copy, Debug, Default, PartialEq, Eq)]
pub struct Prong {
    pub cboard_ind: usize,
    pub fboard_ind: usize,
}

/// The table: the raw text since the last user activity, its mirror on the
/// screen, and the stabilization anchor.
pub struct SurgeTable {
    pub cutting_board: Vec<char>,
    pub franken_board: Vec<char>,
    pub comb: Vec<Prong>,
    pub flags: Flags,
    /// Erase commands cannot delete text before this position.
    pub stabilization_anchor: usize,
    pub pending_transfers: Vec<ScreenTransfer>,
}

impl SurgeTable {
    /// The boards hold the same text and the anchor lies within it.
    pub open spec fn wf(&self) -> bool {
        &&& self.franken_board@ == self.cutting_board@
        &&& self.stabilization_anchor <= self.cutting_board@.len()
    }

    /// The screen commands queued since `old`.
    pub open spec fn added_since(&self, old: SurgeTable) -> Seq<ScreenTransfer> {
        self.pending_transfers@.skip(old.pending_transfers@.len() as int)
    }

    /// Empty boards, anchor at the start.
    pub fn new() -> (t: Self)
        ensures
            t.wf(),
            t.cutting_board@.len() == 0,
            t.stabilization_anchor == 0,
            t.pending_transfers@.len() == 0,
    {
        SurgeTable {
            cutting_board: Vec::new(),
            franken_board: Vec::new(),
            comb: Vec::new(),
            flags: Flags::new(),
            stabilization_anchor: 0,
            pending_transfers: Vec::new(),
        }
    }

    /// Hands out the queued screen commands and empties the queue.
    pub fn pop_screen_transfers(&mut self) -> (r: Vec<ScreenTransfer>)
        ensures
            r@ == old(self).pending_transfers@,
            final(self).pending_transfers@.len() == 0,
            final(self).cutting_board == old(self).cutting_board,
            final(self).franken_board == old(self).franken_board,
            final(self).stabilization_anchor == old(self).stabilization_anchor,
    {
        let mut out: Vec<ScreenTransfer> = Vec::new();
        std::mem::swap(&mut out, &mut self.pending_transfers);
        out
    }

    /// Appends a text fragment to both boards and queues it for the screen.
    fn push_text(&mut self, text: &str)
        requires
            old(self).wf(),
        ensures
            transfer_views(final(self).added_since(*old(self))) == seq![TransferView::Text(text@)],
            final(self).wf(),
            final(self).cutting_board@ == old(self).cutting_board@ + text@,
            final(self).stabilization_anchor == old(self).stabilization_anchor,
            final(self).pending_transfers@.len() == old(self).pending_transfers@.len() + 1,
            final(self).pending_transfers@.take(old(self).pending_transfers@.len() as int)
                == old(self).pending_transfers@,
            apply_transfers(old(self).franken_board@, final(self).added_since(*old(self)))
                == final(self).franken_board@,
    {
        let chars = chars_of(text);
        self.cutting_board.extend_from_slice(chars.as_slice());
        self.franken_board.extend_from_slice(chars.as_slice());
        let ghost q0 = self.pending_transfers@;
        let s = string_from_chars(chars.as_slice());
        self.pending_transfers.push(ScreenTransfer::Text(s));
        self.prune_if_needed();
        proof {
            let added = self.added_since(*old(self));
            assert(added =~= seq![ScreenTransfer::Text(s)]);
            lemma_apply_single(old(self).franken_board@, ScreenTransfer::Text(s));
            assert(self.pending_transfers@.take(q0.len() as int) =~= q0);
            assert(self.franken_board@ =~= self.cutting_board@);
        }
    }

    /// Appends a character to both boards and queues it for the screen.
    fn push_char(&mut self, c: char)
        requires
            old(self).wf(),
        ensures
            transfer_views(final(self).added_since(*old(self))) == seq![TransferView::Text(seq![c])],
            final(self).wf(),
            final(self).cutting_board@ == old(self).cutting_board@.push(c),
            final(self).stabilization_anchor == old(self).stabilization_anchor,
            final(self).pending_transfers@.take(old(self).pending_transfers@.len() as int)
                == old(self).pending_transfers@,
            final(self).pending_transfers@.len() == old(self).pending_transfers@.len() + 1,
            apply_transfers(old(self).franken_board@, final(self).added_since(*old(self)))
                == final(self).franken_board@,
    {
        self.cutting_board.push(c);
        self.franken_board.push(c);
        let ghost q0 = self.pending_transfers@;
        let s = string_from_chars(&[c]);
        self.pending_transfers.push(ScreenTransfer::Text(s));
        self.prune_if_needed();
        proof {
            let added = self.added_since(*old(self));
            assert(added =~= seq![ScreenTransfer::Text(s)]);
            assert(s@ =~= seq![c]);
            lemma_apply_single(old(self).franken_board@, ScreenTransfer::Text(s));
            assert(self.pending_transfers@.take(q0.len() as int) =~= q0);
        }
    }

    /// Applies an erase command: `n` characters from the end, but never
    /// before the stabilization anchor.
    fn apply_gboard_erase(&mut self, n: usize)
        requires
            old(self).wf(),
        ensures
            transfer_views(final(self).added_since(*old(self))) == erase_emits(
                (old(self).cutting_board@, old(self).stabilization_anchor),
                n,
            ),
            final(self).wf(),
            final(self).cutting_board@ == old(self).cutting_board@.take(erase_target(
                old(self).cutting_board@.len(),
                n,
                old(self).stabilization_anchor,
            )),
            final(self).stabilization_anchor == old(self).stabilization_anchor,
            final(self).pending_transfers@.len() >= old(self).pending_transfers@.len(),
            final(self).pending_transfers@.take(old(self).pending_transfers@.len() as int)
                == old(self).pending_transfers@,
            apply_transfers(old(self).franken_board@, final(self).added_since(*old(self)))
                == final(self).franken_board@,
    {
        let ghost q0 = self.pending_transfers@;
        let current_len = self.cutting_board.len();
        let target_len = current_len.saturating_sub(n);
        let target_len = if target_len > self.stabilization_anchor {
            target_len
        } else {
            self.stabilization_anchor
        };
        let actual_erase = current_len - target_len;
        if actual_erase == 0 {
            proof {
                assert(self.cutting_board@ =~= self.cutting_board@.take(target_len as int));
                assert(self.added_since(*old(self)) =~= Seq::<ScreenTransfer>::empty());
                assert(self.pending_transfers@.take(q0.len() as int) =~= q0);
            }
            return;
        }
        self.cutting_board.truncate(target_len);
        self.franken_board.truncate(target_len);
        self.trim_comb(target_len);
        self.pending_transfers.push(ScreenTransfer::Backspace(actual_erase));
        proof {
            let added = self.added_since(*old(self));
            assert(added =~= seq![ScreenTransfer::Backspace(actual_erase)]);
            lemma_apply_single(old(self).franken_board@, ScreenTransfer::Backspace(actual_erase));
            assert(self.franken_board@ =~= old(self).franken_board@.take(target_len as int));
            assert(self.pending_transfers@.take(q0.len() as int) =~= q0);
        }
    }

    /// Moves the anchor to the end of the cutting board and clears the comb.
    fn mark_gboard_stabilization(&mut self)
        requires
            old(self).wf(),
        ensures
            final(self).wf(),
            final(self).cutting_board == old(self).cutting_board,
            final(self).franken_board == old(self).franken_board,
            final(self).stabilization_anchor == old(self).cutting_board@.len(),
            final(self).pending_transfers == old(self).pending_transfers,
    {
        self.stabilization_anchor = self.cutting_board.len();
        self.comb.clear();
    }

    /// Clears everything: user activity moved the cursor.
    fn clear_all(&mut self)
        ensures
            final(self).wf(),
            final(self).cutting_board@.len() == 0,
            final(self).stabilization_anchor == 0,
            final(self).pending_transfers == old(self).pending_transfers,
    {
        self.cutting_board.clear();
        self.franken_board.clear();
        self.comb.clear();
        self.stabilization_anchor = 0;
        assert(self.franken_board@ =~= self.cutting_board@);
    }

    /// Drops the prongs beyond `new_len`; the comb is always empty here.
    fn trim_comb(&mut self, new_len: usize)
        ensures
            final(self).cutting_board == old(self).cutting_board,
            final(self).franken_board == old(self).franken_board,
            final(self).stabilization_anchor == old(self).stabilization_anchor,
            final(self).pending_transfers == old(self).pending_transfers,
    {
    }

    /// Meant to keep the boards bounded; they are left as they are.
    fn prune_if_needed(&mut self)
        ensures
            final(self).cutting_board == old(self).cutting_board,
            final(self).franken_board == old(self).franken_board,
            final(self).stabilization_anchor == old(self).stabilization_anchor,
            final(self).pending_transfers == old(self).pending_transfers,
    {
    }

    /// Processes one lexeme: text goes to both boards and to the screen, an
    /// erase count erases back to at most the anchor, stabilization moves the
    /// anchor, user activity clears everything.
    pub fn process_lexeme(&mut self, lexeme: &LexemeTransfer)
        requires
            old(self).wf(),
        ensures
            transfer_views(final(self).added_since(*old(self))) == board_emits(
                (old(self).cutting_board@, old(self).stabilization_anchor),
                lexeme@,
            ),
            final(self).wf(),
            final(self).pending_transfers@.take(old(self).pending_transfers@.len() as int)
                == old(self).pending_transfers@,
            final(self).pending_transfers@.len() >= old(self).pending_transfers@.len(),
            !(lexeme@ is UserActivityDetected) ==> apply_transfers(
                old(self).franken_board@,
                final(self).added_since(*old(self)),
            ) == final(self).franken_board@,
            (final(self).cutting_board@, final(self).stabilization_anchor) == board_step(
                (old(self).cutting_board@, old(self).stabilization_anchor),
                lexeme@,
            ),
            significant_text(lexeme@) is None && !(lexeme@ is BackspaceCount)
                ==> final(self).pending_transfers == old(self).pending_transfers,
    {
        let ghost q0 = self.pending_transfers@;
        match lexeme {
            LexemeTransfer::WordPart(text) => {
                self.push_text(text.as_str());
            },
            LexemeTransfer::Whitespace(c) => {
                self.push_char(*c);
            },
            LexemeTransfer::Punctuation(c) => {
                self.push_char(*c);
            },
            LexemeTransfer::BackspaceCount(n) => {
                self.apply_gboard_erase(*n as usize);
            },
            LexemeTransfer::Stabilization => {
                self.mark_gboard_stabilization();
                proof {
                    assert(self.added_since(*old(self)) =~= Seq::<ScreenTransfer>::empty());
                    assert(q0.take(q0.len() as int) =~= q0);
                }
            },
            LexemeTransfer::UserActivityDetected => {
                self.clear_all();
                assert(q0.take(q0.len() as int) =~= q0);
            },
            _ => {
                proof {
                    assert(self.added_since(*old(self)) =~= Seq::<ScreenTransfer>::empty());
                    assert(q0.take(q0.len() as int) =~= q0);
                }
            },
        }
    }
}

/// The text a lexeme adds to the board, if any.
pub open spec fn significant_text(l: LexemeView) -> Option<Seq<char>> {
    match l {
        LexemeView::WordPart(t) => Some(t),
        LexemeView::Whitespace(c) => Some(seq![c]),
        LexemeView::Punctuation(c) => Some(seq![c]),
        _ => None,
    }
}

/// What one lexeme does to the board and the anchor: text is appended, an
/// erase count erases back to at most the anchor, stabilization moves the
/// anchor to the end, user activity clears everything.
pub open spec fn board_step(b: (Seq<char>, usize), l: LexemeView) -> (Seq<char>, usize) {
    match l {
        LexemeView::BackspaceCount(n) => (b.0.take(erase_target(b.0.len(), n as usize, b.1)), b.1),
        LexemeView::Stabilization => (b.0, b.0.len() as usize),
        LexemeView::UserActivityDetected => (seq![], 0),
        _ => match significant_text(l) {
            Some(t) => (b.0 + t, b.1),
            None => b,
        },
    }
}

/// The backspaces of an erase of `n` characters, when it removes anything.
pub open spec fn erase_emits(b: (Seq<char>, usize), n: usize) -> Seq<TransferView> {
    let erased = b.0.len() - erase_target(b.0.len(), n, b.1);
    if erased > 0 {
        seq![TransferView::Backspace(erased as usize)]
    } else {
        seq![]
    }
}

/// The screen commands one lexeme yields: its text, or the backspaces of an
/// erase that removes anything.
pub open spec fn board_emits(b: (Seq<char>, usize), l: LexemeView) -> Seq<TransferView> {
    match l {
        LexemeView::BackspaceCount(n) => erase_emits(b, n as usize),
        _ => match significant_text(l) {
            Some(t) => seq![TransferView::Text(t)],
            None => seq![],
        },
    }
}

/// The screen commands a sequence of lexemes yields, first to last.
pub open spec fn board_emitted(b: (Seq<char>, usize), ls: Seq<LexemeView>) -> Seq<TransferView>
    decreases ls.len(),
{
    if ls.len() == 0 {
        seq![]
    } else {
        board_emitted(b, ls.drop_last()) + board_emits(board_after(b, ls.drop_last()), ls.last())
    }
}

/// The board and the anchor after a sequence of lexemes, first to last.
pub open spec fn board_after(b: (Seq<char>, usize), ls: Seq<LexemeView>) -> (Seq<char>, usize)
    decreases ls.len(),
{
    if ls.len() == 0 {
        b
    } else {
        board_step(board_after(b, ls.drop_last()), ls.last())
    }
}

/// Where an erase of `n` characters ends on a board of length `len` with the
/// anchor at `anchor`: `n` characters back, but not before the anchor.
pub open spec fn erase_target(len: nat, n: usize, anchor: usize) -> int {
    let t = if n <= len {
        len - n
    } else {
        0
    };
    if t > anchor {
        t
    } else {
        anchor as int
    }
}

/// An erase command never touches the text before the stabilization anchor.
pub proof fn law_erase_respects_anchor(len: nat, n: usize, anchor: usize)
    requires
        anchor <= len,
    ensures
        anchor <= erase_target(len, n, anchor) <= len,
{
}

/// An erase command of `n` on a board of length `len` whose anchor `a` lies
/// within it takes exactly `min(n, len - a)` characters off the end: the
/// board keeps its first `max(len - n, a)` characters, the anchor stays, and
/// one backspace command of that count goes to the screen when it is not 0.
pub proof fn law_erase_clamped_to_anchor(b: (Seq<char>, usize), n: u32)
    requires
        b.1 <= b.0.len(),
    ensures
        ({
            let m: int = if (n as int) <= b.0.len() - b.1 {
                n as int
            } else {
                b.0.len() - b.1
            };
            let after = board_step(b, LexemeView::BackspaceCount(n));
            &&& after.0 == b.0.take(b.0.len() - m)
            &&& after.1 == b.1
            &&& erase_emits(b, n as usize) == if m > 0 {
                seq![TransferView::Backspace(m as usize)]
            } else {
                Seq::<TransferView>::empty()
            }
        }),
{
}

/// Text on the screen at a stabilization is stable in the first processor
/// too: an erase command right after a stabilization leaves the board and the
/// anchor as they were and sends nothing to the screen.
pub proof fn law_erase_after_stabilization_erases_nothing(b: (Seq<char>, usize), n: u32)
    requires
        b.0.len() <= usize::MAX,
    ensures
        board_step(board_step(b, LexemeView::Stabilization), LexemeView::BackspaceCount(n))
            == board_step(b, LexemeView::Stabilization),
        erase_emits(board_step(b, LexemeView::Stabilization), n as usize) == Seq::<TransferView>::empty(),
{
    let s = board_step(b, LexemeView::Stabilization);
    assert(s.0.take(s.0.len() as int) =~= s.0);
}

} // verus!
