//! The surgical table: turns lexemes into screen edits, with text
//! substitutions applied eagerly and undone honestly.
//!
//! Two boards are kept. The cutting board holds the raw text from the
//! keyboard since the last stabilization; the franken board mirrors what the
//! focused input field shows. A prong maps a substituted segment of the
//! cutting board to its replacement on the franken board; the comb holds the
//! prongs of the unstable region.
//!
//! A lexeme goes through three phases: the search automaton decides whether
//! it may open a candidate key phrase; the hypothetical candidate (its text so
//! far plus the new lexeme) is looked up in the dictionary; and the outcome
//! decides what is written where: raw text to both boards, or raw text to the
//! cutting board and a replacement to the franken board.

use vstd::prelude::*;
use crate::lexeme_transfer::{LexemeTransfer, LexemeView};
use crate::screen_transfer::{ScreenTransfer, apply_transfer, apply_transfers, lemma_apply_transfers_append, transfer_views};
use crate::frankenstein_laboratory::substitution_map::{
    EntriesView, SubstitutionMap, SubstitutionSearchResult, element_view, has_key,
    has_longer_key, has_prefix_key,
};
use crate::frankenstein_laboratory::supplementary_action_map::{
    SupplementaryAction, SupplementaryRollback, WhenApplied, action_flags, action_prong,
    apply_action, apply_rollback, rollback_flags,
};
use crate::frankenstein_laboratory::table_model::{
    TableView, unqueued, cap_text, decision_view, m_service, m_step, m_destiny, m_destroy_last, m_erase, m_erase_free, m_erase_loop,
    m_erase_step, lemma_decision_is_answer, m_apply_decision, m_apply_subst,
    m_clear_all, m_commit, m_cut, m_finalize, m_mark_stab, m_process_text, m_prune, m_undo, m_push, m_replace_tail, m_write_both, m_write_cb, m_write_fb, tview,
    live_prongs, mirror_inv,
    with_flags,
};
use crate::text::{chars_of, is_ws, is_whitespace_char, is_alphabetic, is_nonempty_whitespace, spec_is_alphabetic,
    spec_to_uppercase, string_from_chars, to_uppercase, all_ws};

verus! {

/// Maximum number of characters kept on the franken board.
pub const MAX_BOARD_CAPACITY: usize = 2000;

/// Maps a segment of the cutting board to the segment of the franken board
/// that stands for it.
#[derive(Clone, Copy, Debug, PartialEq, Eq)]
pub struct Prong {
    pub cb_start: usize,
    pub cb_end: usize,
    pub fb_start: usize,
    pub fb_end: usize,
    pub rollback_fn: Option<SupplementaryRollback>,
}

/// Service flags of the table.
#[derive(Debug)]
pub struct Flag {
    pub suppress_next_whitespace: bool,
    pub capitalize_next_word: bool,
    pub cancel_next_replacement: bool,
    pub is_output_enabled: bool,
    pub pending_clear: bool,
}

impl Default for Flag {
    /// No space before the first word, which starts with a capital letter.
    fn default() -> (f: Self)
        ensures
            f.suppress_next_whitespace,
            f.capitalize_next_word,
            !f.cancel_next_replacement,
            f.is_output_enabled,
            !f.pending_clear,
    {
        Flag {
            suppress_next_whitespace: true,
            capitalize_next_word: true,
            cancel_next_replacement: false,
            is_output_enabled: true,
            pending_clear: false,
        }
    }
}

impl Flag {
    /// The default flags.
    pub fn new() -> (f: Self)
        ensures
            f.suppress_next_whitespace,
            f.capitalize_next_word,
            !f.cancel_next_replacement,
            f.is_output_enabled,
            !f.pending_clear,
    {
        Self::default()
    }

    /// The flags after the history has been cleared: no space is needed before
    /// the next text, nothing is capitalized or cancelled.
    pub fn clear(&mut self)
        ensures
            final(self).suppress_next_whitespace,
            !final(self).capitalize_next_word,
            !final(self).cancel_next_replacement,
            final(self).is_output_enabled == old(self).is_output_enabled,
            final(self).pending_clear == old(self).pending_clear,
    {
        self.suppress_next_whitespace = true;
        self.capitalize_next_word = false;
        self.cancel_next_replacement = false;
    }
}

/// Status of a growing candidate.
#[derive(Clone, Copy, Debug, PartialEq, Eq)]
pub enum CandidateStatus {
    /// Growing, with no exact match yet.
    Partial,
    /// An exact match was found and applied (`action(Before) -> replacement ->
    /// action(After)`), but a longer key may still take over.
    ExactReady,
}

/// The candidate key phrase that is growing now.
#[derive(Clone, Copy, Debug, PartialEq, Eq)]
pub struct Candidate {
    /// `cb_start`/`fb_start`: start of the candidate; `cb_end`/`fb_end`: end of
    /// the last exact match applied within it.
    pub prong: Prong,
    pub status: CandidateStatus,
}

/// State of the key phrase search automaton.
#[derive(Clone, Copy, Debug, PartialEq, Eq)]
pub enum CandidatePosition {
    /// No key phrase is tracked.
    Idle,
    /// A `WordStart` came: the next `WordPart` may start a candidate.
    VacancyOpen,
    /// A candidate grows; each significant lexeme checks it again.
    CandidateGrowing(Candidate),
}

/// What the dictionary says of a hypothetical candidate, with the entry copied out.
pub enum SearchDecision {
    NoMatch,
    Partial,
    ExactReady {
        replacement_text: Vec<char>,
        action: SupplementaryAction,
        rollback_fn: Option<SupplementaryRollback>,
    },
    ApplyNow {
        replacement_text: Vec<char>,
        action: SupplementaryAction,
        rollback_fn: Option<SupplementaryRollback>,
    },
}

/// What a decision says about the query `q`.
pub open spec fn decision_ok(es: EntriesView, q: Seq<char>, is_final: bool, d: SearchDecision) -> bool {
    match d {
        SearchDecision::NoMatch => q.len() == 0 || !has_prefix_key(es, q),
        SearchDecision::Partial => q.len() > 0 && !has_key(es, q) && has_prefix_key(es, q),
        SearchDecision::ApplyNow { replacement_text, action, rollback_fn } => q.len() > 0
            && (exists|i: int|
            0 <= i < es.len() && es[i].0 == q && es[i].1 == (replacement_text@, action, rollback_fn))
            && (is_final || !has_longer_key(es, q)),
        SearchDecision::ExactReady { replacement_text, action, rollback_fn } => q.len() > 0
            && !is_final && (exists|i: int|
            0 <= i < es.len() && es[i].0 == q && es[i].1 == (replacement_text@, action, rollback_fn))
            && has_longer_key(es, q),
    }
}

/// The surgical table.
pub struct SurgeTable {
    /// Raw text received from the keyboard since the last stabilization.
    pub cutting_board: Vec<char>,
    /// Processed text mirroring the screen.
    pub franken_board: Vec<char>,
    /// Where the history ends on the franken board and its unstable part begins.
    pub fb_rubicon: usize,
    /// Prongs of the substitutions made in the unstable region.
    pub comb: Vec<Prong>,
    /// State of the key phrase search automaton.
    pub candidate_position: CandidatePosition,
    pub flags: Flag,
    /// The substitution dictionary.
    pub subst_map: SubstitutionMap,
    /// Screen commands awaiting dispatch.
    pub screen_transfer_vec: Vec<ScreenTransfer>,
    /// Text pruned off the front of the franken board, still on the screen.
    pub pruned: Ghost<Seq<char>>,
    /// No screen command so far went past the franken board. It stays set
    /// while the boards agree (`mirror_inv`): see `law_table_mirrors_screen`.
    pub synced: Ghost<bool>,
}

/// The first alphabetic position of `s`, or its length when there is none.
pub open spec fn first_alpha(s: Seq<char>) -> int
    decreases s.len(),
{
    if s.len() == 0 {
        0
    } else {
        let f = first_alpha(s.drop_last());
        if f < s.len() - 1 {
            f
        } else if spec_is_alphabetic(s.last()) {
            s.len() - 1
        } else {
            s.len() as int
        }
    }
}

/// `s` with its first alphabetic character in upper case.
pub open spec fn capitalized(s: Seq<char>) -> Seq<char> {
    let i = first_alpha(s);
    if i < s.len() {
        s.take(i) + spec_to_uppercase(s[i]) + s.skip(i + 1)
    } else {
        s
    }
}

proof fn lemma_first_alpha(s: Seq<char>)
    ensures
        0 <= first_alpha(s) <= s.len(),
        forall|j: int| 0 <= j < first_alpha(s) ==> !spec_is_alphabetic(#[trigger] s[j]),
        first_alpha(s) < s.len() ==> spec_is_alphabetic(s[first_alpha(s)]),
    decreases s.len(),
{
    if s.len() > 0 {
        lemma_first_alpha(s.drop_last());
        assert forall|j: int| 0 <= j < first_alpha(s) implies !spec_is_alphabetic(#[trigger] s[j]) by {
            assert(s[j] == s.drop_last()[j] || j == s.len() - 1);
        }
    }
}

/// Screen commands appended from `a` to `b` take the screen from `a`'s
/// mirror to `b`'s, unless one of them went past the franken board.
pub open spec fn tracks(a: SurgeTable, b: SurgeTable) -> bool {
    &&& a.screen_transfer_vec@.is_prefix_of(b.screen_transfer_vec@)
    &&& b.synced@ ==> a.synced@ && apply_transfers(
        a.screen(),
        b.screen_transfer_vec@.skip(a.screen_transfer_vec@.len() as int),
    ) == b.screen()
}

proof fn lemma_tracks_trans(a: SurgeTable, b: SurgeTable, c: SurgeTable)
    requires
        tracks(a, b),
        tracks(b, c),
    ensures
        tracks(a, c),
{
    let qa = a.screen_transfer_vec@;
    let qb = b.screen_transfer_vec@;
    let qc = c.screen_transfer_vec@;
    assert(qa =~= qc.subrange(0, qa.len() as int)) by {
        assert(qa =~= qb.subrange(0, qa.len() as int));
        assert(qb =~= qc.subrange(0, qb.len() as int));
    }
    if c.synced@ {
        assert(qc.skip(qa.len() as int) =~= qb.skip(qa.len() as int) + qc.skip(qb.len() as int));
        lemma_apply_transfers_append(a.screen(), qb.skip(qa.len() as int), qc.skip(qb.len() as int));
    }
}

proof fn lemma_tracks_refl(a: SurgeTable)
    ensures
        tracks(a, a),
{
    assert(a.screen_transfer_vec@.skip(a.screen_transfer_vec@.len() as int) =~= Seq::<
        ScreenTransfer,
    >::empty());
}

/// The state every method keeps: a growing candidate lies within the cutting
/// board, and the dictionary is well formed.
pub open spec fn candidate_ok(pos: CandidatePosition, cb_len: nat) -> bool {
    match pos {
        CandidatePosition::CandidateGrowing(c) => c.prong.cb_start <= cb_len && (c.status
            is ExactReady ==> c.prong.cb_start <= c.prong.cb_end <= cb_len),
        _ => true,
    }
}

impl SurgeTable {
    /// What the screen shows: the pruned history, then the franken board.
    pub open spec fn screen(self) -> Seq<char> {
        self.pruned@ + self.franken_board@
    }

    pub open spec fn wf(&self) -> bool {
        &&& candidate_ok(self.candidate_position, self.cutting_board@.len())
        &&& self.subst_map.wf()
    }

    /// A table with empty boards, no history and the default flags, using
    /// `subst_map` as its dictionary.
    pub fn new(subst_map: SubstitutionMap) -> (t: Self)
        requires
            subst_map.wf(),
        ensures
            t.wf(),
            t.cutting_board@.len() == 0,
            t.franken_board@.len() == 0,
            t.fb_rubicon == 0,
            t.comb@.len() == 0,
            t.candidate_position == CandidatePosition::Idle,
            t.flags.suppress_next_whitespace,
            t.flags.capitalize_next_word,
            !t.flags.cancel_next_replacement,
            t.subst_map@ == subst_map@,
            t.screen_transfer_vec@.len() == 0,
            t.screen().len() == 0,
            t.synced@,
            mirror_inv(tview(t)),
    {
        let t = SurgeTable {
            cutting_board: Vec::new(),
            franken_board: Vec::new(),
            fb_rubicon: 0,
            comb: Vec::new(),
            candidate_position: CandidatePosition::Idle,
            flags: Flag::new(),
            subst_map,
            screen_transfer_vec: Vec::new(),
            pruned: Ghost(Seq::empty()),
            synced: Ghost(true),
        };
        assert(t.screen() =~= Seq::<char>::empty());
        assert(live_prongs(tview(t)) =~= Seq::<Prong>::empty());
        t
    }

    /// Hands out the screen commands accumulated so far and empties the queue.
    pub fn pop_screen_transfers(&mut self) -> (r: Vec<ScreenTransfer>)
        ensures
            tview(*final(self)) == unqueued(tview(*old(self))),
            transfer_views(r@) == tview(*old(self)).queue,
            r@ == old(self).screen_transfer_vec@,
            final(self).screen_transfer_vec@.len() == 0,
            final(self).cutting_board == old(self).cutting_board,
            final(self).franken_board == old(self).franken_board,
            final(self).fb_rubicon == old(self).fb_rubicon,
            final(self).comb == old(self).comb,
            final(self).candidate_position == old(self).candidate_position,
            final(self).subst_map == old(self).subst_map,
            final(self).pruned == old(self).pruned,
            final(self).synced == old(self).synced,
            final(self).flags == old(self).flags,
    {
        let mut out: Vec<ScreenTransfer> = Vec::new();
        std::mem::swap(&mut out, &mut self.screen_transfer_vec);
        out
    }

    /// The text a significant lexeme adds to the stream: word text, a
    /// whitespace or a punctuation character; nothing for the others.
    pub fn extract_significant_text(lexeme: &LexemeTransfer) -> (r: Option<Vec<char>>)
        ensures
            r is Some <==> significant_text(lexeme@) is Some,
            r matches Some(v) ==> significant_text(lexeme@) == Some(v@),
    {
        match lexeme {
            LexemeTransfer::WordPart(text) => Some(chars_of(text.as_str())),
            LexemeTransfer::Whitespace(c) => Some(vec![*c]),
            LexemeTransfer::Punctuation(c) => Some(vec![*c]),
            _ => None,
        }
    }
}

impl SurgeTable {
    /// Whether a whitespace stands just left of the prong on both boards. Both
    /// boards are checked because the character left of a candidate may
    /// belong to an earlier substitution, where the boards differ.
    pub fn has_whitespace_before_candidate(&self, prong: &Prong) -> (b: bool)
        ensures
            b == ws_before(self.cutting_board@, self.franken_board@, *prong),
    {
        if prong.cb_start == 0 || prong.fb_start == 0 {
            return false;
        }
        if prong.cb_start > self.cutting_board.len() || prong.fb_start > self.franken_board.len() {
            return false;
        }
        is_whitespace_char(self.cutting_board[prong.cb_start - 1]) && is_whitespace_char(
            self.franken_board[prong.fb_start - 1],
        )
    }
}

/// The cutting board, comb, candidate, flags and dictionary are the same.
pub open spec fn same_raw_state(a: SurgeTable, b: SurgeTable) -> bool {
    &&& a.cutting_board == b.cutting_board
    &&& a.comb == b.comb
    &&& a.candidate_position == b.candidate_position
    &&& a.flags == b.flags
    &&& a.subst_map == b.subst_map
}

/// One more screen command, applied to the screen of `a`, gives that of `b`.
proof fn lemma_tracks_push(a: SurgeTable, b: SurgeTable, t: ScreenTransfer)
    requires
        b.screen_transfer_vec@ == a.screen_transfer_vec@.push(t),
        b.synced@ ==> a.synced@ && apply_transfer(a.screen(), t) == b.screen(),
    ensures
        tracks(a, b),
{
    let qa = a.screen_transfer_vec@;
    assert(qa =~= b.screen_transfer_vec@.subrange(0, qa.len() as int));
    let added = b.screen_transfer_vec@.skip(qa.len() as int);
    assert(added =~= seq![t]);
    assert(added.drop_last() =~= Seq::<ScreenTransfer>::empty());
    assert(apply_transfers(a.screen(), added.drop_last()) == a.screen());
    assert(apply_transfers(a.screen(), added) == apply_transfer(a.screen(), t));
}

impl SurgeTable {
    /// Appends text to the franken board and sends it to the screen.
    fn push_franken_text(&mut self, text: Vec<char>)
        ensures
            tview(*final(self)) == m_push(tview(*old(self)), text@),
            final(self).franken_board@ == old(self).franken_board@ + text@,
            same_raw_state(*old(self), *final(self)),
            final(self).fb_rubicon == old(self).fb_rubicon,
            final(self).pruned == old(self).pruned,
            final(self).synced == old(self).synced,
            final(self).screen_transfer_vec@.len() == old(self).screen_transfer_vec@.len() + 1,
            tracks(*old(self), *final(self)),
    {
        let ghost s0 = *self;
        let s = string_from_chars(text.as_slice());
        self.franken_board.extend_from_slice(text.as_slice());
        let ghost s1 = *self;
        self.screen_transfer_vec.push(ScreenTransfer::Text(s));
        proof {
            assert(self.screen() =~= s0.screen() + text@);
            lemma_tracks_push(s0, *self, ScreenTransfer::Text(s));
        }
    }

    /// Erases the franken board from `start` to its end and sends the
    /// backspaces. Where `start` lies past the end, the count wraps around
    /// (unsigned arithmetic) and the board stays as it is; the screen is then
    /// no longer mirrored.
    fn cut_franken_from(&mut self, start: usize)
        ensures
            tview(*final(self)) == m_cut(tview(*old(self)), start),
            start <= old(self).franken_board@.len() ==> final(self).franken_board@
                == old(self).franken_board@.take(start as int),
            start > old(self).franken_board@.len() ==> final(self).franken_board@
                == old(self).franken_board@ && !final(self).synced@,
            same_raw_state(*old(self), *final(self)),
            final(self).fb_rubicon == old(self).fb_rubicon,
            final(self).pruned == old(self).pruned,
            tracks(*old(self), *final(self)),
    {
        let ghost s0 = *self;
        let raw_tail_len = self.franken_board.len().wrapping_sub(start);
        if raw_tail_len > 0 {
            if start > self.franken_board.len() {
                self.synced = Ghost(false);
            }
            self.franken_board.truncate(start);
            self.screen_transfer_vec.push(ScreenTransfer::Backspace(raw_tail_len));
            proof {
                if self.synced@ {
                    assert(raw_tail_len == s0.franken_board@.len() - start);
                    assert(s0.screen().take(s0.screen().len() - raw_tail_len) =~= self.screen());
                }
                lemma_tracks_push(s0, *self, ScreenTransfer::Backspace(raw_tail_len));
            }
        } else {
            proof {
                lemma_tracks_refl(s0);
                assert(self.franken_board@ =~= s0.franken_board@.take(start as int));
            }
        }
    }

    /// Capitalizes the first letter of `text` when the capitalize flag is
    /// set, and then clears the flag. A text without letters comes back as it
    /// is, with the flag still set.
    pub fn capitalize_if_needed(&mut self, text: &Vec<char>) -> (r: Vec<char>)
        ensures
            r@ == cap_text(old(self).flags.capitalize_next_word, text@).0,
            tview(*final(self)) == with_flags(
                tview(*old(self)),
                Flag {
                    capitalize_next_word: cap_text(old(self).flags.capitalize_next_word, text@).1,
                    ..old(self).flags
                },
            ),
            old(self).flags.capitalize_next_word && first_alpha(text@) < text@.len() ==> r@
                == capitalized(text@) && !final(self).flags.capitalize_next_word,
            !(old(self).flags.capitalize_next_word && first_alpha(text@) < text@.len()) ==> r@
                == text@ && final(self).flags.capitalize_next_word
                == old(self).flags.capitalize_next_word,
            same_but_flags(*old(self), *final(self)),
            final(self).flags.suppress_next_whitespace == old(self).flags.suppress_next_whitespace,
            final(self).flags.cancel_next_replacement == old(self).flags.cancel_next_replacement,
            final(self).flags.is_output_enabled == old(self).flags.is_output_enabled,
            final(self).flags.pending_clear == old(self).flags.pending_clear,
    {
        proof {
            lemma_first_alpha(text@);
        }
        if !self.flags.capitalize_next_word {
            return text.clone();
        }
        let mut i: usize = 0;
        while i < text.len() && !is_alphabetic(text[i])
            invariant
                i <= text@.len(),
                forall|j: int| 0 <= j < i ==> !spec_is_alphabetic(#[trigger] text@[j]),
                0 <= first_alpha(text@) <= text@.len(),
                forall|j: int| 0 <= j < first_alpha(text@) ==> !spec_is_alphabetic(
                    #[trigger] text@[j],
                ),
                first_alpha(text@) < text@.len() ==> spec_is_alphabetic(text@[first_alpha(text@)]),
            decreases text@.len() - i,
        {
            i = i + 1;
        }
        if i == text.len() {
            assert(first_alpha(text@) == text@.len()) by {
                if first_alpha(text@) < text@.len() {
                    assert(!spec_is_alphabetic(text@[first_alpha(text@)]));
                }
            }
            return text.clone();
        }
        assert(i == first_alpha(text@)) by {
            assert(spec_is_alphabetic(text@[i as int]));
            if first_alpha(text@) < i {
                assert(!spec_is_alphabetic(text@[first_alpha(text@)]));
            }
        }
        let mut out: Vec<char> = Vec::new();
        let mut k: usize = 0;
        while k < i
            invariant
                k <= i < text@.len(),
                out@ == text@.take(k as int),
            decreases i - k,
        {
            out.push(text[k]);
            k = k + 1;
            assert(out@ =~= text@.take(k as int));
        }
        let upper = to_uppercase(text[i]);
        out.extend_from_slice(upper.as_slice());
        let mut k: usize = i + 1;
        while k < text.len()
            invariant
                i < k <= text@.len(),
                out@ == text@.take(i as int) + spec_to_uppercase(text@[i as int]) + text@.subrange(
                    i + 1,
                    k as int,
                ),
            decreases text@.len() - k,
        {
            out.push(text[k]);
            k = k + 1;
            assert(out@ =~= text@.take(i as int) + spec_to_uppercase(text@[i as int])
                + text@.subrange(i + 1, k as int));
        }
        assert(text@.subrange(i + 1, text@.len() as int) =~= text@.skip(i + 1));
        self.flags.capitalize_next_word = false;
        out
    }

    /// Keeps the franken board at most `MAX_BOARD_CAPACITY` long by dropping
    /// its oldest characters (they stay on the screen); the rubicon moves with them.
    fn prune_if_needed(&mut self)
        ensures
            tview(*final(self)) == m_prune(tview(*old(self))),
            old(self).franken_board@.len() > MAX_BOARD_CAPACITY ==> {
                let d = old(self).franken_board@.len() - MAX_BOARD_CAPACITY;
                &&& final(self).franken_board@ == old(self).franken_board@.skip(d)
                &&& final(self).pruned@ == old(self).pruned@ + old(self).franken_board@.take(d)
                &&& final(self).fb_rubicon == if old(self).fb_rubicon >= d {
                    old(self).fb_rubicon - d
                } else {
                    0
                }
            },
            old(self).franken_board@.len() <= MAX_BOARD_CAPACITY ==> final(self).franken_board
                == old(self).franken_board && final(self).pruned == old(self).pruned
                && final(self).fb_rubicon == old(self).fb_rubicon,
            same_raw_state(*old(self), *final(self)),
            final(self).screen() == old(self).screen(),
            final(self).screen_transfer_vec == old(self).screen_transfer_vec,
            final(self).synced == old(self).synced,
            tracks(*old(self), *final(self)),
    {
        let len = self.franken_board.len();
        if len > MAX_BOARD_CAPACITY {
            let drop_count = len - MAX_BOARD_CAPACITY;
            let ghost fb0 = self.franken_board@;
            let tail = self.franken_board.split_off(drop_count);
            self.franken_board = tail;
            self.pruned = Ghost(self.pruned@ + fb0.take(drop_count as int));
            self.fb_rubicon = self.fb_rubicon.saturating_sub(drop_count);
            assert(self.franken_board@ =~= fb0.skip(drop_count as int));
            assert(self.screen() =~= old(self).screen());
        }
        proof {
            lemma_tracks_refl(*self);
        }
    }

    /// Writes raw text to the cutting board.
    fn write_raw_text_to_cutting_board(&mut self, text: &Vec<char>)
        ensures
            tview(*final(self)) == m_write_cb(tview(*old(self)), text@),
            final(self).cutting_board@ == old(self).cutting_board@ + text@,
            final(self).franken_board == old(self).franken_board,
            final(self).fb_rubicon == old(self).fb_rubicon,
            final(self).comb == old(self).comb,
            final(self).candidate_position == old(self).candidate_position,
            final(self).flags == old(self).flags,
            final(self).subst_map == old(self).subst_map,
            final(self).screen_transfer_vec == old(self).screen_transfer_vec,
            final(self).pruned == old(self).pruned,
            final(self).synced == old(self).synced,
    {
        if text.len() == 0 {
            assert(self.cutting_board@ + text@ =~= self.cutting_board@);
            return;
        }
        self.cutting_board.extend_from_slice(text.as_slice());
    }

    /// Writes raw text to the franken board (capitalized when asked) and
    /// sends it to the screen.
    fn write_raw_text_to_franken_board(&mut self, text: &Vec<char>)
        ensures
            tview(*final(self)) == m_write_fb(tview(*old(self)), text@),
            final(self).cutting_board == old(self).cutting_board,
            final(self).comb == old(self).comb,
            final(self).candidate_position == old(self).candidate_position,
            final(self).subst_map == old(self).subst_map,
            final(self).flags.suppress_next_whitespace == old(self).flags.suppress_next_whitespace,
            final(self).flags.cancel_next_replacement == old(self).flags.cancel_next_replacement,
            final(self).synced == old(self).synced,
            tracks(*old(self), *final(self)),
    {
        if text.len() == 0 {
            proof {
                lemma_tracks_refl(*self);
            }
            return;
        }
        let ghost s0 = *self;
        let processed = self.capitalize_if_needed(text);
        let ghost s1 = *self;
        proof {
            lemma_tracks_refl(s0);
        }
        self.push_franken_text(processed);
        let ghost s2 = *self;
        self.prune_if_needed();
        proof {
            lemma_tracks_trans(s1, s2, *self);
        }
    }

    /// Writes raw text to both boards.
    fn write_raw_text_to_both_boards(&mut self, text: &Vec<char>)
        ensures
            tview(*final(self)) == m_write_both(tview(*old(self)), text@),
            final(self).cutting_board@ == old(self).cutting_board@ + text@,
            final(self).comb == old(self).comb,
            final(self).candidate_position == old(self).candidate_position,
            final(self).subst_map == old(self).subst_map,
            final(self).flags.suppress_next_whitespace == old(self).flags.suppress_next_whitespace,
            final(self).flags.cancel_next_replacement == old(self).flags.cancel_next_replacement,
            final(self).synced == old(self).synced,
            tracks(*old(self), *final(self)),
    {
        let ghost s0 = *self;
        self.write_raw_text_to_cutting_board(text);
        let ghost s1 = *self;
        proof {
            assert(s0.screen() == s1.screen());
            lemma_tracks_refl(s0);
        }
        self.write_raw_text_to_franken_board(text);
    }
}

/// The characters of `v` from `start` on.
fn tail_from(v: &Vec<char>, start: usize) -> (r: Vec<char>)
    requires
        start <= v@.len(),
    ensures
        r@ == v@.skip(start as int),
{
    let mut out: Vec<char> = Vec::new();
    let mut k = start;
    while k < v.len()
        invariant
            start <= k <= v@.len(),
            out@ == v@.subrange(start as int, k as int),
        decreases v@.len() - k,
    {
        out.push(v[k]);
        k = k + 1;
        assert(out@ =~= v@.subrange(start as int, k as int));
    }
    assert(out@ =~= v@.skip(start as int));
    out
}

impl SearchDecision {
    /// Looks `query` up and copies what the dictionary says out of it.
    pub fn make_decision(subst_map: &SubstitutionMap, query: &Vec<char>, is_final: bool) -> (d: Self)
        ensures
            decision_ok(subst_map@, query@, is_final, d),
    {
        let q = string_from_chars(query.as_slice());
        let search_result = if is_final {
            subst_map.final_search(q.as_str())
        } else {
            subst_map.search(q.as_str())
        };
        match search_result {
            SubstitutionSearchResult::NoMatch => SearchDecision::NoMatch,
            SubstitutionSearchResult::PartialMatch => SearchDecision::Partial,
            SubstitutionSearchResult::ExactMatch(element) => {
                let t = chars_of(element.replacement_text());
                SearchDecision::ApplyNow {
                    replacement_text: t,
                    action: element.action(),
                    rollback_fn: element.rollback(),
                }
            },
            SubstitutionSearchResult::ExactMatchWithContinuation(element) => {
                let t = chars_of(element.replacement_text());
                SearchDecision::ExactReady {
                    replacement_text: t,
                    action: element.action(),
                    rollback_fn: element.rollback(),
                }
            },
        }
    }
}

impl SurgeTable {
    /// The candidate's text so far: the cutting board from the candidate's start.
    fn get_candidate_string(&self, prong: &Prong) -> (r: Vec<char>)
        requires
            prong.cb_start <= self.cutting_board@.len(),
        ensures
            r@ == self.cutting_board@.skip(prong.cb_start as int),
    {
        tail_from(&self.cutting_board, prong.cb_start)
    }

    /// The hypothetical candidate: its text so far plus the new lexeme's text.
    fn build_candidate_string_new_text_included(&self, prong: &Prong, text: &Vec<char>) -> (r: Vec<
        char,
    >)
        requires
            prong.cb_start <= self.cutting_board@.len(),
        ensures
            r@ == self.cutting_board@.skip(prong.cb_start as int) + text@,
    {
        let mut out = self.get_candidate_string(prong);
        out.extend_from_slice(text.as_slice());
        out
    }

    /// Commits an exact match found earlier as a prong of the comb.
    fn commit_exact_ready_candidate(&mut self, candidate: Candidate)
        ensures
            tview(*final(self)) == m_commit(tview(*old(self)), candidate),
            candidate.status is ExactReady ==> final(self).comb@ == old(self).comb@.push(
                candidate.prong,
            ),
            candidate.status is Partial ==> final(self).comb == old(self).comb,
            final(self).cutting_board == old(self).cutting_board,
            final(self).franken_board == old(self).franken_board,
            final(self).fb_rubicon == old(self).fb_rubicon,
            final(self).candidate_position == old(self).candidate_position,
            final(self).flags == old(self).flags,
            final(self).subst_map == old(self).subst_map,
            final(self).screen_transfer_vec == old(self).screen_transfer_vec,
            final(self).pruned == old(self).pruned,
            final(self).synced == old(self).synced,
    {
        if matches!(candidate.status, CandidateStatus::ExactReady) {
            self.comb.push(candidate.prong);
        }
    }

    /// Replaces the franken-board tail of a candidate, from `fb_start`, with
    /// the replacement text. The new lexeme is not on the franken board yet.
    fn replace_candidate_tail_in_franken_board(&mut self, fb_start: usize, replacement_text: &Vec<char>)
        ensures
            tview(*final(self)) == m_replace_tail(tview(*old(self)), fb_start, replacement_text@),
            fb_start <= old(self).franken_board@.len() ==> final(self).franken_board@
                == old(self).franken_board@.take(fb_start as int) + replacement_text@,
            same_raw_state(*old(self), *final(self)),
            final(self).fb_rubicon == old(self).fb_rubicon,
            final(self).pruned == old(self).pruned,
            tracks(*old(self), *final(self)),
    {
        let ghost s0 = *self;
        self.cut_franken_from(fb_start);
        let ghost s1 = *self;
        if replacement_text.len() > 0 {
            self.push_franken_text(replacement_text.clone());
            proof {
                lemma_tracks_trans(s0, s1, *self);
            }
        } else {
            assert(self.franken_board@ =~= self.franken_board@ + replacement_text@);
        }
    }

    /// Undoes an eager exact match of the candidate: `rollback(Before)`, the
    /// replacement erased and the raw text restored, `rollback(After)`. The
    /// comb is not touched; the candidate keeps its prong, emptied.
    fn undo_exact_ready(&mut self, candidate: &mut Candidate)
        requires
            old(candidate).prong.cb_start <= old(self).cutting_board@.len(),
        ensures
            tview(*final(self)) == m_undo(tview(*old(self)), *old(candidate)).0,
            *final(candidate) == m_undo(tview(*old(self)), *old(candidate)).1,
            final(self).cutting_board == old(self).cutting_board,
            final(self).comb == old(self).comb,
            final(self).candidate_position == old(self).candidate_position,
            final(self).subst_map == old(self).subst_map,
            final(self).fb_rubicon == old(self).fb_rubicon,
            final(self).pruned == old(self).pruned,
            tracks(*old(self), *final(self)),
            final(candidate).status == old(candidate).status,
            final(candidate).prong.cb_start == old(candidate).prong.cb_start,
            final(candidate).prong.fb_start == old(candidate).prong.fb_start,
            old(candidate).status is Partial ==> *final(candidate) == *old(candidate) && final(self).flags == old(self).flags && final(self).franken_board == old(self).franken_board,
            old(candidate).status is ExactReady && old(candidate).prong.fb_start <= old(self).franken_board@.len() ==> final(self).franken_board@ == old(self).franken_board@.take(
                old(candidate).prong.fb_start as int,
            ) + old(self).cutting_board@.skip(old(candidate).prong.cb_start as int),
    {
        if matches!(candidate.status, CandidateStatus::ExactReady) {
            let ghost s0 = *self;
            if let Some(rb) = candidate.prong.rollback_fn {
                apply_rollback(rb, self, &mut candidate.prong, WhenApplied::Before);
            }
            let ghost s1 = *self;
            proof {
                lemma_tracks_refl(s0);
                assert(tracks(s0, s1));
            }
            self.cut_franken_from(candidate.prong.fb_start);
            let ghost s2 = *self;
            proof {
                lemma_tracks_trans(s0, s1, s2);
            }
            let raw_text = tail_from(&self.cutting_board, candidate.prong.cb_start);
            if raw_text.len() > 0 {
                self.push_franken_text(raw_text);
                proof {
                    lemma_tracks_trans(s0, s2, *self);
                }
            } else {
                assert(self.franken_board@ =~= self.franken_board@ + raw_text@);
            }
            let ghost s3 = *self;
            if let Some(rb) = candidate.prong.rollback_fn {
                apply_rollback(rb, self, &mut candidate.prong, WhenApplied::After);
            }
            proof {
                lemma_tracks_refl(s3);
                lemma_tracks_trans(s0, s3, *self);
            }
            candidate.prong.cb_end = 0;
            candidate.prong.fb_end = 0;
            candidate.prong.rollback_fn = None;
        } else {
            proof {
                lemma_tracks_refl(*self);
            }
        }
    }

    /// Applies an exact match to the candidate: a previous eager match is
    /// undone first, then `action(Before) -> replacement -> action(After)`,
    /// and the prong is updated to end at both boards' ends. The raw text of
    /// the current lexeme is already on the cutting board.
    fn apply_substitution_for_candidate(
        &mut self,
        candidate: &mut Candidate,
        replacement_text: &Vec<char>,
        action: SupplementaryAction,
        rollback_fn: Option<SupplementaryRollback>,
    )
        requires
            old(candidate).prong.cb_start <= old(self).cutting_board@.len(),
        ensures
            tview(*final(self)) == m_apply_subst(
                tview(*old(self)),
                *old(candidate),
                replacement_text@,
                action,
                rollback_fn,
            ).0,
            *final(candidate) == m_apply_subst(
                tview(*old(self)),
                *old(candidate),
                replacement_text@,
                action,
                rollback_fn,
            ).1,
            final(self).cutting_board == old(self).cutting_board,
            final(self).comb == old(self).comb,
            final(self).candidate_position == old(self).candidate_position,
            final(self).subst_map == old(self).subst_map,
            tracks(*old(self), *final(self)),
            final(candidate).status == old(candidate).status,
            final(candidate).prong.cb_start <= old(candidate).prong.cb_start,
            final(candidate).prong.cb_end == final(self).cutting_board@.len(),
            final(candidate).prong.fb_end == final(self).franken_board@.len(),
            final(candidate).prong.rollback_fn == rollback_fn,
    {
        let ghost s0 = *self;
        self.undo_exact_ready(candidate);
        let ghost s1 = *self;
        apply_action(action, self, &mut candidate.prong, WhenApplied::Before);
        let ghost s2 = *self;
        proof {
            lemma_tracks_refl(s1);
            assert(tracks(s1, s2));
            lemma_tracks_trans(s0, s1, s2);
        }
        self.replace_candidate_tail_in_franken_board(candidate.prong.fb_start, replacement_text);
        let ghost s3 = *self;
        proof {
            lemma_tracks_trans(s0, s2, s3);
        }
        apply_action(action, self, &mut candidate.prong, WhenApplied::After);
        proof {
            lemma_tracks_refl(s3);
            assert(tracks(s3, *self));
            lemma_tracks_trans(s0, s3, *self);
        }
        candidate.prong.cb_end = self.cutting_board.len();
        candidate.prong.fb_end = self.franken_board.len();
        candidate.prong.rollback_fn = rollback_fn;
    }
}

/// The prongs lie in order within the cutting board.
pub open spec fn prongs_consistent(ps: Seq<Prong>, cb_len: nat) -> bool {
    &&& forall|i: int| 0 <= i < ps.len() ==> (#[trigger] ps[i]).cb_start <= ps[i].cb_end <= cb_len
    &&& forall|i: int, j: int| 0 <= i < j < ps.len() ==> (#[trigger] ps[i]).cb_end <= (
    #[trigger] ps[j]).cb_start
}

/// The comb, followed by the prong of an exact-ready candidate, lies in order
/// within the cutting board.
pub open spec fn cb_consistent(t: SurgeTable) -> bool {
    match t.candidate_position {
        CandidatePosition::CandidateGrowing(c) => if c.status is ExactReady {
            prongs_consistent(t.comb@.push(c.prong), t.cutting_board@.len())
        } else {
            prongs_consistent(t.comb@, t.cutting_board@.len())
        },
        _ => prongs_consistent(t.comb@, t.cutting_board@.len()),
    }
}

/// The search automaton before the lexeme is written: whether the lexeme may
/// open a candidate. Returns the new position and the new cancel flag.
pub open spec fn pre_phase(
    pos: CandidatePosition,
    cancel: bool,
    l: LexemeView,
    cb_len: nat,
    fb_len: nat,
) -> (CandidatePosition, bool) {
    let fresh = CandidatePosition::CandidateGrowing(
        Candidate {
            prong: Prong {
                cb_start: cb_len as usize,
                cb_end: 0,
                fb_start: fb_len as usize,
                fb_end: 0,
                rollback_fn: None,
            },
            status: CandidateStatus::Partial,
        },
    );
    if cancel && (l is WordStart || l is Punctuation) {
        (CandidatePosition::Idle, false)
    } else {
        match l {
            LexemeView::WordStart => (
                if pos is Idle {
                    CandidatePosition::VacancyOpen
                } else {
                    pos
                },
                cancel,
            ),
            LexemeView::WordPart(_) => (
                if pos is VacancyOpen {
                    fresh
                } else {
                    pos
                },
                cancel,
            ),
            LexemeView::Punctuation(_) => (
                if pos is Idle || pos is VacancyOpen {
                    fresh
                } else {
                    pos
                },
                cancel,
            ),
            LexemeView::Whitespace(_) => (
                if pos is VacancyOpen {
                    CandidatePosition::Idle
                } else {
                    pos
                },
                cancel,
            ),
            _ => (pos, cancel),
        }
    }
}

impl SurgeTable {
    /// A new candidate starting at the current ends of both boards.
    fn new_candidate(&self) -> (p: CandidatePosition)
        ensures
            p == CandidatePosition::CandidateGrowing(
                Candidate {
                    prong: Prong {
                        cb_start: self.cutting_board@.len() as usize,
                        cb_end: 0,
                        fb_start: self.franken_board@.len() as usize,
                        fb_end: 0,
                        rollback_fn: None,
                    },
                    status: CandidateStatus::Partial,
                },
            ),
    {
        CandidatePosition::CandidateGrowing(
            Candidate {
                prong: Prong {
                    cb_start: self.cutting_board.len(),
                    cb_end: 0,
                    fb_start: self.franken_board.len(),
                    fb_end: 0,
                    rollback_fn: None,
                },
                status: CandidateStatus::Partial,
            },
        )
    }

    /// Phase one: decides whether the lexeme may open a candidate. A pending
    /// cancel flag is spent on the next lexeme that could open one, which then
    /// stays raw text. `WordStart` opens a vacancy; the first `WordPart` after
    /// it becomes a candidate; punctuation may start a candidate by itself; a
    /// whitespace closes an unused vacancy.
    fn preprocess_employing_candidate(&mut self, lexeme: &LexemeTransfer)
        ensures
            (final(self).candidate_position, final(self).flags.cancel_next_replacement)
                == pre_phase(
                old(self).candidate_position,
                old(self).flags.cancel_next_replacement,
                lexeme@,
                old(self).cutting_board@.len(),
                old(self).franken_board@.len(),
            ),
            final(self).cutting_board == old(self).cutting_board,
            final(self).franken_board == old(self).franken_board,
            final(self).fb_rubicon == old(self).fb_rubicon,
            final(self).comb == old(self).comb,
            final(self).subst_map == old(self).subst_map,
            final(self).screen_transfer_vec == old(self).screen_transfer_vec,
            final(self).pruned == old(self).pruned,
            final(self).synced == old(self).synced,
            final(self).flags.suppress_next_whitespace == old(self).flags.suppress_next_whitespace,
            final(self).flags.capitalize_next_word == old(self).flags.capitalize_next_word,
            final(self).flags.is_output_enabled == old(self).flags.is_output_enabled,
            final(self).flags.pending_clear == old(self).flags.pending_clear,
    {
        if self.flags.cancel_next_replacement {
            if matches!(lexeme, LexemeTransfer::WordStart | LexemeTransfer::Punctuation(_)) {
                self.flags.cancel_next_replacement = false;
                self.candidate_position = CandidatePosition::Idle;
                return;
            }
        }
        match lexeme {
            LexemeTransfer::WordStart => {
                if matches!(self.candidate_position, CandidatePosition::Idle) {
                    self.candidate_position = CandidatePosition::VacancyOpen;
                }
            },
            LexemeTransfer::WordPart(_) => {
                if matches!(self.candidate_position, CandidatePosition::VacancyOpen) {
                    self.candidate_position = self.new_candidate();
                }
            },
            LexemeTransfer::Punctuation(_) => {
                if matches!(
                    self.candidate_position,
                    CandidatePosition::Idle | CandidatePosition::VacancyOpen
                ) {
                    self.candidate_position = self.new_candidate();
                }
            },
            LexemeTransfer::Whitespace(_) => {
                if matches!(self.candidate_position, CandidatePosition::VacancyOpen) {
                    self.candidate_position = CandidatePosition::Idle;
                }
            },
            _ => {},
        }
    }

    /// Phase three: applies what the dictionary said of the hypothetical
    /// candidate, and returns the automaton's next position.
    /// - `NoMatch`: the text goes raw to both boards; an earlier eager match
    ///   is committed to the comb.
    /// - `Partial`: the text goes raw to both boards; the candidate grows on.
    /// - `ExactReady`: the raw text goes to the cutting board only and the
    ///   match is applied eagerly; a longer key may still take over.
    /// - `ApplyNow`: as `ExactReady`, then the prong goes to the comb.
    fn apply_decision(
        &mut self,
        candidate: Candidate,
        new_lexeme_text: &Vec<char>,
        decision: SearchDecision,
    ) -> (p: CandidatePosition)
        requires
            candidate_ok(
                CandidatePosition::CandidateGrowing(candidate),
                old(self).cutting_board@.len(),
            ),
        ensures
            tview(*final(self)) == m_apply_decision(
                tview(*old(self)),
                candidate,
                new_lexeme_text@,
                decision_view(decision),
            ).0,
            p == m_apply_decision(
                tview(*old(self)),
                candidate,
                new_lexeme_text@,
                decision_view(decision),
            ).1,
            final(self).cutting_board@ == old(self).cutting_board@ + new_lexeme_text@,
            candidate_ok(p, final(self).cutting_board@.len()),
            final(self).candidate_position == old(self).candidate_position,
            final(self).subst_map == old(self).subst_map,
            tracks(*old(self), *final(self)),
            decision is NoMatch ==> p == CandidatePosition::Idle,
            decision is Partial ==> p == CandidatePosition::CandidateGrowing(candidate),
            decision is ApplyNow ==> p == CandidatePosition::Idle,
            decision is ExactReady ==> p is CandidateGrowing,
    {
        let mut candidate = candidate;
        match decision {
            SearchDecision::NoMatch => {
                self.write_raw_text_to_both_boards(new_lexeme_text);
                self.commit_exact_ready_candidate(candidate);
                CandidatePosition::Idle
            },
            SearchDecision::Partial => {
                self.write_raw_text_to_both_boards(new_lexeme_text);
                CandidatePosition::CandidateGrowing(candidate)
            },
            SearchDecision::ExactReady { replacement_text, action, rollback_fn } => {
                let ghost s0 = *self;
                self.write_raw_text_to_cutting_board(new_lexeme_text);
                let ghost s1 = *self;
                proof {
                    assert(s0.screen() == s1.screen());
                    lemma_tracks_refl(s0);
                }
                self.apply_substitution_for_candidate(
                    &mut candidate,
                    &replacement_text,
                    action,
                    rollback_fn,
                );
                proof {
                    lemma_tracks_trans(s0, s1, *self);
                }
                candidate.status = CandidateStatus::ExactReady;
                CandidatePosition::CandidateGrowing(candidate)
            },
            SearchDecision::ApplyNow { replacement_text, action, rollback_fn } => {
                let ghost s0 = *self;
                self.write_raw_text_to_cutting_board(new_lexeme_text);
                let ghost s1 = *self;
                proof {
                    assert(s0.screen() == s1.screen());
                    lemma_tracks_refl(s0);
                }
                self.apply_substitution_for_candidate(
                    &mut candidate,
                    &replacement_text,
                    action,
                    rollback_fn,
                );
                proof {
                    lemma_tracks_trans(s0, s1, *self);
                }
                let ghost s2 = *self;
                self.comb.push(candidate.prong);
                proof {
                    assert(s2.screen() == self.screen());
                    lemma_tracks_refl(s2);
                    lemma_tracks_trans(s0, s2, *self);
                }
                CandidatePosition::Idle
            },
        }
    }

    /// Phases two and three for a significant lexeme. The lexeme is not
    /// written to the boards in advance: the hypothetical candidate is looked
    /// up first, and the outcome decides how the text is written. A pending
    /// whitespace suppression takes a whitespace-only text to the cutting
    /// board alone and hides it in the prong that asked for it.
    fn process_text_lexeme(&mut self, lexeme_text: &Vec<char>)
        requires
            old(self).wf(),
        ensures
            tview(*final(self)) == m_process_text(tview(*old(self)), lexeme_text@, old(self).subst_map@),
            final(self).wf(),
            final(self).cutting_board@ == old(self).cutting_board@ + lexeme_text@,
            final(self).subst_map == old(self).subst_map,
            tracks(*old(self), *final(self)),
    {
        reveal(m_process_text);
        let ghost s0 = *self;
        if self.flags.suppress_next_whitespace {
            self.flags.suppress_next_whitespace = false;
            if is_nonempty_whitespace(lexeme_text) {
                self.write_raw_text_to_cutting_board(lexeme_text);
                let mut pos = CandidatePosition::Idle;
                std::mem::swap(&mut pos, &mut self.candidate_position);
                match pos {
                    CandidatePosition::CandidateGrowing(candidate) => {
                        let mut candidate = candidate;
                        candidate.prong.cb_end = self.cutting_board.len();
                        self.candidate_position = CandidatePosition::CandidateGrowing(candidate);
                    },
                    _ => {
                        self.candidate_position = pos;
                        if self.comb.len() > 0 {
                            let last = self.comb.pop();
                            if let Some(p) = last {
                                let mut p = p;
                                p.cb_end = self.cutting_board.len();
                                self.comb.push(p);
                            }
                        }
                    },
                }
                proof {
                    assert(s0.screen() == self.screen());
                    lemma_tracks_refl(s0);
                }
                return;
            }
        }
        let ghost s1 = *self;
        proof {
            assert(s0.screen() == s1.screen());
            lemma_tracks_refl(s0);
        }
        let mut pos = CandidatePosition::Idle;
        std::mem::swap(&mut pos, &mut self.candidate_position);
        let ghost s2 = *self;
        proof {
            lemma_tracks_refl(s1);
        }
        match pos {
            CandidatePosition::CandidateGrowing(candidate) => {
                let candidate_new_text = self.build_candidate_string_new_text_included(
                    &candidate.prong,
                    lexeme_text,
                );
                let decision = SearchDecision::make_decision(
                    &self.subst_map,
                    &candidate_new_text,
                    false,
                );
                proof {
                    self.subst_map.lemma_wf_distinct();
                    lemma_decision_is_answer(
                        self.subst_map@,
                        candidate_new_text@,
                        false,
                        decision,
                    );
                }
                let next = self.apply_decision(candidate, lexeme_text, decision);
                self.candidate_position = next;
            },
            _ => {
                self.write_raw_text_to_both_boards(lexeme_text);
                self.candidate_position = CandidatePosition::Idle;
            },
        }
        proof {
            lemma_tracks_trans(s1, s2, *self);
            lemma_tracks_trans(s0, s1, *self);
        }
    }
}

impl SurgeTable {
    /// Settles the growing candidate when the stream stabilizes: its text,
    /// as it is, is looked up in final mode. An exact match is applied and
    /// committed; otherwise an earlier eager match inside it is committed.
    fn finalize_candidate_on_stabilization(&mut self)
        requires
            old(self).wf(),
        ensures
            tview(*final(self)) == m_finalize(tview(*old(self)), old(self).subst_map@),
            final(self).wf(),
            final(self).cutting_board == old(self).cutting_board,
            final(self).candidate_position == CandidatePosition::Idle,
            final(self).subst_map == old(self).subst_map,
            tracks(*old(self), *final(self)),
    {
        let ghost s0 = *self;
        let mut pos = CandidatePosition::Idle;
        std::mem::swap(&mut pos, &mut self.candidate_position);
        proof {
            assert(s0.screen() == self.screen());
            lemma_tracks_refl(s0);
        }
        let ghost s1 = *self;
        let candidate = match pos {
            CandidatePosition::CandidateGrowing(c) => c,
            _ => {
                return;
            },
        };
        let candidate_string = self.get_candidate_string(&candidate.prong);
        let decision = SearchDecision::make_decision(&self.subst_map, &candidate_string, true);
        proof {
            self.subst_map.lemma_wf_distinct();
            lemma_decision_is_answer(self.subst_map@, candidate_string@, true, decision);
        }
        match decision {
            SearchDecision::ApplyNow { replacement_text, action, rollback_fn } => {
                let mut candidate = candidate;
                self.apply_substitution_for_candidate(
                    &mut candidate,
                    &replacement_text,
                    action,
                    rollback_fn,
                );
                let ghost s2 = *self;
                self.comb.push(candidate.prong);
                proof {
                    assert(s2.screen() == self.screen());
                    lemma_tracks_refl(s2);
                    lemma_tracks_trans(s1, s2, *self);
                    lemma_tracks_trans(s0, s1, *self);
                }
            },
            SearchDecision::ExactReady { .. } => {
                // a final search settles every exact match
                assert(false);
            },
            _ => {
                self.commit_exact_ready_candidate(candidate);
                proof {
                    assert(s1.screen() == self.screen());
                    lemma_tracks_refl(s1);
                    lemma_tracks_trans(s0, s1, *self);
                }
            },
        }
    }

    /// Records a stabilization: the raw text is all on the screen now, so the
    /// cutting board and the comb are cleared and the rubicon moves to the end
    /// of the franken board.
    fn mark_gboard_stabilization(&mut self)
        ensures
            tview(*final(self)) == m_mark_stab(tview(*old(self))),
            final(self).cutting_board@.len() == 0,
            final(self).comb@.len() == 0,
            final(self).fb_rubicon == final(self).franken_board@.len(),
            final(self).candidate_position == old(self).candidate_position,
            final(self).subst_map == old(self).subst_map,
            final(self).flags == old(self).flags,
            final(self).screen_transfer_vec == old(self).screen_transfer_vec,
            final(self).screen() == old(self).screen(),
            final(self).synced == old(self).synced,
            tracks(*old(self), *final(self)),
    {
        self.cutting_board.clear();
        self.comb.clear();
        self.fb_rubicon = self.franken_board.len();
        self.prune_if_needed();
        proof {
            lemma_tracks_refl(*old(self));
            assert(old(self).screen() == self.screen());
        }
    }

    /// Clears everything: the boards, the history, the comb, the candidate;
    /// the flags are cleared too. The screen is no longer known.
    fn clear_all(&mut self)
        ensures
            tview(*final(self)) == m_clear_all(tview(*old(self))),
            final(self).cutting_board@.len() == 0,
            final(self).franken_board@.len() == 0,
            final(self).fb_rubicon == 0,
            final(self).comb@.len() == 0,
            final(self).candidate_position == CandidatePosition::Idle,
            final(self).flags.suppress_next_whitespace,
            !final(self).flags.capitalize_next_word,
            !final(self).flags.cancel_next_replacement,
            final(self).subst_map == old(self).subst_map,
            final(self).screen_transfer_vec == old(self).screen_transfer_vec,
            final(self).screen().len() == 0,
            final(self).synced@,
    {
        self.cutting_board.clear();
        self.franken_board.clear();
        self.fb_rubicon = 0;
        self.comb.clear();
        self.flags.clear();
        self.candidate_position = CandidatePosition::Idle;
        self.pruned = Ghost(Seq::empty());
        self.synced = Ghost(true);
        assert(self.screen() =~= Seq::<char>::empty());
    }
}

proof fn lemma_prongs_prefix(ps: Seq<Prong>, p: Prong, n: nat)
    requires
        prongs_consistent(ps.push(p), n),
    ensures
        prongs_consistent(ps, n),
{
    assert forall|i: int| 0 <= i < ps.len() implies (#[trigger] ps[i]).cb_start <= ps[i].cb_end
        <= n by {
        assert(ps.push(p)[i] == ps[i]);
    }
    assert forall|i: int, j: int| 0 <= i < j < ps.len() implies (#[trigger] ps[i]).cb_end <= (
    #[trigger] ps[j]).cb_start by {
        assert(ps.push(p)[i] == ps[i]);
        assert(ps.push(p)[j] == ps[j]);
    }
}

/// What an erase command does to the growing candidate.
enum CandidateDestiny {
    /// The erase does not reach it.
    Keep,
    /// The erase reaches a candidate that has no substitution yet (or an
    /// unused vacancy): it is dropped.
    Drop,
    /// The erase reaches the eager match of an exact-ready candidate: its
    /// prong goes to the comb, where the erase loop destroys it like any other.
    CommitExactReadyToComb,
}

impl SurgeTable {
    /// Applies an erase command of `requested_erase` characters.
    ///
    /// First the growing candidate's fate is settled (see `CandidateDestiny`).
    /// Then the loop works from right to left until the erase is spent: a
    /// free tail after the last prong is the same text on both boards and is
    /// erased on both; a prong reached by the erase is destroyed whole —
    /// `rollback(Before)`, the replacement erased, the raw text that survives
    /// the erase restored, `rollback(After)`.
    ///
    /// While the boards agree outside the prongs (`board_inv`), the erase
    /// takes exactly the requested characters off the cutting board, keeps
    /// that agreement and never subtracts past a board's start
    /// (`law_erase_keeps_board_invariant`). Only prongs left stale by pruning
    /// unstable text can make a count wrap around (unsigned arithmetic); the
    /// board then stays as it is.
    fn apply_gboard_erase(&mut self, requested_erase: usize)
        requires
            old(self).wf(),
        ensures
            tview(*final(self)) == m_erase(tview(*old(self)), requested_erase),
            final(self).wf(),
            final(self).cutting_board@.is_prefix_of(old(self).cutting_board@),
            final(self).cutting_board@.len() + requested_erase >= old(self).cutting_board@.len(),
            cb_consistent(*old(self)) ==> final(self).cutting_board@.len() == old(self).cutting_board@.len() - if requested_erase <= old(self).cutting_board@.len() {
                requested_erase as int
            } else {
                old(self).cutting_board@.len() as int
            },
            final(self).subst_map == old(self).subst_map,
            tracks(*old(self), *final(self)),
    {
        let ghost s0 = *self;
        let ghost cb0 = self.cutting_board@;
        let ghost consistent0 = cb_consistent(*self);
        let ghost n0 = requested_erase;
        let mut requested_erase = requested_erase;
        if requested_erase == 0 || self.cutting_board.len() == 0 {
            proof {
                lemma_tracks_refl(s0);
                assert(cb0.is_prefix_of(cb0)) by {
                    assert(cb0 =~= cb0.subrange(0, cb0.len() as int));
                }
            }
            return;
        }
        let target_cb_len = self.cutting_board.len().saturating_sub(requested_erase);
        let candidate_destiny = match &self.candidate_position {
            CandidatePosition::CandidateGrowing(candidate) => {
                match candidate.status {
                    CandidateStatus::ExactReady => {
                        if target_cb_len < candidate.prong.cb_end {
                            CandidateDestiny::CommitExactReadyToComb
                        } else {
                            CandidateDestiny::Keep
                        }
                    },
                    CandidateStatus::Partial => {
                        if target_cb_len < candidate.prong.cb_start {
                            CandidateDestiny::Drop
                        } else {
                            CandidateDestiny::Keep
                        }
                    },
                }
            },
            CandidatePosition::VacancyOpen => CandidateDestiny::Drop,
            CandidatePosition::Idle => CandidateDestiny::Keep,
        };
        match candidate_destiny {
            CandidateDestiny::Keep => {},
            CandidateDestiny::Drop => {
                self.candidate_position = CandidatePosition::Idle;
            },
            CandidateDestiny::CommitExactReadyToComb => {
                let mut pos = CandidatePosition::Idle;
                std::mem::swap(&mut pos, &mut self.candidate_position);
                if let CandidatePosition::CandidateGrowing(candidate) = pos {
                    self.comb.push(candidate.prong);
                }
            },
        }
        proof {
            assert(s0.screen() == self.screen());
            lemma_tracks_refl(s0);
            if consistent0 {
                if let CandidatePosition::CandidateGrowing(c) = s0.candidate_position {
                    if c.status is ExactReady {
                        lemma_prongs_prefix(s0.comb@, c.prong, cb0.len());
                    }
                }
            }
        }
        assert(cb0 =~= self.cutting_board@.subrange(0, cb0.len() as int));
        assert(tview(*self) == m_destiny(tview(s0), n0));
        let ghost vd = tview(*self);
        while requested_erase > 0 && self.cutting_board.len() > 0
            invariant
                m_erase_loop(tview(*self), requested_erase) == m_erase_loop(vd, n0),
                candidate_ok(self.candidate_position, target_cb_len as nat),
                target_cb_len as int == (if n0 as int <= cb0.len() {
                    cb0.len() - n0 as int
                } else {
                    0
                }),
                self.cutting_board@.is_prefix_of(cb0),
                self.cutting_board@.len() + n0 >= cb0.len() + requested_erase,
                consistent0 ==> prongs_consistent(self.comb@, self.cutting_board@.len())
                    && self.cutting_board@.len() + n0 == cb0.len() + requested_erase,
                requested_erase <= n0,
                self.subst_map.wf(),
                self.subst_map == s0.subst_map,
                tracks(s0, *self),
            decreases requested_erase, self.comb@.len(),
        {
            let current_cb_len = self.cutting_board.len();
            let covered = if self.comb.len() > 0 {
                self.comb[self.comb.len() - 1].cb_end >= current_cb_len
            } else {
                false
            };
            let ghost before = *self;
            let ghost n_before = requested_erase;
            if covered {
                requested_erase = self.destroy_last_prong(requested_erase);
            } else {
                requested_erase = self.erase_free_tail(requested_erase);
            }
            proof {
                lemma_tracks_trans(s0, before, *self);
                assert(m_erase_step(tview(before), n_before) == (tview(*self), requested_erase));
                assert(m_erase_loop(tview(before), n_before) == m_erase_loop(
                    tview(*self),
                    requested_erase,
                ));
            }
        }
    }

    /// Erase step where the right edge of the cutting board is covered by the
    /// last prong: the prong is destroyed whole. `rollback(Before)`; the
    /// replacement is erased from the franken board; the erase is charged to
    /// the prong's raw text; the raw text that survives is restored to the
    /// franken board; `rollback(After)`. Returns the erase still to do.
    #[verifier::rlimit(40)]
    #[verifier::spinoff_prover]
    fn destroy_last_prong(&mut self, requested_erase: usize) -> (remaining: usize)
        requires
            old(self).comb@.len() > 0,
            old(self).comb@.last().cb_end >= old(self).cutting_board@.len(),
        ensures
            tview(*final(self)) == m_destroy_last(tview(*old(self)), requested_erase).0,
            remaining == m_destroy_last(tview(*old(self)), requested_erase).1,
            remaining <= requested_erase,
            final(self).cutting_board@.is_prefix_of(old(self).cutting_board@),
            final(self).cutting_board@.len() + requested_erase >= old(self).cutting_board@.len()
                + remaining,
            final(self).comb@ == old(self).comb@.drop_last(),
            final(self).candidate_position == old(self).candidate_position,
            final(self).subst_map == old(self).subst_map,
            prongs_consistent(old(self).comb@, old(self).cutting_board@.len()) ==> final(self).cutting_board@.len() + requested_erase == old(self).cutting_board@.len() + remaining
                && prongs_consistent(final(self).comb@, final(self).cutting_board@.len()),
            tracks(*old(self), *final(self)),
    {
        let ghost s0 = *self;
        let current_cb_len = self.cutting_board.len();
        let last = self.comb.pop();
        let mut prong = match last {
            Some(p) => p,
            None => {
                proof {
                    assert(false);
                }
                return requested_erase;
            },
        };
        let ghost p0 = prong;
        assert(p0 == s0.comb@.last());
        if let Some(rb) = prong.rollback_fn {
            apply_rollback(rb, self, &mut prong, WhenApplied::Before);
        }
        let ghost b1 = *self;
        proof {
            lemma_tracks_refl(s0);
            assert(s0.screen() == b1.screen());
        }
        self.cut_franken_from(prong.fb_start);
        let ghost b2 = *self;
        proof {
            lemma_tracks_trans(s0, b1, b2);
        }
        let prong_raw_len = prong.cb_end.wrapping_sub(prong.cb_start);
        let erase_now = if requested_erase < prong_raw_len {
            requested_erase
        } else {
            prong_raw_len
        };
        let new_cb_len = current_cb_len.wrapping_sub(erase_now);
        self.cutting_board.truncate(new_cb_len);
        let remaining = requested_erase - erase_now;
        let ghost b3 = *self;
        proof {
            lemma_tracks_refl(b2);
            assert(b2.screen() == b3.screen());
            lemma_tracks_trans(s0, b2, b3);
            assert(self.cutting_board@ =~= s0.cutting_board@.subrange(
                0,
                self.cutting_board@.len() as int,
            ));
            if prongs_consistent(s0.comb@, s0.cutting_board@.len()) {
                let n = s0.comb@.len();
                assert(s0.comb@[n - 1] == p0);
                assert(p0.cb_end == current_cb_len);
                assert(self.cutting_board@.len() == new_cb_len);
                assert forall|i: int| 0 <= i < self.comb@.len() implies (
                #[trigger] self.comb@[i]).cb_start <= self.comb@[i].cb_end
                    <= self.cutting_board@.len() by {
                    assert(self.comb@[i] == s0.comb@[i]);
                    assert(s0.comb@[i].cb_end <= s0.comb@[n - 1].cb_start);
                }
                assert forall|i: int, j: int| 0 <= i < j < self.comb@.len() implies (
                #[trigger] self.comb@[i]).cb_end <= (#[trigger] self.comb@[j]).cb_start by {
                    assert(self.comb@[i] == s0.comb@[i]);
                    assert(self.comb@[j] == s0.comb@[j]);
                }
            }
        }
        if new_cb_len > prong.cb_start && prong.cb_start <= self.cutting_board.len() {
            let tail = tail_from(&self.cutting_board, prong.cb_start);
            self.push_franken_text(tail);
            proof {
                lemma_tracks_trans(s0, b3, *self);
            }
        }
        let ghost b4 = *self;
        if let Some(rb) = prong.rollback_fn {
            apply_rollback(rb, self, &mut prong, WhenApplied::After);
        }
        proof {
            lemma_tracks_refl(b4);
            assert(b4.screen() == self.screen());
            lemma_tracks_trans(s0, b4, *self);
        }
        remaining
    }

    /// Erase step where a free tail follows the last prong: the same text on
    /// both boards, erased on both. Returns the erase still to do.
    fn erase_free_tail(&mut self, requested_erase: usize) -> (remaining: usize)
        requires
            requested_erase > 0,
            old(self).cutting_board@.len() > 0,
            !(old(self).comb@.len() > 0 && old(self).comb@.last().cb_end >= old(self).cutting_board@.len()),
        ensures
            tview(*final(self)) == m_erase_free(tview(*old(self)), requested_erase).0,
            remaining == m_erase_free(tview(*old(self)), requested_erase).1,
            remaining < requested_erase,
            final(self).cutting_board@.is_prefix_of(old(self).cutting_board@),
            final(self).cutting_board@.len() + requested_erase == old(self).cutting_board@.len()
                + remaining,
            final(self).comb == old(self).comb,
            final(self).candidate_position == old(self).candidate_position,
            final(self).subst_map == old(self).subst_map,
            prongs_consistent(old(self).comb@, old(self).cutting_board@.len()) ==> prongs_consistent(
                final(self).comb@,
                final(self).cutting_board@.len(),
            ),
            tracks(*old(self), *final(self)),
    {
        let ghost s0 = *self;
        let free_tail_cb_start = if self.comb.len() > 0 {
            self.comb[self.comb.len() - 1].cb_end
        } else {
            0
        };
        let free_tail_cb_len = self.cutting_board.len() - free_tail_cb_start;
        let erase_now = if requested_erase < free_tail_cb_len {
            requested_erase
        } else {
            free_tail_cb_len
        };
        let new_len = self.cutting_board.len() - erase_now;
        self.cutting_board.truncate(new_len);
        if erase_now > self.franken_board.len() {
            self.synced = Ghost(false);
        }
        let fb_len = self.franken_board.len().wrapping_sub(erase_now);
        self.franken_board.truncate(fb_len);
        self.screen_transfer_vec.push(ScreenTransfer::Backspace(erase_now));
        proof {
            if self.synced@ {
                assert(s0.screen().take(s0.screen().len() - erase_now) =~= self.screen());
            }
            lemma_tracks_push(s0, *self, ScreenTransfer::Backspace(erase_now));
            assert(self.cutting_board@ =~= s0.cutting_board@.subrange(
                0,
                self.cutting_board@.len() as int,
            ));
            if prongs_consistent(s0.comb@, s0.cutting_board@.len()) && self.comb@.len() > 0 {
                let n = self.comb@.len();
                assert forall|i: int| 0 <= i < n implies (#[trigger] self.comb@[i]).cb_start
                    <= self.comb@[i].cb_end <= self.cutting_board@.len() by {
                    if i < n - 1 {
                        assert(self.comb@[i].cb_end <= self.comb@[n - 1].cb_start);
                    }
                }
            }
        }
        requested_erase - erase_now
    }
}

impl SurgeTable {
    /// Handles a lexeme that adds no text: stabilization, erase count, user
    /// activity, and the end of a word that never started.
    fn process_service_lexeme(&mut self, lexeme: &LexemeTransfer)
        requires
            old(self).wf(),
            significant_text(lexeme@) is None,
        ensures
            tview(*final(self)) == m_service(tview(*old(self)), lexeme@, old(self).subst_map@),
            final(self).wf(),
            final(self).subst_map == old(self).subst_map,
            old(self).screen_transfer_vec@.is_prefix_of(final(self).screen_transfer_vec@),
            !(lexeme@ is UserActivityDetected) ==> tracks(*old(self), *final(self)),
            lexeme@ is Stabilization ==> final(self).cutting_board@.len() == 0
                && final(self).comb@.len() == 0 && final(self).candidate_position
                == CandidatePosition::Idle && final(self).fb_rubicon
                == final(self).franken_board@.len(),
            lexeme@ is UserActivityDetected ==> final(self).cutting_board@.len() == 0
                && final(self).franken_board@.len() == 0 && final(self).comb@.len() == 0
                && final(self).fb_rubicon == 0 && final(self).candidate_position
                == CandidatePosition::Idle && final(self).flags.suppress_next_whitespace
                && !final(self).flags.capitalize_next_word
                && !final(self).flags.cancel_next_replacement,
            lexeme@ matches LexemeView::BackspaceCount(n) ==> {
                &&& final(self).cutting_board@.is_prefix_of(old(self).cutting_board@)
                &&& final(self).cutting_board@.len() + n >= old(self).cutting_board@.len()
                &&& cb_consistent(*old(self)) ==> final(self).cutting_board@.len() == old(
                    self,
                ).cutting_board@.len() - if n <= old(self).cutting_board@.len() {
                    n as int
                } else {
                    old(self).cutting_board@.len() as int
                }
            },
            (lexeme@ is WordStart || lexeme@ is WordEnd || lexeme@ is EraseStart
                || lexeme@ is EraseEnd) ==> final(self).cutting_board == old(self).cutting_board
                && final(self).franken_board == old(self).franken_board && final(self).comb
                == old(self).comb && final(self).screen_transfer_vec
                == old(self).screen_transfer_vec && final(self).fb_rubicon == old(self).fb_rubicon,
    {
        reveal(m_service);
        let ghost s0 = *self;
        match lexeme {
            LexemeTransfer::Stabilization => {
                self.finalize_candidate_on_stabilization();
                let ghost s1 = *self;
                self.mark_gboard_stabilization();
                self.candidate_position = CandidatePosition::Idle;
                proof {
                    lemma_tracks_trans(s0, s1, *self);
                }
            },
            LexemeTransfer::BackspaceCount(n) => {
                self.apply_gboard_erase(*n as usize);
            },
            LexemeTransfer::UserActivityDetected => {
                self.finalize_candidate_on_stabilization();
                self.clear_all();
                self.candidate_position = CandidatePosition::Idle;
            },
            LexemeTransfer::WordEnd => {
                if matches!(self.candidate_position, CandidatePosition::VacancyOpen) {
                    self.candidate_position = CandidatePosition::Idle;
                }
                proof {
                    lemma_tracks_refl(s0);
                    assert(s0.screen() == self.screen());
                }
            },
            _ => {
                proof {
                    lemma_tracks_refl(s0);
                }
            },
        }
    }

    /// Processes one lexeme: phase one (the search automaton) first, then the
    /// lexeme's text or its service meaning. The screen commands it yields are
    /// queued; `pop_screen_transfers` hands them out. From a state whose boards
    /// agree, on a lexeme on which the table keeps them agreeing, the franken
    /// board still mirrors the screen afterwards (`law_table_mirrors_screen`).
    #[verifier::rlimit(40)]
    #[verifier::spinoff_prover]
    pub fn process_lexeme(&mut self, lexeme: &LexemeTransfer)
        requires
            old(self).wf(),
        ensures
            tview(*final(self)) == m_step(tview(*old(self)), lexeme@, old(self).subst_map@),
            final(self).wf(),
            final(self).subst_map == old(self).subst_map,
            old(self).screen_transfer_vec@.is_prefix_of(final(self).screen_transfer_vec@),
            significant_text(lexeme@) matches Some(t) ==> final(self).cutting_board@ == old(
                self,
            ).cutting_board@ + t,
            !(lexeme@ is UserActivityDetected) ==> tracks(*old(self), *final(self)),
            lexeme@ is Stabilization ==> final(self).cutting_board@.len() == 0
                && final(self).comb@.len() == 0 && final(self).candidate_position
                == CandidatePosition::Idle && final(self).fb_rubicon
                == final(self).franken_board@.len(),
            lexeme@ is UserActivityDetected ==> final(self).cutting_board@.len() == 0
                && final(self).franken_board@.len() == 0 && final(self).comb@.len() == 0
                && final(self).fb_rubicon == 0 && final(self).candidate_position
                == CandidatePosition::Idle && final(self).flags.suppress_next_whitespace
                && !final(self).flags.capitalize_next_word
                && !final(self).flags.cancel_next_replacement,
            lexeme@ matches LexemeView::BackspaceCount(n) ==> {
                &&& final(self).cutting_board@.is_prefix_of(old(self).cutting_board@)
                &&& final(self).cutting_board@.len() + n >= old(self).cutting_board@.len()
                &&& cb_consistent(*old(self)) ==> final(self).cutting_board@.len() == old(
                    self,
                ).cutting_board@.len() - if n <= old(self).cutting_board@.len() {
                    n as int
                } else {
                    old(self).cutting_board@.len() as int
                }
            },
            (lexeme@ is WordStart || lexeme@ is WordEnd || lexeme@ is EraseStart
                || lexeme@ is EraseEnd) ==> final(self).cutting_board == old(self).cutting_board
                && final(self).franken_board == old(self).franken_board && final(self).comb
                == old(self).comb && final(self).screen_transfer_vec
                == old(self).screen_transfer_vec && final(self).fb_rubicon == old(self).fb_rubicon,
    {
        let ghost s0 = *self;
        self.preprocess_employing_candidate(lexeme);
        let ghost s1 = *self;
        proof {
            lemma_tracks_refl(s0);
            assert(s0.screen() == s1.screen());
            let pp = pre_phase(
                s0.candidate_position,
                s0.flags.cancel_next_replacement,
                lexeme@,
                s0.cutting_board@.len(),
                s0.franken_board@.len(),
            );
            assert(tview(s1) == TableView {
                pos: pp.0,
                flags: Flag { cancel_next_replacement: pp.1, ..s0.flags },
                ..tview(s0)
            });
        }
        if let Some(text_lexeme) = Self::extract_significant_text(lexeme) {
            self.process_text_lexeme(&text_lexeme);
            proof {
                lemma_tracks_trans(s0, s1, *self);
            }
        } else {
            self.process_service_lexeme(lexeme);
            proof {
                if !(lexeme@ is UserActivityDetected) {
                    lemma_tracks_trans(s0, s1, *self);
                }
                assert(s0.screen_transfer_vec@ == s1.screen_transfer_vec@);
            }
        }
    }
}

/// Everything but the flags is the same.
pub open spec fn same_but_flags(a: SurgeTable, b: SurgeTable) -> bool {
    &&& a.cutting_board == b.cutting_board
    &&& a.franken_board == b.franken_board
    &&& a.fb_rubicon == b.fb_rubicon
    &&& a.comb == b.comb
    &&& a.candidate_position == b.candidate_position
    &&& a.subst_map == b.subst_map
    &&& a.screen_transfer_vec == b.screen_transfer_vec
    &&& a.pruned == b.pruned
    &&& a.synced == b.synced
}

/// A whitespace character stands just left of the prong on both boards.
pub open spec fn ws_before(cb: Seq<char>, fb: Seq<char>, p: Prong) -> bool {
    &&& p.cb_start != 0
    &&& p.fb_start != 0
    &&& p.cb_start <= cb.len()
    &&& p.fb_start <= fb.len()
    &&& is_ws(cb[p.cb_start - 1])
    &&& is_ws(fb[p.fb_start - 1])
}

/// The text a significant lexeme adds to the stream.
pub open spec fn significant_text(l: LexemeView) -> Option<Seq<char>> {
    match l {
        LexemeView::WordPart(s) => Some(s),
        LexemeView::Whitespace(c) => Some(seq![c]),
        LexemeView::Punctuation(c) => Some(seq![c]),
        _ => None,
    }
}

} // verus!
