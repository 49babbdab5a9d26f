//! What the surgical table does, as functions on an abstract state: the
//! boards, the rubicon, the comb, the search automaton, the flags and the
//! history pruned off the franken board. Each operation of the table is
//! stated here once, in the order the table performs its steps.

use vstd::prelude::*;
use crate::lexeme_transfer::LexemeView;
use crate::screen_transfer::{TransferView, apply_transfers, transfer_views};
use crate::frankenstein_laboratory::substitution_map::{
    ElementView, EntriesView, distinct_keys, has_key, has_longer_key, has_prefix_key,
};
use crate::frankenstein_laboratory::supplementary_action_map::{
    SupplementaryAction, SupplementaryRollback, WhenApplied, action_flags, action_prong,
    rollback_flags,
};
use crate::frankenstein_laboratory::surgical_table::{
    Candidate, CandidatePosition, CandidateStatus, Flag, MAX_BOARD_CAPACITY, Prong, SearchDecision,
    SurgeTable, capitalized, decision_ok, first_alpha, pre_phase, significant_text, tracks, ws_before,
};
use crate::text::{all_ws, is_ws};

verus! {

/// The abstract state of a surgical table.
#[verifier::ext_equal]
pub struct TableView {
    pub cb: Seq<char>,
    pub fb: Seq<char>,
    pub rubicon: usize,
    pub comb: Seq<Prong>,
    pub pos: CandidatePosition,
    pub flags: Flag,
    pub pruned: Seq<char>,
    /// Screen commands queued and not handed out yet.
    pub queue: Seq<TransferView>,
    /// No count has wrapped around so far: the screen is still mirrored.
    pub synced: bool,
}

/// The abstract state of a table.
pub open spec fn tview(t: SurgeTable) -> TableView {
    TableView {
        cb: t.cutting_board@,
        fb: t.franken_board@,
        rubicon: t.fb_rubicon,
        comb: t.comb@,
        pos: t.candidate_position,
        flags: t.flags,
        pruned: t.pruned@,
        queue: transfer_views(t.screen_transfer_vec@),
        synced: t.synced@,
    }
}

pub open spec fn with_flags(v: TableView, f: Flag) -> TableView {
    TableView { flags: f, ..v }
}

pub open spec fn with_pos(v: TableView, p: CandidatePosition) -> TableView {
    TableView { pos: p, ..v }
}

/// Capitalization of a text under the capitalize flag: the text as it is
/// written and the flag afterwards. A text without letters leaves the flag up.
pub open spec fn cap_text(flag: bool, text: Seq<char>) -> (Seq<char>, bool) {
    if flag && first_alpha(text) < text.len() {
        (capitalized(text), false)
    } else {
        (text, flag)
    }
}

/// The franken board kept at most `MAX_BOARD_CAPACITY` long: its oldest
/// characters go to the pruned history and the rubicon moves with them.
pub open spec fn m_prune(v: TableView) -> TableView {
    if v.fb.len() > MAX_BOARD_CAPACITY {
        let d = v.fb.len() - MAX_BOARD_CAPACITY;
        TableView {
            fb: v.fb.skip(d),
            pruned: v.pruned + v.fb.take(d),
            rubicon: if v.rubicon >= d {
                (v.rubicon - d) as usize
            } else {
                0
            },
            ..v
        }
    } else {
        v
    }
}

/// Raw text written to the cutting board.
pub open spec fn m_write_cb(v: TableView, text: Seq<char>) -> TableView {
    TableView { cb: v.cb + text, ..v }
}

/// Raw text written to the franken board and queued for the screen,
/// capitalized when asked, then pruning.
pub open spec fn m_write_fb(v: TableView, text: Seq<char>) -> TableView {
    if text.len() == 0 {
        v
    } else {
        let (t, c) = cap_text(v.flags.capitalize_next_word, text);
        m_prune(m_push(with_flags(v, Flag { capitalize_next_word: c, ..v.flags }), t))
    }
}

/// Raw text written to both boards.
pub open spec fn m_write_both(v: TableView, text: Seq<char>) -> TableView {
    m_write_fb(m_write_cb(v, text), text)
}

/// The franken board cut back to `start`, the backspaces queued. Under the
/// board invariant `start` never lies past the board's end; a prong left
/// stale by pruning can, and then the board stays and the count wraps
/// around, as unsigned arithmetic does.
pub open spec fn m_cut(v: TableView, start: usize) -> TableView {
    let n = (v.fb.len() as usize).wrapping_sub(start);
    if n > 0 {
        TableView {
            fb: if start <= v.fb.len() {
                v.fb.take(start as int)
            } else {
                v.fb
            },
            queue: v.queue.push(TransferView::Backspace(n)),
            synced: v.synced && start <= v.fb.len(),
            ..v
        }
    } else {
        v
    }
}

/// Text appended to the franken board and queued for the screen.
pub open spec fn m_push(v: TableView, text: Seq<char>) -> TableView {
    TableView { fb: v.fb + text, queue: v.queue.push(TransferView::Text(text)), ..v }
}

/// The franken board from `fb_start` on replaced by `repl`.
pub open spec fn m_replace_tail(v: TableView, fb_start: usize, repl: Seq<char>) -> TableView {
    let v1 = m_cut(v, fb_start);
    if repl.len() > 0 {
        m_push(v1, repl)
    } else {
        v1
    }
}

/// The flags after a rollback, if there is one.
pub open spec fn m_rollback(v: TableView, rb: Option<SupplementaryRollback>, when: WhenApplied) -> TableView {
    match rb {
        Some(r) => with_flags(v, rollback_flags(r, when, v.flags)),
        None => v,
    }
}

/// An eager exact match of the candidate undone: `rollback(Before)`, the
/// replacement erased and the raw text restored, `rollback(After)`; the
/// candidate's prong is emptied. A partial candidate is left as it is.
pub open spec fn m_undo(v: TableView, c: Candidate) -> (TableView, Candidate) {
    if c.status is ExactReady {
        let rb = c.prong.rollback_fn;
        let v1 = m_rollback(v, rb, WhenApplied::Before);
        let v2 = m_cut(v1, c.prong.fb_start);
        let raw = v2.cb.skip(c.prong.cb_start as int);
        let v3 = if raw.len() > 0 {
            m_push(v2, raw)
        } else {
            v2
        };
        (
            m_rollback(v3, rb, WhenApplied::After),
            Candidate { prong: Prong { cb_end: 0, fb_end: 0, rollback_fn: None, ..c.prong }, ..c },
        )
    } else {
        (v, c)
    }
}

/// An exact match applied to the candidate: a previous eager match undone,
/// then `action(Before) -> replacement -> action(After)`; the prong ends at
/// both boards' ends and carries the rollback.
pub open spec fn m_apply_subst(
    v: TableView,
    c: Candidate,
    repl: Seq<char>,
    action: SupplementaryAction,
    rb: Option<SupplementaryRollback>,
) -> (TableView, Candidate) {
    let (v1, c1) = m_undo(v, c);
    let p2 = action_prong(action, WhenApplied::Before, v1.cb, v1.fb, c1.prong);
    let v2 = with_flags(v1, action_flags(action, WhenApplied::Before, v1.flags));
    let v3 = m_replace_tail(v2, p2.fb_start, repl);
    let p4 = action_prong(action, WhenApplied::After, v3.cb, v3.fb, p2);
    let v4 = with_flags(v3, action_flags(action, WhenApplied::After, v3.flags));
    (
        v4,
        Candidate {
            prong: Prong {
                cb_end: v4.cb.len() as usize,
                fb_end: v4.fb.len() as usize,
                rollback_fn: rb,
                ..p4
            },
            ..c1
        },
    )
}

/// An exact-ready candidate's prong committed to the comb.
pub open spec fn m_commit(v: TableView, c: Candidate) -> TableView {
    if c.status is ExactReady {
        TableView { comb: v.comb.push(c.prong), ..v }
    } else {
        v
    }
}

/// What the dictionary says of a query, with the entry it found.
pub enum DecisionView {
    NoMatch,
    Partial,
    ExactReady(ElementView),
    ApplyNow(ElementView),
}

pub open spec fn decision_view(d: SearchDecision) -> DecisionView {
    match d {
        SearchDecision::NoMatch => DecisionView::NoMatch,
        SearchDecision::Partial => DecisionView::Partial,
        SearchDecision::ExactReady { replacement_text, action, rollback_fn } => DecisionView::ExactReady(
            (replacement_text@, action, rollback_fn),
        ),
        SearchDecision::ApplyNow { replacement_text, action, rollback_fn } => DecisionView::ApplyNow(
            (replacement_text@, action, rollback_fn),
        ),
    }
}

/// The dictionary's answer for the query `q`: no key starts with
/// it; keys start with it but none equals it; it is a key, applied now unless
/// the search is regular and a longer key starts with it.
pub open spec fn m_decide(es: EntriesView, q: Seq<char>, is_final: bool) -> DecisionView {
    if q.len() == 0 || !has_prefix_key(es, q) {
        DecisionView::NoMatch
    } else if !has_key(es, q) {
        DecisionView::Partial
    } else {
        let i = choose|i: int| 0 <= i < es.len() && (#[trigger] es[i]).0 == q;
        if is_final || !has_longer_key(es, q) {
            DecisionView::ApplyNow(es[i].1)
        } else {
            DecisionView::ExactReady(es[i].1)
        }
    }
}

/// With no key twice, a decision that agrees with the dictionary is the
/// dictionary's answer.
pub proof fn lemma_decision_is_answer(es: EntriesView, q: Seq<char>, is_final: bool, d: SearchDecision)
    requires
        distinct_keys(es),
        decision_ok(es, q, is_final, d),
    ensures
        decision_view(d) == m_decide(es, q, is_final),
{
    match d {
        SearchDecision::ApplyNow { replacement_text, action, rollback_fn } => {
            let i = choose|i: int|
                0 <= i < es.len() && es[i].0 == q && es[i].1 == (replacement_text@, action, rollback_fn);
            assert(q.is_prefix_of(es[i].0));
            assert(has_key(es, q));
            let j = choose|j: int| 0 <= j < es.len() && (#[trigger] es[j]).0 == q;
            if i != j {
                if i < j {
                    assert(es[i].0 != es[j].0);
                } else {
                    assert(es[j].0 != es[i].0);
                }
            }
        },
        SearchDecision::ExactReady { replacement_text, action, rollback_fn } => {
            let i = choose|i: int|
                0 <= i < es.len() && es[i].0 == q && es[i].1 == (replacement_text@, action, rollback_fn);
            assert(q.is_prefix_of(es[i].0));
            assert(has_key(es, q));
            let j = choose|j: int| 0 <= j < es.len() && (#[trigger] es[j]).0 == q;
            if i != j {
                if i < j {
                    assert(es[i].0 != es[j].0);
                } else {
                    assert(es[j].0 != es[i].0);
                }
            }
        },
        SearchDecision::Partial => {},
        SearchDecision::NoMatch => {},
    }
}

/// Phase three: what the decision makes of the candidate and the new text.
/// Returns the state and the automaton's next position.
pub open spec fn m_apply_decision(v: TableView, c: Candidate, text: Seq<char>, d: DecisionView) -> (
    TableView,
    CandidatePosition,
) {
    match d {
        DecisionView::NoMatch => (m_commit(m_write_both(v, text), c), CandidatePosition::Idle),
        DecisionView::Partial => (m_write_both(v, text), CandidatePosition::CandidateGrowing(c)),
        DecisionView::ExactReady(e) => {
            let (v2, c2) = m_apply_subst(m_write_cb(v, text), c, e.0, e.1, e.2);
            (
                v2,
                CandidatePosition::CandidateGrowing(
                    Candidate { status: CandidateStatus::ExactReady, ..c2 },
                ),
            )
        },
        DecisionView::ApplyNow(e) => {
            let (v2, c2) = m_apply_subst(m_write_cb(v, text), c, e.0, e.1, e.2);
            (TableView { comb: v2.comb.push(c2.prong), ..v2 }, CandidatePosition::Idle)
        },
    }
}

/// Phases two and three for a significant text, once a pending whitespace
/// suppression is dealt with.
pub open spec fn m_text_main(v: TableView, text: Seq<char>, es: EntriesView) -> TableView {
    let v0 = with_pos(v, CandidatePosition::Idle);
    match v.pos {
        CandidatePosition::CandidateGrowing(c) => {
            let q = v.cb.skip(c.prong.cb_start as int) + text;
            let (v2, p) = m_apply_decision(v0, c, text, m_decide(es, q, false));
            with_pos(v2, p)
        },
        _ => with_pos(m_write_both(v0, text), CandidatePosition::Idle),
    }
}

/// A significant text. A pending whitespace suppression is spent first; it
/// takes a whitespace-only text to the cutting board alone and hides it in
/// the prong that asked for it (the candidate's, or else the comb's last).
#[verifier::opaque]
pub open spec fn m_process_text(v: TableView, text: Seq<char>, es: EntriesView) -> TableView {
    if v.flags.suppress_next_whitespace {
        let v1 = with_flags(v, Flag { suppress_next_whitespace: false, ..v.flags });
        if text.len() > 0 && all_ws(text) {
            let v2 = m_write_cb(v1, text);
            let end = v2.cb.len() as usize;
            match v.pos {
                CandidatePosition::CandidateGrowing(c) => with_pos(
                    v2,
                    CandidatePosition::CandidateGrowing(
                        Candidate { prong: Prong { cb_end: end, ..c.prong }, ..c },
                    ),
                ),
                _ => if v2.comb.len() > 0 {
                    TableView {
                        comb: v2.comb.drop_last().push(Prong { cb_end: end, ..v2.comb.last() }),
                        ..v2
                    }
                } else {
                    v2
                },
            }
        } else {
            m_text_main(v1, text, es)
        }
    } else {
        m_text_main(v, text, es)
    }
}

/// The growing candidate settled at a stabilization: its text looked up in
/// final mode; an exact match applied and committed, or else an earlier
/// eager match committed. The automaton ends idle.
pub open spec fn m_finalize(v: TableView, es: EntriesView) -> TableView {
    let v1 = with_pos(v, CandidatePosition::Idle);
    match v.pos {
        CandidatePosition::CandidateGrowing(c) => {
            let q = v.cb.skip(c.prong.cb_start as int);
            match m_decide(es, q, true) {
                DecisionView::ApplyNow(e) => {
                    let (v2, c2) = m_apply_subst(v1, c, e.0, e.1, e.2);
                    TableView { comb: v2.comb.push(c2.prong), ..v2 }
                },
                _ => m_commit(v1, c),
            }
        },
        _ => v1,
    }
}

/// A stabilization recorded: the cutting board and the comb cleared, the
/// rubicon at the end of the franken board, then pruning.
pub open spec fn m_mark_stab(v: TableView) -> TableView {
    m_prune(TableView { cb: seq![], comb: seq![], rubicon: v.fb.len() as usize, ..v })
}

/// Everything cleared; the flags as after a cleared history.
pub open spec fn m_clear_all(v: TableView) -> TableView {
    TableView {
        queue: v.queue,
        cb: seq![],
        fb: seq![],
        rubicon: 0,
        comb: seq![],
        pos: CandidatePosition::Idle,
        flags: Flag {
            suppress_next_whitespace: true,
            capitalize_next_word: false,
            cancel_next_replacement: false,
            ..v.flags
        },
        pruned: seq![],
        synced: true,
    }
}

/// A board truncated to `len` characters; a longer `len` leaves it.
pub open spec fn truncated(s: Seq<char>, len: usize) -> Seq<char> {
    if len <= s.len() {
        s.take(len as int)
    } else {
        s
    }
}

/// What an erase of `n` characters does to the growing candidate: one the
/// erase does not reach stays; a partial one it reaches, or an unused
/// vacancy, is dropped; an exact-ready one whose match it reaches goes to
/// the comb.
pub open spec fn m_destiny(v: TableView, n: usize) -> TableView {
    let target = if n <= v.cb.len() {
        v.cb.len() - n
    } else {
        0
    };
    match v.pos {
        CandidatePosition::CandidateGrowing(c) => if c.status is ExactReady {
            if target < c.prong.cb_end {
                TableView { pos: CandidatePosition::Idle, comb: v.comb.push(c.prong), ..v }
            } else {
                v
            }
        } else {
            if target < c.prong.cb_start {
                with_pos(v, CandidatePosition::Idle)
            } else {
                v
            }
        },
        CandidatePosition::VacancyOpen => with_pos(v, CandidatePosition::Idle),
        CandidatePosition::Idle => v,
    }
}

/// The last prong destroyed whole by an erase of `n`: `rollback(Before)`,
/// the replacement erased, the erase charged to the prong's raw text, the
/// raw text that survives restored, `rollback(After)`. Returns the state and
/// the erase still to do. Under the board invariant none of the counts wraps
/// around (see `law_erase_keeps_board_invariant`).
pub open spec fn m_destroy_last(v: TableView, n: usize) -> (TableView, usize) {
    let p = v.comb.last();
    let v0 = TableView { comb: v.comb.drop_last(), ..v };
    let v1 = m_rollback(v0, p.rollback_fn, WhenApplied::Before);
    let v2 = m_cut(v1, p.fb_start);
    let raw_len = p.cb_end.wrapping_sub(p.cb_start);
    let erase_now = if n < raw_len {
        n
    } else {
        raw_len
    };
    let new_cb_len = (v.cb.len() as usize).wrapping_sub(erase_now);
    let v3 = TableView { cb: truncated(v2.cb, new_cb_len), ..v2 };
    let v4 = if new_cb_len > p.cb_start && p.cb_start <= v3.cb.len() {
        m_push(v3, v3.cb.skip(p.cb_start as int))
    } else {
        v3
    };
    (m_rollback(v4, p.rollback_fn, WhenApplied::After), (n - erase_now) as usize)
}

/// A free tail after the last prong (the same text on both boards) erased
/// by up to `n` characters. Returns the state and the erase still to do.
pub open spec fn m_erase_free(v: TableView, n: usize) -> (TableView, usize) {
    let start: int = if v.comb.len() > 0 {
        v.comb.last().cb_end as int
    } else {
        0
    };
    let free_len = v.cb.len() - start;
    let erase_now: int = if n < free_len {
        n as int
    } else {
        free_len
    };
    let fb_len = (v.fb.len() as usize).wrapping_sub(erase_now as usize);
    (
        TableView {
            cb: v.cb.take(v.cb.len() - erase_now),
            fb: truncated(v.fb, fb_len),
            queue: v.queue.push(TransferView::Backspace(erase_now as usize)),
            synced: v.synced && erase_now <= v.fb.len(),
            ..v
        },
        (n - erase_now) as usize,
    )
}

/// Whether the right edge of the cutting board lies under the last prong.
pub open spec fn covered(v: TableView) -> bool {
    v.comb.len() > 0 && v.comb.last().cb_end >= v.cb.len()
}

/// One step of the erase loop.
pub open spec fn m_erase_step(v: TableView, n: usize) -> (TableView, usize) {
    if covered(v) {
        m_destroy_last(v, n)
    } else {
        m_erase_free(v, n)
    }
}

/// The erase loop, right to left, until the erase is spent or the cutting
/// board is empty.
pub open spec fn m_erase_loop(v: TableView, n: usize) -> TableView
    decreases n, v.comb.len(),
{
    if n == 0 || v.cb.len() == 0 {
        v
    } else {
        let (v1, n1) = m_erase_step(v, n);
        if n1 < n || (n1 == n && v1.comb.len() < v.comb.len()) {
            m_erase_loop(v1, n1)
        } else {
            v1
        }
    }
}

/// An erase command of `n` characters.
pub open spec fn m_erase(v: TableView, n: usize) -> TableView {
    if n == 0 || v.cb.len() == 0 {
        v
    } else {
        m_erase_loop(m_destiny(v, n), n)
    }
}

/// The prongs on the boards, left to right: the comb's, then that of an
/// exact-ready candidate.
pub open spec fn live_prongs(v: TableView) -> Seq<Prong> {
    match v.pos {
        CandidatePosition::CandidateGrowing(c) => if c.status is ExactReady {
            v.comb.push(c.prong)
        } else {
            v.comb
        },
        _ => v.comb,
    }
}

/// Where, on the cutting board, the raw gap before prong `i` starts (the
/// gap after the last prong for `i == ps.len()`).
pub open spec fn gap_start_cb(ps: Seq<Prong>, i: int) -> int {
    if i == 0 {
        0
    } else {
        ps[i - 1].cb_end as int
    }
}

/// Where, on the franken board, the raw gap before prong `i` starts: the
/// first one at the rubicon.
pub open spec fn gap_start_fb(ps: Seq<Prong>, i: int, rubicon: usize) -> int {
    if i == 0 {
        rubicon as int
    } else {
        ps[i - 1].fb_end as int
    }
}

/// The prongs lie in order, past the rubicon on the franken board, each as
/// far from the end of the previous one on one board as on the other.
pub open spec fn prongs_ok(ps: Seq<Prong>, rubicon: usize) -> bool {
    forall|i: int|
        0 <= i < ps.len() ==> {
            &&& gap_start_cb(ps, i) <= (#[trigger] ps[i]).cb_start <= ps[i].cb_end
            &&& gap_start_fb(ps, i, rubicon) <= ps[i].fb_start <= ps[i].fb_end
            &&& ps[i].cb_start - gap_start_cb(ps, i) == ps[i].fb_start - gap_start_fb(
                ps,
                i,
                rubicon,
            )
            &&& rubicon <= ps[i].fb_start
        }
}

/// The boards agree outside the prongs: the prongs lie in order within both
/// boards, past the rubicon on the franken board, and every raw gap (before
/// the first prong, between two, after the last) is as long on one board as
/// on the other. Both boards fit the machine's counts.
pub open spec fn board_inv(v: TableView) -> bool {
    let ps = live_prongs(v);
    &&& gap_start_fb(ps, ps.len() as int, v.rubicon) + v.cb.len() <= usize::MAX
    &&& v.rubicon <= v.fb.len()
    &&& prongs_ok(ps, v.rubicon)
    &&& gap_start_cb(ps, ps.len() as int) <= v.cb.len()
    &&& gap_start_fb(ps, ps.len() as int, v.rubicon) <= v.fb.len()
    &&& v.cb.len() - gap_start_cb(ps, ps.len() as int) == v.fb.len() - gap_start_fb(
        ps,
        ps.len() as int,
        v.rubicon,
    )
}

/// How much of a board of `len` characters an erase of `n` takes.
pub open spec fn erased(len: nat, n: usize) -> int {
    if n <= len {
        n as int
    } else {
        len as int
    }
}

/// A growing candidate that has no substitution yet starts in the raw gap
/// after the comb, as far from the gap's start on one board as on the other.
pub open spec fn candidate_inv(v: TableView) -> bool {
    let k = v.comb.len() as int;
    match v.pos {
        CandidatePosition::CandidateGrowing(c) => c.status is ExactReady || {
            &&& gap_start_cb(v.comb, k) <= c.prong.cb_start <= v.cb.len()
            &&& gap_start_fb(v.comb, k, v.rubicon) <= c.prong.fb_start <= v.fb.len()
            &&& c.prong.cb_start - gap_start_cb(v.comb, k) == c.prong.fb_start - gap_start_fb(
                v.comb,
                k,
                v.rubicon,
            )
        },
        _ => true,
    }
}

/// The boards agree outside the prongs (`board_inv`) and a candidate without
/// a substitution starts where both boards agree (`candidate_inv`): what the
/// table needs to keep the screen mirrored.
pub open spec fn mirror_inv(v: TableView) -> bool {
    board_inv(v) && candidate_inv(v)
}

/// What the erase loop needs besides the invariants: a growing candidate lies
/// left of everything the erase takes.
pub open spec fn erase_ready(v: TableView, n: usize) -> bool {
    &&& mirror_inv(v)
    &&& match v.pos {
        CandidatePosition::CandidateGrowing(c) => if c.status is ExactReady {
            erased(v.cb.len(), n) <= v.cb.len() - c.prong.cb_end
        } else {
            erased(v.cb.len(), n) <= v.cb.len() - c.prong.cb_start
        },
        _ => true,
    }
}

/// The franken board keeps what lies before the rubicon.
pub open spec fn keeps_history(v: TableView, w: TableView) -> bool {
    &&& w.rubicon == v.rubicon
    &&& v.rubicon <= w.fb.len()
    &&& w.fb.take(v.rubicon as int) == v.fb.take(v.rubicon as int)
}

proof fn lemma_destiny_ready(v: TableView, n: usize)
    requires
        mirror_inv(v),
        n > 0,
    ensures
        erase_ready(m_destiny(v, n), n),
        m_destiny(v, n).cb == v.cb,
        m_destiny(v, n).fb == v.fb,
        m_destiny(v, n).rubicon == v.rubicon,
        m_destiny(v, n).synced == v.synced,
{
    let w = m_destiny(v, n);
    match v.pos {
        CandidatePosition::CandidateGrowing(c) => {
            if c.status is ExactReady {
                assert(live_prongs(w) =~= live_prongs(v));
            } else {
                assert(live_prongs(w) =~= live_prongs(v));
            }
        },
        _ => {
            assert(live_prongs(w) =~= live_prongs(v));
        },
    }
}

#[verifier::rlimit(60)]
proof fn lemma_erase_free_step(v: TableView, n: usize)
    requires
        erase_ready(v, n),
        n > 0,
        v.cb.len() > 0,
        !covered(v),
    ensures
        ({
            let (w, n1) = m_erase_free(v, n);
            &&& erase_ready(w, n1)
            &&& w.synced == v.synced
            &&& n1 < n
            &&& n - n1 <= v.cb.len()
            &&& w.cb == v.cb.take(v.cb.len() - (n - n1))
            &&& w.pos == v.pos
            &&& keeps_history(v, w)
        }),
{
    let ps = live_prongs(v);
    let (w, n1) = m_erase_free(v, n);
    let start: int = if v.comb.len() > 0 { v.comb.last().cb_end as int } else { 0 };
    let free_len = v.cb.len() - start;
    let erase_now: int = if n < free_len { n as int } else { free_len };
    let k = ps.len() as int;
    let exact = v.pos is CandidateGrowing && v.pos->CandidateGrowing_0.status is ExactReady;
    if exact {
        let c = v.pos->CandidateGrowing_0;
        assert(ps =~= v.comb.push(c.prong));
        assert(ps[k - 1] == c.prong);
        if v.comb.len() > 0 {
            assert(ps[k - 2] == v.comb.last());
        }
        assert(start <= c.prong.cb_start);
        assert(erase_now <= v.cb.len() - c.prong.cb_end);
    } else {
        assert(ps =~= v.comb);
        assert(free_len > 0);
        if k > 0 {
            assert(ps[k - 1] == v.comb.last());
        }
        assert(start == gap_start_cb(ps, k));
    }
    assert(erase_now > 0);
    let fb_len = v.fb.len() - erase_now;
    assert((v.fb.len() as usize).wrapping_sub(erase_now as usize) == fb_len);
    assert(w.fb =~= v.fb.take(fb_len));
    assert(live_prongs(w) =~= ps);
    assert(w.fb.take(v.rubicon as int) =~= v.fb.take(v.rubicon as int));
    if exact {
        let c = v.pos->CandidateGrowing_0;
        assert(erased(w.cb.len(), n1) <= w.cb.len() - c.prong.cb_end);
    } else if v.pos is CandidateGrowing {
        let c = v.pos->CandidateGrowing_0;
        assert(erase_now <= v.cb.len() - c.prong.cb_start);
        assert(erased(w.cb.len(), n1) <= w.cb.len() - c.prong.cb_start);
        assert(candidate_inv(w));
    }
}

/// Taking the last prong off, with what lies after its start as long on one
/// board as on the other, keeps the board invariant.
proof fn lemma_pop_prong_inv(v: TableView, w: TableView)
    requires
        board_inv(v),
        live_prongs(v).len() > 0,
        live_prongs(w) == live_prongs(v).drop_last(),
        w.rubicon == v.rubicon,
        live_prongs(v).last().cb_start <= w.cb.len() <= v.cb.len(),
        w.cb.len() - live_prongs(v).last().cb_start == w.fb.len() - live_prongs(v).last().fb_start,
    ensures
        board_inv(w),
{
    let ps = live_prongs(v);
    let ps2 = live_prongs(w);
    let k = ps.len() as int;
    assert forall|i: int| 0 <= i < ps2.len() implies {
        &&& gap_start_cb(ps2, i) <= (#[trigger] ps2[i]).cb_start <= ps2[i].cb_end
        &&& gap_start_fb(ps2, i, w.rubicon) <= ps2[i].fb_start <= ps2[i].fb_end
        &&& ps2[i].cb_start - gap_start_cb(ps2, i) == ps2[i].fb_start - gap_start_fb(
            ps2,
            i,
            w.rubicon,
        )
        &&& w.rubicon <= ps2[i].fb_start
    } by {
        assert(ps2[i] == ps[i]);
        if i > 0 {
            assert(ps2[i - 1] == ps[i - 1]);
        }
    }
    if k > 1 {
        assert(ps2[k - 2] == ps[k - 2]);
    }
    assert(gap_start_cb(ps2, k - 1) == gap_start_cb(ps, k - 1));
    assert(ps[k - 1].fb_start <= ps[k - 1].fb_end);
    assert(gap_start_fb(ps2, k - 1, w.rubicon) == gap_start_fb(ps, k - 1, v.rubicon));
}

#[verifier::rlimit(100)]
proof fn lemma_destroy_last_step(v: TableView, n: usize)
    requires
        erase_ready(v, n),
        n > 0,
        v.cb.len() > 0,
        covered(v),
    ensures
        ({
            let (w, n1) = m_destroy_last(v, n);
            &&& erase_ready(w, n1)
            &&& w.synced == v.synced
            &&& n1 <= n
            &&& (n1 < n || w.comb.len() < v.comb.len())
            &&& n - n1 <= v.cb.len()
            &&& w.cb == v.cb.take(v.cb.len() - (n - n1))
            &&& w.pos == v.pos
            &&& keeps_history(v, w)
        }),
{
    let ps = live_prongs(v);
    let k = ps.len() as int;
    if v.pos is CandidateGrowing && v.pos->CandidateGrowing_0.status is ExactReady {
        let c = v.pos->CandidateGrowing_0;
        assert(ps =~= v.comb.push(c.prong));
        assert(ps[k - 2] == v.comb.last());
        assert(ps[k - 1] == c.prong);
        assert(false);
    }
    assert(ps =~= v.comb);
    let p = v.comb.last();
    assert(ps[k - 1] == p);
    assert(p.cb_end == v.cb.len());
    assert(!(v.pos is CandidateGrowing));
    let (w, n1) = m_destroy_last(v, n);
    let v0 = TableView { comb: v.comb.drop_last(), ..v };
    let v1 = m_rollback(v0, p.rollback_fn, WhenApplied::Before);
    let v2 = m_cut(v1, p.fb_start);
    assert(v2.fb =~= v.fb.take(p.fb_start as int));
    assert(v2.synced == v.synced);
    let raw_len = p.cb_end - p.cb_start;
    assert(p.cb_end.wrapping_sub(p.cb_start) == raw_len);
    let erase_now: int = if n < raw_len { n as int } else { raw_len };
    let new_cb_len = v.cb.len() - erase_now;
    assert((v.cb.len() as usize).wrapping_sub(erase_now as usize) == new_cb_len);
    let v3 = TableView { cb: truncated(v2.cb, new_cb_len as usize), ..v2 };
    assert(v3.cb =~= v.cb.take(new_cb_len));
    let v4 = if new_cb_len > p.cb_start && p.cb_start <= v3.cb.len() {
        m_push(v3, v3.cb.skip(p.cb_start as int))
    } else {
        v3
    };
    assert(w == m_rollback(v4, p.rollback_fn, WhenApplied::After));
    assert(n1 == n - erase_now);
    assert(w.cb == v3.cb && w.fb == v4.fb && w.comb == v.comb.drop_last() && w.pos == v.pos
        && w.rubicon == v.rubicon);
    assert(live_prongs(w) =~= v.comb.drop_last());
    if new_cb_len > p.cb_start {
        assert(v4.fb =~= v.fb.take(p.fb_start as int) + v.cb.take(new_cb_len).skip(p.cb_start as int));
    } else {
        assert(v4.fb =~= v.fb.take(p.fb_start as int));
    }
    assert(w.fb.len() == p.fb_start + (new_cb_len - p.cb_start));
    lemma_pop_prong_inv(v, w);
    assert(w.fb.take(v.rubicon as int) =~= v.fb.take(v.rubicon as int));
    assert(board_inv(w));
    assert(keeps_history(v, w));
    assert(erase_ready(w, n1));
}

#[verifier::rlimit(60)]
proof fn lemma_erase_loop(v: TableView, n: usize)
    requires
        erase_ready(v, n),
    ensures
        mirror_inv(m_erase_loop(v, n)),
        m_erase_loop(v, n).synced == v.synced,
        m_erase_loop(v, n).cb == v.cb.take(v.cb.len() - erased(v.cb.len(), n)),
        keeps_history(v, m_erase_loop(v, n)),
    decreases n, v.comb.len(),
{
    if n == 0 || v.cb.len() == 0 {
        assert(v.cb.take(v.cb.len() as int) =~= v.cb);
        if v.cb.len() == 0 {
            assert(v.cb.take(0) =~= v.cb);
        }
    } else {
        let (v1, n1) = m_erase_step(v, n);
        if covered(v) {
            lemma_destroy_last_step(v, n);
        } else {
            lemma_erase_free_step(v, n);
        }
        lemma_erase_loop(v1, n1);
        let w = m_erase_loop(v1, n1);
        assert(w.cb =~= v.cb.take(v.cb.len() - erased(v.cb.len(), n)));
        assert(w.fb.take(v.rubicon as int) =~= v.fb.take(v.rubicon as int)) by {
            assert(w.fb.take(v.rubicon as int) =~= w.fb.take(v1.rubicon as int));
            assert(v1.fb.take(v.rubicon as int) =~= v.fb.take(v.rubicon as int));
        }
    }
}

proof fn lemma_erase_keeps_board_invariant(v: TableView, n: usize)
    requires
        mirror_inv(v),
    ensures
        mirror_inv(m_erase(v, n)),
        m_erase(v, n).synced == v.synced,
        m_erase(v, n).cb == v.cb.take(v.cb.len() - erased(v.cb.len(), n)),
        keeps_history(v, m_erase(v, n)),
{
    if n == 0 || v.cb.len() == 0 {
        assert(v.cb.take(v.cb.len() as int) =~= v.cb);
        if v.cb.len() == 0 {
            assert(v.cb.take(0) =~= v.cb);
        }
    } else {
        lemma_destiny_ready(v, n);
        lemma_erase_loop(m_destiny(v, n), n);
    }
}

/// An erase command keeps the boards in agreement and the screen mirrored:
/// from a state where the invariants hold, it takes exactly the requested
/// number of characters (or all there are) off the end of the cutting board,
/// leaves the rubicon and the franken board before it alone, no count wraps
/// around (the screen stays mirrored), and the invariants hold again.
pub proof fn law_erase_keeps_board_invariant(v: TableView, n: u32, es: EntriesView)
    requires
        mirror_inv(v),
    ensures
        mirror_inv(m_step(v, LexemeView::BackspaceCount(n), es)),
        m_step(v, LexemeView::BackspaceCount(n), es).synced == v.synced,
        m_step(v, LexemeView::BackspaceCount(n), es).cb == v.cb.take(
            v.cb.len() - erased(v.cb.len(), n as usize),
        ),
        keeps_history(v, m_step(v, LexemeView::BackspaceCount(n), es)),
{
    reveal(m_service);
    let l = LexemeView::BackspaceCount(n);
    let (p1, c1) = pre_phase(v.pos, v.flags.cancel_next_replacement, l, v.cb.len(), v.fb.len());
    assert(p1 == v.pos && c1 == v.flags.cancel_next_replacement);
    let v1 = TableView { pos: p1, flags: Flag { cancel_next_replacement: c1, ..v.flags }, ..v };
    assert(v1 =~= v);
    lemma_erase_keeps_board_invariant(v, n as usize);
}

/// A substitution applied at a candidate whose start lies within the franken
/// board cuts the board only within it: no count wraps around.
proof fn lemma_apply_subst_in_range(
    v: TableView,
    c: Candidate,
    repl: Seq<char>,
    action: SupplementaryAction,
    rb: Option<SupplementaryRollback>,
)
    requires
        c.prong.fb_start <= v.fb.len(),
    ensures
        m_apply_subst(v, c, repl, action, rb).0.synced == v.synced,
{
    let (v1, c1) = m_undo(v, c);
    assert(v1.synced == v.synced);
    assert(c1.prong.fb_start == c.prong.fb_start);
    assert(c1.prong.fb_start <= v1.fb.len());
    let p2 = action_prong(action, WhenApplied::Before, v1.cb, v1.fb, c1.prong);
    assert(p2.fb_start <= c1.prong.fb_start);
    let v2 = with_flags(v1, action_flags(action, WhenApplied::Before, v1.flags));
    let v3 = m_replace_tail(v2, p2.fb_start, repl);
    assert(v3.synced == v.synced);
}

/// Lexemes that only mark where words and erase commands begin and end keep
/// the screen mirrored and the invariants, unless a word start drops an
/// exact-ready candidate because its replacement was cancelled (its prong is
/// then lost).
pub proof fn law_markers_keep_mirror(v: TableView, l: LexemeView, es: EntriesView)
    requires
        mirror_inv(v),
        l is WordStart || l is WordEnd || l is EraseStart || l is EraseEnd,
        !(l is WordStart && v.flags.cancel_next_replacement && v.pos is CandidateGrowing
            && v.pos->CandidateGrowing_0.status is ExactReady),
    ensures
        mirror_inv(m_step(v, l, es)),
        m_step(v, l, es).synced == v.synced,
        m_step(v, l, es).cb == v.cb,
        m_step(v, l, es).fb == v.fb,
        m_step(v, l, es).queue == v.queue,
{
    reveal(m_service);
    let w = m_step(v, l, es);
    assert(w.comb == v.comb);
    if w.pos is CandidateGrowing {
        assert(w.pos == v.pos);
    }
    if v.pos is CandidateGrowing && v.pos->CandidateGrowing_0.status is ExactReady {
        assert(w.pos == v.pos);
    }
    assert(live_prongs(w) =~= live_prongs(v));
}

proof fn lemma_finalize_in_range(v: TableView, es: EntriesView)
    requires
        mirror_inv(v),
    ensures
        m_finalize(v, es).synced == v.synced,
{
    match v.pos {
        CandidatePosition::CandidateGrowing(c) => {
            let ps = live_prongs(v);
            let k = ps.len() as int;
            if c.status is ExactReady {
                assert(ps =~= v.comb.push(c.prong));
                assert(ps[k - 1] == c.prong);
            }
            assert(c.prong.fb_start <= v.fb.len());
            let q = v.cb.skip(c.prong.cb_start as int);
            match m_decide(es, q, true) {
                DecisionView::ApplyNow(e) => {
                    lemma_apply_subst_in_range(with_pos(v, CandidatePosition::Idle), c, e.0, e.1, e.2);
                },
                _ => {},
            }
        },
        _ => {},
    }
}

proof fn lemma_mark_stab_inv(f: TableView)
    requires
        f.fb.len() <= usize::MAX,
    ensures
        mirror_inv(with_pos(m_mark_stab(f), CandidatePosition::Idle)),
        with_pos(m_mark_stab(f), CandidatePosition::Idle).synced == f.synced,
        with_pos(m_mark_stab(f), CandidatePosition::Idle).cb.len() == 0,
{
    let w = with_pos(m_mark_stab(f), CandidatePosition::Idle);
    assert(live_prongs(w) =~= Seq::<Prong>::empty());
    assert(w.rubicon == w.fb.len());
}

/// A stabilization keeps the screen mirrored and leaves the invariants
/// holding: the growing candidate is settled within the board, then the
/// cutting board and the comb are cleared. (The franken board must fit the
/// machine's counts.)
pub proof fn law_stabilization_keeps_mirror(v: TableView, es: EntriesView)
    requires
        mirror_inv(v),
        m_finalize(v, es).fb.len() <= usize::MAX,
    ensures
        mirror_inv(m_step(v, LexemeView::Stabilization, es)),
        m_step(v, LexemeView::Stabilization, es).synced == v.synced,
        m_step(v, LexemeView::Stabilization, es).cb.len() == 0,
{
    reveal(m_service);
    let l = LexemeView::Stabilization;
    let (p1, c1) = pre_phase(v.pos, v.flags.cancel_next_replacement, l, v.cb.len(), v.fb.len());
    assert(p1 == v.pos && c1 == v.flags.cancel_next_replacement);
    let v1 = TableView { pos: p1, flags: Flag { cancel_next_replacement: c1, ..v.flags }, ..v };
    assert(v1 =~= v);
    lemma_finalize_in_range(v, es);
    lemma_mark_stab_inv(m_finalize(v, es));
}

proof fn lemma_prongs_push(ps: Seq<Prong>, r: usize, p: Prong)
    requires
        prongs_ok(ps, r),
        gap_start_cb(ps, ps.len() as int) <= p.cb_start <= p.cb_end,
        gap_start_fb(ps, ps.len() as int, r) <= p.fb_start <= p.fb_end,
        p.cb_start - gap_start_cb(ps, ps.len() as int) == p.fb_start - gap_start_fb(
            ps,
            ps.len() as int,
            r,
        ),
        r <= p.fb_start,
    ensures
        prongs_ok(ps.push(p), r),
{
    let qs = ps.push(p);
    assert forall|i: int| 0 <= i < qs.len() implies {
        &&& gap_start_cb(qs, i) <= (#[trigger] qs[i]).cb_start <= qs[i].cb_end
        &&& gap_start_fb(qs, i, r) <= qs[i].fb_start <= qs[i].fb_end
        &&& qs[i].cb_start - gap_start_cb(qs, i) == qs[i].fb_start - gap_start_fb(qs, i, r)
        &&& r <= qs[i].fb_start
    } by {
        if i < ps.len() {
            assert(qs[i] == ps[i]);
            if i > 0 {
                assert(qs[i - 1] == ps[i - 1]);
            }
        } else {
            assert(qs[i] == p);
            if i > 0 {
                assert(qs[i - 1] == ps[i - 1]);
            }
        }
    }
}

proof fn lemma_prongs_front(ps: Seq<Prong>, r: usize)
    requires
        prongs_ok(ps, r),
        ps.len() > 0,
    ensures
        prongs_ok(ps.drop_last(), r),
        gap_start_cb(ps.drop_last(), ps.len() - 1) == gap_start_cb(ps, ps.len() - 1),
        gap_start_fb(ps.drop_last(), ps.len() - 1, r) == gap_start_fb(ps, ps.len() - 1, r),
        r <= gap_start_fb(ps, ps.len() - 1, r),
{
    let qs = ps.drop_last();
    let k = ps.len() as int;
    assert forall|i: int| 0 <= i < qs.len() implies {
        &&& gap_start_cb(qs, i) <= (#[trigger] qs[i]).cb_start <= qs[i].cb_end
        &&& gap_start_fb(qs, i, r) <= qs[i].fb_start <= qs[i].fb_end
        &&& qs[i].cb_start - gap_start_cb(qs, i) == qs[i].fb_start - gap_start_fb(qs, i, r)
        &&& r <= qs[i].fb_start
    } by {
        assert(qs[i] == ps[i]);
        if i > 0 {
            assert(qs[i - 1] == ps[i - 1]);
        }
    }
    if k > 1 {
        assert(qs[k - 2] == ps[k - 2]);
        assert(r <= ps[k - 2].fb_start);
    }
}

/// The fb end of the last prong lies past the rubicon.
proof fn lemma_gap_start_past_rubicon(ps: Seq<Prong>, r: usize)
    requires
        prongs_ok(ps, r),
    ensures
        r <= gap_start_fb(ps, ps.len() as int, r),
{
    if ps.len() > 0 {
        assert(r <= ps[ps.len() - 1].fb_start);
    }
}

/// Text written to both boards, with no pruning and no change of length by
/// capitalization, lengthens the last raw gap equally on both boards.
proof fn lemma_write_both_inv(v: TableView, t: Seq<char>)
    requires
        board_inv(v),
        candidate_inv(v),
        cap_text(v.flags.capitalize_next_word, t).0.len() == t.len(),
        v.fb.len() + t.len() <= MAX_BOARD_CAPACITY,
        v.fb.len() + v.cb.len() + t.len() <= usize::MAX,
    ensures
        m_write_both(v, t).cb == v.cb + t,
        m_write_both(v, t).fb.len() == v.fb.len() + t.len(),
        m_write_both(v, t).fb.take(v.fb.len() as int) == v.fb,
        m_write_both(v, t).comb == v.comb,
        m_write_both(v, t).pos == v.pos,
        m_write_both(v, t).rubicon == v.rubicon,
        m_write_both(v, t).synced == v.synced,
        board_inv(m_write_both(v, t)),
        candidate_inv(m_write_both(v, t)),
{
    let w = m_write_both(v, t);
    if t.len() > 0 {
        let v1 = m_write_cb(v, t);
        let (ct, cf) = cap_text(v1.flags.capitalize_next_word, t);
        let v2 = m_push(with_flags(v1, Flag { capitalize_next_word: cf, ..v1.flags }), ct);
        assert(v2.fb.len() <= MAX_BOARD_CAPACITY);
        assert(w == v2);
        assert(w.fb.take(v.fb.len() as int) =~= v.fb);
    } else {
        assert(v.cb + t =~= v.cb);
        assert(v.fb.take(v.fb.len() as int) =~= v.fb);
    }
    assert(live_prongs(w) =~= live_prongs(v));
    lemma_gap_start_past_rubicon(live_prongs(v), v.rubicon);
}

/// Whether an action about to apply at the candidate would move its start
/// into the prong before it: the candidate starts right where the last raw
/// gap starts and both boards hold whitespace just before it.
pub open spec fn shift_crosses(v: TableView, c: Candidate) -> bool {
    &&& c.prong.cb_start == gap_start_cb(v.comb, v.comb.len() as int)
    &&& ws_before(v.cb, v.fb, c.prong)
}

/// A substitution applied at a candidate that starts in the last raw gap
/// gives a prong that ends at both boards' ends and starts in that gap, and
/// cuts the board only within it.
#[verifier::rlimit(60)]
proof fn lemma_apply_subst_prong(
    v: TableView,
    c: Candidate,
    repl: Seq<char>,
    action: SupplementaryAction,
    rb: Option<SupplementaryRollback>,
)
    requires
        prongs_ok(v.comb, v.rubicon),
        gap_start_cb(v.comb, v.comb.len() as int) <= c.prong.cb_start <= v.cb.len(),
        gap_start_fb(v.comb, v.comb.len() as int, v.rubicon) <= c.prong.fb_start <= v.fb.len(),
        c.prong.cb_start - gap_start_cb(v.comb, v.comb.len() as int) == c.prong.fb_start
            - gap_start_fb(v.comb, v.comb.len() as int, v.rubicon),
        !shift_crosses(v, c),
        v.fb.len() + v.cb.len() + repl.len() <= usize::MAX,
    ensures
        ({
            let (w, c2) = m_apply_subst(v, c, repl, action, rb);
            let k = v.comb.len() as int;
            &&& w.cb == v.cb
            &&& w.comb == v.comb
            &&& w.rubicon == v.rubicon
            &&& w.pos == v.pos
            &&& w.synced == v.synced
            &&& c2.status == c.status
            &&& c2.prong.cb_end == w.cb.len()
            &&& c2.prong.fb_end == w.fb.len()
            &&& gap_start_cb(v.comb, k) <= c2.prong.cb_start <= c2.prong.cb_end
            &&& gap_start_fb(v.comb, k, v.rubicon) <= c2.prong.fb_start <= c2.prong.fb_end
            &&& c2.prong.cb_start - gap_start_cb(v.comb, k) == c2.prong.fb_start - gap_start_fb(
                v.comb,
                k,
                v.rubicon,
            )
            &&& w.fb.len() == c2.prong.fb_start + repl.len()
            &&& w.fb.len() <= usize::MAX
        }),
{
    let k = v.comb.len() as int;
    lemma_gap_start_past_rubicon(v.comb, v.rubicon);
    lemma_apply_subst_in_range(v, c, repl, action, rb);
    let (v1, c1) = m_undo(v, c);
    assert(c1.prong.cb_start == c.prong.cb_start && c1.prong.fb_start == c.prong.fb_start);
    assert(v1.cb == v.cb && v1.comb == v.comb && v1.rubicon == v.rubicon && v1.pos == v.pos);
    assert(v1.fb.len() >= c.prong.fb_start);
    assert(v1.fb.take(c.prong.fb_start as int) == v.fb.take(c.prong.fb_start as int)) by {
        if c.status is ExactReady {
            assert(v1.fb.take(c.prong.fb_start as int) =~= v.fb.take(c.prong.fb_start as int));
        }
    }
    let p2 = action_prong(action, WhenApplied::Before, v1.cb, v1.fb, c1.prong);
    if p2 != c1.prong {
        assert(ws_before(v1.cb, v1.fb, c1.prong));
        let j = c.prong.fb_start - 1;
        assert(v1.fb[j] == v1.fb.take(c.prong.fb_start as int)[j]);
        assert(v.fb[j] == v.fb.take(c.prong.fb_start as int)[j]);
        assert(ws_before(v.cb, v.fb, c.prong));
        assert(c.prong.cb_start > gap_start_cb(v.comb, k));
    }
    let v2 = with_flags(v1, action_flags(action, WhenApplied::Before, v1.flags));
    let v3 = m_replace_tail(v2, p2.fb_start, repl);
    assert(v3.fb.len() == p2.fb_start + repl.len());
    let p4 = action_prong(action, WhenApplied::After, v3.cb, v3.fb, p2);
    assert(p4 == p2);
}

/// A growing candidate settled by a decision on the text `t`: the state after
/// phases two and three keeps the invariants and the mirror.
#[verifier::rlimit(80)]
proof fn lemma_decision_inv(v: TableView, c: Candidate, t: Seq<char>, d: DecisionView)
    requires
        mirror_inv(v),
        v.pos == CandidatePosition::CandidateGrowing(c),
        !shift_crosses(v, c),
        cap_text(v.flags.capitalize_next_word, t).0.len() == t.len(),
        v.fb.len() + t.len() <= MAX_BOARD_CAPACITY,
        v.fb.len() + v.cb.len() + t.len() <= usize::MAX,
        d matches DecisionView::ExactReady(e) ==> v.fb.len() + v.cb.len() + t.len() + e.0.len()
            <= usize::MAX,
        d matches DecisionView::ApplyNow(e) ==> v.fb.len() + v.cb.len() + t.len() + e.0.len()
            <= usize::MAX,
    ensures
        ({
            let (v2, p) = m_apply_decision(with_pos(v, CandidatePosition::Idle), c, t, d);
            &&& mirror_inv(with_pos(v2, p))
            &&& v2.synced == v.synced
        }),
{
    let v0 = with_pos(v, CandidatePosition::Idle);
    let k = v.comb.len() as int;
    let ps = live_prongs(v);
    if c.status is ExactReady {
        assert(ps =~= v.comb.push(c.prong));
        lemma_prongs_front(ps, v.rubicon);
        assert(ps.drop_last() =~= v.comb);
        assert(ps[k] == c.prong);
        assert(c.prong.fb_start <= v.fb.len());
    } else {
        assert(ps =~= v.comb);
    }
    let (v2, p) = m_apply_decision(v0, c, t, d);
    match d {
        DecisionView::NoMatch => {
            lemma_write_both_inv(v, t);
            let wv = m_write_both(v, t);
            assert(m_write_both(v0, t) == with_pos(wv, CandidatePosition::Idle));
            let fin = with_pos(v2, p);
            assert(live_prongs(fin) =~= live_prongs(wv));
        },
        DecisionView::Partial => {
            lemma_write_both_inv(v, t);
            let wv = m_write_both(v, t);
            assert(m_write_both(v0, t) == with_pos(wv, CandidatePosition::Idle));
            assert(with_pos(v2, p) == wv);
        },
        DecisionView::ExactReady(e) => {
            lemma_decision_subst(v, c, t, e.0, e.1, e.2);
        },
        DecisionView::ApplyNow(e) => {
            lemma_decision_subst(v, c, t, e.0, e.1, e.2);
        },
    }
}

/// The substitution branch of a decision: the raw text goes to the cutting
/// board, the substitution is applied, and its prong is the last live one.
#[verifier::rlimit(80)]
proof fn lemma_decision_subst(
    v: TableView,
    c: Candidate,
    t: Seq<char>,
    repl: Seq<char>,
    action: SupplementaryAction,
    rb: Option<SupplementaryRollback>,
)
    requires
        mirror_inv(v),
        v.pos == CandidatePosition::CandidateGrowing(c),
        c.status is ExactReady ==> c.prong.fb_start <= v.fb.len(),
        prongs_ok(v.comb, v.rubicon),
        gap_start_cb(v.comb, v.comb.len() as int) <= c.prong.cb_start <= v.cb.len(),
        gap_start_fb(v.comb, v.comb.len() as int, v.rubicon) <= c.prong.fb_start <= v.fb.len(),
        c.prong.cb_start - gap_start_cb(v.comb, v.comb.len() as int) == c.prong.fb_start
            - gap_start_fb(v.comb, v.comb.len() as int, v.rubicon),
        !shift_crosses(v, c),
        v.fb.len() + v.cb.len() + t.len() + repl.len() <= usize::MAX,
    ensures
        ({
            let vw = m_write_cb(with_pos(v, CandidatePosition::Idle), t);
            let (v2, c2) = m_apply_subst(vw, c, repl, action, rb);
            &&& v2.synced == v.synced
            &&& mirror_inv(
                with_pos(
                    v2,
                    CandidatePosition::CandidateGrowing(
                        Candidate { status: CandidateStatus::ExactReady, ..c2 },
                    ),
                ),
            )
            &&& mirror_inv(
                with_pos(TableView { comb: v2.comb.push(c2.prong), ..v2 }, CandidatePosition::Idle),
            )
        }),
{
    let k = v.comb.len() as int;
    let vw = m_write_cb(with_pos(v, CandidatePosition::Idle), t);
    assert(vw.cb.take(v.cb.len() as int) =~= v.cb);
    if ws_before(vw.cb, vw.fb, c.prong) {
        assert(vw.cb[c.prong.cb_start - 1] == v.cb[c.prong.cb_start - 1]);
        assert(ws_before(v.cb, v.fb, c.prong));
    }
    assert(!shift_crosses(vw, c));
    lemma_apply_subst_prong(vw, c, repl, action, rb);
    let (v2, c2) = m_apply_subst(vw, c, repl, action, rb);
    lemma_gap_start_past_rubicon(v.comb, v.rubicon);
    lemma_prongs_push(v.comb, v.rubicon, c2.prong);
    let f1 = with_pos(
        v2,
        CandidatePosition::CandidateGrowing(Candidate { status: CandidateStatus::ExactReady, ..c2 }),
    );
    let f2 = with_pos(TableView { comb: v2.comb.push(c2.prong), ..v2 }, CandidatePosition::Idle);
    assert(live_prongs(f1) =~= v.comb.push(c2.prong));
    assert(live_prongs(f2) =~= v.comb.push(c2.prong));
    assert(v.comb.push(c2.prong)[k] == c2.prong);
}

/// Where a whitespace that a pending suppression swallows can be hidden
/// without the boards falling out of agreement: in a live prong (an
/// exact-ready candidate's, or else the comb's last) that ends at both
/// boards' ends.
pub open spec fn hide_ok(v: TableView) -> bool {
    match v.pos {
        CandidatePosition::CandidateGrowing(c) => c.status is ExactReady && c.prong.cb_end
            == v.cb.len() && c.prong.fb_end == v.fb.len(),
        _ => v.comb.len() > 0 && v.comb.last().cb_end == v.cb.len() && v.comb.last().fb_end
            == v.fb.len(),
    }
}

/// The state after phase one of a lexeme.
pub open spec fn after_pre_phase(v: TableView, l: LexemeView) -> TableView {
    let (p1, cancel1) = pre_phase(v.pos, v.flags.cancel_next_replacement, l, v.cb.len(), v.fb.len());
    TableView { pos: p1, flags: Flag { cancel_next_replacement: cancel1, ..v.flags }, ..v }
}

proof fn lemma_pre_phase_inv(v: TableView, l: LexemeView)
    requires
        mirror_inv(v),
        !(v.flags.cancel_next_replacement && (l is WordStart || l is Punctuation)
            && v.pos is CandidateGrowing && v.pos->CandidateGrowing_0.status is ExactReady),
    ensures
        mirror_inv(after_pre_phase(v, l)),
        after_pre_phase(v, l).cb == v.cb,
        after_pre_phase(v, l).fb == v.fb,
        after_pre_phase(v, l).comb == v.comb,
        after_pre_phase(v, l).rubicon == v.rubicon,
        after_pre_phase(v, l).synced == v.synced,
        after_pre_phase(v, l).flags.capitalize_next_word == v.flags.capitalize_next_word,
        after_pre_phase(v, l).flags.suppress_next_whitespace == v.flags.suppress_next_whitespace,
{
    let w = after_pre_phase(v, l);
    if w.pos is CandidateGrowing && w.pos != v.pos {
        assert(!(v.pos is CandidateGrowing));
        assert(w.pos->CandidateGrowing_0.status is Partial);
        assert(live_prongs(v) =~= v.comb);
    }
    if v.pos is CandidateGrowing && v.pos->CandidateGrowing_0.status is ExactReady {
        assert(w.pos == v.pos);
    }
    assert(live_prongs(w) =~= live_prongs(v));
}

/// A swallowed whitespace hidden in a live prong that ends at both boards'
/// ends keeps the invariants.
proof fn lemma_hidden_inv(v: TableView, t: Seq<char>)
    requires
        mirror_inv(v),
        hide_ok(v),
        v.fb.len() + v.cb.len() + t.len() <= usize::MAX,
    ensures
        ({
            let v2 = m_write_cb(v, t);
            let end = v2.cb.len() as usize;
            let w = match v.pos {
                CandidatePosition::CandidateGrowing(c) => with_pos(
                    v2,
                    CandidatePosition::CandidateGrowing(
                        Candidate { prong: Prong { cb_end: end, ..c.prong }, ..c },
                    ),
                ),
                _ => if v2.comb.len() > 0 {
                    TableView {
                        comb: v2.comb.drop_last().push(Prong { cb_end: end, ..v2.comb.last() }),
                        ..v2
                    }
                } else {
                    v2
                },
            };
            &&& mirror_inv(w)
            &&& w.synced == v.synced
        }),
{
    let ps = live_prongs(v);
    let k = ps.len() as int;
    let v2 = m_write_cb(v, t);
    let end = v2.cb.len() as usize;
    match v.pos {
        CandidatePosition::CandidateGrowing(c) => {
            assert(ps =~= v.comb.push(c.prong));
            lemma_prongs_front(ps, v.rubicon);
            assert(ps.drop_last() =~= v.comb);
            assert(ps[k - 1] == c.prong);
            let np = Prong { cb_end: end, ..c.prong };
            lemma_prongs_push(v.comb, v.rubicon, np);
            let w = with_pos(
                v2,
                CandidatePosition::CandidateGrowing(Candidate { prong: np, ..c }),
            );
            assert(live_prongs(w) =~= v.comb.push(np));
            assert(v.comb.push(np)[k - 1] == np);
        },
        _ => {
            assert(ps =~= v.comb);
            lemma_prongs_front(ps, v.rubicon);
            let lp = v.comb.last();
            assert(ps[k - 1] == lp);
            let np = Prong { cb_end: end, ..lp };
            lemma_prongs_push(v.comb.drop_last(), v.rubicon, np);
            let nc = v.comb.drop_last().push(np);
            let w = TableView { comb: nc, ..v2 };
            assert(live_prongs(w) =~= nc);
            assert(nc[k - 1] == np);
        },
    }
}

/// A text lexeme keeps the screen mirrored and the invariants, on the inputs
/// where the table itself keeps them: no pruning (the franken board stays
/// within its capacity), capitalization that keeps the text's length, a
/// swallowed whitespace hidden in a live prong that ends at both boards'
/// ends, no exact-ready candidate dropped by a cancelled replacement, no
/// action that moves a candidate's start into the prong before it, and
/// boards that fit the machine's counts.
#[verifier::rlimit(80)]
pub proof fn law_text_keeps_mirror(v: TableView, l: LexemeView, es: EntriesView)
    requires
        mirror_inv(v),
        significant_text(l) is Some,
        !(v.flags.cancel_next_replacement && l is Punctuation && v.pos is CandidateGrowing
            && v.pos->CandidateGrowing_0.status is ExactReady),
        after_pre_phase(v, l).pos is CandidateGrowing ==> !shift_crosses(
            v,
            after_pre_phase(v, l).pos->CandidateGrowing_0,
        ),
        cap_text(v.flags.capitalize_next_word, significant_text(l)->Some_0).0.len()
            == significant_text(l)->Some_0.len(),
        v.fb.len() + significant_text(l)->Some_0.len() <= MAX_BOARD_CAPACITY,
        v.fb.len() + v.cb.len() + significant_text(l)->Some_0.len() <= usize::MAX,
        forall|i: int|
            0 <= i < es.len() ==> v.fb.len() + v.cb.len() + significant_text(l)->Some_0.len()
                + (#[trigger] es[i]).1.0.len() <= usize::MAX,
        v.flags.suppress_next_whitespace && significant_text(l)->Some_0.len() > 0 && all_ws(
            significant_text(l)->Some_0,
        ) ==> hide_ok(after_pre_phase(v, l)),
    ensures
        mirror_inv(m_step(v, l, es)),
        m_step(v, l, es).synced == v.synced,
{
    reveal(m_process_text);
    let t = significant_text(l)->Some_0;
    assert(!(l is WordStart));
    lemma_pre_phase_inv(v, l);
    let v1 = after_pre_phase(v, l);
    assert(m_step(v, l, es) == m_process_text(v1, t, es));
    let vm = if v1.flags.suppress_next_whitespace {
        with_flags(v1, Flag { suppress_next_whitespace: false, ..v1.flags })
    } else {
        v1
    };
    assert(live_prongs(vm) =~= live_prongs(v1));
    if v1.flags.suppress_next_whitespace && t.len() > 0 && all_ws(t) {
        lemma_hidden_inv(vm, t);
    } else {
        assert(m_step(v, l, es) == m_text_main(vm, t, es));
        match vm.pos {
            CandidatePosition::CandidateGrowing(c) => {
                let q = vm.cb.skip(c.prong.cb_start as int) + t;
                let d = m_decide(es, q, false);
                if q.len() > 0 && has_prefix_key(es, q) && has_key(es, q) {
                    let i = choose|i: int| 0 <= i < es.len() && (#[trigger] es[i]).0 == q;
                    assert(v.fb.len() + v.cb.len() + t.len() + es[i].1.0.len() <= usize::MAX);
                }
                lemma_decision_inv(vm, c, t, d);
            },
            _ => {
                lemma_write_both_inv(vm, t);
                let w = m_write_both(vm, t);
                assert(m_write_both(with_pos(vm, CandidatePosition::Idle), t) == with_pos(
                    w,
                    CandidatePosition::Idle,
                ));
                assert(live_prongs(with_pos(w, CandidatePosition::Idle)) =~= live_prongs(w));
            },
        }
    }
}

/// A lexeme that adds no text.
#[verifier::opaque]
pub open spec fn m_service(v: TableView, l: LexemeView, es: EntriesView) -> TableView {
    match l {
        LexemeView::Stabilization => with_pos(m_mark_stab(m_finalize(v, es)), CandidatePosition::Idle),
        LexemeView::BackspaceCount(n) => m_erase(v, n as usize),
        LexemeView::UserActivityDetected => with_pos(
            m_clear_all(m_finalize(v, es)),
            CandidatePosition::Idle,
        ),
        LexemeView::WordEnd => if v.pos is VacancyOpen {
            with_pos(v, CandidatePosition::Idle)
        } else {
            v
        },
        _ => v,
    }
}

/// One lexeme: phase one (the search automaton), then the lexeme's text or
/// its service meaning.
pub open spec fn m_step(v: TableView, l: LexemeView, es: EntriesView) -> TableView {
    let (p1, cancel1) = pre_phase(v.pos, v.flags.cancel_next_replacement, l, v.cb.len(), v.fb.len());
    let v1 = TableView {
        pos: p1,
        flags: Flag { cancel_next_replacement: cancel1, ..v.flags },
        ..v
    };
    match significant_text(l) {
        Some(t) => m_process_text(v1, t, es),
        None => m_service(v1, l, es),
    }
}

/// Text on the screen at a stabilization is stable: an erase command that
/// follows a stabilization changes nothing.
pub proof fn law_erase_after_stabilization_is_void(v: TableView, n: u32, es: EntriesView)
    ensures
        m_step(m_step(v, LexemeView::Stabilization, es), LexemeView::BackspaceCount(n), es)
            == m_step(v, LexemeView::Stabilization, es),
{
    reveal(m_service);
    let s = m_step(v, LexemeView::Stabilization, es);
    assert(s.cb.len() == 0);
    let (p1, c1) = pre_phase(s.pos, s.flags.cancel_next_replacement, LexemeView::BackspaceCount(n), s.cb.len(), s.fb.len());
    assert(p1 == s.pos && c1 == s.flags.cancel_next_replacement);
    let v1 = TableView { pos: p1, flags: Flag { cancel_next_replacement: c1, ..s.flags }, ..s };
    assert(v1 =~= s);
}

/// The state without its queue.
pub open spec fn unqueued(v: TableView) -> TableView {
    TableView { queue: seq![], ..v }
}

/// A sequence of lexemes, each one's screen commands handed out as soon as it
/// is processed: the state (queue empty) and every command, in order.
pub open spec fn m_run(v: TableView, ls: Seq<LexemeView>, es: EntriesView) -> (TableView, Seq<
    TransferView,
>)
    decreases ls.len(),
{
    if ls.len() == 0 {
        (unqueued(v), v.queue)
    } else {
        let (v1, out1) = m_run(v, ls.drop_last(), es);
        let v2 = m_step(v1, ls.last(), es);
        (unqueued(v2), out1 + v2.queue)
    }
}

/// The inputs on which one lexeme keeps the screen mirrored: user activity
/// (which clears the history) is left out, and so are the inputs on which
/// the table itself lets the boards fall out of agreement (see
/// `law_markers_keep_mirror`, `law_text_keeps_mirror` and
/// `law_stabilization_keeps_mirror`).
pub open spec fn mirror_step_ok(v: TableView, l: LexemeView, es: EntriesView) -> bool {
    match l {
        LexemeView::UserActivityDetected => false,
        LexemeView::Stabilization => m_finalize(v, es).fb.len() <= usize::MAX,
        LexemeView::BackspaceCount(_) => true,
        LexemeView::WordStart => !(v.flags.cancel_next_replacement && v.pos is CandidateGrowing
            && v.pos->CandidateGrowing_0.status is ExactReady),
        LexemeView::WordEnd => true,
        LexemeView::EraseStart => true,
        LexemeView::EraseEnd => true,
        _ => {
            let t = significant_text(l)->Some_0;
            &&& !(v.flags.cancel_next_replacement && l is Punctuation && v.pos is CandidateGrowing
                && v.pos->CandidateGrowing_0.status is ExactReady)
            &&& after_pre_phase(v, l).pos is CandidateGrowing ==> !shift_crosses(
                v,
                after_pre_phase(v, l).pos->CandidateGrowing_0,
            )
            &&& cap_text(v.flags.capitalize_next_word, t).0.len() == t.len()
            &&& v.fb.len() + t.len() <= MAX_BOARD_CAPACITY
            &&& v.fb.len() + v.cb.len() + t.len() <= usize::MAX
            &&& forall|i: int|
                0 <= i < es.len() ==> v.fb.len() + v.cb.len() + t.len() + (#[trigger] es[i]).1.0.len()
                    <= usize::MAX
            &&& v.flags.suppress_next_whitespace && t.len() > 0 && all_ws(t) ==> hide_ok(
                after_pre_phase(v, l),
            )
        },
    }
}

/// One lexeme keeps the screen mirrored: from a state where the invariants
/// hold and the screen is mirrored, a lexeme on which the table keeps the
/// boards in agreement leaves the invariants holding and the screen mirrored
/// (no count wraps around).
pub proof fn law_step_keeps_mirror(v: TableView, l: LexemeView, es: EntriesView)
    requires
        mirror_inv(v),
        mirror_step_ok(v, l, es),
    ensures
        mirror_inv(m_step(v, l, es)),
        m_step(v, l, es).synced == v.synced,
{
    match l {
        LexemeView::Stabilization => law_stabilization_keeps_mirror(v, es),
        LexemeView::BackspaceCount(n) => law_erase_keeps_board_invariant(v, n, es),
        LexemeView::WordStart => law_markers_keep_mirror(v, l, es),
        LexemeView::WordEnd => law_markers_keep_mirror(v, l, es),
        LexemeView::EraseStart => law_markers_keep_mirror(v, l, es),
        LexemeView::EraseEnd => law_markers_keep_mirror(v, l, es),
        LexemeView::UserActivityDetected => {},
        _ => law_text_keeps_mirror(v, l, es),
    }
}

/// A run of lexemes keeps the screen mirrored when every lexeme, in the
/// state it meets, is one on which the table keeps the boards in agreement.
pub proof fn law_run_keeps_mirror(v: TableView, ls: Seq<LexemeView>, es: EntriesView)
    requires
        mirror_inv(v),
        forall|i: int|
            0 <= i < ls.len() ==> mirror_step_ok(
                #[trigger] m_run(v, ls.take(i), es).0,
                ls[i],
                es,
            ),
    ensures
        mirror_inv(m_run(v, ls, es).0),
        m_run(v, ls, es).0.synced == v.synced,
    decreases ls.len(),
{
    if ls.len() > 0 {
        let init = ls.drop_last();
        assert forall|i: int| 0 <= i < init.len() implies mirror_step_ok(
            #[trigger] m_run(v, init.take(i), es).0,
            init[i],
            es,
        ) by {
            assert(init.take(i) =~= ls.take(i));
            assert(mirror_step_ok(m_run(v, ls.take(i), es).0, ls[i], es));
        }
        law_run_keeps_mirror(v, init, es);
        let k = ls.len() - 1;
        assert(ls.take(k) =~= init);
        assert(mirror_step_ok(m_run(v, ls.take(k), es).0, ls[k], es));
        let v1 = m_run(v, init, es).0;
        law_step_keeps_mirror(v1, ls.last(), es);
        let v2 = m_step(v1, ls.last(), es);
        assert(live_prongs(unqueued(v2)) =~= live_prongs(v2));
    } else {
        assert(live_prongs(unqueued(v)) =~= live_prongs(v));
    }
}

/// The franken board mirrors the screen across a processed lexeme: for a
/// table state `a` whose screen is mirrored and whose boards agree, and the
/// state `b` that processing a lexeme on which the table keeps the boards in
/// agreement leaves (as `SurgeTable::process_lexeme` states it), replaying
/// the screen commands queued since `a` on `a`'s screen gives `b`'s screen,
/// and `b` is mirrored with its boards in agreement.
pub proof fn law_table_mirrors_screen(a: SurgeTable, b: SurgeTable, l: LexemeView)
    requires
        a.synced@,
        mirror_inv(tview(a)),
        mirror_step_ok(tview(a), l, a.subst_map@),
        tview(b) == m_step(tview(a), l, a.subst_map@),
        tracks(a, b),
    ensures
        b.synced@,
        mirror_inv(tview(b)),
        apply_transfers(a.screen(), b.screen_transfer_vec@.skip(a.screen_transfer_vec@.len() as int))
            == b.screen(),
{
    law_step_keeps_mirror(tview(a), l, a.subst_map@);
}

/// Undoing an eager substitution restores the raw text: the franken board is
/// cut back to where the candidate starts and the candidate's raw text from
/// the cutting board follows; the cutting board and the comb stay, no count
/// wraps around, and with the candidate back to having no substitution the
/// boards agree again.
#[verifier::rlimit(60)]
pub proof fn law_undo_restores_raw(v: TableView, c: Candidate)
    requires
        mirror_inv(v),
        v.pos == CandidatePosition::CandidateGrowing(c),
        c.status is ExactReady,
    ensures
        m_undo(v, c).0.fb == v.fb.take(c.prong.fb_start as int) + v.cb.skip(c.prong.cb_start as int),
        m_undo(v, c).0.cb == v.cb,
        m_undo(v, c).0.comb == v.comb,
        m_undo(v, c).0.synced == v.synced,
        mirror_inv(
            with_pos(
                m_undo(v, c).0,
                CandidatePosition::CandidateGrowing(
                    Candidate { status: CandidateStatus::Partial, ..m_undo(v, c).1 },
                ),
            ),
        ),
{
    let ps = live_prongs(v);
    let k = v.comb.len() as int;
    assert(ps =~= v.comb.push(c.prong));
    lemma_prongs_front(ps, v.rubicon);
    assert(ps.drop_last() =~= v.comb);
    assert(ps[k] == c.prong);
    assert(c.prong.fb_start <= v.fb.len());
    let rb = c.prong.rollback_fn;
    let v1 = m_rollback(v, rb, WhenApplied::Before);
    assert(v1.fb == v.fb && v1.cb == v.cb && v1.comb == v.comb && v1.synced == v.synced);
    let v2 = m_cut(v1, c.prong.fb_start);
    assert(v2.fb =~= v.fb.take(c.prong.fb_start as int));
    assert(v2.synced == v.synced && v2.cb == v.cb && v2.comb == v.comb);
    let raw = v.cb.skip(c.prong.cb_start as int);
    let v3 = if raw.len() > 0 {
        m_push(v2, raw)
    } else {
        v2
    };
    assert(v3.fb =~= v.fb.take(c.prong.fb_start as int) + raw);
    let (w, c2) = m_undo(v, c);
    assert(w == m_rollback(v3, rb, WhenApplied::After));
    let f = with_pos(
        w,
        CandidatePosition::CandidateGrowing(Candidate { status: CandidateStatus::Partial, ..c2 }),
    );
    assert(live_prongs(f) =~= v.comb);
    lemma_gap_start_past_rubicon(v.comb, v.rubicon);
}

/// A raised cancel flag is spent on the next word start: the automaton is
/// left idle with the flag down, and nothing else changes.
pub proof fn law_cancel_spent_on_word_start(v: TableView, es: EntriesView)
    requires
        v.flags.cancel_next_replacement,
    ensures
        m_step(v, LexemeView::WordStart, es) == (TableView {
            pos: CandidatePosition::Idle,
            flags: Flag { cancel_next_replacement: false, ..v.flags },
            ..v
        }),
{
    reveal(m_service);
}

/// A raised cancel flag is spent on a punctuation mark too: the mark goes
/// to both boards as raw text, the automaton is left idle with the flag
/// down, and the comb is untouched (no substitution).
pub proof fn law_cancel_spent_on_punctuation(v: TableView, c: char, es: EntriesView)
    requires
        v.flags.cancel_next_replacement,
        !is_ws(c),
    ensures
        m_step(v, LexemeView::Punctuation(c), es).pos == CandidatePosition::Idle,
        !m_step(v, LexemeView::Punctuation(c), es).flags.cancel_next_replacement,
        m_step(v, LexemeView::Punctuation(c), es).cb == v.cb.push(c),
        m_step(v, LexemeView::Punctuation(c), es).comb == v.comb,
{
    reveal(m_process_text);
    assert(!all_ws(seq![c])) by {
        assert(seq![c][0] == c);
    }
    assert(v.cb + seq![c] =~= v.cb.push(c));
}

/// What follows a cancel command stays raw: after the word start that spends
/// the flag, the word's text goes to both boards as it is, no candidate is
/// opened and the comb is untouched, whatever the dictionary holds.
pub proof fn law_cancelled_word_stays_raw(v: TableView, s: Seq<char>, es: EntriesView)
    requires
        v.flags.cancel_next_replacement,
        !all_ws(s),
    ensures
        ({
            let w = m_step(m_step(v, LexemeView::WordStart, es), LexemeView::WordPart(s), es);
            &&& w.pos == CandidatePosition::Idle
            &&& !w.flags.cancel_next_replacement
            &&& w.cb == v.cb + s
            &&& w.comb == v.comb
        }),
{
    law_cancel_spent_on_word_start(v, es);
    reveal(m_process_text);
}

/// A substitution runs its action after the replacement is written: the flag
/// that the action raises is up once the substitution is applied, whatever
/// the state and the candidate.
pub proof fn law_substitution_raises_action_flag(
    v: TableView,
    c: Candidate,
    repl: Seq<char>,
    a: SupplementaryAction,
    rb: Option<SupplementaryRollback>,
)
    ensures
        (a is CapitalizeNextWord || a is SuppressWhitespaceBeforeAndCapitalizeNextWord)
            ==> m_apply_subst(v, c, repl, a, rb).0.flags.capitalize_next_word,
        a is LowercaseNextWord ==> !m_apply_subst(v, c, repl, a, rb).0.flags.capitalize_next_word,
        (a is SuppressWhitespaceAfter || a is SuppressWhitespaceBeforeAndAfter)
            ==> m_apply_subst(v, c, repl, a, rb).0.flags.suppress_next_whitespace,
        a is CancelNextReplacement ==> m_apply_subst(
            v,
            c,
            repl,
            a,
            rb,
        ).0.flags.cancel_next_replacement,
{
}

/// An erase that reaches only into the last prong's raw text destroys that
/// prong whole: the prong leaves the comb, the cutting board loses the `n`
/// characters, the franken board is cut back to where the prong started and
/// the raw text that survives the erase follows, no count wraps around, and
/// the prong's rollback runs: the flags are those its rollback leaves (the
/// capitalize flag of a destroyed capitalizing substitution is down again).
#[verifier::rlimit(60)]
pub proof fn law_erase_destroys_last_prong(v: TableView, n: u32, es: EntriesView)
    requires
        mirror_inv(v),
        v.pos == CandidatePosition::Idle,
        v.comb.len() > 0,
        v.comb.last().cb_end == v.cb.len(),
        0 < n <= v.comb.last().cb_end - v.comb.last().cb_start,
    ensures
        ({
            let p = v.comb.last();
            let w = m_step(v, LexemeView::BackspaceCount(n), es);
            &&& w.comb == v.comb.drop_last()
            &&& w.cb == v.cb.take(v.cb.len() - n)
            &&& w.fb == v.fb.take(p.fb_start as int) + v.cb.subrange(
                p.cb_start as int,
                v.cb.len() - n,
            )
            &&& w.synced == v.synced
            &&& w.pos == CandidatePosition::Idle
            &&& w.flags == match p.rollback_fn {
                Some(r) => rollback_flags(r, WhenApplied::After, v.flags),
                None => v.flags,
            }
            &&& p.rollback_fn == Some(SupplementaryRollback::RollbackCapitalizeNextWord)
                ==> !w.flags.capitalize_next_word
        }),
{
    reveal(m_service);
    let p = v.comb.last();
    let ps = live_prongs(v);
    let k = ps.len() as int;
    assert(ps =~= v.comb);
    assert(ps[k - 1] == p);
    assert(p.fb_start <= v.fb.len());
    let l = LexemeView::BackspaceCount(n);
    let (p1, c1) = pre_phase(v.pos, v.flags.cancel_next_replacement, l, v.cb.len(), v.fb.len());
    assert(p1 == v.pos && c1 == v.flags.cancel_next_replacement);
    let v1 = TableView { pos: p1, flags: Flag { cancel_next_replacement: c1, ..v.flags }, ..v };
    assert(v1 =~= v);
    let nn = n as usize;
    assert(m_destiny(v, nn) == v);
    assert(covered(v));
    let (d, n1) = m_destroy_last(v, nn);
    let v0 = TableView { comb: v.comb.drop_last(), ..v };
    let va = m_rollback(v0, p.rollback_fn, WhenApplied::Before);
    assert(va.flags == v.flags && va.fb == v.fb && va.cb == v.cb);
    let vb = m_cut(va, p.fb_start);
    assert(vb.fb =~= v.fb.take(p.fb_start as int));
    assert(vb.synced == v.synced);
    let raw_len = p.cb_end - p.cb_start;
    assert(p.cb_end.wrapping_sub(p.cb_start) == raw_len);
    let new_cb_len = v.cb.len() - n;
    assert((v.cb.len() as usize).wrapping_sub(nn) == new_cb_len);
    let vc = TableView { cb: truncated(vb.cb, new_cb_len as usize), ..vb };
    assert(vc.cb =~= v.cb.take(new_cb_len));
    let vd = if new_cb_len > p.cb_start && p.cb_start <= vc.cb.len() {
        m_push(vc, vc.cb.skip(p.cb_start as int))
    } else {
        vc
    };
    assert(vd.fb =~= v.fb.take(p.fb_start as int) + v.cb.subrange(p.cb_start as int, new_cb_len));
    assert(d == m_rollback(vd, p.rollback_fn, WhenApplied::After));
    assert(n1 == 0);
    assert(m_erase_loop(v, nn) == m_erase_loop(d, n1));
    assert(m_erase_loop(d, n1) == d);
}

} // verus!
