//! Registry of the supplementary actions that go with text substitutions,
//! and the actions themselves.
//!
//! An action adjusts the context of a substitution: it may move the left
//! boundaries of the substitution's prong (to swallow a whitespace before
//! it) or raise a flag of the table that acts on the next lexeme. A rollback
//! undoes the flag side of an action when the substitution is destroyed.

use vstd::prelude::*;
use crate::text::chars_of;
use crate::frankenstein_laboratory::surgical_table::{Flag, Prong, SurgeTable, same_but_flags, ws_before};

verus! {

/// Phase in which an action or rollback is called: before or after the
/// replacement text is written.
#[derive(Clone, Copy, Debug, PartialEq, Eq)]
pub enum WhenApplied {
    Before,
    After,
}

/// The supplementary actions a substitution rule can name.
#[derive(Clone, Copy, Debug, PartialEq, Eq)]
pub enum SupplementaryAction {
    DoNothing,
    SuppressWhitespaceBefore,
    SuppressWhitespaceAfter,
    SuppressWhitespaceBeforeAndAfter,
    CapitalizeNextWord,
    LowercaseNextWord,
    SuppressWhitespaceBeforeAndCapitalizeNextWord,
    CancelNextReplacement,
    DisableOutput,
    EnableOutput,
}

/// The rollbacks that undo the flag side of an action.
#[derive(Clone, Copy, Debug, PartialEq, Eq)]
pub enum SupplementaryRollback {
    RollbackSuppressWhitespaceAfter,
    RollbackCapitalizeNextWord,
    RollbackCancelNextReplacement,
}

/// An action with the rollback that undoes it, if any.
pub type ActionPair = (SupplementaryAction, Option<SupplementaryRollback>);

/// The registered modifiers: name, action and rollback, in registration order.
pub open spec fn registry() -> Seq<(Seq<char>, SupplementaryAction, Option<SupplementaryRollback>)> {
    seq![
        ("do_nothing"@, SupplementaryAction::DoNothing, None),
        ("suppress_whitespace_before"@, SupplementaryAction::SuppressWhitespaceBefore, None),
        (
            "suppress_whitespace_after"@,
            SupplementaryAction::SuppressWhitespaceAfter,
            Some(SupplementaryRollback::RollbackSuppressWhitespaceAfter),
        ),
        (
            "suppress_whitespace_before_and_after"@,
            SupplementaryAction::SuppressWhitespaceBeforeAndAfter,
            Some(SupplementaryRollback::RollbackSuppressWhitespaceAfter),
        ),
        (
            "capitalize_next_word"@,
            SupplementaryAction::CapitalizeNextWord,
            Some(SupplementaryRollback::RollbackCapitalizeNextWord),
        ),
        ("lowercase_next_word"@, SupplementaryAction::LowercaseNextWord, None),
        (
            "suppress_whitespace_before_and_capitalize_next_word"@,
            SupplementaryAction::SuppressWhitespaceBeforeAndCapitalizeNextWord,
            Some(SupplementaryRollback::RollbackCapitalizeNextWord),
        ),
        (
            "cancel_next_replacement"@,
            SupplementaryAction::CancelNextReplacement,
            Some(SupplementaryRollback::RollbackCancelNextReplacement),
        ),
        ("disable_output"@, SupplementaryAction::DisableOutput, None),
        ("enable_output"@, SupplementaryAction::EnableOutput, None),
    ]
}

/// The pair registered under `key` in `entries`: the first entry with that name.
pub open spec fn lookup_pair(
    entries: Seq<(Seq<char>, SupplementaryAction, Option<SupplementaryRollback>)>,
    key: Seq<char>,
) -> Option<ActionPair>
    decreases entries.len(),
{
    if entries.len() == 0 {
        None
    } else if entries[0].0 == key {
        Some((entries[0].1, entries[0].2))
    } else {
        lookup_pair(entries.drop_first(), key)
    }
}

/// Name-keyed registry of the available supplementary actions.
pub struct SupplementaryActionMap {
    entries: Vec<(Vec<char>, SupplementaryAction, Option<SupplementaryRollback>)>,
}

impl View for SupplementaryActionMap {
    type V = Seq<(Seq<char>, SupplementaryAction, Option<SupplementaryRollback>)>;

    closed spec fn view(&self) -> Self::V {
        self.entries@.map_values(
            |e: (Vec<char>, SupplementaryAction, Option<SupplementaryRollback>)| (e.0@, e.1, e.2),
        )
    }
}

/// Whether two character vectors hold the same text.
pub fn chars_equal(a: &Vec<char>, b: &Vec<char>) -> (r: bool)
    ensures
        r == (a@ == b@),
{
    if a.len() != b.len() {
        return false;
    }
    let mut i: usize = 0;
    while i < a.len()
        invariant
            a@.len() == b@.len(),
            i <= a@.len(),
            forall|j: int| 0 <= j < i ==> a@[j] == b@[j],
        decreases a@.len() - i,
    {
        if a[i] != b[i] {
            return false;
        }
        i = i + 1;
    }
    assert(a@ =~= b@);
    true
}

impl SupplementaryActionMap {
    fn register(
        &mut self,
        name: &str,
        action: SupplementaryAction,
        rollback: Option<SupplementaryRollback>,
    )
        ensures
            final(self)@ == old(self)@.push((name@, action, rollback)),
    {
        let ghost before = self@;
        self.entries.push((chars_of(name), action, rollback));
        assert(self@ =~= before.push((name@, action, rollback)));
    }

    /// Creates the registry with every known action. Every modifier name that
    /// a substitution rule may use is registered here.
    pub fn new() -> (m: Self)
        ensures
            m@ == registry(),
    {
        let mut m = SupplementaryActionMap { entries: Vec::new() };
        assert(m@ =~= Seq::empty());
        m.register("do_nothing", SupplementaryAction::DoNothing, None);
        m.register("suppress_whitespace_before", SupplementaryAction::SuppressWhitespaceBefore, None);
        m.register(
            "suppress_whitespace_after",
            SupplementaryAction::SuppressWhitespaceAfter,
            Some(SupplementaryRollback::RollbackSuppressWhitespaceAfter),
        );
        m.register(
            "suppress_whitespace_before_and_after",
            SupplementaryAction::SuppressWhitespaceBeforeAndAfter,
            Some(SupplementaryRollback::RollbackSuppressWhitespaceAfter),
        );
        m.register(
            "capitalize_next_word",
            SupplementaryAction::CapitalizeNextWord,
            Some(SupplementaryRollback::RollbackCapitalizeNextWord),
        );
        m.register("lowercase_next_word", SupplementaryAction::LowercaseNextWord, None);
        m.register(
            "suppress_whitespace_before_and_capitalize_next_word",
            SupplementaryAction::SuppressWhitespaceBeforeAndCapitalizeNextWord,
            Some(SupplementaryRollback::RollbackCapitalizeNextWord),
        );
        m.register(
            "cancel_next_replacement",
            SupplementaryAction::CancelNextReplacement,
            Some(SupplementaryRollback::RollbackCancelNextReplacement),
        );
        m.register("disable_output", SupplementaryAction::DisableOutput, None);
        m.register("enable_output", SupplementaryAction::EnableOutput, None);
        assert(m@ =~= registry());
        m
    }

    /// The action and rollback registered under `key`, if any.
    pub fn get_pair(&self, key: &str) -> (r: Option<ActionPair>)
        ensures
            r == lookup_pair(self@, key@),
    {
        let k = chars_of(key);
        let mut i: usize = 0;
        assert(self@.skip(0) =~= self@);
        while i < self.entries.len()
            invariant
                i <= self@.len(),
                self@.len() == self.entries@.len(),
                k@ == key@,
                lookup_pair(self@, key@) == lookup_pair(self@.skip(i as int), key@),
            decreases self@.len() - i,
        {
            let ghost rest = self@.skip(i as int);
            assert(rest[0] == self@[i as int]);
            assert(rest.drop_first() =~= self@.skip(i + 1));
            let entry = &self.entries[i];
            if chars_equal(&entry.0, &k) {
                return Some((entry.1, entry.2));
            }
            i = i + 1;
        }
        None
    }
}


// -----------------------------------------------------------------------------
// What the actions do
// -----------------------------------------------------------------------------

/// The flags after an action in a given phase.
pub open spec fn action_flags(a: SupplementaryAction, when: WhenApplied, f: Flag) -> Flag {
    if when is Before {
        f
    } else {
        match a {
            SupplementaryAction::SuppressWhitespaceAfter
            | SupplementaryAction::SuppressWhitespaceBeforeAndAfter => Flag {
                suppress_next_whitespace: true,
                ..f
            },
            SupplementaryAction::CapitalizeNextWord
            | SupplementaryAction::SuppressWhitespaceBeforeAndCapitalizeNextWord => Flag {
                capitalize_next_word: true,
                ..f
            },
            SupplementaryAction::LowercaseNextWord => Flag { capitalize_next_word: false, ..f },
            SupplementaryAction::CancelNextReplacement => Flag {
                cancel_next_replacement: true,
                ..f
            },
            SupplementaryAction::DisableOutput => Flag {
                is_output_enabled: false,
                pending_clear: true,
                ..f
            },
            SupplementaryAction::EnableOutput => Flag {
                is_output_enabled: true,
                pending_clear: true,
                ..f
            },
            _ => f,
        }
    }
}

/// Whether an action swallows a whitespace before the replacement.
pub open spec fn shifts_left(a: SupplementaryAction) -> bool {
    a is SuppressWhitespaceBefore || a is SuppressWhitespaceBeforeAndAfter
        || a is SuppressWhitespaceBeforeAndCapitalizeNextWord
}

/// The prong after an action in a given phase: swallowing a whitespace moves
/// both left boundaries one character to the left.
pub open spec fn action_prong(
    a: SupplementaryAction,
    when: WhenApplied,
    cb: Seq<char>,
    fb: Seq<char>,
    p: Prong,
) -> Prong {
    if shifts_left(a) && when is Before && ws_before(cb, fb, p) {
        Prong { cb_start: (p.cb_start - 1) as usize, fb_start: (p.fb_start - 1) as usize, ..p }
    } else {
        p
    }
}

/// The flags after a rollback in a given phase.
pub open spec fn rollback_flags(r: SupplementaryRollback, when: WhenApplied, f: Flag) -> Flag {
    if when is Before {
        f
    } else {
        match r {
            SupplementaryRollback::RollbackSuppressWhitespaceAfter => Flag {
                suppress_next_whitespace: false,
                ..f
            },
            SupplementaryRollback::RollbackCapitalizeNextWord => Flag {
                capitalize_next_word: false,
                ..f
            },
            SupplementaryRollback::RollbackCancelNextReplacement => Flag {
                cancel_next_replacement: false,
                ..f
            },
        }
    }
}

/// Whether the flag that an action raises is already up in `f`.
pub open spec fn raised_already(a: SupplementaryAction, f: Flag) -> bool {
    match a {
        SupplementaryAction::SuppressWhitespaceAfter
        | SupplementaryAction::SuppressWhitespaceBeforeAndAfter => f.suppress_next_whitespace,
        SupplementaryAction::CapitalizeNextWord
        | SupplementaryAction::SuppressWhitespaceBeforeAndCapitalizeNextWord => f.capitalize_next_word,
        SupplementaryAction::CancelNextReplacement => f.cancel_next_replacement,
        _ => false,
    }
}

/// A registered rollback undoes the flag side of its action: run in both
/// phases after the action ran in both phases, it gives back the flags from
/// before the action, provided the flag the action raises was down then.
pub proof fn law_rollback_undoes_action(i: int, f: Flag)
    requires
        0 <= i < registry().len(),
        registry()[i].2 is Some,
        !raised_already(registry()[i].1, f),
    ensures
        ({
            let a = registry()[i].1;
            let rb = registry()[i].2.unwrap();
            let acted = action_flags(a, WhenApplied::After, action_flags(a, WhenApplied::Before, f));
            rollback_flags(rb, WhenApplied::After, rollback_flags(rb, WhenApplied::Before, acted))
                == f
        }),
{
}

/// What each registered action does to the flags: nothing before the
/// replacement is written; after it, an action whose rollback lowers a flag
/// raises that very flag, lowercasing the next word lowers the capitalize
/// flag, disabling and enabling the output switch it and ask for a clear,
/// and any other action with no rollback leaves the flags alone.
pub proof fn law_actions_raise_their_flags(i: int, f: Flag)
    requires
        0 <= i < registry().len(),
    ensures
        ({
            let (_name, a, rb) = registry()[i];
            let g = action_flags(a, WhenApplied::After, f);
            &&& action_flags(a, WhenApplied::Before, f) == f
            &&& rb == Some(SupplementaryRollback::RollbackCapitalizeNextWord) ==> g.capitalize_next_word
            &&& rb == Some(SupplementaryRollback::RollbackSuppressWhitespaceAfter)
                ==> g.suppress_next_whitespace
            &&& rb == Some(SupplementaryRollback::RollbackCancelNextReplacement)
                ==> g.cancel_next_replacement
            &&& a == SupplementaryAction::LowercaseNextWord ==> !g.capitalize_next_word
            &&& a == SupplementaryAction::DisableOutput ==> !g.is_output_enabled && g.pending_clear
            &&& a == SupplementaryAction::EnableOutput ==> g.is_output_enabled && g.pending_clear
            &&& rb is None && !(a is DisableOutput || a is EnableOutput || a is LowercaseNextWord)
                ==> g == f
        }),
{
}

/// What each registered action does to the prong: an action that suppresses
/// the whitespace before the replacement swallows one whitespace standing
/// just before the prong on both boards, by moving both left boundaries one
/// character left, before the replacement is written; every other action,
/// and every action after the replacement, leaves the prong alone.
pub proof fn law_actions_move_prong(i: int, cb: Seq<char>, fb: Seq<char>, p: Prong)
    requires
        0 <= i < registry().len(),
    ensures
        ({
            let a = registry()[i].1;
            let q = action_prong(a, WhenApplied::Before, cb, fb, p);
            &&& action_prong(a, WhenApplied::After, cb, fb, p) == p
            &&& (a is SuppressWhitespaceBefore || a is SuppressWhitespaceBeforeAndAfter
                || a is SuppressWhitespaceBeforeAndCapitalizeNextWord) && ws_before(cb, fb, p) ==> {
                &&& q.cb_start == p.cb_start - 1
                &&& q.fb_start == p.fb_start - 1
                &&& q.cb_end == p.cb_end
                &&& q.fb_end == p.fb_end
                &&& q.rollback_fn == p.rollback_fn
            }
            &&& !((a is SuppressWhitespaceBefore || a is SuppressWhitespaceBeforeAndAfter
                || a is SuppressWhitespaceBeforeAndCapitalizeNextWord) && ws_before(cb, fb, p))
                ==> q == p
        }),
{
}

/// What each rollback does to the flags: nothing before the raw text is
/// restored; after it, the flag its action raised is lowered and every other
/// flag is kept.
pub proof fn law_rollbacks_lower_their_flags(r: SupplementaryRollback, f: Flag)
    ensures
        rollback_flags(r, WhenApplied::Before, f) == f,
        r == SupplementaryRollback::RollbackCapitalizeNextWord ==> rollback_flags(
            r,
            WhenApplied::After,
            f,
        ) == (Flag { capitalize_next_word: false, ..f }),
        r == SupplementaryRollback::RollbackSuppressWhitespaceAfter ==> rollback_flags(
            r,
            WhenApplied::After,
            f,
        ) == (Flag { suppress_next_whitespace: false, ..f }),
        r == SupplementaryRollback::RollbackCancelNextReplacement ==> rollback_flags(
            r,
            WhenApplied::After,
            f,
        ) == (Flag { cancel_next_replacement: false, ..f }),
{
}

/// Does nothing: the default action for substitutions with no context to adjust.
pub fn do_nothing(surge_table: &mut SurgeTable, prong: &mut Prong, when_applied: WhenApplied)
    ensures
        *final(surge_table) == *old(surge_table),
        *final(prong) == *old(prong),
{
}

/// Swallows the whitespace before the replacement, for tokens that attach to
/// the preceding word (a closing parenthesis). Before the replacement is
/// written, it moves both left boundaries of the prong one character to the
/// left when a whitespace stands there on both boards; the table then erases
/// that whitespace with the key, and restores it on rollback.
pub fn suppress_whitespace_before(
    surge_table: &mut SurgeTable,
    prong: &mut Prong,
    when_applied: WhenApplied,
)
    ensures
        *final(surge_table) == *old(surge_table),
        *final(prong) == action_prong(
            SupplementaryAction::SuppressWhitespaceBefore,
            when_applied,
            old(surge_table).cutting_board@,
            old(surge_table).franken_board@,
            *old(prong),
        ),
{
    if !matches!(when_applied, WhenApplied::Before) {
        return;
    }
    if surge_table.has_whitespace_before_candidate(prong) {
        prong.cb_start = prong.cb_start - 1;
        prong.fb_start = prong.fb_start - 1;
    }
}

/// Sets the flag that makes the table hide the next whitespace, for tokens
/// that attach to the following word (an opening parenthesis).
pub fn suppress_whitespace_after(
    surge_table: &mut SurgeTable,
    prong: &mut Prong,
    when_applied: WhenApplied,
)
    ensures
        same_but_flags(*old(surge_table), *final(surge_table)),
        final(surge_table).flags == action_flags(
            SupplementaryAction::SuppressWhitespaceAfter,
            when_applied,
            old(surge_table).flags,
        ),
        *final(prong) == *old(prong),
{
    if matches!(when_applied, WhenApplied::After) {
        surge_table.flags.suppress_next_whitespace = true;
    }
}

/// Rollback of `suppress_whitespace_after`.
pub fn rollback_suppress_whitespace_after(
    surge_table: &mut SurgeTable,
    prong: &mut Prong,
    when_applied: WhenApplied,
)
    ensures
        same_but_flags(*old(surge_table), *final(surge_table)),
        final(surge_table).flags == rollback_flags(
            SupplementaryRollback::RollbackSuppressWhitespaceAfter,
            when_applied,
            old(surge_table).flags,
        ),
        *final(prong) == *old(prong),
{
    if matches!(when_applied, WhenApplied::After) {
        surge_table.flags.suppress_next_whitespace = false;
    }
}

/// Swallows the whitespace before the replacement and hides the one after it.
pub fn suppress_whitespace_before_and_after(
    surge_table: &mut SurgeTable,
    prong: &mut Prong,
    when_applied: WhenApplied,
)
    ensures
        same_but_flags(*old(surge_table), *final(surge_table)),
        final(surge_table).flags == action_flags(
            SupplementaryAction::SuppressWhitespaceBeforeAndAfter,
            when_applied,
            old(surge_table).flags,
        ),
        *final(prong) == action_prong(
            SupplementaryAction::SuppressWhitespaceBeforeAndAfter,
            when_applied,
            old(surge_table).cutting_board@,
            old(surge_table).franken_board@,
            *old(prong),
        ),
{
    suppress_whitespace_before(surge_table, prong, when_applied);
    suppress_whitespace_after(surge_table, prong, when_applied);
}

/// Sets the flag that capitalizes the next word.
pub fn capitalize_next_word(surge_table: &mut SurgeTable, prong: &mut Prong, when_applied: WhenApplied)
    ensures
        same_but_flags(*old(surge_table), *final(surge_table)),
        final(surge_table).flags == action_flags(
            SupplementaryAction::CapitalizeNextWord,
            when_applied,
            old(surge_table).flags,
        ),
        *final(prong) == *old(prong),
{
    if matches!(when_applied, WhenApplied::After) {
        surge_table.flags.capitalize_next_word = true;
    }
}

/// Rollback of capitalization when the substitution is destroyed.
pub fn rollback_capitalize_next_word(
    surge_table: &mut SurgeTable,
    prong: &mut Prong,
    when_applied: WhenApplied,
)
    ensures
        same_but_flags(*old(surge_table), *final(surge_table)),
        final(surge_table).flags == rollback_flags(
            SupplementaryRollback::RollbackCapitalizeNextWord,
            when_applied,
            old(surge_table).flags,
        ),
        *final(prong) == *old(prong),
{
    if matches!(when_applied, WhenApplied::After) {
        surge_table.flags.capitalize_next_word = false;
    }
}

/// Drops the request to capitalize the next word. It has no rollback.
pub fn lowercase_next_word(surge_table: &mut SurgeTable, prong: &mut Prong, when_applied: WhenApplied)
    ensures
        same_but_flags(*old(surge_table), *final(surge_table)),
        final(surge_table).flags == action_flags(
            SupplementaryAction::LowercaseNextWord,
            when_applied,
            old(surge_table).flags,
        ),
        *final(prong) == *old(prong),
{
    if matches!(when_applied, WhenApplied::After) {
        surge_table.flags.capitalize_next_word = false;
    }
}

/// Swallows the whitespace before the replacement and capitalizes the next
/// word (a full stop).
pub fn suppress_whitespace_before_and_capitalize_next_word(
    surge_table: &mut SurgeTable,
    prong: &mut Prong,
    when_applied: WhenApplied,
)
    ensures
        same_but_flags(*old(surge_table), *final(surge_table)),
        final(surge_table).flags == action_flags(
            SupplementaryAction::SuppressWhitespaceBeforeAndCapitalizeNextWord,
            when_applied,
            old(surge_table).flags,
        ),
        *final(prong) == action_prong(
            SupplementaryAction::SuppressWhitespaceBeforeAndCapitalizeNextWord,
            when_applied,
            old(surge_table).cutting_board@,
            old(surge_table).franken_board@,
            *old(prong),
        ),
{
    suppress_whitespace_before(surge_table, prong, when_applied);
    capitalize_next_word(surge_table, prong, when_applied);
}

/// Sets the flag that leaves the next key phrase as raw text.
pub fn cancel_next_replacement(
    surge_table: &mut SurgeTable,
    prong: &mut Prong,
    when_applied: WhenApplied,
)
    ensures
        same_but_flags(*old(surge_table), *final(surge_table)),
        final(surge_table).flags == action_flags(
            SupplementaryAction::CancelNextReplacement,
            when_applied,
            old(surge_table).flags,
        ),
        *final(prong) == *old(prong),
{
    if matches!(when_applied, WhenApplied::After) {
        surge_table.flags.cancel_next_replacement = true;
    }
}

/// Rollback of `cancel_next_replacement`.
pub fn rollback_cancel_next_replacement(
    surge_table: &mut SurgeTable,
    prong: &mut Prong,
    when_applied: WhenApplied,
)
    ensures
        same_but_flags(*old(surge_table), *final(surge_table)),
        final(surge_table).flags == rollback_flags(
            SupplementaryRollback::RollbackCancelNextReplacement,
            when_applied,
            old(surge_table).flags,
        ),
        *final(prong) == *old(prong),
{
    if matches!(when_applied, WhenApplied::After) {
        surge_table.flags.cancel_next_replacement = false;
    }
}

/// Turns screen output off and asks for the table to be cleared.
pub fn disable_output(surge_table: &mut SurgeTable, prong: &mut Prong, when_applied: WhenApplied)
    ensures
        same_but_flags(*old(surge_table), *final(surge_table)),
        final(surge_table).flags == action_flags(
            SupplementaryAction::DisableOutput,
            when_applied,
            old(surge_table).flags,
        ),
        *final(prong) == *old(prong),
{
    if matches!(when_applied, WhenApplied::After) {
        surge_table.flags.is_output_enabled = false;
        surge_table.flags.pending_clear = true;
    }
}

/// Turns screen output on and asks for the table to be cleared.
pub fn enable_output(surge_table: &mut SurgeTable, prong: &mut Prong, when_applied: WhenApplied)
    ensures
        same_but_flags(*old(surge_table), *final(surge_table)),
        final(surge_table).flags == action_flags(
            SupplementaryAction::EnableOutput,
            when_applied,
            old(surge_table).flags,
        ),
        *final(prong) == *old(prong),
{
    if matches!(when_applied, WhenApplied::After) {
        surge_table.flags.is_output_enabled = true;
        surge_table.flags.pending_clear = true;
    }
}

/// Calls the function of `action`.
pub fn apply_action(
    action: SupplementaryAction,
    surge_table: &mut SurgeTable,
    prong: &mut Prong,
    when_applied: WhenApplied,
)
    ensures
        same_but_flags(*old(surge_table), *final(surge_table)),
        final(surge_table).flags == action_flags(action, when_applied, old(surge_table).flags),
        *final(prong) == action_prong(
            action,
            when_applied,
            old(surge_table).cutting_board@,
            old(surge_table).franken_board@,
            *old(prong),
        ),
{
    match action {
        SupplementaryAction::DoNothing => do_nothing(surge_table, prong, when_applied),
        SupplementaryAction::SuppressWhitespaceBefore => suppress_whitespace_before(
            surge_table,
            prong,
            when_applied,
        ),
        SupplementaryAction::SuppressWhitespaceAfter => suppress_whitespace_after(
            surge_table,
            prong,
            when_applied,
        ),
        SupplementaryAction::SuppressWhitespaceBeforeAndAfter => suppress_whitespace_before_and_after(
            surge_table,
            prong,
            when_applied,
        ),
        SupplementaryAction::CapitalizeNextWord => capitalize_next_word(
            surge_table,
            prong,
            when_applied,
        ),
        SupplementaryAction::LowercaseNextWord => lowercase_next_word(
            surge_table,
            prong,
            when_applied,
        ),
        SupplementaryAction::SuppressWhitespaceBeforeAndCapitalizeNextWord => {
            suppress_whitespace_before_and_capitalize_next_word(surge_table, prong, when_applied)
        },
        SupplementaryAction::CancelNextReplacement => cancel_next_replacement(
            surge_table,
            prong,
            when_applied,
        ),
        SupplementaryAction::DisableOutput => disable_output(surge_table, prong, when_applied),
        SupplementaryAction::EnableOutput => enable_output(surge_table, prong, when_applied),
    }
}

/// Calls the function of `rollback`.
pub fn apply_rollback(
    rollback: SupplementaryRollback,
    surge_table: &mut SurgeTable,
    prong: &mut Prong,
    when_applied: WhenApplied,
)
    ensures
        same_but_flags(*old(surge_table), *final(surge_table)),
        final(surge_table).flags == rollback_flags(rollback, when_applied, old(surge_table).flags),
        *final(prong) == *old(prong),
{
    match rollback {
        SupplementaryRollback::RollbackSuppressWhitespaceAfter => rollback_suppress_whitespace_after(
            surge_table,
            prong,
            when_applied,
        ),
        SupplementaryRollback::RollbackCapitalizeNextWord => rollback_capitalize_next_word(
            surge_table,
            prong,
            when_applied,
        ),
        SupplementaryRollback::RollbackCancelNextReplacement => rollback_cancel_next_replacement(
            surge_table,
            prong,
            when_applied,
        ),
    }
}

} // verus!
