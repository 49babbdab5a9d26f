//! Debounced screen output: text goes to the focused window through the
//! clipboard and one paste keystroke per burst, erasures first eat the text
//! not yet pasted and only then become real backspace keystrokes.
//!
//! The writers here decide; they touch neither the clipboard, nor the
//! keyboard, nor the clock. Each event (a text fragment, an erase count, a
//! timeout of the event loop) comes with the current time in milliseconds of a
//! monotonic clock, and yields the operating-system actions to perform in
//! order, the timeout for the next wait of the event loop, and whether the
//! time must be recorded once the actions are done.

use vstd::prelude::*;
use crate::text::{chars_of, string_from_chars};

verus! {

/// Cooldown between two operating-system interactions (paste or backspaces).
pub const COOLDOWN_MS: u64 = 100;

/// Time the operating system needs after a clipboard update before a paste.
pub const CLIPBOARD_ASSIMILATION_MS: u64 = 20;

/// Delay between two backspace keystrokes of the paste buffer.
pub const PASTE_BUFFER_BACKSPACE_DELAY_MS: u64 = 10;

/// Delay between two backspace keystrokes of the debouncer: the system input
/// queue keeps them in order, so none is needed.
pub const DEBOUNCER_BACKSPACE_DELAY_MS: u64 = 0;

/// An operating-system action, to be performed in order.
#[derive(Debug, PartialEq)]
pub enum WriterAction {
    /// Put this text into the clipboard.
    SetClipboard(String),
    /// Sleep for this many milliseconds.
    Wait(u64),
    /// Press the paste keystroke.
    Paste,
    /// Press backspace `count` times, sleeping `delay_ms` after each press;
    /// stop at the first press that fails.
    Backspaces { count: usize, delay_ms: u64 },
    /// Put the user's own clipboard text back.
    RestoreClipboard(String),
}

/// The mathematical form of an action.
pub enum ActionView {
    SetClipboard(Seq<char>),
    Wait(u64),
    Paste,
    Backspaces { count: usize, delay_ms: u64 },
    RestoreClipboard(Seq<char>),
}

impl View for WriterAction {
    type V = ActionView;

    open spec fn view(&self) -> ActionView {
        match self {
            WriterAction::SetClipboard(s) => ActionView::SetClipboard(s@),
            WriterAction::Wait(d) => ActionView::Wait(*d),
            WriterAction::Paste => ActionView::Paste,
            WriterAction::Backspaces { count, delay_ms } => ActionView::Backspaces {
                count: *count,
                delay_ms: *delay_ms,
            },
            WriterAction::RestoreClipboard(s) => ActionView::RestoreClipboard(s@),
        }
    }
}

/// The views of a list of actions.
pub open spec fn action_views(s: Seq<WriterAction>) -> Seq<ActionView> {
    s.map_values(|a: WriterAction| a@)
}

/// What an event yields.
pub struct WriterStep {
    /// Actions to perform, first to last.
    pub actions: Vec<WriterAction>,
    /// How long the event loop may wait for the next event; `None` for as
    /// long as it takes.
    pub timeout_ms: Option<u64>,
    /// Whether the time must be recorded, with `record_interaction`, once the
    /// actions are done: they ended with a keystroke.
    pub record_time: bool,
}

/// Time left before the next operating-system interaction is allowed, when
/// the last one was at `last` (`None`: long ago) and it is now `now`. A clock
/// that seems to go back counts as no time elapsed.
pub open spec fn remaining_cooldown(last: Option<u64>, now: u64) -> u64 {
    match last {
        None => 0,
        Some(t) => {
            let elapsed: int = if now >= t {
                now - t
            } else {
                0
            };
            if elapsed >= COOLDOWN_MS {
                0
            } else {
                (COOLDOWN_MS - elapsed) as u64
            }
        },
    }
}

/// A wait before a paste: the remaining cooldown, but no less than the time
/// the clipboard needs to settle.
pub open spec fn settle_delay(remaining: u64) -> u64 {
    if remaining < CLIPBOARD_ASSIMILATION_MS {
        CLIPBOARD_ASSIMILATION_MS
    } else {
        remaining
    }
}

/// A wait of `d` milliseconds, or nothing when `d` is zero.
pub open spec fn wait_views(d: u64) -> Seq<ActionView> {
    if d > 0 {
        seq![ActionView::Wait(d)]
    } else {
        seq![]
    }
}

fn cooldown_left(last: Option<u64>, now: u64) -> (r: u64)
    ensures
        r == remaining_cooldown(last, now),
        r <= COOLDOWN_MS,
{
    match last {
        None => 0,
        Some(t) => {
            let elapsed = if now >= t {
                now - t
            } else {
                0
            };
            if elapsed >= COOLDOWN_MS {
                0
            } else {
                COOLDOWN_MS - elapsed
            }
        },
    }
}

fn settle(remaining: u64) -> (r: u64)
    ensures
        r == settle_delay(remaining),
{
    if remaining < CLIPBOARD_ASSIMILATION_MS {
        CLIPBOARD_ASSIMILATION_MS
    } else {
        remaining
    }
}

fn push_wait(actions: &mut Vec<WriterAction>, d: u64)
    ensures
        action_views(final(actions)@) == action_views(old(actions)@) + wait_views(d),
{
    let ghost before = actions@;
    if d > 0 {
        actions.push(WriterAction::Wait(d));
        assert(action_views(actions@) =~= action_views(before) + wait_views(d));
    } else {
        assert(action_views(actions@) =~= action_views(before) + wait_views(d));
    }
}

/// Removes up to `count` characters from the end of `buf`.
fn pop_chars(buf: &mut Vec<char>, count: usize)
    requires
        count <= old(buf)@.len(),
    ensures
        final(buf)@ == old(buf)@.take(old(buf)@.len() - count),
{
    let ghost b0 = buf@;
    let mut k: usize = 0;
    while k < count
        invariant
            k <= count,
            count <= b0.len(),
            buf@ == b0.take(b0.len() - k),
        decreases count - k,
    {
        buf.pop();
        k = k + 1;
        assert(buf@ =~= b0.take(b0.len() - k));
    }
}

/// The debounced paste buffer of the first screen writer: text not yet
/// pasted and the time of the last keystroke.
pub struct PasteBuffer {
    /// Text not yet pasted into the focused window.
    pub text_buf: Vec<char>,
    /// When the last paste or backspace burst ended; `None`: long ago.
    pub last_interaction: Option<u64>,
}

impl PasteBuffer {
    /// An empty buffer, with the cooldown already over.
    pub fn new() -> (p: Self)
        ensures
            p.text_buf@.len() == 0,
            p.last_interaction is None,
    {
        PasteBuffer { text_buf: Vec::new(), last_interaction: None }
    }

    /// Records the time at which the actions of a step that asked for it
    /// were done.
    pub fn record_interaction(&mut self, now: u64)
        ensures
            final(self).text_buf == old(self).text_buf,
            final(self).last_interaction == Some(now),
    {
        self.last_interaction = Some(now);
    }

    /// How long the event loop may wait: as long as it takes when nothing
    /// waits to be pasted, the remaining cooldown otherwise.
    pub fn recv_timeout(&self, now: u64) -> (r: Option<u64>)
        ensures
            r == if self.text_buf@.len() == 0 {
                None
            } else {
                Some(remaining_cooldown(self.last_interaction, now))
            },
    {
        if self.text_buf.len() == 0 {
            None
        } else {
            Some(cooldown_left(self.last_interaction, now))
        }
    }

    /// Appends a text fragment and puts the whole pending text into the
    /// clipboard at once; the paste waits for the cooldown, and at least for
    /// the clipboard to settle.
    pub fn push_text(&mut self, new_text: &str, now: u64) -> (step: WriterStep)
        ensures
            final(self).text_buf@ == old(self).text_buf@ + new_text@,
            final(self).last_interaction == old(self).last_interaction,
            !step.record_time,
            final(self).text_buf@.len() == 0 ==> action_views(step.actions@) == Seq::<
                ActionView,
            >::empty() && step.timeout_ms is None,
            final(self).text_buf@.len() > 0 ==> action_views(step.actions@) == seq![
                ActionView::SetClipboard(final(self).text_buf@),
            ] && step.timeout_ms == Some(
                settle_delay(remaining_cooldown(old(self).last_interaction, now)),
            ),
    {
        let chars = chars_of(new_text);
        self.text_buf.extend_from_slice(chars.as_slice());
        let mut actions: Vec<WriterAction> = Vec::new();
        if self.text_buf.len() == 0 {
            assert(action_views(actions@) =~= Seq::<ActionView>::empty());
            return WriterStep { actions, timeout_ms: None, record_time: false };
        }
        actions.push(WriterAction::SetClipboard(string_from_chars(self.text_buf.as_slice())));
        assert(action_views(actions@) =~= seq![ActionView::SetClipboard(self.text_buf@)]);
        let delay = settle(cooldown_left(self.last_interaction, now));
        WriterStep { actions, timeout_ms: Some(delay), record_time: false }
    }

    /// Applies an erase of `count` characters: the pending text is eaten
    /// first, for free; only what is left becomes real backspace keystrokes,
    /// sent after the cooldown so that they cannot overtake a paste.
    pub fn apply_backspaces(&mut self, count: usize, now: u64) -> (step: WriterStep)
        ensures
            final(self).last_interaction == old(self).last_interaction,
            count <= old(self).text_buf@.len() ==> {
                let rest = old(self).text_buf@.take(old(self).text_buf@.len() - count);
                &&& final(self).text_buf@ == rest
                &&& !step.record_time
                &&& rest.len() == 0 ==> action_views(step.actions@) == Seq::<ActionView>::empty()
                    && step.timeout_ms is None
                &&& rest.len() > 0 ==> action_views(step.actions@) == seq![
                    ActionView::SetClipboard(rest),
                ] && step.timeout_ms == Some(
                    settle_delay(remaining_cooldown(old(self).last_interaction, now)),
                )
            },
            count > old(self).text_buf@.len() ==> {
                &&& final(self).text_buf@.len() == 0
                &&& step.record_time
                &&& step.timeout_ms is None
                &&& action_views(step.actions@) == wait_views(
                    remaining_cooldown(old(self).last_interaction, now),
                ) + seq![
                    ActionView::Backspaces {
                        count: (count - old(self).text_buf@.len()) as usize,
                        delay_ms: PASTE_BUFFER_BACKSPACE_DELAY_MS,
                    },
                ]
            },
    {
        let buf_len = self.text_buf.len();
        let mut actions: Vec<WriterAction> = Vec::new();
        if count <= buf_len {
            pop_chars(&mut self.text_buf, count);
            if self.text_buf.len() == 0 {
                assert(action_views(actions@) =~= Seq::<ActionView>::empty());
                return WriterStep { actions, timeout_ms: None, record_time: false };
            }
            actions.push(WriterAction::SetClipboard(string_from_chars(self.text_buf.as_slice())));
            assert(action_views(actions@) =~= seq![ActionView::SetClipboard(self.text_buf@)]);
            let delay = settle(cooldown_left(self.last_interaction, now));
            return WriterStep { actions, timeout_ms: Some(delay), record_time: false };
        }
        let rest = count - buf_len;
        self.text_buf.clear();
        let delay = cooldown_left(self.last_interaction, now);
        push_wait(&mut actions, delay);
        let ghost before = actions@;
        actions.push(
            WriterAction::Backspaces { count: rest, delay_ms: PASTE_BUFFER_BACKSPACE_DELAY_MS },
        );
        assert(action_views(actions@) =~= action_views(before) + seq![
            ActionView::Backspaces { count: rest, delay_ms: PASTE_BUFFER_BACKSPACE_DELAY_MS },
        ]);
        WriterStep { actions, timeout_ms: None, record_time: true }
    }

    /// Pastes the pending text, after the remaining cooldown; nothing when
    /// there is none.
    pub fn flush(&mut self, now: u64) -> (step: WriterStep)
        ensures
            final(self).text_buf@.len() == 0,
            final(self).last_interaction == old(self).last_interaction,
            step.timeout_ms is None,
            old(self).text_buf@.len() == 0 ==> action_views(step.actions@) == Seq::<
                ActionView,
            >::empty() && !step.record_time,
            old(self).text_buf@.len() > 0 ==> action_views(step.actions@) == wait_views(
                remaining_cooldown(old(self).last_interaction, now),
            ) + seq![ActionView::Paste] && step.record_time,
    {
        let mut actions: Vec<WriterAction> = Vec::new();
        if self.text_buf.len() == 0 {
            assert(action_views(actions@) =~= Seq::<ActionView>::empty());
            return WriterStep { actions, timeout_ms: None, record_time: false };
        }
        let delay = cooldown_left(self.last_interaction, now);
        push_wait(&mut actions, delay);
        let ghost before = actions@;
        actions.push(WriterAction::Paste);
        assert(action_views(actions@) =~= action_views(before) + seq![ActionView::Paste]);
        self.text_buf.clear();
        WriterStep { actions, timeout_ms: None, record_time: true }
    }
}

/// The restore of a saved clipboard text that ends a session: nothing when
/// no session is open or the saved text is empty.
pub open spec fn restore_views(saved: Option<String>) -> Seq<ActionView> {
    match saved {
        Some(t) => if t@.len() > 0 {
            seq![ActionView::RestoreClipboard(t@)]
        } else {
            seq![]
        },
        None => seq![],
    }
}

/// The debouncer of the screen writer: the paste buffer, plus a clipboard
/// session. The user's clipboard text is saved before the first override of
/// a session and put back once the last paste of the session is done.
pub struct Debouncer {
    /// Text not yet pasted into the focused window.
    pub text_buf: Vec<char>,
    /// When the last paste or backspace burst ended; `None`: long ago.
    pub last_interaction: Option<u64>,
    /// The user's clipboard text; `Some` also means that a session is open.
    pub saved_clipboard: Option<String>,
}

impl Debouncer {
    /// An empty debouncer, with no session and the cooldown already over.
    pub fn new() -> (d: Self)
        ensures
            d.text_buf@.len() == 0,
            d.last_interaction is None,
            d.saved_clipboard is None,
    {
        Debouncer { text_buf: Vec::new(), last_interaction: None, saved_clipboard: None }
    }

    /// Records the time at which the actions of a step that asked for it
    /// were done.
    pub fn record_interaction(&mut self, now: u64)
        ensures
            final(self).text_buf == old(self).text_buf,
            final(self).saved_clipboard == old(self).saved_clipboard,
            final(self).last_interaction == Some(now),
    {
        self.last_interaction = Some(now);
    }

    /// How long the event loop may wait: as long as it takes when nothing
    /// waits to be pasted and no session is open, the remaining cooldown
    /// otherwise.
    pub fn recv_timeout(&self, now: u64) -> (r: Option<u64>)
        ensures
            r == if self.text_buf@.len() == 0 && self.saved_clipboard is None {
                None
            } else {
                Some(remaining_cooldown(self.last_interaction, now))
            },
    {
        if self.text_buf.len() != 0 || self.saved_clipboard.is_some() {
            Some(cooldown_left(self.last_interaction, now))
        } else {
            None
        }
    }

    /// Whether `push_text` with this fragment opens a session, and so needs
    /// the user's clipboard text.
    pub fn capture_needed(&self, new_text: &str) -> (b: bool)
        ensures
            b == (self.saved_clipboard is None && self.text_buf@.len() + new_text@.len() > 0),
    {
        self.saved_clipboard.is_none() && (self.text_buf.len() > 0 || new_text.unicode_len() > 0)
    }

    /// Appends a text fragment and puts the whole pending text into the
    /// clipboard at once. The first override of a session saves the user's
    /// clipboard text first: `clipboard` is that text, read when
    /// `capture_needed` says so; `None` (unreadable, or not text) saves an
    /// empty text.
    pub fn push_text(&mut self, new_text: &str, clipboard: Option<String>, now: u64) -> (step:
        WriterStep)
        ensures
            final(self).text_buf@ == old(self).text_buf@ + new_text@,
            final(self).last_interaction == old(self).last_interaction,
            !step.record_time,
            final(self).text_buf@.len() == 0 ==> action_views(step.actions@) == Seq::<
                ActionView,
            >::empty() && step.timeout_ms is None && final(self).saved_clipboard == old(
                self,
            ).saved_clipboard,
            final(self).text_buf@.len() > 0 ==> {
                &&& action_views(step.actions@) == seq![
                    ActionView::SetClipboard(final(self).text_buf@),
                ]
                &&& step.timeout_ms == Some(
                    settle_delay(remaining_cooldown(old(self).last_interaction, now)),
                )
                &&& old(self).saved_clipboard is Some ==> final(self).saved_clipboard == old(
                    self,
                ).saved_clipboard
                &&& old(self).saved_clipboard is None ==> (final(self).saved_clipboard matches Some(
                    t,
                ) && t@ == match clipboard {
                    Some(c) => c@,
                    None => Seq::<char>::empty(),
                })
            },
    {
        let chars = chars_of(new_text);
        self.text_buf.extend_from_slice(chars.as_slice());
        let mut actions: Vec<WriterAction> = Vec::new();
        if self.text_buf.len() == 0 {
            assert(action_views(actions@) =~= Seq::<ActionView>::empty());
            return WriterStep { actions, timeout_ms: None, record_time: false };
        }
        if self.saved_clipboard.is_none() {
            let text = match clipboard {
                Some(c) => c,
                None => String::new(),
            };
            self.saved_clipboard = Some(text);
        }
        actions.push(WriterAction::SetClipboard(string_from_chars(self.text_buf.as_slice())));
        assert(action_views(actions@) =~= seq![ActionView::SetClipboard(self.text_buf@)]);
        let delay = settle(cooldown_left(self.last_interaction, now));
        WriterStep { actions, timeout_ms: Some(delay), record_time: false }
    }

    /// Ends the clipboard session: the saved text is put back, unless it is
    /// empty.
    fn finish_clipboard_session(&mut self, actions: &mut Vec<WriterAction>)
        ensures
            final(self).saved_clipboard is None,
            final(self).text_buf == old(self).text_buf,
            final(self).last_interaction == old(self).last_interaction,
            action_views(final(actions)@) == action_views(old(actions)@) + restore_views(
                old(self).saved_clipboard,
            ),
    {
        let ghost before = actions@;
        let ghost saved = self.saved_clipboard;
        match self.saved_clipboard.take() {
            Some(text) => {
                if text.unicode_len() > 0 {
                    actions.push(WriterAction::RestoreClipboard(text));
                    assert(action_views(actions@) =~= action_views(before) + restore_views(saved));
                } else {
                    assert(action_views(actions@) =~= action_views(before) + restore_views(saved));
                }
            },
            None => {
                assert(action_views(actions@) =~= action_views(before) + restore_views(saved));
            },
        }
    }

    /// Applies an erase of `count` characters: the pending text is eaten
    /// first, for free. Where that empties it, the session ends only after
    /// the cooldown, since a paste may still be under way. What is left
    /// beyond the pending text becomes real backspace keystrokes, sent after
    /// the cooldown; the session then ends at once.
    pub fn apply_backspaces(&mut self, count: usize, now: u64) -> (step: WriterStep)
        ensures
            final(self).last_interaction == old(self).last_interaction,
            count <= old(self).text_buf@.len() ==> {
                let rest = old(self).text_buf@.take(old(self).text_buf@.len() - count);
                &&& final(self).text_buf@ == rest
                &&& final(self).saved_clipboard == old(self).saved_clipboard
                &&& !step.record_time
                &&& rest.len() == 0 ==> action_views(step.actions@) == Seq::<ActionView>::empty()
                    && step.timeout_ms == if old(self).saved_clipboard is Some {
                    Some(remaining_cooldown(old(self).last_interaction, now))
                } else {
                    None
                }
                &&& rest.len() > 0 ==> action_views(step.actions@) == seq![
                    ActionView::SetClipboard(rest),
                ] && step.timeout_ms == Some(
                    settle_delay(remaining_cooldown(old(self).last_interaction, now)),
                )
            },
            count > old(self).text_buf@.len() ==> {
                &&& final(self).text_buf@.len() == 0
                &&& final(self).saved_clipboard is None
                &&& step.record_time
                &&& step.timeout_ms is None
                &&& action_views(step.actions@) == wait_views(
                    remaining_cooldown(old(self).last_interaction, now),
                ) + seq![
                    ActionView::Backspaces {
                        count: (count - old(self).text_buf@.len()) as usize,
                        delay_ms: DEBOUNCER_BACKSPACE_DELAY_MS,
                    },
                ] + restore_views(old(self).saved_clipboard)
            },
    {
        let buf_len = self.text_buf.len();
        let mut actions: Vec<WriterAction> = Vec::new();
        if count <= buf_len {
            pop_chars(&mut self.text_buf, count);
            if self.text_buf.len() == 0 {
                assert(action_views(actions@) =~= Seq::<ActionView>::empty());
                if self.saved_clipboard.is_some() {
                    let d = cooldown_left(self.last_interaction, now);
                    return WriterStep { actions, timeout_ms: Some(d), record_time: false };
                } else {
                    return WriterStep { actions, timeout_ms: None, record_time: false };
                }
            }
            actions.push(WriterAction::SetClipboard(string_from_chars(self.text_buf.as_slice())));
            assert(action_views(actions@) =~= seq![ActionView::SetClipboard(self.text_buf@)]);
            let delay = settle(cooldown_left(self.last_interaction, now));
            return WriterStep { actions, timeout_ms: Some(delay), record_time: false };
        }
        let rest = count - buf_len;
        self.text_buf.clear();
        let delay = cooldown_left(self.last_interaction, now);
        push_wait(&mut actions, delay);
        let ghost before = actions@;
        actions.push(
            WriterAction::Backspaces { count: rest, delay_ms: DEBOUNCER_BACKSPACE_DELAY_MS },
        );
        assert(action_views(actions@) =~= action_views(before) + seq![
            ActionView::Backspaces { count: rest, delay_ms: DEBOUNCER_BACKSPACE_DELAY_MS },
        ]);
        self.finish_clipboard_session(&mut actions);
        WriterStep { actions, timeout_ms: None, record_time: true }
    }

    /// Pastes the pending text after the remaining cooldown; the session
    /// stays open for one more cooldown, so that the target window reads the
    /// clipboard before it is put back. With nothing pending, an open session
    /// ends, after the remaining cooldown.
    pub fn flush(&mut self, now: u64) -> (step: WriterStep)
        ensures
            final(self).text_buf@.len() == 0,
            final(self).last_interaction == old(self).last_interaction,
            old(self).text_buf@.len() == 0 ==> {
                &&& final(self).saved_clipboard is None
                &&& !step.record_time
                &&& step.timeout_ms is None
                &&& action_views(step.actions@) == if old(self).saved_clipboard is Some {
                    wait_views(remaining_cooldown(old(self).last_interaction, now))
                        + restore_views(old(self).saved_clipboard)
                } else {
                    Seq::<ActionView>::empty()
                }
            },
            old(self).text_buf@.len() > 0 ==> {
                &&& final(self).saved_clipboard == old(self).saved_clipboard
                &&& step.record_time
                &&& action_views(step.actions@) == wait_views(
                    remaining_cooldown(old(self).last_interaction, now),
                ) + seq![ActionView::Paste]
                &&& step.timeout_ms == if old(self).saved_clipboard is Some {
                    Some(COOLDOWN_MS)
                } else {
                    None
                }
            },
    {
        let mut actions: Vec<WriterAction> = Vec::new();
        if self.text_buf.len() == 0 {
            if self.saved_clipboard.is_some() {
                let delay = cooldown_left(self.last_interaction, now);
                push_wait(&mut actions, delay);
                assert(action_views(actions@) =~= wait_views(delay));
                self.finish_clipboard_session(&mut actions);
            } else {
                assert(action_views(actions@) =~= Seq::<ActionView>::empty());
            }
            return WriterStep { actions, timeout_ms: None, record_time: false };
        }
        let delay = cooldown_left(self.last_interaction, now);
        push_wait(&mut actions, delay);
        assert(action_views(actions@) =~= wait_views(delay));
        let ghost before = actions@;
        actions.push(WriterAction::Paste);
        assert(action_views(actions@) =~= action_views(before) + seq![ActionView::Paste]);
        self.text_buf.clear();
        let timeout = if self.saved_clipboard.is_some() {
            Some(COOLDOWN_MS)
        } else {
            None
        };
        WriterStep { actions, timeout_ms: timeout, record_time: true }
    }
}

} // verus!
