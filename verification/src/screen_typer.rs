//! Screen output by keyboard emulation: text is typed as Unicode key presses,
//! line breaks as Enter, erasures as backspace key presses. No clipboard
//! and no buffering. What to press is decided here; pressing is left to the
//! caller.

use vstd::prelude::*;
use crate::screen_transfer::ScreenTransfer;
use crate::text::{chars_of, string_from_chars};

verus! {

/// How long the user activity tracker must ignore input after our own key
/// presses, in milliseconds.
pub const SELF_INPUT_SUPPRESSION_MS: u64 = 150;

/// A keyboard action, to be performed in order.
#[derive(Debug, PartialEq)]
pub enum TypeAction {
    /// Tell the user activity tracker to ignore input for this many
    /// milliseconds: the presses that follow are ours.
    SuppressTracking(u64),
    /// Type this text as Unicode key presses.
    TypeUnicode(String),
    /// Press Enter: a line break.
    Enter,
    /// Press backspace this many times; stop at the first press that fails.
    Backspaces(usize),
}

/// The mathematical form of a keyboard action.
pub enum TypeView {
    SuppressTracking(u64),
    TypeUnicode(Seq<char>),
    Enter,
    Backspaces(usize),
}

impl View for TypeAction {
    type V = TypeView;

    open spec fn view(&self) -> TypeView {
        match self {
            TypeAction::SuppressTracking(ms) => TypeView::SuppressTracking(*ms),
            TypeAction::TypeUnicode(s) => TypeView::TypeUnicode(s@),
            TypeAction::Enter => TypeView::Enter,
            TypeAction::Backspaces(n) => TypeView::Backspaces(*n),
        }
    }
}

/// The views of a list of keyboard actions.
pub open spec fn type_views(s: Seq<TypeAction>) -> Seq<TypeView> {
    s.map_values(|a: TypeAction| a@)
}

/// The text that a list of keyboard actions types.
pub open spec fn typed_text(ps: Seq<TypeView>) -> Seq<char>
    decreases ps.len(),
{
    if ps.len() == 0 {
        seq![]
    } else {
        typed_text(ps.drop_last()) + match ps.last() {
            TypeView::TypeUnicode(s) => s,
            TypeView::Enter => seq!['\n'],
            _ => seq![],
        }
    }
}

/// A typing plan of a text: Unicode runs and line breaks only, every run
/// non-empty and free of line breaks, and no two runs next to each other.
pub open spec fn well_split(ps: Seq<TypeView>) -> bool {
    &&& forall|i: int|
        0 <= i < ps.len() ==> (#[trigger] ps[i] is TypeUnicode || ps[i] is Enter)
    &&& forall|i: int|
        0 <= i < ps.len() && #[trigger] ps[i] is TypeUnicode ==> ps[i]->TypeUnicode_0.len() > 0
            && !ps[i]->TypeUnicode_0.contains('\n')
    &&& forall|i: int|
        0 <= i < ps.len() - 1 && #[trigger] ps[i] is TypeUnicode ==> ps[i + 1] is Enter
}

proof fn lemma_typed_push(ps: Seq<TypeView>, a: TypeView)
    ensures
        typed_text(ps.push(a)) == typed_text(ps) + match a {
            TypeView::TypeUnicode(s) => s,
            TypeView::Enter => seq!['\n'],
            _ => seq![],
        },
{
    assert(ps.push(a).drop_last() =~= ps);
}

/// Pushes the pending run, if any, as one Unicode action.
fn flush_run(plan: &mut Vec<TypeAction>, buf: &mut Vec<char>)
    requires
        well_split(type_views(old(plan)@)),
        old(plan)@.len() > 0 ==> old(plan)@.last() is Enter,
        !old(buf)@.contains('\n'),
    ensures
        well_split(type_views(final(plan)@)),
        final(buf)@.len() == 0,
        typed_text(type_views(final(plan)@)) == typed_text(type_views(old(plan)@)) + old(buf)@,
        old(buf)@.len() == 0 ==> final(plan)@ == old(plan)@,
{
    let ghost p0 = type_views(plan@);
    if buf.len() > 0 {
        let s = string_from_chars(buf.as_slice());
        plan.push(TypeAction::TypeUnicode(s));
        proof {
            assert(type_views(plan@) =~= p0.push(TypeView::TypeUnicode(s@)));
            lemma_typed_push(p0, TypeView::TypeUnicode(s@));
            let p = type_views(plan@);
            assert forall|i: int| 0 <= i < p.len() - 1 && #[trigger] p[i] is TypeUnicode implies p[i
                + 1] is Enter by {
                assert(p[i] == p0[i]);
                if i + 1 < p0.len() {
                    assert(p[i + 1] == p0[i + 1]);
                }
            }
        }
        buf.clear();
    } else {
        assert(typed_text(p0) + buf@ =~= typed_text(p0));
    }
}

/// The key presses that type `text`: runs of ordinary characters as Unicode
/// text, each line break as Enter.
pub fn type_text_plan(text: &str) -> (plan: Vec<TypeAction>)
    ensures
        typed_text(type_views(plan@)) == text@,
        well_split(type_views(plan@)),
{
    let chars = chars_of(text);
    let mut plan: Vec<TypeAction> = Vec::new();
    let mut buf: Vec<char> = Vec::new();
    let mut i: usize = 0;
    assert(typed_text(type_views(plan@)) + buf@ =~= chars@.take(0));
    while i < chars.len()
        invariant
            i <= chars@.len(),
            chars@ == text@,
            well_split(type_views(plan@)),
            plan@.len() > 0 ==> plan@.last() is Enter,
            !buf@.contains('\n'),
            typed_text(type_views(plan@)) + buf@ == chars@.take(i as int),
        decreases chars@.len() - i,
    {
        let c = chars[i];
        assert(chars@.take(i + 1) =~= chars@.take(i as int).push(c));
        if c == '\n' {
            flush_run(&mut plan, &mut buf);
            let ghost p0 = type_views(plan@);
            plan.push(TypeAction::Enter);
            proof {
                assert(type_views(plan@) =~= p0.push(TypeView::Enter));
                lemma_typed_push(p0, TypeView::Enter);
                let p = type_views(plan@);
                assert forall|j: int| 0 <= j < p.len() - 1 && #[trigger] p[j] is TypeUnicode implies p[j
                    + 1] is Enter by {
                    assert(p[j] == p0[j]);
                    if j + 1 < p0.len() {
                        assert(p[j + 1] == p0[j + 1]);
                    }
                }
                assert(buf@ =~= Seq::<char>::empty());
                assert(typed_text(p) + buf@ =~= chars@.take(i + 1));
            }
        } else {
            let ghost b0 = buf@;
            buf.push(c);
            proof {
                assert(!buf@.contains('\n')) by {
                    if buf@.contains('\n') {
                        let k = choose|k: int| 0 <= k < buf@.len() && buf@[k] == '\n';
                        if k < b0.len() {
                            assert(b0[k] == '\n');
                        }
                    }
                }
                assert(typed_text(type_views(plan@)) + buf@ =~= chars@.take(i + 1));
            }
        }
        i = i + 1;
    }
    flush_run(&mut plan, &mut buf);
    assert(chars@.take(chars@.len() as int) =~= chars@);
    plan
}

/// The key presses for one screen command: typed text or backspaces, each
/// announced to the user activity tracker first; nothing for an empty text
/// or a zero count.
pub fn typer_actions(transfer: &ScreenTransfer) -> (actions: Vec<TypeAction>)
    ensures
        match transfer {
            ScreenTransfer::Text(t) => if t@.len() == 0 {
                actions@.len() == 0
            } else {
                &&& actions@.len() > 0
                &&& actions@[0] == TypeAction::SuppressTracking(SELF_INPUT_SUPPRESSION_MS)
                &&& typed_text(type_views(actions@.skip(1))) == t@
                &&& well_split(type_views(actions@.skip(1)))
            },
            ScreenTransfer::Backspace(n) => if *n == 0 {
                actions@.len() == 0
            } else {
                type_views(actions@) == seq![
                    TypeView::SuppressTracking(SELF_INPUT_SUPPRESSION_MS),
                    TypeView::Backspaces(*n),
                ]
            },
        },
{
    let mut actions: Vec<TypeAction> = Vec::new();
    match transfer {
        ScreenTransfer::Text(t) => {
            if t.unicode_len() > 0 {
                actions.push(TypeAction::SuppressTracking(SELF_INPUT_SUPPRESSION_MS));
                let mut plan = type_text_plan(t.as_str());
                let ghost p = plan@;
                actions.append(&mut plan);
                assert(actions@.skip(1) =~= p);
            }
        },
        ScreenTransfer::Backspace(n) => {
            if *n > 0 {
                actions.push(TypeAction::SuppressTracking(SELF_INPUT_SUPPRESSION_MS));
                actions.push(TypeAction::Backspaces(*n));
                assert(type_views(actions@) =~= seq![
                    TypeView::SuppressTracking(SELF_INPUT_SUPPRESSION_MS),
                    TypeView::Backspaces(*n),
                ]);
            }
        },
    }
    actions
}

} // verus!
