//! Registry of the supplementary actions of the first text processor. Its
//! actions change nothing and return no rollback.

use vstd::prelude::*;
use crate::text::chars_of;
use crate::frankenstein_laboratory::supplementary_action_map::chars_equal;
use crate::text_processor::surgical_table::SurgeTable;

verus! {

/// The actions of the first registry.
#[derive(Clone, Copy, Debug, PartialEq, Eq)]
pub enum SupplementaryAction {
    DoNothing,
    SuppressSpaceBefore,
    SuppressSpaceAfter,
}

/// A rollback of the first registry: none exists yet.
#[derive(Clone, Copy, Debug, PartialEq, Eq)]
pub struct SupplementaryRollback;

/// The registered modifiers, in registration order.
pub open spec fn registry() -> Seq<(Seq<char>, SupplementaryAction)> {
    seq![
        ("do_nothing"@, SupplementaryAction::DoNothing),
        ("suppress_space_before"@, SupplementaryAction::SuppressSpaceBefore),
        ("suppress_space_after"@, SupplementaryAction::SuppressSpaceAfter),
    ]
}

/// The action registered under `key` in `entries`: the first with that name.
pub open spec fn lookup(entries: Seq<(Seq<char>, SupplementaryAction)>, key: Seq<char>) -> Option<
    SupplementaryAction,
>
    decreases entries.len(),
{
    if entries.len() == 0 {
        None
    } else if entries[0].0 == key {
        Some(entries[0].1)
    } else {
        lookup(entries.drop_first(), key)
    }
}

/// Name-keyed registry of the available actions.
pub struct SupplementaryActionMap {
    entries: Vec<(Vec<char>, SupplementaryAction)>,
}

impl View for SupplementaryActionMap {
    type V = Seq<(Seq<char>, SupplementaryAction)>;

    closed spec fn view(&self) -> Self::V {
        self.entries@.map_values(|e: (Vec<char>, SupplementaryAction)| (e.0@, e.1))
    }
}

impl SupplementaryActionMap {
    /// Creates the registry with every known action.
    pub fn new() -> (m: Self)
        ensures
            m@ == registry(),
    {
        let mut entries: Vec<(Vec<char>, SupplementaryAction)> = Vec::new();
        entries.push((chars_of("do_nothing"), SupplementaryAction::DoNothing));
        entries.push((chars_of("suppress_space_before"), SupplementaryAction::SuppressSpaceBefore));
        entries.push((chars_of("suppress_space_after"), SupplementaryAction::SuppressSpaceAfter));
        let m = SupplementaryActionMap { entries };
        assert(m@ =~= registry());
        m
    }

    /// The action registered under `key`, if any.
    pub fn get(&self, key: &str) -> (r: Option<SupplementaryAction>)
        ensures
            r == lookup(self@, key@),
    {
        let k = chars_of(key);
        let mut i: usize = 0;
        assert(self@.skip(0) =~= self@);
        while i < self.entries.len()
            invariant
                i <= self@.len(),
                self@.len() == self.entries@.len(),
                k@ == key@,
                lookup(self@, key@) == lookup(self@.skip(i as int), key@),
            decreases self@.len() - i,
        {
            let ghost rest = self@.skip(i as int);
            assert(rest[0] == self@[i as int]);
            assert(rest.drop_first() =~= self@.skip(i + 1));
            if chars_equal(&self.entries[i].0, &k) {
                return Some(self.entries[i].1);
            }
            i = i + 1;
        }
        None
    }
}

/// Does nothing.
pub fn do_nothing(surge_table: &mut SurgeTable, is_call_before: bool) -> (r: Option<
    SupplementaryRollback,
>)
    ensures
        r is None,
        *final(surge_table) == *old(surge_table),
{
    None
}

/// Registered for suppressing the whitespace before the replacement; it
/// changes nothing.
pub fn suppress_space_before(surge_table: &mut SurgeTable, is_call_before: bool) -> (r: Option<
    SupplementaryRollback,
>)
    ensures
        r is None,
        *final(surge_table) == *old(surge_table),
{
    None
}

/// Registered for suppressing the whitespace after the replacement; it
/// changes nothing.
pub fn suppress_space_after(surge_table: &mut SurgeTable, is_call_before: bool) -> (r: Option<
    SupplementaryRollback,
>)
    ensures
        r is None,
        *final(surge_table) == *old(surge_table),
{
    None
}

} // verus!
