//! Cleanup decisions. User-space items are removed (permanently or to the
//! Trash) by the shell; privileged items go to the helper instead.
//!
//! Defense in depth: even though scanners already exclude protected paths,
//! every deletion is re-checked against the [`Safelist`] right before it
//! happens.

use vstd::prelude::*;
use crate::safety::{protects, Safelist, SafelistView};
use crate::path::path_starts_with;
use crate::types::{is_marker, is_priv_marker, CleanReport, ScanItem};

verus! {

/// Path to the installed privileged helper.
pub const HELPER_PATH: &'static str = "/usr/libexec/cleanmylinux-helper";

/// The reason recorded for an item the safelist refused.
pub const BLOCKED_REASON: &'static str = "blocked by safelist";

/// What the cleaner does with one selected item.
#[derive(Debug, Clone, Copy, PartialEq, Eq, Structural)]
pub enum CleanAction {
    /// A `priv://` row: not this cleaner's job (the helper runs it).
    SkipPrivileged,
    /// The safelist refuses the path: recorded as a failure, nothing deleted.
    Blocked,
    /// Delete it (as the item's delete mode says).
    Delete,
}

/// One step of a cleanup run: the index of a selected item and its action.
#[derive(Debug, Clone, Copy)]
pub struct CleanStep {
    pub index: usize,
    pub action: CleanAction,
}

/// Whether a path may be deleted: inside home and not protected.
pub open spec fn safe_user_path(sl: SafelistView, path: Seq<char>) -> bool {
    path_starts_with(path, sl.home) && !protects(sl, path)
}

/// The action for an item at `path`.
pub open spec fn action_for(sl: SafelistView, path: Seq<char>) -> CleanAction {
    if is_marker(path) {
        CleanAction::SkipPrivileged
    } else if !safe_user_path(sl, path) {
        CleanAction::Blocked
    } else {
        CleanAction::Delete
    }
}

pub fn clean_action(safelist: &Safelist, item: &ScanItem) -> (a: CleanAction)
    ensures
        a == action_for(safelist@, item.path@),
{
    if is_priv_marker(item.path.as_str()) {
        CleanAction::SkipPrivileged
    } else if !safelist.is_safe_user_path(item.path.as_str()) {
        CleanAction::Blocked
    } else {
        CleanAction::Delete
    }
}

/// The indices of the selected items, in order.
pub open spec fn selected_indices(items: Seq<ScanItem>) -> Seq<int>
    decreases items.len(),
{
    if items.len() == 0 {
        seq![]
    } else {
        let prev = selected_indices(items.drop_last());
        if items.last().selected {
            prev.push(items.len() - 1)
        } else {
            prev
        }
    }
}

proof fn lemma_selected_indices_bound(items: Seq<ScanItem>, k: int)
    requires
        0 <= k < selected_indices(items).len(),
    ensures
        0 <= selected_indices(items)[k] < items.len(),
        items[selected_indices(items)[k]].selected,
    decreases items.len(),
{
    if items.len() > 0 {
        let prev = selected_indices(items.drop_last());
        if k < prev.len() {
            lemma_selected_indices_bound(items.drop_last(), k);
        }
    }
}

/// The steps of a cleanup run over `items`: one per selected item, in order,
/// each with the action the safelist decides for its path.
pub open spec fn is_clean_plan(sl: SafelistView, items: Seq<ScanItem>, steps: Seq<CleanStep>) -> bool {
    &&& steps.len() == selected_indices(items).len()
    &&& forall|k: int|
        0 <= k < steps.len() ==> (#[trigger] steps[k]).index == selected_indices(items)[k]
            && steps[k].action == action_for(sl, items[steps[k].index as int].path@)
}

/// Plan the cleanup of the selected `items`.
pub fn plan_clean(safelist: &Safelist, items: &Vec<ScanItem>) -> (steps: Vec<CleanStep>)
    ensures
        is_clean_plan(safelist@, items@, steps@),
{
    let mut steps: Vec<CleanStep> = Vec::new();
    let mut i: usize = 0;
    while i < items.len()
        invariant
            i <= items.len(),
            is_clean_plan(safelist@, items@.take(i as int), steps@),
            forall|k: int| 0 <= k < steps@.len() ==> (#[trigger] steps@[k]).index < i,
        decreases items.len() - i,
    {
        let ghost prefix = items@.take(i + 1);
        proof {
            assert(prefix.drop_last() == items@.take(i as int));
            assert(prefix.last() == items@[i as int]);
        }
        if items[i].selected {
            let action = clean_action(safelist, &items[i]);
            let ghost old_steps = steps@;
            steps.push(CleanStep { index: i, action });
            proof {
                assert forall|k: int| 0 <= k < steps@.len() implies (#[trigger] steps@[k]).index
                    == selected_indices(prefix)[k] && steps@[k].action == action_for(
                    safelist@,
                    prefix[steps@[k].index as int].path@,
                ) by {
                    if k < old_steps.len() {
                        assert(steps@[k] == old_steps[k]);
                        assert(prefix[steps@[k].index as int] == items@.take(i as int)[steps@[k].index as int]);
                    }
                }
            }
        } else {
            proof {
                assert forall|k: int| 0 <= k < steps@.len() implies (#[trigger] steps@[k]).index
                    == selected_indices(prefix)[k] && steps@[k].action == action_for(
                    safelist@,
                    prefix[steps@[k].index as int].path@,
                ) by {
                    assert(prefix[steps@[k].index as int] == items@.take(i as int)[steps@[k].index as int]);
                }
            }
        }
        i = i + 1;
    }
    assert(items@.take(items@.len() as int) == items@);
    steps
}

/// A cleanup never deletes a privileged marker, nor a path outside home or
/// under protection: every `Delete` step names a selected, deletable path.
pub proof fn law_clean_deletes_only_safe_paths(
    sl: SafelistView,
    items: Seq<ScanItem>,
    steps: Seq<CleanStep>,
    k: int,
)
    requires
        is_clean_plan(sl, items, steps),
        0 <= k < steps.len(),
        steps[k].action == CleanAction::Delete,
    ensures
        0 <= steps[k].index < items.len(),
        items[steps[k].index as int].selected,
        !is_marker(items[steps[k].index as int].path@),
        path_starts_with(items[steps[k].index as int].path@, sl.home),
        !protects(sl, items[steps[k].index as int].path@),
{
    lemma_selected_indices_bound(items, k);
}

/// Unselected items are never touched: each step names a selected item.
pub proof fn law_clean_steps_are_selected(
    sl: SafelistView,
    items: Seq<ScanItem>,
    steps: Seq<CleanStep>,
    k: int,
)
    requires
        is_clean_plan(sl, items, steps),
        0 <= k < steps.len(),
    ensures
        0 <= steps[k].index < items.len(),
        items[steps[k].index as int].selected,
{
    lemma_selected_indices_bound(items, k);
}

pub open spec fn failure_views(f: Seq<(String, String)>) -> Seq<(Seq<char>, Seq<char>)> {
    f.map_values(|p: (String, String)| (p.0@, p.1@))
}

impl CleanReport {
    /// Record an item the safelist refused.
    pub fn record_blocked(&mut self, path: &str)
        ensures
            final(self).freed_bytes == old(self).freed_bytes,
            final(self).removed == old(self).removed,
            failure_views(final(self).failures@) == failure_views(old(self).failures@).push(
                (path@, BLOCKED_REASON@),
            ),
    {
        self.record_failure(path, BLOCKED_REASON.to_owned());
    }

    /// Record an item that could not be removed, with the reason.
    pub fn record_failure(&mut self, path: &str, reason: String)
        ensures
            final(self).freed_bytes == old(self).freed_bytes,
            final(self).removed == old(self).removed,
            failure_views(final(self).failures@) == failure_views(old(self).failures@).push(
                (path@, reason@),
            ),
    {
        let ghost before = self.failures@;
        self.failures.push((path.to_owned(), reason));
        assert(failure_views(self.failures@) =~= failure_views(before).push((path@, reason@)));
    }

    /// Record an item removed, freeing `freed` bytes.
    pub fn record_removed(&mut self, freed: u64)
        requires
            old(self).freed_bytes + freed <= u64::MAX,
            old(self).removed < usize::MAX,
        ensures
            final(self).freed_bytes == old(self).freed_bytes + freed,
            final(self).removed == old(self).removed + 1,
            final(self).failures@ == old(self).failures@,
    {
        self.freed_bytes = self.freed_bytes + freed;
        self.removed = self.removed + 1;
    }
}

/// The report of a run that carried out the first `outcomes.len()` steps:
/// `(freed bytes, removed, failures as (path, reason))`. An outcome is `None`
/// for a step that deletes nothing (a privileged row, a refused path), and
/// for a deletion the bytes it freed or why it failed.
pub open spec fn run_report(
    items: Seq<ScanItem>,
    steps: Seq<CleanStep>,
    outcomes: Seq<Option<Result<u64, String>>>,
) -> (int, nat, Seq<(Seq<char>, Seq<char>)>)
    decreases outcomes.len(),
{
    if outcomes.len() == 0 {
        (0, 0, seq![])
    } else {
        let prev = run_report(items, steps, outcomes.drop_last());
        let k = outcomes.len() - 1;
        let path = items[steps[k].index as int].path@;
        match steps[k].action {
            CleanAction::SkipPrivileged => prev,
            CleanAction::Blocked => (prev.0, prev.1, prev.2.push((path, BLOCKED_REASON@))),
            CleanAction::Delete => match outcomes[k] {
                Some(Ok(n)) => (prev.0 + n, prev.1 + 1, prev.2),
                Some(Err(e)) => (prev.0, prev.1, prev.2.push((path, e@))),
                None => prev,
            },
        }
    }
}

/// The outcomes line up with the steps: a deletion has an outcome, no other
/// step has one, and every step names an item.
pub open spec fn outcomes_fit(
    items: Seq<ScanItem>,
    steps: Seq<CleanStep>,
    outcomes: Seq<Option<Result<u64, String>>>,
) -> bool {
    &&& outcomes.len() <= steps.len()
    &&& forall|k: int| 0 <= k < steps.len() ==> (#[trigger] steps[k]).index < items.len()
    &&& forall|k: int|
        0 <= k < outcomes.len() ==> ((#[trigger] steps[k]).action == CleanAction::Delete
            <==> outcomes[k] is Some)
}

proof fn lemma_run_report_freed_prefix(
    items: Seq<ScanItem>,
    steps: Seq<CleanStep>,
    outcomes: Seq<Option<Result<u64, String>>>,
    k: int,
)
    requires
        0 <= k <= outcomes.len(),
    ensures
        0 <= run_report(items, steps, outcomes.take(k)).0 <= run_report(items, steps, outcomes).0,
        run_report(items, steps, outcomes.take(k)).1 <= k,
    decreases outcomes.len() - k,
{
    lemma_run_report_bounds(items, steps, outcomes.take(k));
    if k < outcomes.len() {
        lemma_run_report_freed_prefix(items, steps, outcomes, k + 1);
        assert(outcomes.take(k + 1).drop_last() == outcomes.take(k));
        assert(outcomes.take(k + 1)[k] == outcomes[k]);
    } else {
        assert(outcomes.take(k) == outcomes);
    }
}

proof fn lemma_run_report_bounds(
    items: Seq<ScanItem>,
    steps: Seq<CleanStep>,
    outcomes: Seq<Option<Result<u64, String>>>,
)
    ensures
        run_report(items, steps, outcomes).0 >= 0,
        run_report(items, steps, outcomes).1 <= outcomes.len(),
    decreases outcomes.len(),
{
    if outcomes.len() > 0 {
        lemma_run_report_bounds(items, steps, outcomes.drop_last());
    }
}

/// The report of a run: each refused path and each failed deletion is a
/// failure with its reason, each deletion that worked counts as removed and
/// adds what it freed; privileged rows add nothing.
pub fn run_clean_report(
    items: &Vec<ScanItem>,
    steps: &Vec<CleanStep>,
    outcomes: &Vec<Option<Result<u64, String>>>,
) -> (rep: CleanReport)
    requires
        outcomes_fit(items@, steps@, outcomes@),
        run_report(items@, steps@, outcomes@).0 <= u64::MAX,
    ensures
        rep.freed_bytes == run_report(items@, steps@, outcomes@).0,
        rep.removed == run_report(items@, steps@, outcomes@).1,
        failure_views(rep.failures@) == run_report(items@, steps@, outcomes@).2,
        rep.freed_bytes == freed_total(outcomes@),
        rep.removed == ok_count(outcomes@),
{
    proof {
        law_clean_run_freed_is_deleted_bytes(items@, steps@, outcomes@);
    }
    let mut rep = CleanReport { freed_bytes: 0, removed: 0, failures: Vec::new() };
    let mut k: usize = 0;
    while k < outcomes.len()
        invariant
            k <= outcomes.len(),
            outcomes_fit(items@, steps@, outcomes@),
            run_report(items@, steps@, outcomes@).0 <= u64::MAX,
            rep.freed_bytes == run_report(items@, steps@, outcomes@.take(k as int)).0,
            rep.removed == run_report(items@, steps@, outcomes@.take(k as int)).1,
            rep.removed <= k,
            failure_views(rep.failures@) == run_report(items@, steps@, outcomes@.take(k as int)).2,
        decreases outcomes.len() - k,
    {
        proof {
            assert(outcomes@.take(k + 1).drop_last() == outcomes@.take(k as int));
            assert(outcomes@.take(k + 1)[k as int] == outcomes@[k as int]);
            lemma_run_report_freed_prefix(items@, steps@, outcomes@, k + 1);
        }
        let step = steps[k];
        let path = items[step.index].path.as_str();
        match step.action {
            CleanAction::SkipPrivileged => {},
            CleanAction::Blocked => {
                rep.record_blocked(path);
            },
            CleanAction::Delete => match &outcomes[k] {
                Some(Ok(n)) => {
                    rep.record_removed(*n);
                },
                Some(Err(e)) => {
                    rep.record_failure(path, e.clone());
                },
                None => {},
            },
        }
        k = k + 1;
    }
    assert(outcomes@.take(outcomes@.len() as int) == outcomes@);
    rep
}

/// How many of `idx`'s items are not privileged markers.
pub open spec fn count_unmarked(items: Seq<ScanItem>, idx: Seq<int>) -> nat
    decreases idx.len(),
{
    if idx.len() == 0 {
        0
    } else {
        count_unmarked(items, idx.drop_last()) + if !is_marker(items[idx.last()].path@) {
            1nat
        } else {
            0nat
        }
    }
}

/// How many of `steps` are not skipped.
pub open spec fn count_acting(steps: Seq<CleanStep>) -> nat
    decreases steps.len(),
{
    if steps.len() == 0 {
        0
    } else {
        count_acting(steps.drop_last()) + if steps.last().action != CleanAction::SkipPrivileged {
            1nat
        } else {
            0nat
        }
    }
}

proof fn lemma_report_counts_acting(
    items: Seq<ScanItem>,
    steps: Seq<CleanStep>,
    outcomes: Seq<Option<Result<u64, String>>>,
)
    requires
        outcomes_fit(items, steps, outcomes),
    ensures
        run_report(items, steps, outcomes).1 + run_report(items, steps, outcomes).2.len()
            == count_acting(steps.take(outcomes.len() as int)),
    decreases outcomes.len(),
{
    if outcomes.len() > 0 {
        let n = outcomes.len() as int;
        let init = outcomes.drop_last();
        assert(outcomes_fit(items, steps, init)) by {
            assert forall|k: int| 0 <= k < init.len() implies ((#[trigger] steps[k]).action
                == CleanAction::Delete <==> init[k] is Some) by {
                assert(init[k] == outcomes[k]);
            }
        }
        lemma_report_counts_acting(items, steps, init);
        assert(steps.take(n).drop_last() == steps.take(n - 1));
        assert(steps.take(n).last() == steps[n - 1]);
    }
}

proof fn lemma_plan_acting_unmarked(sl: SafelistView, items: Seq<ScanItem>, steps: Seq<CleanStep>, n: int)
    requires
        is_clean_plan(sl, items, steps),
        0 <= n <= steps.len(),
    ensures
        count_acting(steps.take(n)) == count_unmarked(items, selected_indices(items).take(n)),
    decreases n,
{
    if n > 0 {
        lemma_plan_acting_unmarked(sl, items, steps, n - 1);
        assert(steps.take(n).drop_last() == steps.take(n - 1));
        assert(steps.take(n).last() == steps[n - 1]);
        let sel = selected_indices(items);
        assert(sel.take(n).drop_last() == sel.take(n - 1));
        assert(sel.take(n).last() == sel[n - 1]);
    }
}

/// The bytes freed by the deletions that worked, read off the outcomes alone.
pub open spec fn freed_total(outcomes: Seq<Option<Result<u64, String>>>) -> int
    decreases outcomes.len(),
{
    if outcomes.len() == 0 {
        0
    } else {
        freed_total(outcomes.drop_last()) + match outcomes.last() {
            Some(Ok(n)) => n as int,
            _ => 0int,
        }
    }
}

/// How many of the outcomes are deletions that worked.
pub open spec fn ok_count(outcomes: Seq<Option<Result<u64, String>>>) -> nat
    decreases outcomes.len(),
{
    if outcomes.len() == 0 {
        0
    } else {
        ok_count(outcomes.drop_last()) + match outcomes.last() {
            Some(Ok(_)) => 1nat,
            _ => 0nat,
        }
    }
}

proof fn lemma_outcomes_fit_drop_last(
    items: Seq<ScanItem>,
    steps: Seq<CleanStep>,
    outcomes: Seq<Option<Result<u64, String>>>,
)
    requires
        outcomes_fit(items, steps, outcomes),
        outcomes.len() > 0,
    ensures
        outcomes_fit(items, steps, outcomes.drop_last()),
{
    let init = outcomes.drop_last();
    assert forall|k: int| 0 <= k < init.len() implies ((#[trigger] steps[k]).action
        == CleanAction::Delete <==> init[k] is Some) by {
        assert(init[k] == outcomes[k]);
    }
}

/// The bytes a run reports as freed are exactly the sum of what its
/// deletions freed, and the items it reports as removed are exactly its
/// deletions that worked: a privileged row or a refused path adds nothing.
pub proof fn law_clean_run_freed_is_deleted_bytes(
    items: Seq<ScanItem>,
    steps: Seq<CleanStep>,
    outcomes: Seq<Option<Result<u64, String>>>,
)
    requires
        outcomes_fit(items, steps, outcomes),
    ensures
        run_report(items, steps, outcomes).0 == freed_total(outcomes),
        run_report(items, steps, outcomes).1 == ok_count(outcomes),
    decreases outcomes.len(),
{
    if outcomes.len() > 0 {
        lemma_outcomes_fit_drop_last(items, steps, outcomes);
        law_clean_run_freed_is_deleted_bytes(items, steps, outcomes.drop_last());
        let k = outcomes.len() - 1;
        assert(outcomes.last() == outcomes[k]);
        assert(steps[k].action == CleanAction::Delete <==> outcomes[k] is Some);
    }
}

/// A cleanup run that was not cancelled accounts for every selected item
/// that is not privileged: each is either removed or reported as a failure.
pub proof fn law_clean_run_accounts_for_every_item(
    sl: SafelistView,
    items: Seq<ScanItem>,
    steps: Seq<CleanStep>,
    outcomes: Seq<Option<Result<u64, String>>>,
)
    requires
        is_clean_plan(sl, items, steps),
        outcomes_fit(items, steps, outcomes),
        outcomes.len() == steps.len(),
    ensures
        run_report(items, steps, outcomes).1 + run_report(items, steps, outcomes).2.len()
            == count_unmarked(items, selected_indices(items)),
{
    lemma_report_counts_acting(items, steps, outcomes);
    lemma_plan_acting_unmarked(sl, items, steps, steps.len() as int);
    assert(steps.take(steps.len() as int) == steps);
    assert(selected_indices(items).take(steps.len() as int) == selected_indices(items));
}

} // verus!
