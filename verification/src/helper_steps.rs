//! What the privileged helper does for a request, once it has looked at the
//! system: reply at once, run one read-only command, or run the commands that
//! change the system. A dry run never gets the last.

use vstd::prelude::*;
use crate::helper::{
    apt_clean_dry, estimate, flatpak_missing, journal_cap, join,
    prune_kernels_plan, prune_snap_missing, prune_snap_plan, refuse_if_dpkg_locked, vacuum_cap,
    vacuum_journal_dry, vacuum_size_arg, apt_autoremove_dry, flatpak_unused_dry, apt_clean_done,
    apt_autoremove_done, prune_kernels_done, vacuum_journal_done, flatpak_unused_done, last_line_or,
};
use crate::helper_ipc::{HelperOp, HelperRequest, HelperResponse};
use crate::text::{decimal_digits, lines, trim};
use crate::helper::first_lines;

verus! {

/// What the helper does next.
pub enum HelperAction {
    /// Reply at once; nothing is run.
    Reply(HelperResponse),
    /// Run this read-only command (program, then arguments) and reply from
    /// its output.
    ReadOnly(Vec<String>),
    /// Run these commands, which change the system, in order.
    Changing(Vec<Vec<String>>),
}

/// What the helper found out before deciding, for each operation.
pub enum HelperFacts {
    /// The apt archive size now, and whether apt/dpkg is busy.
    AptClean { before: u64, locked: bool },
    AptAutoremove { locked: bool },
    /// The kernel packages to purge (see `kernel_removal_candidates`).
    PruneOldKernels { candidates: Vec<String>, locked: bool },
    VacuumJournal,
    /// Whether snap is installed, and its disabled `(name, revision)`s.
    PruneSnapRevisions { has_snap: bool, disabled: Vec<(String, String)> },
    FlatpakRemoveUnused { has_flatpak: bool },
    /// The measured estimate.
    EstimateOnly { bytes: u64 },
}

pub open spec fn argv(v: Seq<String>) -> Seq<Seq<char>> {
    v.map_values(|s: String| s@)
}

pub open spec fn commands_view(c: Seq<Vec<String>>) -> Seq<Seq<Seq<char>>> {
    c.map_values(|v: Vec<String>| argv(v@))
}

/// An action as plain values.
pub enum ActionView {
    Reply(bool, u64, Seq<char>),
    ReadOnly(Seq<Seq<char>>),
    Changing(Seq<Seq<Seq<char>>>),
}

pub open spec fn action_view(a: HelperAction) -> ActionView {
    match a {
        HelperAction::Reply(r) => ActionView::Reply(r.ok, r.freed_bytes, r.message@),
        HelperAction::ReadOnly(c) => ActionView::ReadOnly(argv(c@)),
        HelperAction::Changing(c) => ActionView::Changing(commands_view(c@)),
    }
}

pub open spec fn busy_message() -> Seq<char> {
    "package manager is busy; try again after apt/dpkg finishes"@
}

/// `apt-get clean`: a dry run reports the cache size; a busy package manager
/// refuses; otherwise clean.
pub open spec fn apt_clean_action(dry: bool, locked: bool, before: u64) -> ActionView {
    if dry {
        ActionView::Reply(true, before, "would clean apt cache"@)
    } else if locked {
        ActionView::Reply(false, 0, busy_message())
    } else {
        ActionView::Changing(seq![seq!["apt-get"@, "clean"@]])
    }
}

/// `apt-get autoremove`: a dry run only simulates.
pub open spec fn apt_autoremove_action(dry: bool, locked: bool) -> ActionView {
    if dry {
        ActionView::ReadOnly(seq!["apt-get"@, "-s"@, "autoremove"@])
    } else if locked {
        ActionView::Reply(false, 0, busy_message())
    } else {
        ActionView::Changing(seq![seq!["apt-get"@, "autoremove"@, "--purge"@, "-y"@]])
    }
}

/// Kernel pruning: nothing to remove, or (dry) the list; a busy package
/// manager refuses; otherwise purge the candidates.
pub open spec fn prune_kernels_action(candidates: Seq<Seq<char>>, dry: bool, locked: bool) -> ActionView {
    if candidates.len() == 0 {
        ActionView::Reply(true, 0, "no removable kernels"@)
    } else if dry {
        ActionView::Reply(true, 0, "would remove: "@ + join(candidates, ", "@))
    } else if locked {
        ActionView::Reply(false, 0, busy_message())
    } else {
        ActionView::Changing(seq![seq!["apt-get"@, "purge"@, "-y"@] + candidates])
    }
}

/// Journal vacuum to the clamped cap.
pub open spec fn vacuum_action(max_mb: u64, dry: bool) -> ActionView {
    let cap = journal_cap(max_mb);
    if dry {
        ActionView::Reply(true, 0, "would vacuum journal to "@ + decimal_digits(cap as nat) + "M"@)
    } else {
        ActionView::Changing(
            seq![seq!["journalctl"@, "--vacuum-size="@ + decimal_digits(cap as nat) + "M"@]],
        )
    }
}

pub open spec fn snap_remove_command(rev: (Seq<char>, Seq<char>)) -> Seq<Seq<char>> {
    seq!["snap"@, "remove"@, rev.0, "--revision"@, rev.1]
}

/// Disabled snap revisions: one `snap remove` per revision.
pub open spec fn prune_snap_action(has_snap: bool, disabled: Seq<(Seq<char>, Seq<char>)>, dry: bool) -> ActionView {
    if !has_snap {
        ActionView::Reply(true, 0, "snap not installed"@)
    } else if disabled.len() == 0 {
        ActionView::Reply(true, 0, "no old snap revisions"@)
    } else if dry {
        ActionView::Reply(
            true,
            0,
            "would remove "@ + decimal_digits(disabled.len()) + " old snap revision(s)"@,
        )
    } else {
        ActionView::Changing(disabled.map_values(|r: (Seq<char>, Seq<char>)| snap_remove_command(r)))
    }
}

/// Unused flatpak runtimes: a dry run only asks flatpak what it would do.
pub open spec fn flatpak_unused_action(has_flatpak: bool, dry: bool) -> ActionView {
    if !has_flatpak {
        ActionView::Reply(true, 0, "flatpak not installed"@)
    } else if dry {
        ActionView::ReadOnly(
            seq![
                "flatpak"@,
                "uninstall"@,
                "--unused"@,
                "--system"@,
                "--noninteractive"@,
                "--dry-run"@,
            ],
        )
    } else {
        ActionView::Changing(
            seq![
                seq![
                    "flatpak"@,
                    "uninstall"@,
                    "--unused"@,
                    "--system"@,
                    "--assumeyes"@,
                    "--noninteractive"@,
                ],
            ],
        )
    }
}

pub open spec fn pair_views(v: Seq<(String, String)>) -> Seq<(Seq<char>, Seq<char>)> {
    v.map_values(|p: (String, String)| (p.0@, p.1@))
}

/// Whether the facts are the ones gathered for `op`.
pub open spec fn facts_fit(op: HelperOp, facts: HelperFacts) -> bool {
    match op {
        HelperOp::AptClean => facts is AptClean,
        HelperOp::AptAutoremove => facts is AptAutoremove,
        HelperOp::PruneOldKernels { .. } => facts is PruneOldKernels,
        HelperOp::VacuumJournal { .. } => facts is VacuumJournal,
        HelperOp::PruneSnapRevisions => facts is PruneSnapRevisions,
        HelperOp::FlatpakRemoveUnused => facts is FlatpakRemoveUnused,
        HelperOp::EstimateOnly { .. } => facts is EstimateOnly,
    }
}

/// What the helper does for `op`, given what it found out.
pub open spec fn action_of(op: HelperOp, facts: HelperFacts, dry: bool) -> ActionView {
    match (op, facts) {
        (HelperOp::AptClean, HelperFacts::AptClean { before, locked }) => apt_clean_action(
            dry,
            locked,
            before,
        ),
        (HelperOp::AptAutoremove, HelperFacts::AptAutoremove { locked }) => apt_autoremove_action(
            dry,
            locked,
        ),
        (HelperOp::PruneOldKernels { .. }, HelperFacts::PruneOldKernels { candidates, locked }) =>
            prune_kernels_action(argv(candidates@), dry, locked),
        (HelperOp::VacuumJournal { max_mb }, HelperFacts::VacuumJournal) => vacuum_action(
            max_mb,
            dry,
        ),
        (HelperOp::PruneSnapRevisions, HelperFacts::PruneSnapRevisions { has_snap, disabled }) =>
            prune_snap_action(has_snap, pair_views(disabled@), dry),
        (HelperOp::FlatpakRemoveUnused, HelperFacts::FlatpakRemoveUnused { has_flatpak }) =>
            flatpak_unused_action(has_flatpak, dry),
        (HelperOp::EstimateOnly { .. }, HelperFacts::EstimateOnly { bytes }) => ActionView::Reply(
            true,
            bytes,
            "estimate"@,
        ),
        _ => ActionView::Reply(false, 0, Seq::empty()),
    }
}

/// A dry run changes nothing: whatever the operation and whatever the helper
/// found, a dry run replies at once or runs one read-only command.
pub proof fn law_dry_run_changes_nothing(op: HelperOp, facts: HelperFacts)
    ensures
        !(action_of(op, facts, true) is Changing),
{
}

/// The argument vector of `parts`.
fn argv_of(parts: &[&str]) -> (r: Vec<String>)
    ensures
        r@.len() == parts@.len(),
        forall|k: int| 0 <= k < parts@.len() ==> #[trigger] r@[k]@ == parts@[k]@,
{
    let mut r: Vec<String> = Vec::new();
    let mut i: usize = 0;
    while i < parts.len()
        invariant
            i <= parts.len(),
            r@.len() == i,
            forall|k: int| 0 <= k < i ==> #[trigger] r@[k]@ == parts@[k]@,
        decreases parts.len() - i,
    {
        r.push(parts[i].to_owned());
        i = i + 1;
    }
    r
}

fn one_command(c: Vec<String>) -> (r: Vec<Vec<String>>)
    ensures
        commands_view(r@) == seq![argv(c@)],
{
    let r = vec![c];
    assert(commands_view(r@) =~= seq![argv(c@)]);
    r
}

pub fn apt_clean_step(dry: bool, locked: bool, before: u64) -> (a: HelperAction)
    ensures
        action_view(a) == apt_clean_action(dry, locked, before),
{
    if dry {
        return HelperAction::Reply(apt_clean_dry(before));
    }
    match refuse_if_dpkg_locked(locked) {
        Some(r) => HelperAction::Reply(r),
        None => {
            let c = {
        let parts = ["apt-get", "clean"];
        let c = argv_of(&parts);
        assert(argv(c@) =~= seq!["apt-get"@, "clean"@]);
        c
    };
            HelperAction::Changing(one_command(c))
        },
    }
}

pub fn apt_autoremove_step(dry: bool, locked: bool) -> (a: HelperAction)
    ensures
        action_view(a) == apt_autoremove_action(dry, locked),
{
    if dry {
        return HelperAction::ReadOnly({
        let parts = ["apt-get", "-s", "autoremove"];
        let c = argv_of(&parts);
        assert(argv(c@) =~= seq!["apt-get"@, "-s"@, "autoremove"@]);
        c
    });
    }
    match refuse_if_dpkg_locked(locked) {
        Some(r) => HelperAction::Reply(r),
        None => HelperAction::Changing(one_command({
        let parts = ["apt-get", "autoremove", "--purge", "-y"];
        let c = argv_of(&parts);
        assert(argv(c@) =~= seq!["apt-get"@, "autoremove"@, "--purge"@, "-y"@]);
        c
    })),
    }
}

pub fn prune_kernels_step(candidates: &Vec<String>, dry: bool, locked: bool) -> (a: HelperAction)
    ensures
        action_view(a) == prune_kernels_action(argv(candidates@), dry, locked),
{
    match prune_kernels_plan(candidates, dry) {
        Some(r) => {
            proof {
                assert(argv(candidates@) == candidates@.map_values(|s: String| s@));
            }
            return HelperAction::Reply(r);
        },
        None => {},
    }
    match refuse_if_dpkg_locked(locked) {
        Some(r) => HelperAction::Reply(r),
        None => {
            let mut c = {
        let parts = ["apt-get", "purge", "-y"];
        let c = argv_of(&parts);
        assert(argv(c@) =~= seq!["apt-get"@, "purge"@, "-y"@]);
        c
    };
            let ghost head = c@;
            let mut i: usize = 0;
            while i < candidates.len()
                invariant
                    i <= candidates.len(),
                    c@.len() == 3 + i,
                    argv(c@) == argv(head) + argv(candidates@).take(i as int),
                    argv(head) == seq!["apt-get"@, "purge"@, "-y"@],
                decreases candidates.len() - i,
            {
                let ghost before = c@;
                let s = candidates[i].clone();
                c.push(s);
                assert(c@ == before.push(s));
                assert forall|k: int| 0 <= k < c@.len() implies #[trigger] argv(c@)[k] == (argv(head)
                    + argv(candidates@).take(i + 1))[k] by {
                    if k < before.len() {
                        assert(c@[k] == before[k]);
                        assert(argv(before)[k] == before[k]@);
                    }
                }
                assert(argv(c@) =~= argv(head) + argv(candidates@).take(i + 1));
                i = i + 1;
            }
            assert(argv(candidates@).take(candidates@.len() as int) =~= argv(candidates@));
            HelperAction::Changing(one_command(c))
        },
    }
}

pub fn vacuum_step(max_mb: u64, dry: bool) -> (a: HelperAction)
    ensures
        action_view(a) == vacuum_action(max_mb, dry),
{
    let cap = vacuum_cap(max_mb);
    if dry {
        return HelperAction::Reply(vacuum_journal_dry(cap));
    }
    let mut c: Vec<String> = Vec::new();
    c.push("journalctl".to_owned());
    c.push(vacuum_size_arg(cap));
    assert(argv(c@) =~= seq!["journalctl"@, "--vacuum-size="@ + decimal_digits(cap as nat) + "M"@]);
    HelperAction::Changing(one_command(c))
}

pub fn prune_snap_step(has_snap: bool, disabled: &Vec<(String, String)>, dry: bool) -> (a: HelperAction)
    ensures
        action_view(a) == prune_snap_action(has_snap, pair_views(disabled@), dry),
{
    if !has_snap {
        return HelperAction::Reply(prune_snap_missing());
    }
    match prune_snap_plan(disabled.len() as u64, dry) {
        Some(r) => {
            return HelperAction::Reply(r);
        },
        None => {},
    }
    let mut cmds: Vec<Vec<String>> = Vec::new();
    let mut i: usize = 0;
    while i < disabled.len()
        invariant
            i <= disabled.len(),
            cmds@.len() == i,
            commands_view(cmds@) == pair_views(disabled@).take(i as int).map_values(
                |r: (Seq<char>, Seq<char>)| snap_remove_command(r),
            ),
        decreases disabled.len() - i,
    {
        let mut c = {
        let parts = ["snap", "remove"];
        let c = argv_of(&parts);
        assert(argv(c@) =~= seq!["snap"@, "remove"@]);
        c
    };
        c.push(disabled[i].0.clone());
        c.push("--revision".to_owned());
        c.push(disabled[i].1.clone());
        assert(argv(c@) =~= snap_remove_command(pair_views(disabled@)[i as int]));
        let ghost before = cmds@;
        cmds.push(c);
        assert(cmds@ == before.push(c));
        assert forall|k: int| 0 <= k < i + 1 implies #[trigger] commands_view(cmds@)[k]
            == pair_views(disabled@).take(i + 1).map_values(
            |r: (Seq<char>, Seq<char>)| snap_remove_command(r),
        )[k] by {
            if k < i {
                assert(cmds@[k] == before[k]);
                assert(commands_view(before)[k] == argv(before[k]@));
            }
        }
        assert(commands_view(cmds@) =~= pair_views(disabled@).take(i + 1).map_values(
            |r: (Seq<char>, Seq<char>)| snap_remove_command(r),
        ));
        i = i + 1;
    }
    assert(pair_views(disabled@).take(disabled@.len() as int) =~= pair_views(disabled@));
    HelperAction::Changing(cmds)
}

pub fn flatpak_unused_step(has_flatpak: bool, dry: bool) -> (a: HelperAction)
    ensures
        action_view(a) == flatpak_unused_action(has_flatpak, dry),
{
    if !has_flatpak {
        return HelperAction::Reply(flatpak_missing());
    }
    if dry {
        return HelperAction::ReadOnly(
            {
        let parts = ["flatpak", "uninstall", "--unused", "--system", "--noninteractive", "--dry-run"];
        let c = argv_of(&parts);
        assert(argv(c@) =~= seq!["flatpak"@, "uninstall"@, "--unused"@, "--system"@, "--noninteractive"@, "--dry-run"@]);
        c
    },
        );
    }
    HelperAction::Changing(
        one_command(
            {
        let parts = ["flatpak", "uninstall", "--unused", "--system", "--assumeyes", "--noninteractive"];
        let c = argv_of(&parts);
        assert(argv(c@) =~= seq!["flatpak"@, "uninstall"@, "--unused"@, "--system"@, "--assumeyes"@, "--noninteractive"@]);
        c
    },
        ),
    )
}

/// What the helper does for `req`, given the facts gathered for its
/// operation. A dry run is never given commands that change the system.
pub fn helper_action(req: &HelperRequest, facts: HelperFacts) -> (a: HelperAction)
    requires
        facts_fit(req.op, facts),
    ensures
        action_view(a) == action_of(req.op, facts, req.dry_run),
        req.dry_run ==> !(a is Changing),
{
    let dry = req.dry_run;
    match facts {
        HelperFacts::AptClean { before, locked } => apt_clean_step(dry, locked, before),
        HelperFacts::AptAutoremove { locked } => apt_autoremove_step(dry, locked),
        HelperFacts::PruneOldKernels { candidates, locked } => prune_kernels_step(&candidates, dry, locked),
        HelperFacts::VacuumJournal => match req.op {
            HelperOp::VacuumJournal { max_mb } => vacuum_step(max_mb, dry),
            _ => HelperAction::Reply(HelperResponse::err("")),
        },
        HelperFacts::PruneSnapRevisions { has_snap, disabled } => prune_snap_step(has_snap, &disabled, dry),
        HelperFacts::FlatpakRemoveUnused { has_flatpak } => flatpak_unused_step(has_flatpak, dry),
        HelperFacts::EstimateOnly { bytes } => HelperAction::Reply(estimate(bytes)),
    }
}

/// The reply to a dry run built from its read-only command's output: the
/// autoremove simulation's first lines, or flatpak's answer.
pub fn read_only_reply(op: &HelperOp, out: &str) -> (r: HelperResponse)
    requires
        *op is AptAutoremove || *op is FlatpakRemoveUnused,
    ensures
        r.ok,
        r.freed_bytes == 0,
        *op is AptAutoremove ==> r.message@ == "dry run:\n"@ + first_lines(lines(out@), 5),
        *op is FlatpakRemoveUnused ==> r.message@ == "dry run:\n"@ + trim(out@),
{
    match op {
        HelperOp::AptAutoremove => apt_autoremove_dry(out),
        _ => flatpak_unused_dry(out),
    }
}

/// The reply once an operation's changing command ran and printed `out`:
/// the apt cache shrank from `apt_before` to `apt_after`, `kernels` packages
/// were purged, or the tool's last line. (Snap pruning counts its removals;
/// estimates change nothing.)
pub fn done_reply(op: &HelperOp, apt_before: u64, apt_after: u64, kernels: u64, out: &str) -> (r:
    HelperResponse)
    requires
        !(*op is PruneSnapRevisions),
        !(*op is EstimateOnly),
    ensures
        r.ok,
        *op is AptClean ==> r.freed_bytes == (if apt_before >= apt_after {
            apt_before - apt_after
        } else {
            0
        }) && r.message@ == "apt cache cleaned"@,
        !(*op is AptClean) ==> r.freed_bytes == 0,
        *op is AptAutoremove ==> r.message@ == last_line_or(out@, "done"@),
        *op is PruneOldKernels ==> r.message@ == "removed "@ + decimal_digits(kernels as nat)
            + " kernel package(s)"@,
        *op is VacuumJournal ==> r.message@ == last_line_or(out@, "vacuumed"@),
        *op is FlatpakRemoveUnused ==> r.message@ == last_line_or(out@, "done"@),
{
    match op {
        HelperOp::AptClean => apt_clean_done(apt_before, apt_after),
        HelperOp::AptAutoremove => apt_autoremove_done(out),
        HelperOp::PruneOldKernels { .. } => prune_kernels_done(kernels),
        HelperOp::VacuumJournal { .. } => vacuum_journal_done(out),
        _ => flatpak_unused_done(out),
    }
}

} // verus!
