//! The session-level facade a frontend holds: the user's configuration and
//! the safelist built from it, and which modules a scan covers.

use vstd::prelude::*;
use crate::config::Config;
use crate::safety::{clone_strings, protected_under, string_views, Safelist};
use crate::text::{chars_of, concat, string_of};
use crate::types::{module_title, Module, ScanItem, ScanResult};

verus! {

/// The home directory used when the user's cannot be determined.
pub open spec fn home_or_root(home: Option<Seq<char>>) -> Seq<char> {
    match home {
        Some(h) => h,
        None => "/"@,
    }
}

/// Session-level facade. Construct once per app run.
pub struct Engine {
    pub config: Config,
    pub safelist: Safelist,
}

impl Engine {
    /// Build the engine from the loaded configuration and the current user's
    /// home directory (`/` when unknown): the safelist protects the built-in
    /// places under home plus the configured exclusions.
    pub fn new(config: Config, home: Option<String>) -> (e: Engine)
        ensures
            e.config == config,
            e.safelist@.home == home_or_root(
                match home {
                    Some(h) => Some(h@),
                    None => None,
                },
            ),
            e.safelist@.protected == protected_under(e.safelist@.home),
            e.safelist@.exclusions == string_views(config.exclusions@),
    {
        let h = match home {
            Some(h) => h,
            None => "/".to_owned(),
        };
        let safelist = Safelist::new(h, clone_strings(&config.exclusions));
        Engine { config, safelist }
    }

    /// The arguments of the Large & Old Files scan: the configured size
    /// threshold, and files not modified for the configured number of days.
    pub fn large_files_params(&self) -> (r: (u64, Option<u64>))
        ensures
            r == (self.config.large_file_threshold, Some(self.config.old_file_days)),
    {
        (self.config.large_file_threshold, Some(self.config.old_file_days))
    }
}

/// Whether a module has a reclaimable-space scan. The Uninstaller and the
/// System Monitor have their own views; scanning them yields nothing.
pub open spec fn scans_space(m: Module) -> bool {
    match m {
        Module::SystemJunk | Module::PackageCleanup | Module::LargeAndOldFiles => true,
        Module::Uninstaller | Module::SystemMonitor => false,
    }
}

pub fn has_space_scan(m: Module) -> (b: bool)
    ensures
        b == scans_space(m),
{
    match m {
        Module::SystemJunk | Module::PackageCleanup | Module::LargeAndOldFiles => true,
        Module::Uninstaller | Module::SystemMonitor => false,
    }
}

/// The modules Smart Scan runs, in order.
pub const SMART_SCAN_MODULES: [Module; 3] = [
    Module::SystemJunk,
    Module::PackageCleanup,
    Module::LargeAndOldFiles,
];

/// Smart Scan covers exactly the modules with a reclaimable-space scan.
pub proof fn law_smart_scan_covers_space_modules(m: Module)
    ensures
        scans_space(m) <==> exists|i: int| 0 <= i < 3 && SMART_SCAN_MODULES@[i] == m,
{
    if scans_space(m) {
        match m {
            Module::SystemJunk => assert(SMART_SCAN_MODULES@[0] == m),
            Module::PackageCleanup => assert(SMART_SCAN_MODULES@[1] == m),
            _ => assert(SMART_SCAN_MODULES@[2] == m),
        }
    }
}

/// The progress line Smart Scan shows while it scans `m`.
pub fn scan_progress_message(m: Module) -> (s: String)
    ensures
        s@ == "Scanning "@ + module_title(m) + "…"@,
{
    let a = concat(&chars_of("Scanning "), &chars_of(m.title()));
    let b = concat(&a, &chars_of("…"));
    string_of(b.as_slice())
}

/// Append one module's rows to the merged Smart Scan result.
pub fn merge_into(merged: &mut ScanResult, res: ScanResult)
    ensures
        final(merged).items@ == old(merged).items@ + res.items@,
{
    let mut items = res.items;
    merged.items.append(&mut items);
}

/// The next thing Smart Scan does.
#[derive(Debug, Clone, Copy, PartialEq, Eq, Structural)]
pub enum SmartScanStep {
    /// Scan this module and append its rows.
    Scan(Module),
    /// Stop: every module is done, or the user cancelled.
    Finish,
}

/// Smart Scan's step after `done` modules, when the cancel token says
/// `cancelled`.
pub open spec fn smart_scan_step_of(done: int, cancelled: bool) -> SmartScanStep {
    if cancelled || done >= 3 {
        SmartScanStep::Finish
    } else {
        SmartScanStep::Scan(SMART_SCAN_MODULES@[done])
    }
}

/// Smart Scan's step after `done` modules: stop when cancelled or when all
/// are done, else scan the next module in order.
pub fn smart_scan_step(done: usize, cancelled: bool) -> (s: SmartScanStep)
    ensures
        s == smart_scan_step_of(done as int, cancelled),
        cancelled || done >= 3 ==> s == SmartScanStep::Finish,
        !cancelled && done < 3 ==> s == SmartScanStep::Scan(SMART_SCAN_MODULES@[done as int]),
{
    if cancelled || done >= 3 {
        SmartScanStep::Finish
    } else {
        SmartScanStep::Scan(SMART_SCAN_MODULES[done])
    }
}

/// How many modules Smart Scan runs when `cancelled[i]` is what the token
/// says before step `i`: those before the first cancellation, at most three.
pub open spec fn modules_run(cancelled: Seq<bool>, i: nat) -> nat
    decreases 3 - i,
{
    if i >= 3 || i >= cancelled.len() || cancelled[i as int] {
        i
    } else {
        modules_run(cancelled, i + 1)
    }
}

/// Smart Scan runs the modules in order, one per step, and stops at the
/// first cancellation or after the third module: a token tripped before the
/// first step runs none, one never tripped runs all three.
pub proof fn law_smart_scan_runs_in_order(cancelled: Seq<bool>)
    requires
        cancelled.len() == 4,
    ensures
        modules_run(cancelled, 0) <= 3,
        forall|i: int|
            0 <= i < modules_run(cancelled, 0) ==> smart_scan_step_of(i, #[trigger] cancelled[i])
                == SmartScanStep::Scan(SMART_SCAN_MODULES@[i]),
        smart_scan_step_of(modules_run(cancelled, 0) as int, cancelled[modules_run(cancelled, 0) as int])
            == SmartScanStep::Finish,
        cancelled[0] ==> modules_run(cancelled, 0) == 0,
        !cancelled[0] && !cancelled[1] && !cancelled[2] ==> modules_run(cancelled, 0) == 3,
{
    lemma_modules_run(cancelled, 0);
}

proof fn lemma_modules_run(cancelled: Seq<bool>, i: nat)
    requires
        cancelled.len() == 4,
        i <= 3,
    ensures
        i <= modules_run(cancelled, i) <= 3,
        forall|j: int| i <= j < modules_run(cancelled, i) ==> !#[trigger] cancelled[j],
        modules_run(cancelled, i) == 3 || cancelled[modules_run(cancelled, i) as int],
    decreases 3 - i,
{
    if !(i >= 3 || cancelled[i as int]) {
        lemma_modules_run(cancelled, i + 1);
    }
}

/// The rows of `results`, one module's after another.
pub open spec fn joined_items(results: Seq<ScanResult>) -> Seq<ScanItem>
    decreases results.len(),
{
    if results.len() == 0 {
        seq![]
    } else {
        joined_items(results.drop_last()) + results.last().items@
    }
}

/// Smart Scan's result from the results of the modules it ran, in order:
/// their rows, one module's after another.
pub fn smart_scan_result(results: Vec<ScanResult>) -> (r: ScanResult)
    ensures
        r.items@ == joined_items(results@),
{
    let mut merged = ScanResult { items: Vec::new() };
    let mut rest = results;
    let ghost all = rest@;
    let ghost mut done: int = 0;
    while rest.len() > 0
        invariant
            0 <= done <= all.len(),
            rest@ == all.skip(done),
            merged.items@ == joined_items(all.take(done)),
        decreases rest.len(),
    {
        let ghost before = rest@;
        assert(before.len() > 0);
        let res = rest.remove(0);
        proof {
            assert(res == all[done]);
            assert(rest@ =~= all.skip(done + 1));
            assert(all.take(done + 1).drop_last() =~= all.take(done));
            assert(all.take(done + 1).last() == all[done]);
        }
        merge_into(&mut merged, res);
        proof {
            done = done + 1;
        }
    }
    assert(all.take(done) =~= all);
    merged
}

/// The three results of an uncancelled Smart Scan give Junk's rows, then
/// Package Cleanup's, then Large Files'; a scan cancelled at once gives none.
pub proof fn law_smart_scan_joins_in_order(results: Seq<ScanResult>)
    ensures
        results.len() == 3 ==> joined_items(results) == results[0].items@ + results[1].items@
            + results[2].items@,
        results.len() == 0 ==> joined_items(results) == Seq::<ScanItem>::empty(),
{
    if results.len() == 3 {
        let r2 = results.drop_last();
        let r1 = r2.drop_last();
        let r0 = r1.drop_last();
        assert(r0 =~= Seq::<ScanResult>::empty());
        assert(joined_items(r0) == Seq::<ScanItem>::empty());
        assert(r1.last() == results[0]);
        assert(joined_items(r1) =~= results[0].items@);
        assert(r2.last() == results[1]);
        assert(joined_items(r2) =~= results[0].items@ + results[1].items@);
        assert(results.last() == results[2]);
    }
}

} // verus!
