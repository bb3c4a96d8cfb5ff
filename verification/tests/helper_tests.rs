use cml_core::helper::{
    apt_autoremove_dry, apt_autoremove_done, apt_clean_done, apt_clean_dry, disabled_snap_revisions,
    estimate, estimate_source, flatpak_unused_dry, journal_estimate_bytes,
    kernel_removal_candidates, last_line, parse_iec, parse_kernel_listing, prune_kernels_done,
    prune_kernels_plan, prune_snap_done, prune_snap_plan, purge_args, refuse_if_dpkg_locked,
    vacuum_cap, vacuum_journal_dry, vacuum_size_arg, EstimateSource,
};
use cml_core::helper_ipc::{HelperOp, HelperRequest, HelperResponse, PrivilegedTarget};
use cml_core::scan::apps::{inventory, AppSource};
use cml_core::scan::packages::{count_removable_kernels, parse_autoremove_freed, parse_iec_size};

#[test]
fn kernel_listing_keeps_versioned_images() {
    let list = "linux-image-6.0.0-9-generic\t6.0.0-9\nlinux-image-generic\t6.0\nlinux-headers-6.0.0-9\t6.0.0-9\nlinux-image-5.15.0-2-generic\t5.15.0-2\n";
    let pkgs = parse_kernel_listing(list);
    let names: Vec<&str> = pkgs.iter().map(|p| p.name.as_str()).collect();
    assert_eq!(names, ["linux-image-6.0.0-9-generic", "linux-image-5.15.0-2-generic"]);
    assert_eq!(pkgs[1].version, "5.15.0-2");
}

#[test]
fn prune_keeps_running_and_newest() {
    let sorted = parse_kernel_listing(
        "linux-image-5.4.0-1-generic\t5.4.0-1\nlinux-image-5.15.0-2-generic\t5.15.0-2\nlinux-image-6.0.0-9-generic\t6.0.0-9\nlinux-image-6.0.0-10-generic\t6.0.0-10\n",
    );
    // Running 5.15: keep it and the newest one.
    let c = kernel_removal_candidates(&sorted, "5.15.0-2-generic", 1);
    assert_eq!(c, ["linux-image-5.4.0-1-generic", "linux-image-6.0.0-9-generic"]);
    // keep 0 still keeps the newest.
    assert_eq!(kernel_removal_candidates(&sorted, "5.15.0-2-generic", 0), c);
    // keep 3: only the oldest may go.
    assert_eq!(
        kernel_removal_candidates(&sorted, "6.0.0-10-generic", 3),
        ["linux-image-5.4.0-1-generic"]
    );
    assert!(kernel_removal_candidates(&sorted, "5.4.0-1", 3).is_empty());

    let none = prune_kernels_plan(&vec![], false).unwrap();
    assert!(none.ok);
    assert_eq!(none.message, "no removable kernels");
    let dry = prune_kernels_plan(&c, true).unwrap();
    assert_eq!(
        dry.message,
        "would remove: linux-image-5.4.0-1-generic, linux-image-6.0.0-9-generic"
    );
    assert!(prune_kernels_plan(&c, false).is_none());
    assert_eq!(
        purge_args(&c),
        ["purge", "-y", "linux-image-5.4.0-1-generic", "linux-image-6.0.0-9-generic"]
    );
    assert_eq!(prune_kernels_done(2).message, "removed 2 kernel package(s)");
}

#[test]
fn counts_removable_kernels_from_listing() {
    // Oldest to newest; the running kernel is the newest: both others may go.
    let sorted = parse_kernel_listing(
        "linux-image-5.15.0-2-generic\t5.15.0-2\nlinux-image-6.0.0-9-generic\t6.0.0-9\nlinux-image-6.0.0-10-generic\t6.0.0-10\nlinux-image-generic\t6.0\n",
    );
    assert_eq!(count_removable_kernels("6.0.0-10-generic\n", &sorted), 2);
    // Running an older one: it and the newest stay.
    assert_eq!(count_removable_kernels("6.0.0-9-generic\n", &sorted), 1);
    assert_eq!(count_removable_kernels("6.0.0-9-generic\n", &vec![]), 0);
}

#[test]
fn apt_replies() {
    let dry = apt_clean_dry(1234);
    assert!(dry.ok);
    assert_eq!(dry.freed_bytes, 1234);
    assert_eq!(dry.message, "would clean apt cache");
    assert_eq!(apt_clean_done(100, 30).freed_bytes, 70);
    assert_eq!(apt_clean_done(30, 100).freed_bytes, 0);

    let sim = "l1\nl2\nl3\nl4\nl5\nl6\n";
    assert_eq!(apt_autoremove_dry(sim).message, "dry run:\nl1\nl2\nl3\nl4\nl5");
    assert_eq!(apt_autoremove_dry("").message, "dry run:\n");
    assert_eq!(apt_autoremove_done("a\nlast line\n").message, "last line");
    assert_eq!(apt_autoremove_done("").message, "done");
    assert_eq!(last_line("x\r\ny\r\n", "d"), "y");
    assert_eq!(
        parse_autoremove_freed("Remv x\nAfter this operation, 1,024 kB disk space will be freed.\n"),
        1_024_000
    );
    assert_eq!(parse_autoremove_freed("Remv x\n"), 0);
}

#[test]
fn busy_package_manager_refuses() {
    assert!(refuse_if_dpkg_locked(false).is_none());
    let r = refuse_if_dpkg_locked(true).unwrap();
    assert!(!r.ok);
    assert_eq!(
        r.message,
        "package manager is busy; try again after apt/dpkg finishes"
    );
}

#[test]
fn journal_vacuum_is_clamped() {
    assert_eq!(vacuum_cap(0), 50);
    assert_eq!(vacuum_cap(500), 500);
    assert_eq!(vacuum_cap(100_000), 4096);
    assert_eq!(vacuum_journal_dry(500).message, "would vacuum journal to 500M");
    assert_eq!(vacuum_size_arg(50), "--vacuum-size=50M");
}

#[test]
fn snap_revisions() {
    let list = "Name  Version  Rev  Tracking  Publisher  Notes\ncore  16-2.61  16202  latest/stable  canonical  core,disabled\ncore  16-2.62  16574  latest/stable  canonical  core\nlxd  5.0  24322  5.0/stable  canonical  disabled\n";
    let d = disabled_snap_revisions(list);
    assert_eq!(
        d,
        [
            ("core".to_string(), "16202".to_string()),
            ("lxd".to_string(), "24322".to_string())
        ]
    );
    assert_eq!(prune_snap_plan(0, false).unwrap().message, "no old snap revisions");
    assert_eq!(prune_snap_plan(2, true).unwrap().message, "would remove 2 old snap revision(s)");
    assert!(prune_snap_plan(2, false).is_none());
    assert_eq!(prune_snap_done(1).message, "removed 1 old snap revision(s)");
    assert_eq!(flatpak_unused_dry("  Nothing unused to uninstall \n").message, "dry run:\nNothing unused to uninstall");
}

#[test]
fn estimates() {
    assert_eq!(estimate_source(PrivilegedTarget::AptCache), EstimateSource::AptCacheSize);
    assert_eq!(estimate_source(PrivilegedTarget::Journal), EstimateSource::JournalUsage);
    assert_eq!(estimate_source(PrivilegedTarget::OldKernels), EstimateSource::Nothing);
    assert_eq!(parse_iec("512M"), 512 * 1024 * 1024);
    assert_eq!(parse_iec("900K"), 900 * 1024);
    assert_eq!(parse_iec("123B"), 123);
    assert_eq!(parse_iec("junk"), 0);
    assert_eq!(parse_iec_size("1.5G"), Some(1_610_612_736));
    assert_eq!(
        journal_estimate_bytes("Archived and active journals take up 1.2G in the file system."),
        1_288_490_188
    );
    assert_eq!(journal_estimate_bytes("no usage here"), 0);
    let e = estimate(42);
    assert!(e.ok);
    assert_eq!(e.freed_bytes, 42);
    assert_eq!(e.message, "estimate");
}

#[test]
fn requests_and_responses() {
    let r = HelperRequest::new(HelperOp::AptClean);
    assert_eq!(r.version, HelperRequest::PROTOCOL_VERSION);
    assert!(!r.dry_run);
    assert!(HelperRequest::dry(HelperOp::VacuumJournal { max_mb: 500 }).dry_run);
    assert_eq!(
        HelperOp::from_marker("priv://prune_old_kernels"),
        Some(HelperOp::PruneOldKernels { keep: 1 })
    );
    assert_eq!(
        HelperOp::from_marker("vacuum_journal"),
        Some(HelperOp::VacuumJournal { max_mb: 500 })
    );
    let ok = HelperResponse::ok(5, "done");
    assert!(ok.ok && ok.freed_bytes == 5 && ok.message == "done");
    let err = HelperResponse::err("bad");
    assert!(!err.ok && err.freed_bytes == 0 && err.message == "bad");
}

#[test]
fn inventory_sorts_by_name_case_insensitively() {
    let dpkg = "zsh\t5.9\t2048\nAlpha\t1.0\t1\n";
    let flatpak = "beta App\torg.beta.App\t2.0\t1.5 MB\nNoId\t\t1.0\t1 kB\n";
    let snap = "Name  Version  Rev\ncharlie  3.0  12\n";
    let apps = inventory(dpkg, flatpak, snap);
    let names: Vec<&str> = apps.iter().map(|a| a.name.as_str()).collect();
    assert_eq!(names, ["Alpha", "beta App", "charlie", "zsh"]);
    assert_eq!(apps[0].size, 1024);
    assert_eq!(apps[0].source, AppSource::Apt);
    assert_eq!(apps[1].id, "org.beta.App");
    assert_eq!(apps[1].size, 1_572_864);
    assert_eq!(apps[2].source, AppSource::Snap);
    assert_eq!(apps[2].size, 0);
    assert_eq!(apps[3].size, 2048 * 1024);
}

use cml_core::helper_steps::{
    apt_clean_step, done_reply, helper_action, read_only_reply, HelperAction, HelperFacts,
};

fn changing(a: &HelperAction) -> Option<&Vec<Vec<String>>> {
    match a {
        HelperAction::Changing(c) => Some(c),
        _ => None,
    }
}

#[test]
fn dry_runs_change_nothing() {
    let ops_and_facts = vec![
        (HelperOp::AptClean, HelperFacts::AptClean { before: 7, locked: false }),
        (HelperOp::AptAutoremove, HelperFacts::AptAutoremove { locked: false }),
        (
            HelperOp::PruneOldKernels { keep: 1 },
            HelperFacts::PruneOldKernels { candidates: vec!["linux-image-1".into()], locked: false },
        ),
        (HelperOp::VacuumJournal { max_mb: 500 }, HelperFacts::VacuumJournal),
        (
            HelperOp::PruneSnapRevisions,
            HelperFacts::PruneSnapRevisions {
                has_snap: true,
                disabled: vec![("core".into(), "16202".into())],
            },
        ),
        (HelperOp::FlatpakRemoveUnused, HelperFacts::FlatpakRemoveUnused { has_flatpak: true }),
        (
            HelperOp::EstimateOnly { what: PrivilegedTarget::Journal },
            HelperFacts::EstimateOnly { bytes: 3 },
        ),
    ];
    for (op, facts) in ops_and_facts {
        let a = helper_action(&HelperRequest::dry(op), facts);
        assert!(changing(&a).is_none());
    }
}

#[test]
fn real_runs_build_the_commands() {
    let a = helper_action(
        &HelperRequest::new(HelperOp::AptClean),
        HelperFacts::AptClean { before: 7, locked: false },
    );
    assert_eq!(changing(&a).unwrap(), &vec![vec!["apt-get".to_string(), "clean".to_string()]]);
    match apt_clean_step(false, true, 7) {
        HelperAction::Reply(r) => {
            assert!(!r.ok);
            assert_eq!(r.message, "package manager is busy; try again after apt/dpkg finishes");
        }
        _ => panic!("expected a refusal"),
    }
    match apt_clean_step(true, true, 7) {
        HelperAction::Reply(r) => assert_eq!((r.ok, r.freed_bytes), (true, 7)),
        _ => panic!("expected the dry reply"),
    }
    let k = helper_action(
        &HelperRequest::new(HelperOp::PruneOldKernels { keep: 1 }),
        HelperFacts::PruneOldKernels { candidates: vec!["linux-image-1".into()], locked: false },
    );
    assert_eq!(changing(&k).unwrap()[0], ["apt-get", "purge", "-y", "linux-image-1"]);
    let v = helper_action(
        &HelperRequest::new(HelperOp::VacuumJournal { max_mb: 10 }),
        HelperFacts::VacuumJournal,
    );
    assert_eq!(changing(&v).unwrap()[0], ["journalctl", "--vacuum-size=50M"]);
    let s = helper_action(
        &HelperRequest::new(HelperOp::PruneSnapRevisions),
        HelperFacts::PruneSnapRevisions {
            has_snap: true,
            disabled: vec![("core".into(), "1".into()), ("lxd".into(), "2".into())],
        },
    );
    assert_eq!(changing(&s).unwrap()[1], ["snap", "remove", "lxd", "--revision", "2"]);
    match helper_action(
        &HelperRequest::dry(HelperOp::AptAutoremove),
        HelperFacts::AptAutoremove { locked: true },
    ) {
        HelperAction::ReadOnly(argv) => assert_eq!(argv, ["apt-get", "-s", "autoremove"]),
        _ => panic!("expected the simulation"),
    }
    match helper_action(
        &HelperRequest::new(HelperOp::FlatpakRemoveUnused),
        HelperFacts::FlatpakRemoveUnused { has_flatpak: false },
    ) {
        HelperAction::Reply(r) => assert_eq!(r.message, "flatpak not installed"),
        _ => panic!("expected flatpak missing"),
    }
    assert_eq!(read_only_reply(&HelperOp::FlatpakRemoveUnused, " x \n").message, "dry run:\nx");
    assert_eq!(done_reply(&HelperOp::AptClean, 100, 40, 0, "").freed_bytes, 60);
    assert_eq!(
        done_reply(&HelperOp::PruneOldKernels { keep: 1 }, 0, 0, 2, "").message,
        "removed 2 kernel package(s)"
    );
    assert_eq!(done_reply(&HelperOp::VacuumJournal { max_mb: 1 }, 0, 0, 0, "a\nb").message, "b");
}
