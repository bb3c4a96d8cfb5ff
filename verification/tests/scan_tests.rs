use cml_core::clean::{plan_clean, CleanAction, BLOCKED_REASON};
use cml_core::fsutil::{dir_usage, entry_disk_usage, inode_key_of, EntryMeta};
use cml_core::helper::KernelPackage;
use cml_core::kernel_order::compare_kernel_packages;
use cml_core::safety::Safelist;
use cml_core::scan::junk::{
    cache_entry_guard, cache_entry_item, cache_entry_path, flatpak_cache_dir, junk_locations,
    junk_rows, scan_cache_tree, scan_flatpak_caches, trash_considered, trash_item, CacheEntry,
    FlatpakCacheEntry,
};
use cml_core::scan::large_files::{age_cutoff, large_file_item, sort_biggest_first};
use cml_core::scan::monitor::{select_disks, DiskInfo};
use cml_core::scan::packages::{
    apt_cache_item, flatpak_runtimes_item, journal_item, old_kernels_item, orphans_item,
};
use cml_core::types::{CleanReport, DeleteMode, Safety, ScanItem, ScanResult};
use std::cmp::Ordering;
use std::collections::HashSet;

fn item(path: &str, mode: DeleteMode) -> ScanItem {
    ScanItem {
        category: "t".into(),
        label: "t".into(),
        path: path.into(),
        size: 0,
        safety: Safety::Safe,
        delete_mode: mode,
        selected: true,
        note: None,
    }
}

/// Runs a cleanup plan the way the shell does, with every deletion
/// succeeding and freeing `freed` bytes.
fn run_plan(items: &Vec<ScanItem>, sl: &Safelist, freed: u64) -> CleanReport {
    let mut rep = CleanReport::default();
    for step in plan_clean(sl, items) {
        let it = &items[step.index];
        match step.action {
            CleanAction::SkipPrivileged => {}
            CleanAction::Blocked => rep.record_blocked(&it.path),
            CleanAction::Delete => rep.record_removed(freed),
        }
    }
    rep
}

#[test]
fn permanently_clears_dir_contents_but_keeps_dir() {
    let sl = Safelist::new("/home/u".to_string(), vec![]);
    let items = vec![item("/home/u/.cache", DeleteMode::Permanent)];
    let plan = plan_clean(&sl, &items);
    assert_eq!(plan.len(), 1);
    assert_eq!(plan[0].action, CleanAction::Delete);
    let rep = run_plan(&items, &sl, 4096);
    assert_eq!(rep.removed, 1);
    assert_eq!(rep.freed_bytes, 4096);
}

#[test]
fn refuses_protected_path() {
    let sl = Safelist::new("/home/u".to_string(), vec![]);
    let items = vec![item("/home/u/.ssh", DeleteMode::Permanent)];
    let rep = run_plan(&items, &sl, 6);
    assert_eq!(rep.removed, 0);
    assert_eq!(rep.failures.len(), 1);
    assert_eq!(rep.failures[0].0, "/home/u/.ssh");
    assert_eq!(rep.failures[0].1, BLOCKED_REASON);
}

#[test]
fn skips_privileged_markers() {
    let sl = Safelist::new("/home/u".to_string(), vec![]);
    let items = vec![item("priv://apt_clean", DeleteMode::Permanent)];
    let rep = run_plan(&items, &sl, 0);
    assert_eq!(rep.removed, 0);
    assert_eq!(rep.failures.len(), 0);
}

#[test]
fn clean_plan_covers_selected_items_only() {
    let sl = Safelist::new("/home/u".to_string(), vec![]);
    let mut unselected = item("/home/u/.cache/a", DeleteMode::Permanent);
    unselected.selected = false;
    let items = vec![
        unselected,
        item("/etc/passwd", DeleteMode::Permanent),
        item("/home/u/big.iso", DeleteMode::Trash),
    ];
    let plan = plan_clean(&sl, &items);
    assert_eq!(plan.len(), 2);
    assert_eq!(plan[0].index, 1);
    assert_eq!(plan[0].action, CleanAction::Blocked);
    assert_eq!(plan[1].index, 2);
    assert_eq!(plan[1].action, CleanAction::Delete);
}

fn cache_entry(name: &str, size: u64, running: bool) -> CacheEntry {
    CacheEntry {
        name: name.to_string(),
        size,
        guard_running: running,
    }
}

#[test]
fn partitions_cache_without_overlap() {
    let sl = Safelist::new("/home/u".to_string(), vec![]);
    let entries = vec![cache_entry("thumbnails", 4096, false), cache_entry("myapp", 8192, false)];
    let rows = scan_cache_tree(&sl, "/home/u/.cache", &entries);
    assert!(rows.iter().any(|i| i.category == "Thumbnails"));
    assert!(rows
        .iter()
        .any(|i| i.category == "Application Cache" && i.label.contains("myapp")));
    assert!(!rows.iter().any(|i| i.path == "/home/u/.cache"));
    assert_eq!(rows.len(), 2);
    assert_eq!(rows[1].path, "/home/u/.cache/myapp");
}

#[test]
fn cache_tree_skips_empty_and_protected_entries() {
    let sl = Safelist::new(
        "/home/u".to_string(),
        vec!["/home/u/.cache/keepme".to_string()],
    );
    let entries = vec![
        cache_entry("empty", 0, false),
        cache_entry("keepme", 100, false),
        cache_entry("app", 10, false),
    ];
    let rows = scan_cache_tree(&sl, "/home/u/.cache", &entries);
    assert_eq!(rows.len(), 1);
    assert_eq!(rows[0].label, "app cache");
    assert_eq!(rows[0].safety, Safety::Safe);
    assert!(rows[0].selected);
    assert_eq!(rows[0].delete_mode, DeleteMode::Permanent);
}

#[test]
fn running_browser_cache_is_deselected_with_note() {
    assert_eq!(cache_entry_guard("mozilla"), Some("firefox"));
    assert_eq!(cache_entry_guard("google-chrome"), Some("chrome"));
    assert_eq!(cache_entry_guard("thumbnails"), None);
    assert_eq!(cache_entry_guard("myapp"), None);

    let running = cache_entry_item("/home/u/.cache/mozilla".into(), "mozilla", 10, true).unwrap();
    assert_eq!(running.category, "Browser Cache");
    assert_eq!(running.label, "Firefox cache");
    assert_eq!(running.safety, Safety::Review);
    assert!(!running.selected);
    assert_eq!(
        running.note.as_deref(),
        Some("firefox is running — review before cleaning")
    );

    let idle = cache_entry_item("/home/u/.cache/chromium".into(), "chromium", 10, false).unwrap();
    assert!(idle.selected);
    assert_eq!(idle.note, None);
    assert!(cache_entry_item("/home/u/.cache/x".into(), "x", 0, false).is_none());
}

#[test]
fn trash_and_flatpak_rows() {
    assert!(trash_item("/home/u/.local/share/Trash".into(), 0).is_none());
    let t = trash_item("/home/u/.local/share/Trash".into(), 5).unwrap();
    assert_eq!(t.category, "Trash");
    assert_eq!(t.label, "Trash bin");
    assert_eq!(t.safety, Safety::Review);
    assert!(t.selected);

    let sl = Safelist::new("/home/u".to_string(), vec![]);
    assert!(trash_considered(&sl, "/home/u/.local/share/Trash", true, true));
    assert!(!trash_considered(&sl, "/home/u/.local/share/Trash", true, false));

    let (cache, trash, var_app) = junk_locations("/home/u");
    assert_eq!(cache, "/home/u/.cache");
    assert_eq!(trash, "/home/u/.local/share/Trash");
    assert_eq!(var_app, "/home/u/.var/app");
    assert_eq!(cache_entry_path("/home/u/.cache", "x"), "/home/u/.cache/x");
    let (root_cache, _, _) = junk_locations("/");
    assert_eq!(root_cache, "/.cache");
    assert_eq!(flatpak_cache_dir("/home/u/.var/app", "org.x.App"), "/home/u/.var/app/org.x.App/cache");

    let entries = vec![
        FlatpakCacheEntry {
            app_id: "org.a".into(),
            exists: true,
            size: 7,
        },
        FlatpakCacheEntry {
            app_id: "org.b".into(),
            exists: false,
            size: 7,
        },
    ];
    let rows = scan_flatpak_caches(&sl, "/home/u/.var/app", &entries);
    assert_eq!(rows.len(), 1);
    assert_eq!(rows[0].category, "Flatpak Cache");
    assert_eq!(rows[0].label, "org.a cache");
    assert_eq!(rows[0].size, 7);
    assert_eq!(rows[0].path, "/home/u/.var/app/org.a/cache");
}

#[test]
fn junk_rows_come_in_order_without_overlap() {
    let sl = Safelist::new("/home/u".to_string(), vec![]);
    let entries = vec![cache_entry("thumbnails", 10, false), cache_entry("app", 20, false)];
    let flatpak = vec![FlatpakCacheEntry { app_id: "org.a".into(), exists: true, size: 5 }];
    let rows = junk_rows(&sl, "/home/u", &entries, Some(30), &flatpak);
    let paths: Vec<&str> = rows.iter().map(|i| i.path.as_str()).collect();
    assert_eq!(
        paths,
        [
            "/home/u/.cache/thumbnails",
            "/home/u/.cache/app",
            "/home/u/.local/share/Trash",
            "/home/u/.var/app/org.a/cache"
        ]
    );
    for (k, a) in paths.iter().enumerate() {
        for (l, b) in paths.iter().enumerate() {
            if k != l {
                assert!(!a.starts_with(&format!("{b}/")) && a != b);
            }
        }
    }
    // An empty or missing Trash gives no row.
    assert_eq!(junk_rows(&sl, "/home/u", &entries, Some(0), &flatpak).len(), 3);
    assert_eq!(junk_rows(&sl, "/home/u", &entries, None, &vec![]).len(), 2);
}

#[test]
fn finds_files_over_threshold() {
    // 200 000 bytes take 391 blocks of 512; a 2-byte file takes 8.
    let big = large_file_item("/tmp/d/big.bin".into(), 391, 0, 100_000, None);
    let small = large_file_item("/tmp/d/small.txt".into(), 8, 0, 100_000, None);
    let items: Vec<ScanItem> = [big, small].into_iter().flatten().collect();
    assert_eq!(items.len(), 1);
    assert!(items[0].label.contains("big.bin"));
    assert_eq!(items[0].delete_mode, DeleteMode::Trash);
    assert_eq!(items[0].size, 391 * 512);
    assert_eq!(items[0].safety, Safety::Risky);
    assert!(!items[0].selected);
}

#[test]
fn old_files_respect_the_age_cutoff() {
    assert_eq!(age_cutoff(1_000_000, None), None);
    assert_eq!(age_cutoff(1_000_000, Some(1)), Some(1_000_000 - 86_400));
    assert_eq!(age_cutoff(100, Some(1)), Some(0));
    let cutoff = age_cutoff(1_000_000, Some(1));
    assert!(large_file_item("/h/old".into(), 1000, 900_000, 1, cutoff).is_some());
    assert!(large_file_item("/h/new".into(), 1000, 950_000, 1, cutoff).is_none());
    // A time before the epoch reads as far in the future.
    assert!(large_file_item("/h/odd".into(), 1000, -1, 1, cutoff).is_none());
    // A path with no file name is labelled by itself.
    assert_eq!(large_file_item("/".into(), 1, 0, 0, None).unwrap().label, "/");
}

#[test]
fn large_files_sort_biggest_first_stably() {
    let mk = |label: &str, size: u64| {
        let mut i = large_file_item(format!("/h/{label}"), size, 0, 0, None).unwrap();
        i.label = label.to_string();
        i
    };
    let sorted = sort_biggest_first(vec![mk("a", 5), mk("b", 9), mk("c", 5), mk("d", 1)]);
    let labels: Vec<&str> = sorted.iter().map(|i| i.label.as_str()).collect();
    assert_eq!(labels, ["b", "a", "c", "d"]);
}

#[test]
fn monitor_shows_real_mounts_only() {
    let disk = |m: &str, total: u64, available: u64| DiskInfo {
        mount: m.into(),
        total,
        available,
    };
    assert_eq!(disk("/", 100, 30).used(), 70);
    assert_eq!(disk("/", 10, 30).used(), 0);
    let shown = select_disks(&vec![
        disk("/", 100, 30),
        disk("/snap/core/1", 100, 0),
        disk("/snapshots", 100, 0),
        disk("/boot", 0, 0),
    ]);
    let mounts: Vec<&str> = shown.iter().map(|d| d.mount.as_str()).collect();
    assert_eq!(mounts, ["/", "/snapshots"]);
}

fn meta(is_file: bool, nlink: u64, ino: u64, blocks: u64) -> EntryMeta {
    EntryMeta { is_file, nlink, dev: 1, ino, blocks }
}

#[test]
fn sums_file_sizes() {
    let size = dir_usage(&vec![meta(false, 2, 1, 8), meta(true, 1, 2, 16)]);
    assert!(size >= 8192, "got {size}");
}

#[test]
fn empty_dir_is_zero() {
    assert_eq!(dir_usage(&vec![meta(false, 2, 1, 8)]), 0);
}

#[test]
fn hardlinked_inode_counted_once() {
    let mut seen = HashSet::new();
    assert_eq!(entry_disk_usage(&meta(true, 2, 7, 4), &mut seen), 2048);
    assert_eq!(entry_disk_usage(&meta(true, 2, 7, 4), &mut seen), 0);
    assert_eq!(entry_disk_usage(&meta(false, 1, 8, 4), &mut seen), 0);
    assert!(seen.contains(&inode_key_of(1, 7)));
    assert_ne!(inode_key_of(1, 7), inode_key_of(7, 1));
    let total = dir_usage(&vec![meta(true, 2, 7, 4), meta(true, 2, 7, 4), meta(true, 1, 9, 1)]);
    assert_eq!(total, 2048 + 512);
}

fn kp(name: &str, version: &str) -> KernelPackage {
    KernelPackage {
        name: name.into(),
        version: version.into(),
    }
}

/// What `dpkg --compare-versions` answers for the versions used below.
fn dpkg_rank(version: &str) -> u32 {
    match version {
        "5.15.0-2" => 0,
        "6.0.0-9" => 1,
        "6.0.0-10" => 2,
        _ => 3,
    }
}

#[test]
fn kernel_packages_sort_oldest_to_newest_by_version() {
    let mut pkgs = [
        kp("linux-image-6.0.0-10-generic", "6.0.0-10"),
        kp("linux-image-6.0.0-9-generic", "6.0.0-9"),
        kp("linux-image-5.15.0-2-generic", "5.15.0-2"),
    ];
    pkgs.sort_by(|a, b| {
        let (ra, rb) = (dpkg_rank(&a.version), dpkg_rank(&b.version));
        compare_kernel_packages(a, b, ra < rb, ra > rb)
    });
    let order: Vec<&str> = pkgs.iter().map(|p| p.version.as_str()).collect();
    assert_eq!(order, ["5.15.0-2", "6.0.0-9", "6.0.0-10"]);
}

#[test]
fn kernel_order_falls_back_to_names() {
    let a = kp("linux-image-a", "1");
    let b = kp("linux-image-b", "1");
    assert_eq!(compare_kernel_packages(&a, &b, false, false), Ordering::Less);
    assert_eq!(compare_kernel_packages(&b, &a, false, false), Ordering::Greater);
    assert_eq!(compare_kernel_packages(&a, &a, false, false), Ordering::Equal);
    assert_eq!(compare_kernel_packages(&b, &a, true, false), Ordering::Less);
    assert_eq!(compare_kernel_packages(&a, &b, false, true), Ordering::Greater);
}

#[test]
fn package_rows() {
    assert!(apt_cache_item(0).is_none());
    let apt = apt_cache_item(42).unwrap();
    assert_eq!(apt.path, "priv://apt_clean");
    assert_eq!(apt.category, "APT Cache");
    assert!(apt.selected);

    assert!(orphans_item("Reading package lists...\n").is_none());
    let sim = "Remv libfoo1 [1.0]\nRemv libbar2 [2.0]\nAfter this operation, 12.3 MB disk space will be freed.\n";
    let orphans = orphans_item(sim).unwrap();
    assert_eq!(orphans.label, "2 unused dependencies");
    assert_eq!(orphans.size, 12_300_000);
    assert_eq!(orphans.path, "priv://apt_autoremove");
    assert!(!orphans.selected);

    assert!(old_kernels_item(0).is_none());
    let k = old_kernels_item(3).unwrap();
    assert_eq!(k.label, "3 old kernel package(s)");
    assert_eq!(k.note.as_deref(), Some("Keeps the running and newest kernel"));

    assert!(journal_item(None).is_none());
    assert!(journal_item(Some(50 * 1024 * 1024)).is_none());
    let j = journal_item(Some(50 * 1024 * 1024 + 1)).unwrap();
    assert_eq!(j.path, "priv://vacuum_journal");
    assert_eq!(j.size, 50 * 1024 * 1024 + 1);

    assert!(flatpak_runtimes_item("Nothing unused to uninstall\n").is_none());
    // Matched case-insensitively.
    assert!(flatpak_runtimes_item("NOTHING UNUSED TO UNINSTALL").is_none());
    let f = flatpak_runtimes_item("Would uninstall:\norg.example.Runtime").unwrap();
    assert_eq!(f.path, "priv://flatpak_remove_unused");
}

#[test]
fn selected_never_exceeds_total() {
    let mut a = item("/home/u/a", DeleteMode::Permanent);
    a.size = 10;
    let mut b = item("/home/u/b", DeleteMode::Permanent);
    b.size = 5;
    b.selected = false;
    let res = ScanResult { items: vec![a, b] };
    assert_eq!(res.total_size(), 15);
    assert_eq!(res.selected_size(), 10);
    assert!(res.selected_size() <= res.total_size());
}

#[test]
fn sizes_in_words() {
    let mut a = item("/home/u/a", DeleteMode::Permanent);
    a.size = 999;
    assert_eq!(a.human_size(), "999 B");
    a.size = 0;
    assert_eq!(a.human_size(), "0 B");
    a.size = 1_500_000;
    assert!(a.human_size().ends_with("MB"));
}

use cml_core::clean::run_clean_report;
use cml_core::scan::packages::normalized_probe_lists_unused;
use cml_core::scan::unit_multiplier;

#[test]
fn clean_run_reports_every_item() {
    let sl = Safelist::new("/home/u".to_string(), vec![]);
    let items = vec![
        item("/home/u/.cache/a", DeleteMode::Permanent),
        item("priv://apt_clean", DeleteMode::Permanent),
        item("/etc/x", DeleteMode::Permanent),
        item("/home/u/.cache/b", DeleteMode::Permanent),
    ];
    let steps = plan_clean(&sl, &items);
    let outcomes = vec![Some(Ok(100)), None, None, Some(Err("denied".to_string()))];
    let rep = run_clean_report(&items, &steps, &outcomes);
    assert_eq!(rep.freed_bytes, 100);
    assert_eq!(rep.removed, 1);
    assert_eq!(rep.failures.len(), 2);
    assert_eq!(rep.failures[0], ("/etc/x".to_string(), "blocked by safelist".to_string()));
    assert_eq!(rep.failures[1], ("/home/u/.cache/b".to_string(), "denied".to_string()));
    // Three selected non-privileged items: each removed or reported.
    assert_eq!(rep.removed + rep.failures.len(), 3);
    // A cancelled run reports what it did.
    let partial = run_clean_report(&items, &steps, &vec![Some(Ok(5))]);
    assert_eq!((partial.freed_bytes, partial.removed, partial.failures.len()), (5, 1, 0));
}

#[test]
fn lowercased_texts() {
    assert_eq!(unit_multiplier(&vec!['k', 'i', 'b']), 1024);
    assert_eq!(unit_multiplier(&vec!['g', 'b']), 1024 * 1024 * 1024);
    assert_eq!(unit_multiplier(&vec!['K', 'B']), 1);
    assert!(!normalized_probe_lists_unused(&vec![]));
    assert!(!normalized_probe_lists_unused(&"nothing unused to uninstall".chars().collect()));
    assert!(normalized_probe_lists_unused(&"would uninstall: org.x".chars().collect()));
}

use cml_core::process::is_process_running;
use cml_core::scan::packages_size_from_human;

#[test]
fn ascii_case_is_ignored() {
    assert_eq!(packages_size_from_human("1.0 mb"), packages_size_from_human("1.0 MB"));
    assert_eq!(packages_size_from_human("2 GiB"), 2 * 1024 * 1024 * 1024);
    let comms = vec!["FireFox\n".to_string()];
    assert_eq!(is_process_running(&comms, "firefox"), is_process_running(&comms, "FIREFOX"));
    assert!(is_process_running(&comms, "fox"));
}
