use cml_core::config::Config;
use cml_core::engine::{
    has_space_scan, merge_into, scan_progress_message, Engine, SMART_SCAN_MODULES,
};
use cml_core::frontend::{
    clean_dialog_lines, clean_status, items_found_status, module_subtitle, safety_icon,
    safety_tooltip, scan_status, scans_on_entry, select_all, selection_summary, set_selected,
    subtitle, ui_rows, view_heading,
};
use cml_core::helper::{invalid_request, root_gate, version_gate};
use cml_core::helper_ipc::{HelperOp, HelperRequest};
use cml_core::process::{dpkg_locked, is_pid_entry, is_process_running};
use cml_core::types::{CleanReport, DeleteMode, Module, Safety, ScanItem, ScanResult};

fn row(path: &str, size: u64, mode: DeleteMode, safety: Safety, selected: bool) -> ScanItem {
    ScanItem {
        category: "c".into(),
        label: "l".into(),
        path: path.into(),
        size,
        safety,
        delete_mode: mode,
        selected,
        note: None,
    }
}

#[test]
fn process_matching() {
    assert!(is_pid_entry("1234"));
    assert!(!is_pid_entry("self"));
    let comms = vec!["bash\n".to_string(), "Firefox\n".to_string()];
    assert!(is_process_running(&comms, "firefox"));
    assert!(is_process_running(&comms, "FIRE"));
    assert!(!is_process_running(&comms, "chrome"));
}

#[test]
fn dpkg_lock_needs_file_and_tool() {
    let busy = vec!["apt-get\n".to_string()];
    let idle = vec!["bash\n".to_string()];
    assert!(!dpkg_locked(false, &busy));
    assert!(dpkg_locked(true, &busy));
    assert!(!dpkg_locked(true, &idle));
    assert!(dpkg_locked(true, &vec!["unattended-upgr".to_string()]));
}

#[test]
fn engine_builds_safelist_from_config() {
    let mut cfg = Config::default();
    cfg.exclusions = vec!["/home/u/keep".to_string()];
    let e = Engine::new(cfg, Some("/home/u".to_string()));
    assert_eq!(e.safelist.home(), "/home/u");
    assert!(e.safelist.is_protected("/home/u/keep/x"));
    assert!(e.safelist.is_protected("/home/u/.ssh"));
    assert_eq!(e.large_files_params(), (100 * 1024 * 1024, Some(180)));

    let root = Engine::new(Config::default(), None);
    assert_eq!(root.safelist.home(), "/");
}

#[test]
fn smart_scan_runs_space_modules() {
    assert_eq!(SMART_SCAN_MODULES.len(), 3);
    for m in SMART_SCAN_MODULES {
        assert!(has_space_scan(m));
    }
    assert!(!has_space_scan(Module::Uninstaller));
    assert!(!has_space_scan(Module::SystemMonitor));
    assert_eq!(scan_progress_message(Module::SystemJunk), "Scanning System Junk…");

    let mut merged = ScanResult::default();
    merge_into(&mut merged, ScanResult { items: vec![row("/a", 1, DeleteMode::Permanent, Safety::Safe, true)] });
    merge_into(&mut merged, ScanResult { items: vec![row("/b", 2, DeleteMode::Trash, Safety::Risky, false)] });
    let paths: Vec<&str> = merged.items.iter().map(|i| i.path.as_str()).collect();
    assert_eq!(paths, ["/a", "/b"]);
}

#[test]
fn headings_and_row_text() {
    assert_eq!(view_heading(None), ("Smart Scan", "Reclaim space with one click"));
    assert_eq!(
        view_heading(Some(Module::LargeAndOldFiles)),
        ("Large & Old Files", "Big files in your home folder (sent to Trash)")
    );
    assert_eq!(module_subtitle(Module::SystemMonitor), "Live CPU, memory and disk usage");
    assert!(!scans_on_entry(Some(Module::SystemMonitor)));
    assert!(scans_on_entry(None));
    assert!(scans_on_entry(Some(Module::SystemJunk)));
    assert_eq!(safety_icon(Safety::Risky), "dialog-warning-symbolic");
    assert_eq!(safety_tooltip(Safety::Safe), "Safe to remove");
    assert_eq!(subtitle("1 kB", &None), "1 kB");
    assert_eq!(subtitle("1 kB", &Some("note".to_string())), "1 kB · note");
}

#[test]
fn clean_dialog_summarises_selection() {
    assert!(clean_dialog_lines(&vec![row("/a", 5, DeleteMode::Permanent, Safety::Safe, false)]).is_none());
    let items = vec![
        row("/home/u/.cache/a", 300, DeleteMode::Permanent, Safety::Safe, true),
        row("/home/u/big.iso", 400, DeleteMode::Trash, Safety::Risky, true),
        row("priv://apt_clean", 200, DeleteMode::Permanent, Safety::Safe, true),
        row("/home/u/other", 1_000_000, DeleteMode::Permanent, Safety::Safe, false),
    ];
    let lines = clean_dialog_lines(&items).unwrap();
    assert_eq!(
        lines,
        vec![
            "900 B selected across 3 item(s).".to_string(),
            "2 item(s) will be deleted permanently.".to_string(),
            "1 user file(s) will be moved to Trash.".to_string(),
            "1 privileged action(s) may ask for your password.".to_string(),
            "1 risky item(s) are selected.".to_string(),
        ]
    );
    let plain = clean_dialog_lines(&vec![row("/home/u/a", 1, DeleteMode::Permanent, Safety::Safe, true)]).unwrap();
    assert_eq!(plain.len(), 2);
}

#[test]
fn status_lines() {
    let mut rep = CleanReport::default();
    assert_eq!(clean_status(&rep, ""), "Freed 0 B");
    rep.freed_bytes = 512;
    rep.failures.push(("/x".into(), "blocked by safelist".into()));
    assert_eq!(clean_status(&rep, "apt cache cleaned"), "Freed 512 B · apt cache cleaned · 1 skipped");
    assert_eq!(scan_status(12), "12 B found");
    assert_eq!(selection_summary(0), "0 B selected");
    assert_eq!(items_found_status(4), "4 items found");
}

#[test]
fn row_selection() {
    let mut items = vec![
        row("/a", 1, DeleteMode::Permanent, Safety::Safe, true),
        row("/b", 2, DeleteMode::Permanent, Safety::Safe, true),
    ];
    assert!(!set_selected(&mut items, -1, false));
    assert!(!set_selected(&mut items, 2, false));
    assert!(items.iter().all(|i| i.selected));
    assert!(set_selected(&mut items, 1, false));
    assert!(items[0].selected && !items[1].selected);
    assert_eq!(items[1].path, "/b");
    select_all(&mut items, false);
    assert!(items.iter().all(|i| !i.selected));
    select_all(&mut items, true);
    assert!(items.iter().all(|i| i.selected));
}

#[test]
fn ui_rows_render_items() {
    let mut noted = row("priv://vacuum_journal", 999, DeleteMode::Permanent, Safety::Review, false);
    noted.note = Some("Vacuums to a smaller cap".into());
    let rows = ui_rows(&vec![noted, row("/home/u/f", 3, DeleteMode::Trash, Safety::Risky, true)]);
    assert_eq!(rows.len(), 2);
    assert!(rows[0].privileged);
    assert_eq!(rows[0].safety, "review");
    assert_eq!(rows[0].delete_mode, "permanent");
    assert_eq!(rows[0].size_text, "999 B");
    assert_eq!(rows[0].note, "Vacuums to a smaller cap");
    assert!(!rows[1].privileged);
    assert_eq!(rows[1].safety, "risky");
    assert_eq!(rows[1].delete_mode, "trash");
    assert_eq!(rows[1].note, "");
}

#[test]
fn helper_gates() {
    assert!(root_gate(true).is_none());
    let r = root_gate(false).unwrap();
    assert!(!r.ok);
    assert_eq!(r.message, "helper must run as root (via pkexec)");
    assert!(version_gate(HelperRequest::PROTOCOL_VERSION).is_none());
    assert_eq!(version_gate(2).unwrap().message, "protocol mismatch: helper 1 vs caller 2");
    assert_eq!(invalid_request("eof").message, "invalid request: eof");
    assert_eq!(HelperOp::from_marker("priv://apt_clean"), Some(HelperOp::AptClean));
    assert_eq!(HelperOp::from_marker("priv://nope"), None);
}

use cml_core::gnome_app::{App, CmdOut, Effect, Msg, Screen};
use cml_core::kde_controller::ControllerRust;

fn found() -> ScanResult {
    ScanResult {
        items: vec![
            row("/home/u/.cache/a", 300, DeleteMode::Permanent, Safety::Safe, true),
            row("/home/u/big.iso", 400, DeleteMode::Trash, Safety::Risky, false),
        ],
    }
}

#[test]
fn gnome_window_scan_cycle() {
    let mut app = App::new();
    assert_eq!(app.title, "Smart Scan");
    assert!(matches!(app.update(Msg::Select(Screen::Module(Module::PackageCleanup))), Effect::SendScan));
    assert_eq!(app.subtitle, "APT cache, orphans, old kernels, journal");
    assert!(matches!(app.update(Msg::Scan), Effect::StartScan(Screen::Module(Module::PackageCleanup))));
    assert!(app.busy);
    assert_eq!(app.status, "Scanning…");
    assert_eq!(app.scan_label(), "Scanning…");
    // A second scan while busy does nothing.
    assert!(matches!(app.update(Msg::Scan), Effect::Nothing));
    assert!(matches!(app.update(Msg::Clean), Effect::Nothing));
    assert!(matches!(app.update_cmd(CmdOut::ScanDone(found())), Effect::RebuildRows));
    assert!(!app.busy);
    assert_eq!(app.status, "700 B found");
    assert_eq!(app.clean_label(), "Clean 300 B");
    assert!(app.clean_enabled());
    let (sel, total, text) = app.gauge();
    assert_eq!((sel, total, text.as_str()), (300, 700, "300 B"));
}

#[test]
fn gnome_window_selection_and_clean() {
    let mut app = App::new();
    app.update_cmd(CmdOut::ScanDone(found()));
    assert!(matches!(app.update(Msg::RowToggled(1, true)), Effect::RefreshGauge));
    assert!(app.result.items[1].selected);
    assert!(matches!(app.update(Msg::RowToggled(9, true)), Effect::RefreshGauge));
    match app.update(Msg::ConfirmClean) {
        Effect::ConfirmClean(lines) => {
            assert_eq!(lines[0], "700 B selected across 2 item(s).");
            assert_eq!(lines[2], "1 user file(s) will be moved to Trash.");
        }
        _ => panic!("expected a confirmation"),
    }
    assert!(matches!(app.update(Msg::SelectAll(false)), Effect::RebuildRows));
    assert!(!app.clean_enabled());
    assert!(matches!(app.update(Msg::ConfirmClean), Effect::Nothing));
    app.update(Msg::SelectAll(true));
    match app.update(Msg::Clean) {
        Effect::StartClean(items) => assert_eq!(items.len(), 2),
        _ => panic!("expected a cleanup"),
    }
    assert_eq!(app.status, "Cleaning…");
    assert!(matches!(app.update(Msg::Cancel), Effect::CancelWork));
    assert_eq!(app.status, "Cancelling…");
    let mut rep = CleanReport::default();
    rep.freed_bytes = 700;
    assert!(matches!(app.update_cmd(CmdOut::CleanDone(rep, String::new())), Effect::SendScan));
    assert_eq!(app.status, "Freed 700 B");
    assert!(!app.busy);
}

#[test]
fn gnome_window_monitor_view() {
    let mut app = App::new();
    assert!(matches!(app.update(Msg::Tick), Effect::Nothing));
    assert!(matches!(app.update(Msg::Select(Screen::Module(Module::SystemMonitor))), Effect::Nothing));
    assert!(matches!(app.update(Msg::Tick), Effect::SampleMonitor));
    assert!(matches!(app.update(Msg::Select(Screen::SmartScan)), Effect::SendScan));
    assert_eq!(app.title, "Smart Scan");
}

#[test]
fn kde_controller_cycle() {
    let mut c = ControllerRust::new();
    assert_eq!(c.summary, "Press Scan");
    assert!(c.scan());
    assert!(!c.scan());
    assert_eq!(c.status, "Scanning…");
    let g = c.scan_done(found().items);
    assert_eq!((g.selected, g.total), (300, 700));
    assert_eq!(c.summary, "300 B selected");
    assert_eq!(c.status, "2 items found");
    assert!(c.has_selection);

    assert!(c.set_selected(-1, true).is_none());
    assert!(c.set_selected(2, true).is_none());
    let g = c.set_selected(0, false).unwrap();
    assert_eq!((g.selected, g.total), (0, 700));
    assert!(!c.has_selection);
    assert_eq!(c.summary, "0 B selected");

    c.set_selected(1, true);
    let items = c.clean_safe().unwrap();
    assert_eq!(items.len(), 2);
    assert!(c.clean_safe().is_none());
    let mut rep = CleanReport::default();
    rep.freed_bytes = 400;
    c.clean_done(&rep, "");
    assert!(!c.busy);
    assert_eq!(c.status, "Freed 400 B");
    assert_eq!(c.summary, "0 B selected");
    assert!(c.last.iter().all(|i| !i.selected));
}

use cml_core::engine::{smart_scan_step, SmartScanStep};

#[test]
fn smart_scan_steps_in_order_until_cancelled() {
    assert_eq!(smart_scan_step(0, false), SmartScanStep::Scan(Module::SystemJunk));
    assert_eq!(smart_scan_step(1, false), SmartScanStep::Scan(Module::PackageCleanup));
    assert_eq!(smart_scan_step(2, false), SmartScanStep::Scan(Module::LargeAndOldFiles));
    assert_eq!(smart_scan_step(3, false), SmartScanStep::Finish);
    assert_eq!(smart_scan_step(1, true), SmartScanStep::Finish);
}

use cml_core::engine::smart_scan_result;

#[test]
fn smart_scan_joins_module_results_in_order() {
    let j = ScanResult { items: vec![row("/j", 1, DeleteMode::Permanent, Safety::Safe, true)] };
    let p = ScanResult { items: vec![row("priv://apt_clean", 2, DeleteMode::Permanent, Safety::Safe, true)] };
    let l = ScanResult { items: vec![row("/l", 3, DeleteMode::Trash, Safety::Risky, false)] };
    let merged = smart_scan_result(vec![j, p, l]);
    let paths: Vec<&str> = merged.items.iter().map(|i| i.path.as_str()).collect();
    assert_eq!(paths, ["/j", "priv://apt_clean", "/l"]);
    assert!(smart_scan_result(vec![]).items.is_empty());
}
