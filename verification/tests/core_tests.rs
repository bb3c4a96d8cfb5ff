use cml_core::config::Config;
use cml_core::helper::KernelPackage;
use cml_core::safety::Safelist;
use cml_core::scan::packages::{
    flatpak_dry_run_has_unused, parse_apt_size, parse_journal_usage, priv_marker,
    FLATPAK_UNUSED_DRY_RUN_ARGS,
};
use cml_core::scan::packages_size_from_human;

#[test]
fn defaults_are_sane() {
    let c = Config::default();
    assert!(c.large_file_threshold >= 1024 * 1024);
    assert_eq!(c.theme, "system");
}

#[test]
fn protects_credentials_under_home() {
    let sl = Safelist::new("/home/u".to_string(), vec![]);
    assert!(sl.is_protected("/home/u/.ssh"));
    assert!(sl.is_protected("/home/u/.ssh/id_ed25519"));
    assert!(sl.is_protected("/home/u/.gnupg/secring"));
    assert!(sl.is_protected("/home/u/.mozilla/firefox/abc.default"));
}

#[test]
fn allows_plain_cache() {
    let sl = Safelist::new("/home/u".to_string(), vec![]);
    assert!(!sl.is_protected("/home/u/.cache/thumbnails"));
    assert!(sl.is_safe_user_path("/home/u/.cache/thumbnails"));
}

#[test]
fn rejects_system_and_outside_home() {
    let sl = Safelist::new("/home/u".to_string(), vec![]);
    assert!(sl.is_protected("/proc/1"));
    assert!(!sl.is_safe_user_path("/etc/passwd"));
}

#[test]
fn honors_user_exclusions() {
    let sl = Safelist::new(
        "/home/u".to_string(),
        vec!["/home/u/.cache/keepme".to_string()],
    );
    assert!(sl.is_protected("/home/u/.cache/keepme/data"));
}

#[test]
fn parses_human_sizes() {
    assert_eq!(packages_size_from_human("1.0 MB"), 1024 * 1024);
    assert_eq!(packages_size_from_human("512 kB"), 512 * 1024);
    assert_eq!(packages_size_from_human(""), 0);
}

#[test]
fn parses_apt_sizes() {
    assert_eq!(parse_apt_size("123 MB"), 123_000_000);
    assert_eq!(parse_apt_size("1,024 kB"), 1_024_000);
    assert_eq!(parse_apt_size("2.0 GB"), 2_000_000_000);
}

#[test]
fn parses_journal_usage_line() {
    let s = "Archived and active journals take up 1.2G in the file system.";
    assert_eq!(
        parse_journal_usage(s),
        Some((1.2 * (1u64 << 30) as f64) as u64)
    );
}

#[test]
fn priv_marker_roundtrip() {
    assert_eq!(priv_marker("apt_clean"), "priv://apt_clean");
}

#[test]
fn flatpak_probe_is_dry_run_only() {
    assert!(FLATPAK_UNUSED_DRY_RUN_ARGS.contains(&"--dry-run"));
    assert!(FLATPAK_UNUSED_DRY_RUN_ARGS.contains(&"--noninteractive"));
    assert!(!FLATPAK_UNUSED_DRY_RUN_ARGS.contains(&"--assumeyes"));
    assert!(!FLATPAK_UNUSED_DRY_RUN_ARGS.contains(&"-y"));
}

#[test]
fn parses_flatpak_unused_probe() {
    assert!(!flatpak_dry_run_has_unused(""));
    assert!(!flatpak_dry_run_has_unused("Nothing unused to uninstall"));
    assert!(flatpak_dry_run_has_unused(
        "Would uninstall:\norg.example.Runtime"
    ));
}

fn kp(name: &str, version: &str) -> KernelPackage {
    KernelPackage {
        name: name.into(),
        version: version.into(),
    }
}

#[test]
fn kernel_package_contains_matches_name_or_version() {
    let p = kp("linux-image-6.0.0-9-generic", "6.0.0-9");
    assert!(p.contains("6.0.0-9-generic"));
    assert!(p.contains("6.0.0-9"));
    assert!(!p.contains("5.15.0-2"));
}
