//! User configuration. The program stores it as TOML at
//! `~/.config/cleanmylinux/config.toml`; here is what it holds and its defaults.

use vstd::prelude::*;

verus! {

#[derive(Debug, Clone)]
pub struct Config {
    /// Paths the user never wants scanned or deleted (added on top of the
    /// built-in safelist).
    pub exclusions: Vec<String>,
    /// Minimum size (bytes) for the "Large & Old Files" finder.
    pub large_file_threshold: u64,
    /// Minimum age (days) for a file to count as "old".
    pub old_file_days: u64,
    /// Theme preference: "system" | "light" | "dark".
    pub theme: String,
}

impl Default for Config {
    /// No exclusions, 100 MiB, 180 days, the system theme.
    fn default() -> (c: Config)
        ensures
            c.exclusions@.len() == 0,
            c.large_file_threshold == 100 * 1024 * 1024,
            c.old_file_days == 180,
            c.theme@ == "system"@,
    {
        Config {
            exclusions: Vec::new(),
            large_file_threshold: 100 * 1024 * 1024,
            old_file_days: 180,
            theme: "system".to_owned(),
        }
    }
}

} // verus!
