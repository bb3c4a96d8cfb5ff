//! Process inspection decisions, over what `/proc` holds: used to avoid
//! touching the live state of running apps (a browser's cache while the
//! browser is open) and to respect a busy package manager.
//!
//! The shell lists `/proc` and reads each `/proc/<pid>/comm`.

use vstd::prelude::*;
use crate::text::{
    ascii_lower, is_ascii_text, lemma_ascii_trim,
    chars_of, contains, contains_chars, is_ascii_digit, is_digit, lowercase, lowercase_chars, trim,
    trim_chars,
};

verus! {

/// Whether a `/proc` entry name is a PID: digits only.
pub open spec fn is_pid_name(name: Seq<char>) -> bool {
    forall|i: int| 0 <= i < name.len() ==> is_digit(#[trigger] name[i])
}

pub fn is_pid_entry(name: &str) -> (b: bool)
    ensures
        b == is_pid_name(name@),
{
    let v = chars_of(name);
    let mut i: usize = 0;
    while i < v.len()
        invariant
            i <= v.len(),
            v@ == name@,
            forall|j: int| 0 <= j < i ==> is_digit(#[trigger] v@[j]),
        decreases v.len() - i,
    {
        if !is_ascii_digit(v[i]) {
            return false;
        }
        i = i + 1;
    }
    true
}

/// Whether a process command name (the content of `/proc/<pid>/comm`)
/// contains `needle`, ignoring case and surrounding white space.
pub open spec fn comm_matches(comm: Seq<char>, needle: Seq<char>) -> bool {
    contains(lowercase(trim(comm)), lowercase(needle))
}

/// Whether any of the running processes' command names contains `needle`
/// (case-insensitive).
pub open spec fn any_comm_matches(comms: Seq<Seq<char>>, needle: Seq<char>) -> bool {
    exists|i: int| 0 <= i < comms.len() && comm_matches(#[trigger] comms[i], needle)
}

/// The same match with ASCII lower-casing: what it is for ASCII text.
pub open spec fn comm_matches_ascii(comm: Seq<char>, needle: Seq<char>) -> bool {
    contains(ascii_lower(trim(comm)), ascii_lower(needle))
}

pub open spec fn any_comm_matches_ascii(comms: Seq<Seq<char>>, needle: Seq<char>) -> bool {
    exists|i: int| 0 <= i < comms.len() && comm_matches_ascii(#[trigger] comms[i], needle)
}

/// Whether every text of `v` is ASCII.
pub open spec fn all_ascii(v: Seq<Seq<char>>) -> bool {
    forall|i: int| 0 <= i < v.len() ==> is_ascii_text(#[trigger] v[i])
}

pub open spec fn string_views(v: Seq<String>) -> Seq<Seq<char>> {
    v.map_values(|s: String| s@)
}

/// True if any of `comms` (the command names of the running processes)
/// contains `needle`, case-insensitively.
pub fn is_process_running(comms: &Vec<String>, needle: &str) -> (b: bool)
    ensures
        b == any_comm_matches(string_views(comms@), needle@),
        is_ascii_text(needle@) && all_ascii(string_views(comms@)) ==> b == any_comm_matches_ascii(
            string_views(comms@),
            needle@,
        ),
{
    let ghost ascii = is_ascii_text(needle@) && all_ascii(string_views(comms@));
    let n = lowercase_chars(&chars_of(needle));
    let mut i: usize = 0;
    while i < comms.len()
        invariant
            i <= comms.len(),
            n@ == lowercase(needle@),
            ascii == (is_ascii_text(needle@) && all_ascii(string_views(comms@))),
            ascii ==> n@ == ascii_lower(needle@),
            forall|j: int| 0 <= j < i ==> !comm_matches(#[trigger] string_views(comms@)[j], needle@),
            ascii ==> forall|j: int|
                0 <= j < i ==> !comm_matches_ascii(#[trigger] string_views(comms@)[j], needle@),
        decreases comms.len() - i,
    {
        assert(string_views(comms@)[i as int] == comms@[i as int]@);
        proof {
            if ascii {
                assert(is_ascii_text(string_views(comms@)[i as int]));
                lemma_ascii_trim(comms@[i as int]@);
            }
        }
        let c = lowercase_chars(&trim_chars(&chars_of(comms[i].as_str())));
        if contains_chars(&c, &n) {
            return true;
        }
        i = i + 1;
    }
    false
}

/// The lock apt and dpkg take while they run.
pub const DPKG_LOCK: &'static str = "/var/lib/dpkg/lock-frontend";

/// The package tools whose running means the lock is held.
pub open spec fn busy_tool(name: Seq<char>) -> bool {
    name == "apt"@ || name == "apt-get"@ || name == "dpkg"@ || name == "unattended-upgr"@ || name
        == "packagekitd"@
}

/// Whether the apt/dpkg lock is held: the lock file exists and a package tool
/// is running. (The file alone does not prove the lock is held.)
pub open spec fn is_dpkg_locked(lock_exists: bool, comms: Seq<Seq<char>>) -> bool {
    lock_exists && exists|t: Seq<char>| #![trigger any_comm_matches(comms, t)] busy_tool(t) && any_comm_matches(comms, t)
}

/// Whether another package operation (or unattended-upgrades) is in
/// progress, so none may start, from whether the lock file exists and the
/// running processes' command names.
pub fn dpkg_locked(lock_exists: bool, comms: &Vec<String>) -> (b: bool)
    ensures
        b == is_dpkg_locked(lock_exists, string_views(comms@)),
{
    if !lock_exists {
        return false;
    }
    let tools: [&str; 5] = ["apt", "apt-get", "dpkg", "unattended-upgr", "packagekitd"];
    let mut i: usize = 0;
    while i < 5
        invariant
            i <= 5,
            lock_exists,
            tools@ == seq!["apt", "apt-get", "dpkg", "unattended-upgr", "packagekitd"],
            forall|j: int| 0 <= j < i ==> !any_comm_matches(string_views(comms@), #[trigger] tools@[j]@),
        decreases 5 - i,
    {
        if is_process_running(comms, tools[i]) {
            proof {
                let w = tools@[i as int]@;
                if i == 0 {
                    assert(tools@[0] == "apt");
                } else if i == 1 {
                    assert(tools@[1] == "apt-get");
                } else if i == 2 {
                    assert(tools@[2] == "dpkg");
                } else if i == 3 {
                    assert(tools@[3] == "unattended-upgr");
                } else {
                    assert(tools@[4] == "packagekitd");
                }
                assert(busy_tool(w) && any_comm_matches(string_views(comms@), w));
                assert(is_dpkg_locked(lock_exists, string_views(comms@)));
            }
            return true;
        }
        i = i + 1;
    }
    assert forall|t: Seq<char>| busy_tool(t) implies !any_comm_matches(string_views(comms@), t) by {
        if t == "apt"@ {
            assert(tools@[0]@ == t);
        } else if t == "apt-get"@ {
            assert(tools@[1]@ == t);
        } else if t == "dpkg"@ {
            assert(tools@[2]@ == t);
        } else if t == "unattended-upgr"@ {
            assert(tools@[3]@ == t);
        } else {
            assert(tools@[4]@ == t);
        }
    }
    false
}

/// The apt/dpkg lock counts as held exactly when the lock file exists and a
/// running command name contains one of `apt`, `apt-get`, `dpkg`,
/// `unattended-upgr` (the kernel's cut of `unattended-upgrades`) or
/// `packagekitd`.
pub proof fn law_dpkg_lock_held_by_package_tools(lock_exists: bool, comms: Seq<Seq<char>>)
    ensures
        is_dpkg_locked(lock_exists, comms) <==> lock_exists && (any_comm_matches(comms, "apt"@)
            || any_comm_matches(comms, "apt-get"@) || any_comm_matches(comms, "dpkg"@)
            || any_comm_matches(comms, "unattended-upgr"@) || any_comm_matches(
            comms,
            "packagekitd"@,
        )),
{
    if is_dpkg_locked(lock_exists, comms) {
        let t = choose|t: Seq<char>| busy_tool(t) && any_comm_matches(comms, t);
        assert(busy_tool(t) && any_comm_matches(comms, t));
    }
    if lock_exists {
        if any_comm_matches(comms, "apt"@) {
            assert(busy_tool("apt"@));
        } else if any_comm_matches(comms, "apt-get"@) {
            assert(busy_tool("apt-get"@));
        } else if any_comm_matches(comms, "dpkg"@) {
            assert(busy_tool("dpkg"@));
        } else if any_comm_matches(comms, "unattended-upgr"@) {
            assert(busy_tool("unattended-upgr"@));
        } else if any_comm_matches(comms, "packagekitd"@) {
            assert(busy_tool("packagekitd"@));
        }
    }
}

} // verus!
