//! Package Cleanup: reading what apt, journalctl, flatpak and dpkg print.
//!
//! The removals themselves are privileged (see [`crate::helper_ipc`]); a row
//! of this scanner carries a `priv://<op>` marker as its path.

use vstd::prelude::*;
use crate::numbers::{parse_scaled, scaled_parse};
use crate::types::{is_marker, priv_scheme, DeleteMode, Safety, ScanItem, ScanItemView};
use crate::helper::{
    kernel_cutoff, kernel_removal_candidates, kernel_views, message_with_number, removal_candidates,
    KernelPackage,
};
use crate::helper_ipc::{law_marker_scheme_optional, marker_key, op_for_key};
use crate::text::decimal_digits;
use crate::text::{
    ascii_lower, is_ascii_text, lemma_ascii_trim,
    chars_of, concat, contains, contains_chars, ends_with, ends_with_chars, eq_chars, find,
    find_chars, lines, lowercase, lowercase_chars, non_ws_pred,
    remove_char, remove_char_chars, run_len, slice_chars, split_lines, split_words, starts_with,
    starts_with_chars, string_of, trim, trim_chars, trim_end_char, trim_end_char_chars, views,
    words,
};

verus! {

/// Synthetic path scheme used to tag privileged rows, e.g. `priv://apt_clean`.
pub open spec fn marker_of(op: Seq<char>) -> Seq<char> {
    priv_scheme() + op
}

/// Every marker the scanner emits is recognised as a marker, so the
/// user-space cleaner skips it and no path is ever derived from it.
pub proof fn law_markers_are_markers(op: Seq<char>)
    ensures
        is_marker(marker_of(op)),
{
    assert(marker_of(op).take(priv_scheme().len() as int) =~= priv_scheme());
}

/// Synthetic path scheme used to tag privileged rows, e.g. `priv://apt_clean`.
pub fn priv_marker(op: &str) -> (p: String)
    ensures
        p@ == marker_of(op@),
{
    let prefix = vec!['p', 'r', 'i', 'v', ':', '/', '/'];
    let v = concat(&prefix, &chars_of(op));
    assert(prefix@ =~= seq!['p', 'r', 'i', 'v', ':', '/', '/']);
    string_of(v.as_slice())
}

/// The arguments of the read-only flatpak probe.
pub const FLATPAK_UNUSED_DRY_RUN_ARGS: [&'static str; 5] = [
    "uninstall",
    "--unused",
    "--system",
    "--noninteractive",
    "--dry-run",
];

/// Whether the probe's output, trimmed and lower-cased, lists something to
/// uninstall: it is not empty and says neither "nothing unused", "no unused"
/// nor "error".
pub open spec fn normalized_lists_unused(normalized: Seq<char>) -> bool {
    &&& normalized.len() > 0
    &&& !contains(normalized, "nothing unused"@)
    &&& !contains(normalized, "no unused"@)
    &&& !contains(normalized, "error"@)
}

/// Whether the dry-run probe's output lists something to uninstall.
pub open spec fn probe_lists_unused(out: Seq<char>) -> bool {
    normalized_lists_unused(lowercase(trim(out)))
}

/// The probe check on output that is already trimmed and lower-cased.
pub fn normalized_probe_lists_unused(normalized: &Vec<char>) -> (b: bool)
    ensures
        b == normalized_lists_unused(normalized@),
{
    normalized.len() > 0 && !contains_chars(normalized, &chars_of("nothing unused"))
        && !contains_chars(normalized, &chars_of("no unused")) && !contains_chars(
        normalized,
        &chars_of("error"),
    )
}

pub fn flatpak_dry_run_has_unused(out: &str) -> (b: bool)
    ensures
        b == probe_lists_unused(out@),
        is_ascii_text(out@) ==> b == normalized_lists_unused(ascii_lower(trim(out@))),
{
    proof {
        if is_ascii_text(out@) {
            lemma_ascii_trim(out@);
        }
    }
    normalized_probe_lists_unused(&lowercase_chars(&trim_chars(&chars_of(out))))
}

/// The multiplier of an apt unit word: exactly `kB`, `MB`, `GB`; 1 otherwise.
pub open spec fn apt_unit_multiplier(unit: Option<Seq<char>>) -> nat {
    match unit {
        Some(u) => if u == "kB"@ {
            1000
        } else if u == "MB"@ {
            1000000
        } else if u == "GB"@ {
            1000000000
        } else {
            1
        },
        None => 1,
    }
}

/// An apt size such as "123 MB", "1,024 kB" (thousands commas) or "2.0 GB"
/// in bytes; 0 when the first word is not a number.
pub open spec fn apt_size_bytes(s: Seq<char>) -> u64 {
    let w = words(remove_char(s, ','));
    if w.len() == 0 {
        0
    } else {
        let unit = if w.len() > 1 { Some(w[1]) } else { None };
        match scaled_parse(w[0], apt_unit_multiplier(unit)) {
            Some(v) => v,
            None => 0,
        }
    }
}

/// Parse apt size strings like "123 MB" / "1,024 kB" / "2.0 GB" into bytes.
pub fn parse_apt_size(s: &str) -> (n: u64)
    ensures
        n == apt_size_bytes(s@),
{
    let w = split_words(&remove_char_chars(&chars_of(s), ','));
    if w.len() == 0 {
        return 0;
    }
    assert(views(w@)[0] == w@[0]@);
    let mult = if w.len() > 1 {
        assert(views(w@)[1] == w@[1]@);
        let u = &w[1];
        if eq_chars(u, &chars_of("kB")) {
            1000
        } else if eq_chars(u, &chars_of("MB")) {
            1000000
        } else if eq_chars(u, &chars_of("GB")) {
            1000000000
        } else {
            1
        }
    } else {
        1
    };
    match parse_scaled(&w[0], mult) {
        Some(v) => v,
        None => 0,
    }
}

pub open spec fn freed_prefix() -> Seq<char> {
    "After this operation, "@
}

pub open spec fn freed_suffix() -> Seq<char> {
    " disk space will be freed"@
}

/// The freed space the first line of the form
/// "After this operation, <size> disk space will be freed" reports, or 0.
pub open spec fn freed_in_lines(ls: Seq<Seq<char>>) -> u64
    decreases ls.len(),
{
    if ls.len() == 0 {
        0
    } else {
        let l = ls[0];
        let rest = l.skip(freed_prefix().len() as int);
        if starts_with(l, freed_prefix()) && find(rest, freed_suffix()) is Some {
            apt_size_bytes(rest.take(find(rest, freed_suffix())->0))
        } else {
            freed_in_lines(ls.drop_first())
        }
    }
}

/// Parse "After this operation, NNN MB disk space will be freed." from apt -s.
pub fn parse_autoremove_freed(sim: &str) -> (n: u64)
    ensures
        n == freed_in_lines(lines(sim@)),
{
    let ls = split_lines(&chars_of(sim));
    let prefix = chars_of("After this operation, ");
    let suffix = chars_of(" disk space will be freed");
    let mut i: usize = 0;
    assert(views(ls@).skip(0) == views(ls@));
    while i < ls.len()
        invariant
            i <= ls.len(),
            prefix@ == freed_prefix(),
            suffix@ == freed_suffix(),
            freed_in_lines(views(ls@).skip(i as int)) == freed_in_lines(lines(sim@)),
        decreases ls.len() - i,
    {
        let l = &ls[i];
        proof {
            assert(views(ls@).skip(i as int)[0] == l@);
            assert(views(ls@).skip(i as int).drop_first() == views(ls@).skip(i + 1));
        }
        if starts_with_chars(l, &prefix) {
            let rest = slice_chars(l, prefix.len(), l.len());
            assert(rest@ == l@.skip(freed_prefix().len() as int));
            match find_chars(&rest, &suffix) {
                Some(idx) => {
                    let qty = slice_chars(&rest, 0, idx);
                    assert(qty@ == rest@.take(idx as int));
                    return parse_apt_size(string_of(qty.as_slice()).as_str());
                },
                None => {},
            }
        }
        i = i + 1;
    }
    assert(views(ls@).skip(i as int).len() == 0);
    0
}

/// The multiplier and number text of an IEC-ish token like "1.2G", "512M",
/// "900K" or "123B": trailing `B`s dropped, then one `G`, `M` or `K` suffix.
pub open spec fn iec_parts(token: Seq<char>) -> (Seq<char>, nat) {
    let t = trim_end_char(token, 'B');
    if ends_with(t, seq!['G']) {
        (t.drop_last(), 1073741824)
    } else if ends_with(t, seq!['M']) {
        (t.drop_last(), 1048576)
    } else if ends_with(t, seq!['K']) {
        (t.drop_last(), 1024)
    } else {
        (t, 1)
    }
}

pub open spec fn iec_size_bytes(token: Seq<char>) -> Option<u64> {
    scaled_parse(iec_parts(token).0, iec_parts(token).1)
}

/// Parse IEC-ish size token like "1.2G", "512M", "900K", "123B".
pub fn parse_iec_size(token: &str) -> (n: Option<u64>)
    ensures
        n == iec_size_bytes(token@),
{
    let t = trim_end_char_chars(&chars_of(token), 'B');
    let g = vec!['G'];
    let m = vec!['M'];
    let k = vec!['K'];
    assert(g@ =~= seq!['G'] && m@ =~= seq!['M'] && k@ =~= seq!['K']);
    if ends_with_chars(&t, &g) {
        parse_scaled(&slice_chars(&t, 0, t.len() - 1), 1073741824)
    } else if ends_with_chars(&t, &m) {
        parse_scaled(&slice_chars(&t, 0, t.len() - 1), 1048576)
    } else if ends_with_chars(&t, &k) {
        parse_scaled(&slice_chars(&t, 0, t.len() - 1), 1024)
    } else {
        parse_scaled(&t, 1)
    }
}

pub open spec fn take_up() -> Seq<char> {
    "take up "@
}

/// The size journalctl reports in
/// "Archived and active journals take up 1.2G in the file system.":
/// the non-whitespace run right after the first "take up ".
pub open spec fn journal_usage_bytes(s: Seq<char>) -> Option<u64> {
    match find(s, take_up()) {
        None => None,
        Some(idx) => {
            let rest = s.skip(idx + take_up().len());
            iec_size_bytes(rest.take(run_len(rest, non_ws_pred()) as int))
        },
    }
}

/// Parse "Archived and active journals take up 1.2G in the file system."
pub fn parse_journal_usage(s: &str) -> (n: Option<u64>)
    ensures
        n == journal_usage_bytes(s@),
{
    let v = chars_of(s);
    let pat = chars_of("take up ");
    match find_chars(&v, &pat) {
        None => None,
        Some(idx) => {
            proof {
                crate::text::lemma_find_bounds(v@, pat@);
            }
            let rest = slice_chars(&v, idx + pat.len(), v.len());
            let mut e: usize = 0;
            while e < rest.len() && !crate::text::is_whitespace(rest[e])
                invariant
                    e <= rest.len(),
                    forall|j: int| 0 <= j < e ==> !crate::text::is_ws(#[trigger] rest@[j]),
                decreases rest.len() - e,
            {
                e = e + 1;
            }
            proof {
                assert forall|j: int| 0 <= j < e implies #[trigger] non_ws_pred()(rest@[j]) by {}
                crate::text::lemma_run_len_at(rest@, non_ws_pred(), e as int);
                assert(rest@ == v@.skip(idx + pat@.len()));
            }
            let token = slice_chars(&rest, 0, e);
            assert(token@ == rest@.take(e as int));
            parse_iec_size(string_of(token.as_slice()).as_str())
        },
    }
}

/// How many old kernel packages pruning would remove with the default of
/// keeping one: never the newest, never the running kernel (the one whose
/// name or version contains the trimmed `uname -r` output).
pub open spec fn removable_kernel_count(uname_out: Seq<char>, sorted: Seq<(Seq<char>, Seq<char>)>) -> nat {
    removal_candidates(sorted, trim(uname_out), kernel_cutoff(sorted.len(), 1) as int).len()
}

/// Count the old kernel packages that could be removed, from the output of
/// `uname -r` and the installed `linux-image-*` packages ordered oldest to
/// newest (by Debian version): the running kernel and the newest stay.
pub fn count_removable_kernels(uname_out: &str, sorted: &Vec<KernelPackage>) -> (n: usize)
    ensures
        n == removable_kernel_count(uname_out@, kernel_views(sorted@)),
{
    let running = trim_chars(&chars_of(uname_out));
    let running = string_of(running.as_slice());
    kernel_removal_candidates(sorted, running.as_str(), 1).len()
}

/// A Package Cleanup row: a privileged, permanent operation named by `op`.
pub open spec fn package_row(
    category: Seq<char>,
    label: Seq<char>,
    op: Seq<char>,
    size: u64,
    safety: Safety,
    selected: bool,
    note: Option<Seq<char>>,
) -> ScanItemView {
    ScanItemView {
        category,
        label,
        path: marker_of(op),
        size,
        safety,
        delete_mode: DeleteMode::Permanent,
        selected,
        note,
    }
}

fn package_item(
    category: &str,
    label: String,
    op: &str,
    size: u64,
    safety: Safety,
    selected: bool,
    note: Option<&str>,
) -> (item: ScanItem)
    ensures
        item@ == package_row(
            category@,
            label@,
            op@,
            size,
            safety,
            selected,
            match note {
                Some(n) => Some(n@),
                None => None,
            },
        ),
{
    ScanItem {
        category: category.to_owned(),
        label,
        path: priv_marker(op),
        size,
        safety,
        delete_mode: DeleteMode::Permanent,
        selected,
        note: match note {
            Some(n) => Some(n.to_owned()),
            None => None,
        },
    }
}

/// The APT archive cache row (`apt-get clean`), when the cache uses space.
pub fn apt_cache_item(size: u64) -> (r: Option<ScanItem>)
    ensures
        size == 0 ==> r is None,
        size > 0 ==> (r matches Some(item) && item@ == package_row(
            "APT Cache"@,
            "Downloaded package files"@,
            "apt_clean"@,
            size,
            Safety::Safe,
            true,
            None,
        )),
{
    if size == 0 {
        return None;
    }
    Some(
        package_item(
            "APT Cache",
            "Downloaded package files".to_owned(),
            "apt_clean",
            size,
            Safety::Safe,
            true,
            None,
        ),
    )
}

/// How many lines of an `apt-get -s autoremove` simulation remove a package.
pub open spec fn remv_count(ls: Seq<Seq<char>>) -> nat
    decreases ls.len(),
{
    if ls.len() == 0 {
        0
    } else {
        remv_count(ls.drop_last()) + if starts_with(ls.last(), "Remv "@) {
            1nat
        } else {
            0nat
        }
    }
}

/// The orphaned-dependencies row from the simulation's output: one per
/// `Remv ` line, with the freed space the simulation announces (0 if none).
pub fn orphans_item(sim: &str) -> (r: Option<ScanItem>)
    ensures
        remv_count(lines(sim@)) == 0 ==> r is None,
        remv_count(lines(sim@)) > 0 ==> (r matches Some(item) && item@ == package_row(
            "Orphaned Packages"@,
            decimal_digits(remv_count(lines(sim@))) + " unused dependencies"@,
            "apt_autoremove"@,
            freed_in_lines(lines(sim@)),
            Safety::Review,
            false,
            None,
        )),
{
    let ls = split_lines(&chars_of(sim));
    let prefix = chars_of("Remv ");
    let mut count: u64 = 0;
    let mut i: usize = 0;
    while i < ls.len()
        invariant
            i <= ls.len(),
            prefix@ == "Remv "@,
            views(ls@) == lines(sim@),
            count == remv_count(views(ls@).take(i as int)),
            count <= i,
            ls.len() <= usize::MAX,
        decreases ls.len() - i,
    {
        proof {
            assert(views(ls@).take(i + 1).drop_last() == views(ls@).take(i as int));
            assert(views(ls@).take(i + 1).last() == ls@[i as int]@);
        }
        if starts_with_chars(&ls[i], &prefix) {
            count = count + 1;
        }
        i = i + 1;
    }
    assert(views(ls@).take(ls@.len() as int) == views(ls@));
    if count == 0 {
        return None;
    }
    let label = message_with_number("", count, " unused dependencies");
    assert(""@ + decimal_digits(count as nat) + " unused dependencies"@ =~= decimal_digits(
        count as nat,
    ) + " unused dependencies"@) by {
        reveal_strlit("");
    }
    Some(
        package_item(
            "Orphaned Packages",
            label,
            "apt_autoremove",
            parse_autoremove_freed(sim),
            Safety::Review,
            false,
            None,
        ),
    )
}

/// The old-kernels row for `count` removable packages (the helper works out
/// the exact size).
pub fn old_kernels_item(count: usize) -> (r: Option<ScanItem>)
    ensures
        count == 0 ==> r is None,
        count > 0 ==> (r matches Some(item) && item@ == package_row(
            "Old Kernels"@,
            decimal_digits(count as nat) + " old kernel package(s)"@,
            "prune_old_kernels"@,
            0,
            Safety::Review,
            false,
            Some("Keeps the running and newest kernel"@),
        )),
{
    if count == 0 {
        return None;
    }
    let label = message_with_number("", count as u64, " old kernel package(s)");
    assert(""@ + decimal_digits(count as nat) + " old kernel package(s)"@ =~= decimal_digits(
        count as nat,
    ) + " old kernel package(s)"@) by {
        reveal_strlit("");
    }
    Some(
        package_item(
            "Old Kernels",
            label,
            "prune_old_kernels",
            0,
            Safety::Review,
            false,
            Some("Keeps the running and newest kernel"),
        ),
    )
}

/// The journal is offered for vacuuming above 50 MiB.
pub const JOURNAL_REPORT_THRESHOLD: u64 = 52428800;

/// The system-journal row, from what `journalctl --disk-usage` reported.
pub fn journal_item(usage: Option<u64>) -> (r: Option<ScanItem>)
    ensures
        match usage {
            Some(bytes) if bytes > JOURNAL_REPORT_THRESHOLD => r matches Some(item) && item@
                == package_row(
                "System Logs"@,
                "systemd journal"@,
                "vacuum_journal"@,
                bytes,
                Safety::Review,
                false,
                Some("Vacuums to a smaller cap"@),
            ),
            _ => r is None,
        },
{
    match usage {
        Some(bytes) => {
            if bytes > JOURNAL_REPORT_THRESHOLD {
                Some(
                    package_item(
                        "System Logs",
                        "systemd journal".to_owned(),
                        "vacuum_journal",
                        bytes,
                        Safety::Review,
                        false,
                        Some("Vacuums to a smaller cap"),
                    ),
                )
            } else {
                None
            }
        },
        None => None,
    }
}

/// The unused-flatpak-runtimes row, from the dry-run probe's output.
pub fn flatpak_runtimes_item(probe_out: &str) -> (r: Option<ScanItem>)
    ensures
        !probe_lists_unused(probe_out@) ==> r is None,
        probe_lists_unused(probe_out@) ==> (r matches Some(item) && item@ == package_row(
            "Flatpak Runtimes"@,
            "Unused system runtimes"@,
            "flatpak_remove_unused"@,
            0,
            Safety::Review,
            false,
            Some("Exact size is reported after cleanup"@),
        )),
{
    if !flatpak_dry_run_has_unused(probe_out) {
        return None;
    }
    Some(
        package_item(
            "Flatpak Runtimes",
            "Unused system runtimes".to_owned(),
            "flatpak_remove_unused",
            0,
            Safety::Review,
            false,
            Some("Exact size is reported after cleanup"),
        ),
    )
}

/// The operations the Package Cleanup rows stand for.
pub open spec fn is_package_op(op: Seq<char>) -> bool {
    op == "apt_clean"@ || op == "apt_autoremove"@ || op == "prune_old_kernels"@ || op
        == "vacuum_journal"@ || op == "flatpak_remove_unused"@
}

/// Every Package Cleanup row maps back to the privileged operation that
/// performs it: its marker path names a helper operation.
pub proof fn law_package_rows_map_to_ops(op: Seq<char>)
    requires
        is_package_op(op),
    ensures
        op_for_key(marker_key(marker_of(op))) is Some,
{
    reveal_strlit("apt_clean");
    reveal_strlit("apt_autoremove");
    reveal_strlit("prune_old_kernels");
    reveal_strlit("vacuum_journal");
    reveal_strlit("flatpak_remove_unused");
    assert(!starts_with(op, priv_scheme())) by {
        if op.len() >= 7 {
            assert(op.take(7) != priv_scheme()) by {
                if op[0] == 'p' {
                    assert(op.take(7)[2] != priv_scheme()[2]);
                }
            }
        }
    }
    law_marker_scheme_optional(op);
}

} // verus!
