//! The privileged helper's decisions: which kernels may go, which snap
//! revisions are old, and what each operation answers.
//!
//! Running the system tools is the helper program's own I/O; everything it
//! decides from their output, or about what to run, is here.

use vstd::prelude::*;
use crate::helper_ipc::{HelperRequest, HelperResponse};
use crate::scan::packages::{iec_size_bytes, parse_iec_size, take_up};
use crate::text::{
    chars_of, concat, contains, contains_chars, decimal_chars, decimal_digits, find, find_chars,
    is_ascii_digit, is_digit, lines, slice_chars, split_char, split_lines, split_on, split_words,
    starts_with, starts_with_chars, string_of, trim, trim_chars, views, words,
};

verus! {

// ------------------------------------------------------------ messages

/// `prefix` followed by `n` in decimal and `suffix`.
pub fn message_with_number(prefix: &str, n: u64, suffix: &str) -> (s: String)
    ensures
        s@ == prefix@ + decimal_digits(n as nat) + suffix@,
{
    let a = concat(&chars_of(prefix), &decimal_chars(n));
    let b = concat(&a, &chars_of(suffix));
    string_of(b.as_slice())
}

/// The last line of `out`, or `default` when it has none
/// (`out.lines().last().unwrap_or(default)`).
pub open spec fn last_line_or(out: Seq<char>, default: Seq<char>) -> Seq<char> {
    let ls = lines(out);
    if ls.len() == 0 { default } else { ls.last() }
}

pub fn last_line(out: &str, default: &str) -> (s: String)
    ensures
        s@ == last_line_or(out@, default@),
{
    let ls = split_lines(&chars_of(out));
    if ls.len() == 0 {
        default.to_owned()
    } else {
        assert(views(ls@).last() == ls@[ls@.len() - 1]@);
        string_of(ls[ls.len() - 1].as_slice())
    }
}

/// `items` joined with `sep` between consecutive items.
pub open spec fn join(items: Seq<Seq<char>>, sep: Seq<char>) -> Seq<char>
    decreases items.len(),
{
    if items.len() == 0 {
        seq![]
    } else if items.len() == 1 {
        items[0]
    } else {
        join(items.drop_last(), sep) + sep + items.last()
    }
}

pub fn join_chars(items: &Vec<Vec<char>>, sep: &Vec<char>) -> (r: Vec<char>)
    ensures
        r@ == join(views(items@), sep@),
{
    let mut r: Vec<char> = Vec::new();
    let mut i: usize = 0;
    while i < items.len()
        invariant
            i <= items.len(),
            r@ == join(views(items@).take(i as int), sep@),
        decreases items.len() - i,
    {
        let ghost prev = views(items@).take(i as int);
        assert(views(items@).take(i + 1).drop_last() == prev);
        assert(views(items@).take(i + 1).last() == items@[i as int]@);
        if i == 0 {
            r = concat(&r, &items[i]);
            assert(r@ == items@[0]@);
        } else {
            r = concat(&r, sep);
            r = concat(&r, &items[i]);
        }
        i = i + 1;
    }
    assert(views(items@).take(items@.len() as int) == views(items@));
    r
}

fn strings_to_chars(items: &Vec<String>) -> (r: Vec<Vec<char>>)
    ensures
        views(r@) == items@.map_values(|s: String| s@),
{
    let mut r: Vec<Vec<char>> = Vec::new();
    let mut i: usize = 0;
    while i < items.len()
        invariant
            i <= items.len(),
            r@.len() == i,
            views(r@) == items@.map_values(|s: String| s@).take(i as int),
        decreases items.len() - i,
    {
        r.push(chars_of(items[i].as_str()));
        assert(views(r@) =~= items@.map_values(|s: String| s@).take(i + 1));
        i = i + 1;
    }
    assert(items@.map_values(|s: String| s@).take(items@.len() as int) == items@.map_values(
        |s: String| s@,
    ));
    r
}

// ------------------------------------------------------------ protocol

/// The helper re-verifies that it runs as root before anything else.
pub fn root_gate(is_root: bool) -> (r: Option<HelperResponse>)
    ensures
        is_root ==> r is None,
        !is_root ==> (r matches Some(resp) && !resp.ok && resp.freed_bytes == 0
            && resp.message@ == "helper must run as root (via pkexec)"@),
{
    if is_root {
        None
    } else {
        Some(HelperResponse::err("helper must run as root (via pkexec)"))
    }
}

/// The reply to a request that does not parse, with the parser's message.
pub fn invalid_request(e: &str) -> (r: HelperResponse)
    ensures
        !r.ok,
        r.freed_bytes == 0,
        r.message@ == "invalid request: "@ + e@,
{
    let m = concat(&chars_of("invalid request: "), &chars_of(e));
    HelperResponse::err(string_of(m.as_slice()).as_str())
}

/// The helper accepts only callers speaking its own protocol version.
pub fn version_gate(version: u32) -> (r: Option<HelperResponse>)
    ensures
        version == HelperRequest::PROTOCOL_VERSION ==> r is None,
        version != HelperRequest::PROTOCOL_VERSION ==> (r matches Some(resp) && !resp.ok
            && resp.freed_bytes == 0 && resp.message@ == "protocol mismatch: helper "@
            + decimal_digits(HelperRequest::PROTOCOL_VERSION as nat) + " vs caller "@
            + decimal_digits(version as nat)),
{
    if version == HelperRequest::PROTOCOL_VERSION {
        None
    } else {
        let a = concat(
            &chars_of("protocol mismatch: helper "),
            &decimal_chars(HelperRequest::PROTOCOL_VERSION as u64),
        );
        let b = concat(&a, &chars_of(" vs caller "));
        let c = concat(&b, &decimal_chars(version as u64));
        Some(HelperResponse::err(string_of(c.as_slice()).as_str()))
    }
}

/// Destructive package operations are refused while apt/dpkg is busy.
pub fn refuse_if_dpkg_locked(locked: bool) -> (r: Option<HelperResponse>)
    ensures
        !locked ==> r is None,
        locked ==> (r matches Some(resp) && !resp.ok && resp.freed_bytes == 0
            && resp.message@ == "package manager is busy; try again after apt/dpkg finishes"@),
{
    if locked {
        Some(HelperResponse::err("package manager is busy; try again after apt/dpkg finishes"))
    } else {
        None
    }
}

/// The reply to a failed tool run: its error text.
pub fn failure(e: &str) -> (r: HelperResponse)
    ensures
        !r.ok,
        r.freed_bytes == 0,
        r.message@ == e@,
{
    HelperResponse::err(e)
}

// ------------------------------------------------------------ apt

/// `apt-get clean`, dry: reports the current cache size.
pub fn apt_clean_dry(before: u64) -> (r: HelperResponse)
    ensures
        r.ok,
        r.freed_bytes == before,
        r.message@ == "would clean apt cache"@,
{
    HelperResponse::ok(before, "would clean apt cache")
}

/// `apt-get clean` ran: the cache shrank from `before` to `after`.
pub fn apt_clean_done(before: u64, after: u64) -> (r: HelperResponse)
    ensures
        r.ok,
        r.freed_bytes == (if before >= after { before - after } else { 0 }),
        r.message@ == "apt cache cleaned"@,
{
    HelperResponse::ok(before.saturating_sub(after), "apt cache cleaned")
}

/// The first `n` items of `ls`, joined by newlines.
pub open spec fn first_lines(ls: Seq<Seq<char>>, n: int) -> Seq<char> {
    join(if ls.len() <= n { ls } else { ls.take(n) }, seq!['\n'])
}

/// `apt-get -s autoremove` simulation, shown as the dry-run reply.
pub fn apt_autoremove_dry(sim: &str) -> (r: HelperResponse)
    ensures
        r.ok,
        r.freed_bytes == 0,
        r.message@ == "dry run:\n"@ + first_lines(lines(sim@), 5),
{
    let ls = split_lines(&chars_of(sim));
    let mut first: Vec<Vec<char>> = Vec::new();
    let mut i: usize = 0;
    let n: usize = if ls.len() < 5 { ls.len() } else { 5 };
    while i < n
        invariant
            i <= n <= ls.len(),
            first@.len() == i,
            n == (if ls.len() < 5 { ls.len() } else { 5 }),
            views(first@) == views(ls@).take(i as int),
        decreases n - i,
    {
        let l = slice_chars(&ls[i], 0, ls[i].len());
        assert(l@ == ls@[i as int]@) by {
            assert(ls@[i as int]@.subrange(0, ls@[i as int]@.len() as int) =~= ls@[i as int]@);
        }
        first.push(l);
        assert(views(first@) =~= views(ls@).take(i + 1));
        i = i + 1;
    }
    proof {
        if ls.len() <= 5 {
            assert(views(ls@).take(ls@.len() as int) == views(ls@));
        }
    }
    let nl = vec!['\n'];
    assert(nl@ =~= seq!['\n']);
    let body = join_chars(&first, &nl);
    let msg = concat(&chars_of("dry run:\n"), &body);
    HelperResponse::ok(0, string_of(msg.as_slice()).as_str())
}

/// `apt-get autoremove --purge -y` ran and printed `out`.
pub fn apt_autoremove_done(out: &str) -> (r: HelperResponse)
    ensures
        r.ok,
        r.freed_bytes == 0,
        r.message@ == last_line_or(out@, "done"@),
{
    HelperResponse::ok(0, last_line(out, "done").as_str())
}

// ------------------------------------------------------------ kernels

/// An installed kernel image package: name and version.
#[derive(Debug, Clone)]
pub struct KernelPackage {
    pub name: String,
    pub version: String,
}

pub open spec fn kernel_contains(name: Seq<char>, version: Seq<char>, needle: Seq<char>) -> bool {
    contains(name, needle) || contains(version, needle)
}

impl KernelPackage {
    /// Whether the package name or version contains `needle`.
    pub fn contains(&self, needle: &str) -> (b: bool)
        ensures
            b == kernel_contains(self.name@, self.version@, needle@),
    {
        let n = chars_of(needle);
        contains_chars(&chars_of(self.name.as_str()), &n) || contains_chars(
            &chars_of(self.version.as_str()),
            &n,
        )
    }
}

pub open spec fn kernel_views(pkgs: Seq<KernelPackage>) -> Seq<(Seq<char>, Seq<char>)> {
    pkgs.map_values(|p: KernelPackage| (p.name@, p.version@))
}

/// A `${Package}\t${Version}` line, when it names a versioned kernel image.
pub open spec fn kernel_line(line: Seq<char>) -> Option<(Seq<char>, Seq<char>)> {
    let f = split_char(line, '\t');
    let name = f[0];
    let version = if f.len() > 1 { f[1] } else { seq![] };
    if starts_with(name, "linux-image-"@) && exists|i: int| 0 <= i < name.len() && is_digit(
        #[trigger] name[i],
    ) {
        Some((name, version))
    } else {
        None
    }
}

/// The versioned kernel image packages of a `dpkg-query` listing, in order.
pub open spec fn kernel_listing(ls: Seq<Seq<char>>) -> Seq<(Seq<char>, Seq<char>)>
    decreases ls.len(),
{
    if ls.len() == 0 {
        seq![]
    } else {
        let prev = kernel_listing(ls.drop_last());
        match kernel_line(ls.last()) {
            Some(p) => prev.push(p),
            None => prev,
        }
    }
}

fn has_digit(v: &Vec<char>) -> (b: bool)
    ensures
        b == exists|i: int| 0 <= i < v@.len() && is_digit(#[trigger] v@[i]),
{
    let mut i: usize = 0;
    while i < v.len()
        invariant
            i <= v.len(),
            forall|j: int| 0 <= j < i ==> !is_digit(#[trigger] v@[j]),
        decreases v.len() - i,
    {
        if is_ascii_digit(v[i]) {
            return true;
        }
        i = i + 1;
    }
    false
}

/// The versioned `linux-image-*` packages of
/// `dpkg-query -W -f='${Package}\t${Version}\n' 'linux-image-*'`.
pub fn parse_kernel_listing(list: &str) -> (r: Vec<KernelPackage>)
    ensures
        kernel_views(r@) == kernel_listing(lines(list@)),
{
    let ls = split_lines(&chars_of(list));
    let prefix = chars_of("linux-image-");
    let mut r: Vec<KernelPackage> = Vec::new();
    let mut i: usize = 0;
    while i < ls.len()
        invariant
            i <= ls.len(),
            prefix@ == "linux-image-"@,
            views(ls@) == lines(list@),
            kernel_views(r@) == kernel_listing(views(ls@).take(i as int)),
        decreases ls.len() - i,
    {
        proof {
            assert(views(ls@).take(i + 1).drop_last() == views(ls@).take(i as int));
            assert(views(ls@).take(i + 1).last() == ls@[i as int]@);
        }
        let f = split_on(&ls[i], '\t');
        proof {
            crate::path::lemma_split_char_nonempty(ls@[i as int]@, '\t');
            assert(views(f@)[0] == f@[0]@);
        }
        let name = &f[0];
        if starts_with_chars(name, &prefix) && has_digit(name) {
            let version = if f.len() > 1 {
                assert(views(f@)[1] == f@[1]@);
                string_of(f[1].as_slice())
            } else {
                String::new()
            };
            let ghost old_r = r@;
            r.push(KernelPackage { name: string_of(name.as_slice()), version });
            assert(kernel_views(r@) =~= kernel_views(old_r).push(
                kernel_line(ls@[i as int]@)->0,
            ));
        }
        i = i + 1;
    }
    assert(views(ls@).take(ls@.len() as int) == views(ls@));
    r
}

/// How many of the oldest packages may be considered: all but the newest
/// `max(keep, 1)`.
pub open spec fn kernel_cutoff(len: nat, keep: u32) -> nat {
    let keep_newest: nat = if keep >= 1 { keep as nat } else { 1 };
    if len >= keep_newest { (len - keep_newest) as nat } else { 0 }
}

/// The names of the removal candidates among `pkgs` (oldest first): those
/// before the cutoff that are not the running kernel.
pub open spec fn removal_candidates(
    pkgs: Seq<(Seq<char>, Seq<char>)>,
    running: Seq<char>,
    n: int,
) -> Seq<Seq<char>>
    decreases n,
{
    if n <= 0 {
        seq![]
    } else {
        let prev = removal_candidates(pkgs, running, n - 1);
        let p = pkgs[n - 1];
        if kernel_contains(p.0, p.1, running) {
            prev
        } else {
            prev.push(p.0)
        }
    }
}

/// Old kernel packages to purge, from `sorted` (oldest to newest): never the
/// newest `max(keep, 1)`, never one whose name or version contains the
/// running kernel's release.
pub fn kernel_removal_candidates(sorted: &Vec<KernelPackage>, running: &str, keep: u32) -> (r: Vec<
    String,
>)
    ensures
        r@.map_values(|s: String| s@) == removal_candidates(
            kernel_views(sorted@),
            running@,
            kernel_cutoff(sorted@.len(), keep) as int,
        ),
{
    let keep_newest: usize = if keep >= 1 { keep as usize } else { 1 };
    let cutoff = sorted.len().saturating_sub(keep_newest);
    let mut r: Vec<String> = Vec::new();
    let mut i: usize = 0;
    assert(cutoff == kernel_cutoff(sorted@.len(), keep));
    while i < cutoff
        invariant
            i <= cutoff <= sorted.len(),
            r@.map_values(|s: String| s@) == removal_candidates(kernel_views(sorted@), running@, i as int),
        decreases cutoff - i,
    {
        let ghost old_r = r@;
        assert(kernel_views(sorted@)[i as int] == (sorted@[i as int].name@, sorted@[i as int].version@));
        if !sorted[i].contains(running) {
            r.push(sorted[i].name.clone());
            assert(r@.map_values(|s: String| s@) =~= old_r.map_values(|s: String| s@).push(sorted@[i as int].name@));
        }
        i = i + 1;
    }
    r
}

/// The newest `max(keep, 1)` packages and the running kernel always stay: a
/// candidate is the name of a package before the cutoff whose name and
/// version do not contain the running release.
pub proof fn law_prune_keeps_running_and_newest(
    pkgs: Seq<(Seq<char>, Seq<char>)>,
    running: Seq<char>,
    keep: u32,
    c: int,
)
    requires
        0 <= c < removal_candidates(pkgs, running, kernel_cutoff(pkgs.len(), keep) as int).len(),
    ensures
        exists|j: int|
            #![trigger pkgs[j]]
            0 <= j < kernel_cutoff(pkgs.len(), keep) && pkgs[j].0 == removal_candidates(
                pkgs,
                running,
                kernel_cutoff(pkgs.len(), keep) as int,
            )[c] && !kernel_contains(pkgs[j].0, pkgs[j].1, running),
{
    lemma_candidates_from(pkgs, running, kernel_cutoff(pkgs.len(), keep) as int, c);
}

proof fn lemma_candidates_from(pkgs: Seq<(Seq<char>, Seq<char>)>, running: Seq<char>, n: int, c: int)
    requires
        0 <= c < removal_candidates(pkgs, running, n).len(),
    ensures
        exists|j: int|
            #![trigger pkgs[j]]
            0 <= j < n && pkgs[j].0 == removal_candidates(pkgs, running, n)[c] && !kernel_contains(
                pkgs[j].0,
                pkgs[j].1,
                running,
            ),
    decreases n,
{
    if n > 0 {
        let prev = removal_candidates(pkgs, running, n - 1);
        let p = pkgs[n - 1];
        if kernel_contains(p.0, p.1, running) {
            lemma_candidates_from(pkgs, running, n - 1, c);
        } else if c < prev.len() {
            lemma_candidates_from(pkgs, running, n - 1, c);
        } else {
            assert(pkgs[n - 1].0 == removal_candidates(pkgs, running, n)[c]);
        }
    }
}

/// What pruning answers before running anything: nothing to do, or (dry) the
/// list it would remove; `None` when it should purge.
pub fn prune_kernels_plan(candidates: &Vec<String>, dry: bool) -> (r: Option<HelperResponse>)
    ensures
        candidates@.len() == 0 ==> (r matches Some(resp) && resp.ok && resp.freed_bytes == 0
            && resp.message@ == "no removable kernels"@),
        candidates@.len() > 0 && dry ==> (r matches Some(resp) && resp.ok && resp.freed_bytes == 0
            && resp.message@ == "would remove: "@ + join(
            candidates@.map_values(|s: String| s@),
            ", "@,
        )),
        candidates@.len() > 0 && !dry ==> r is None,
{
    if candidates.len() == 0 {
        return Some(HelperResponse::ok(0, "no removable kernels"));
    }
    if dry {
        let names = strings_to_chars(candidates);
        let joined = join_chars(&names, &chars_of(", "));
        let msg = concat(&chars_of("would remove: "), &joined);
        return Some(HelperResponse::ok(0, string_of(msg.as_slice()).as_str()));
    }
    None
}

/// The `apt-get` arguments that purge `candidates`.
pub fn purge_args(candidates: &Vec<String>) -> (r: Vec<String>)
    ensures
        r@.len() == candidates@.len() + 2,
        r@[0]@ == "purge"@,
        r@[1]@ == "-y"@,
        forall|i: int| 0 <= i < candidates@.len() ==> #[trigger] r@[i + 2]@ == candidates@[i]@,
{
    let mut r: Vec<String> = Vec::new();
    r.push("purge".to_owned());
    r.push("-y".to_owned());
    let mut i: usize = 0;
    while i < candidates.len()
        invariant
            i <= candidates.len(),
            r@.len() == i + 2,
            r@[0]@ == "purge"@,
            r@[1]@ == "-y"@,
            forall|j: int| 0 <= j < i ==> #[trigger] r@[j + 2]@ == candidates@[j]@,
        decreases candidates.len() - i,
    {
        r.push(candidates[i].clone());
        i = i + 1;
    }
    r
}

/// The purge ran and removed `n` packages.
pub fn prune_kernels_done(n: u64) -> (r: HelperResponse)
    ensures
        r.ok,
        r.freed_bytes == 0,
        r.message@ == "removed "@ + decimal_digits(n as nat) + " kernel package(s)"@,
{
    HelperResponse::ok(0, message_with_number("removed ", n, " kernel package(s)").as_str())
}

// ------------------------------------------------------------ journal

/// The journal cap the helper applies: `max_mb` clamped to 50..=4096.
pub open spec fn journal_cap(max_mb: u64) -> u64 {
    if max_mb < 50 { 50 } else if max_mb > 4096 { 4096 } else { max_mb }
}

pub fn vacuum_cap(max_mb: u64) -> (m: u64)
    ensures
        m == journal_cap(max_mb),
        50 <= m <= 4096,
{
    if max_mb < 50 {
        50
    } else if max_mb > 4096 {
        4096
    } else {
        max_mb
    }
}

pub fn vacuum_journal_dry(cap: u64) -> (r: HelperResponse)
    ensures
        r.ok,
        r.freed_bytes == 0,
        r.message@ == "would vacuum journal to "@ + decimal_digits(cap as nat) + "M"@,
{
    HelperResponse::ok(0, message_with_number("would vacuum journal to ", cap, "M").as_str())
}

/// The `journalctl` argument that vacuums to `cap` MB.
pub fn vacuum_size_arg(cap: u64) -> (s: String)
    ensures
        s@ == "--vacuum-size="@ + decimal_digits(cap as nat) + "M"@,
{
    message_with_number("--vacuum-size=", cap, "M")
}

pub fn vacuum_journal_done(out: &str) -> (r: HelperResponse)
    ensures
        r.ok,
        r.freed_bytes == 0,
        r.message@ == last_line_or(out@, "vacuumed"@),
{
    HelperResponse::ok(0, last_line(out, "vacuumed").as_str())
}

// ------------------------------------------------------------ snap

/// A `snap list --all` row marked disabled: `(name, revision)` from its first
/// and third whitespace-separated words.
pub open spec fn disabled_row(line: Seq<char>) -> Option<(Seq<char>, Seq<char>)> {
    let w = words(line);
    if contains(line, "disabled"@) && w.len() >= 3 {
        Some((w[0], w[2]))
    } else {
        None
    }
}

pub open spec fn disabled_rows(ls: Seq<Seq<char>>) -> Seq<(Seq<char>, Seq<char>)>
    decreases ls.len(),
{
    if ls.len() == 0 {
        seq![]
    } else {
        let prev = disabled_rows(ls.drop_last());
        match disabled_row(ls.last()) {
            Some(p) => prev.push(p),
            None => prev,
        }
    }
}

pub open spec fn pair_views(v: Seq<(String, String)>) -> Seq<(Seq<char>, Seq<char>)> {
    v.map_values(|p: (String, String)| (p.0@, p.1@))
}

/// The rows after the first (`lines().skip(1)`).
pub open spec fn after_header(ls: Seq<Seq<char>>) -> Seq<Seq<char>> {
    if ls.len() == 0 { ls } else { ls.skip(1) }
}

/// The disabled (old) revisions in `snap list --all`, header row skipped.
pub fn disabled_snap_revisions(list: &str) -> (r: Vec<(String, String)>)
    ensures
        pair_views(r@) == disabled_rows(after_header(lines(list@))),
{
    let ls = split_lines(&chars_of(list));
    let marker = chars_of("disabled");
    let mut r: Vec<(String, String)> = Vec::new();
    if ls.len() == 0 {
        assert(after_header(lines(list@)).len() == 0);
        assert(pair_views(r@) =~= Seq::<(Seq<char>, Seq<char>)>::empty());
        return r;
    }
    let ghost rows = views(ls@).skip(1);
    let mut i: usize = 1;
    assert(rows.take(0).len() == 0);
    while i < ls.len()
        invariant
            1 <= i <= ls.len(),
            marker@ == "disabled"@,
            rows == views(ls@).skip(1),
            views(ls@) == lines(list@),
            pair_views(r@) == disabled_rows(rows.take(i - 1)),
        decreases ls.len() - i,
    {
        proof {
            assert(rows.take(i as int).drop_last() == rows.take(i - 1));
            assert(rows.take(i as int).last() == ls@[i as int]@);
        }
        let l = &ls[i];
        if contains_chars(l, &marker) {
            let w = split_words(l);
            if w.len() >= 3 {
                assert(views(w@)[0] == w@[0]@ && views(w@)[2] == w@[2]@);
                let ghost old_r = r@;
                r.push((string_of(w[0].as_slice()), string_of(w[2].as_slice())));
                assert(pair_views(r@) =~= pair_views(old_r).push((w@[0]@, w@[2]@)));
            }
        }
        i = i + 1;
    }
    assert(rows.take(ls@.len() - 1) == rows);
    r
}

pub fn prune_snap_missing() -> (r: HelperResponse)
    ensures
        r.ok,
        r.freed_bytes == 0,
        r.message@ == "snap not installed"@,
{
    HelperResponse::ok(0, "snap not installed")
}

/// What pruning snaps answers before removing anything; `None` when it
/// should remove the `n` disabled revisions.
pub fn prune_snap_plan(n: u64, dry: bool) -> (r: Option<HelperResponse>)
    ensures
        n == 0 ==> (r matches Some(resp) && resp.ok && resp.message@ == "no old snap revisions"@),
        n > 0 && dry ==> (r matches Some(resp) && resp.ok && resp.message@ == "would remove "@
            + decimal_digits(n as nat) + " old snap revision(s)"@),
        n > 0 && !dry ==> r is None,
        r matches Some(resp) ==> resp.freed_bytes == 0,
{
    if n == 0 {
        return Some(HelperResponse::ok(0, "no old snap revisions"));
    }
    if dry {
        return Some(
            HelperResponse::ok(
                0,
                message_with_number("would remove ", n, " old snap revision(s)").as_str(),
            ),
        );
    }
    None
}

pub fn prune_snap_done(removed: u64) -> (r: HelperResponse)
    ensures
        r.ok,
        r.freed_bytes == 0,
        r.message@ == "removed "@ + decimal_digits(removed as nat) + " old snap revision(s)"@,
{
    HelperResponse::ok(0, message_with_number("removed ", removed, " old snap revision(s)").as_str())
}

// ------------------------------------------------------------ flatpak

pub fn flatpak_missing() -> (r: HelperResponse)
    ensures
        r.ok,
        r.freed_bytes == 0,
        r.message@ == "flatpak not installed"@,
{
    HelperResponse::ok(0, "flatpak not installed")
}

pub fn flatpak_unused_dry(out: &str) -> (r: HelperResponse)
    ensures
        r.ok,
        r.freed_bytes == 0,
        r.message@ == "dry run:\n"@ + trim(out@),
{
    let msg = concat(&chars_of("dry run:\n"), &trim_chars(&chars_of(out)));
    HelperResponse::ok(0, string_of(msg.as_slice()).as_str())
}

pub fn flatpak_unused_done(out: &str) -> (r: HelperResponse)
    ensures
        r.ok,
        r.freed_bytes == 0,
        r.message@ == last_line_or(out@, "done"@),
{
    HelperResponse::ok(0, last_line(out, "done").as_str())
}

// ------------------------------------------------------------ estimates

/// `parse_iec`: an IEC-ish size token in bytes, 0 when it is not a number.
pub fn parse_iec(tok: &str) -> (n: u64)
    ensures
        n == (match iec_size_bytes(tok@) {
            Some(v) => v,
            None => 0,
        }),
{
    match parse_iec_size(tok) {
        Some(v) => v,
        None => 0,
    }
}

/// The journal size in `journalctl --disk-usage` output as the helper reads
/// it: the first word of the text between the first "take up " and the next
/// one (or the end), or 0.
pub open spec fn journal_estimate(out: Seq<char>) -> u64 {
    match find(out, take_up()) {
        None => 0,
        Some(i) => {
            let rest = out.skip(i + take_up().len());
            let seg = match find(rest, take_up()) {
                Some(j) => rest.take(j),
                None => rest,
            };
            let w = words(seg);
            if w.len() == 0 {
                0
            } else {
                match iec_size_bytes(w[0]) {
                    Some(v) => v,
                    None => 0,
                }
            }
        },
    }
}

pub fn journal_estimate_bytes(out: &str) -> (n: u64)
    ensures
        n == journal_estimate(out@),
{
    let v = chars_of(out);
    let pat = chars_of("take up ");
    match find_chars(&v, &pat) {
        None => 0,
        Some(i) => {
            assert(crate::text::occurs_at(v@, pat@, i as int));
            assert(i + pat@.len() <= v@.len());
            let plen = pat.len();
            assert(i + plen <= v.len());
            let start: usize = i + plen;
            let rest = slice_chars(&v, start, v.len());
            assert(rest@ == v@.skip(i + pat@.len()));
            let seg = match find_chars(&rest, &pat) {
                Some(j) => slice_chars(&rest, 0, j),
                None => rest,
            };
            let w = split_words(&seg);
            if w.len() == 0 {
                0
            } else {
                assert(views(w@)[0] == w@[0]@);
                parse_iec(string_of(w[0].as_slice()).as_str())
            }
        },
    }
}

/// What an estimate needs measured.
#[derive(Debug, Clone, Copy, PartialEq, Eq, Structural)]
pub enum EstimateSource {
    /// The size of `/var/cache/apt/archives`.
    AptCacheSize,
    /// The output of `journalctl --disk-usage`.
    JournalUsage,
    /// Nothing: the estimate is 0.
    Nothing,
}

pub fn estimate_source(what: crate::helper_ipc::PrivilegedTarget) -> (s: EstimateSource)
    ensures
        s == (match what {
            crate::helper_ipc::PrivilegedTarget::AptCache => EstimateSource::AptCacheSize,
            crate::helper_ipc::PrivilegedTarget::Journal => EstimateSource::JournalUsage,
            _ => EstimateSource::Nothing,
        }),
{
    match what {
        crate::helper_ipc::PrivilegedTarget::AptCache => EstimateSource::AptCacheSize,
        crate::helper_ipc::PrivilegedTarget::Journal => EstimateSource::JournalUsage,
        _ => EstimateSource::Nothing,
    }
}

pub fn estimate(bytes: u64) -> (r: HelperResponse)
    ensures
        r.ok,
        r.freed_bytes == bytes,
        r.message@ == "estimate"@,
{
    HelperResponse::ok(bytes, "estimate")
}

} // verus!
