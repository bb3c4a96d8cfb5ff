//! Shared data types used across the engine and the frontends.

use vstd::prelude::*;
use crate::text::{chars_of, decimal_digits, starts_with, starts_with_chars};

verus! {

/// What `humansize::format_size(bytes, humansize::DECIMAL)` returns: the size
/// in SI units with up to two decimals, e.g. "1.23 MB". It depends on the
/// number alone.
pub uninterp spec fn decimal_size_text(bytes: u64) -> Seq<char>;

/// `humansize::format_size(bytes, humansize::DECIMAL)`. The contract names the
/// result; of its content it states only what the crate's formatter plainly
/// does below 1000 bytes (no division, no decimals, unit "B" after a space).
/// The float rounding of larger sizes is not stated.
#[verifier::external_body]
pub(crate) fn format_decimal_size(bytes: u64) -> (s: String)
    ensures
        s@ == decimal_size_text(bytes),
        bytes < 1000 ==> s@ == decimal_digits(bytes as nat) + seq![' ', 'B'],
{
    humansize::format_size(bytes, humansize::DECIMAL)
}

/// The cleanup modules the app exposes.
#[derive(Debug, Clone, Copy, PartialEq, Eq, Hash, Structural)]
pub enum Module {
    SystemJunk,
    PackageCleanup,
    LargeAndOldFiles,
    Uninstaller,
    SystemMonitor,
}

pub open spec fn module_title(m: Module) -> Seq<char> {
    match m {
        Module::SystemJunk => "System Junk"@,
        Module::PackageCleanup => "Package Cleanup"@,
        Module::LargeAndOldFiles => "Large & Old Files"@,
        Module::Uninstaller => "Uninstaller"@,
        Module::SystemMonitor => "System Monitor"@,
    }
}

pub open spec fn module_icon(m: Module) -> Seq<char> {
    match m {
        Module::SystemJunk => "user-trash-symbolic"@,
        Module::PackageCleanup => "package-x-generic-symbolic"@,
        Module::LargeAndOldFiles => "folder-documents-symbolic"@,
        Module::Uninstaller => "application-x-executable-symbolic"@,
        Module::SystemMonitor => "utilities-system-monitor-symbolic"@,
    }
}

impl Module {
    pub const ALL: [Module; 5] = [
        Module::SystemJunk,
        Module::PackageCleanup,
        Module::LargeAndOldFiles,
        Module::Uninstaller,
        Module::SystemMonitor,
    ];

    /// Human-readable title for the UI.
    pub fn title(self) -> (t: &'static str)
        ensures
            t@ == module_title(self),
    {
        match self {
            Module::SystemJunk => "System Junk",
            Module::PackageCleanup => "Package Cleanup",
            Module::LargeAndOldFiles => "Large & Old Files",
            Module::Uninstaller => "Uninstaller",
            Module::SystemMonitor => "System Monitor",
        }
    }

    /// Freedesktop icon name (works in both GTK and Qt icon themes).
    pub fn icon_name(self) -> (t: &'static str)
        ensures
            t@ == module_icon(self),
    {
        match self {
            Module::SystemJunk => "user-trash-symbolic",
            Module::PackageCleanup => "package-x-generic-symbolic",
            Module::LargeAndOldFiles => "folder-documents-symbolic",
            Module::Uninstaller => "application-x-executable-symbolic",
            Module::SystemMonitor => "utilities-system-monitor-symbolic",
        }
    }
}

/// The module a frontend index names: 1..=5 in sidebar order; anything else
/// (0 in particular) means Smart Scan.
pub fn module_from_i32(m: i32) -> (r: Option<Module>)
    ensures
        r == (if m == 1 {
            Some(Module::SystemJunk)
        } else if m == 2 {
            Some(Module::PackageCleanup)
        } else if m == 3 {
            Some(Module::LargeAndOldFiles)
        } else if m == 4 {
            Some(Module::Uninstaller)
        } else if m == 5 {
            Some(Module::SystemMonitor)
        } else {
            None
        }),
{
    match m {
        1 => Some(Module::SystemJunk),
        2 => Some(Module::PackageCleanup),
        3 => Some(Module::LargeAndOldFiles),
        4 => Some(Module::Uninstaller),
        5 => Some(Module::SystemMonitor),
        _ => None,
    }
}

/// How risky it is to delete a given item. Frontends pre-check only `Safe` items.
#[derive(Debug, Clone, Copy, PartialEq, Eq, Structural)]
pub enum Safety {
    /// Pure regenerable junk — safe to remove (default-selected).
    Safe,
    /// Generally fine but worth a glance (default-selected, but flagged).
    Review,
    /// Could affect a running app or remove user data — default-unselected.
    Risky,
}

/// Whether a cleanup deletes permanently or moves to the freedesktop Trash.
#[derive(Debug, Clone, Copy, PartialEq, Eq, Structural)]
pub enum DeleteMode {
    /// Permanently delete (regenerable junk: caches, thumbnails, pkg caches).
    Permanent,
    /// Move to ~/.local/share/Trash so the user can recover it (user files).
    Trash,
}

/// One scannable / cleanable entry surfaced to the UI.
#[derive(Debug, Clone)]
pub struct ScanItem {
    /// Category label within a module, e.g. "User Cache", "Thumbnails".
    pub category: String,
    /// Short human label for the row.
    pub label: String,
    /// Absolute path this item refers to (a dir or a file), or a
    /// `priv://<op>` marker for a privileged row.
    pub path: String,
    /// Size in bytes (actual block usage, hardlinks counted once).
    pub size: u64,
    pub safety: Safety,
    pub delete_mode: DeleteMode,
    /// Whether the UI should pre-select this for cleaning.
    pub selected: bool,
    /// Optional note shown to the user (e.g. "Firefox is running — skipped").
    pub note: Option<String>,
}

/// A scan row as plain values.
pub struct ScanItemView {
    pub category: Seq<char>,
    pub label: Seq<char>,
    pub path: Seq<char>,
    pub size: u64,
    pub safety: Safety,
    pub delete_mode: DeleteMode,
    pub selected: bool,
    pub note: Option<Seq<char>>,
}

pub open spec fn opt_view(o: Option<String>) -> Option<Seq<char>> {
    match o {
        Some(s) => Some(s@),
        None => None,
    }
}

impl View for ScanItem {
    type V = ScanItemView;

    open spec fn view(&self) -> ScanItemView {
        ScanItemView {
            category: self.category@,
            label: self.label@,
            path: self.path@,
            size: self.size,
            safety: self.safety,
            delete_mode: self.delete_mode,
            selected: self.selected,
            note: opt_view(self.note),
        }
    }
}

pub open spec fn item_views(items: Seq<ScanItem>) -> Seq<ScanItemView> {
    items.map_values(|i: ScanItem| i@)
}

impl ScanItem {
    /// A copy with every field equal.
    pub fn clone_item(&self) -> (r: ScanItem)
        ensures
            r@ == self@,
    {
        ScanItem {
            category: self.category.clone(),
            label: self.label.clone(),
            path: self.path.clone(),
            size: self.size,
            safety: self.safety,
            delete_mode: self.delete_mode,
            selected: self.selected,
            note: match &self.note {
                Some(n) => Some(n.clone()),
                None => None,
            },
        }
    }

    pub fn human_size(&self) -> (s: String)
        ensures
            s@ == decimal_size_text(self.size),
    {
        format_decimal_size(self.size)
    }
}

/// Sum of the sizes of all items.
pub open spec fn sizes_sum(items: Seq<ScanItem>) -> nat
    decreases items.len(),
{
    if items.len() == 0 {
        0
    } else {
        sizes_sum(items.drop_last()) + items.last().size as nat
    }
}

/// Sum of the sizes of the selected items.
pub open spec fn selected_sum(items: Seq<ScanItem>) -> nat
    decreases items.len(),
{
    if items.len() == 0 {
        0
    } else {
        selected_sum(items.drop_last()) + if items.last().selected {
            items.last().size as nat
        } else {
            0nat
        }
    }
}

/// What is selected never exceeds what was found.
pub proof fn law_selected_within_total(items: Seq<ScanItem>)
    ensures
        selected_sum(items) <= sizes_sum(items),
    decreases items.len(),
{
    if items.len() > 0 {
        law_selected_within_total(items.drop_last());
    }
}

/// Total size of `items`. The sum must fit in a `u64`: summing past it is
/// an overflow.
pub fn total_size(items: &[ScanItem]) -> (n: u64)
    requires
        sizes_sum(items@) <= u64::MAX,
    ensures
        n == sizes_sum(items@),
{
    let mut n: u64 = 0;
    let mut i: usize = 0;
    while i < items.len()
        invariant
            i <= items@.len(),
            sizes_sum(items@) <= u64::MAX,
            n == sizes_sum(items@.take(i as int)),
        decreases items.len() - i,
    {
        proof {
            assert(items@.take(i + 1).drop_last() == items@.take(i as int));
            lemma_sum_prefix(items@, i + 1);
        }
        n = n + items[i].size;
        i = i + 1;
    }
    assert(items@.take(items@.len() as int) == items@);
    n
}

/// Total size of the selected `items`.
pub fn selected_size(items: &[ScanItem]) -> (n: u64)
    requires
        selected_sum(items@) <= u64::MAX,
    ensures
        n == selected_sum(items@),
{
    let mut n: u64 = 0;
    let mut i: usize = 0;
    while i < items.len()
        invariant
            i <= items@.len(),
            selected_sum(items@) <= u64::MAX,
            n == selected_sum(items@.take(i as int)),
        decreases items.len() - i,
    {
        proof {
            assert(items@.take(i + 1).drop_last() == items@.take(i as int));
            lemma_selected_prefix(items@, i + 1);
        }
        if items[i].selected {
            n = n + items[i].size;
        }
        i = i + 1;
    }
    assert(items@.take(items@.len() as int) == items@);
    n
}

proof fn lemma_sum_prefix(items: Seq<ScanItem>, k: int)
    requires
        0 <= k <= items.len(),
    ensures
        sizes_sum(items.take(k)) <= sizes_sum(items),
    decreases items.len() - k,
{
    if k < items.len() {
        lemma_sum_prefix(items, k + 1);
        assert(items.take(k + 1).drop_last() == items.take(k));
    } else {
        assert(items.take(k) == items);
    }
}

pub proof fn lemma_selected_prefix(items: Seq<ScanItem>, k: int)
    requires
        0 <= k <= items.len(),
    ensures
        selected_sum(items.take(k)) <= selected_sum(items),
    decreases items.len() - k,
{
    if k < items.len() {
        lemma_selected_prefix(items, k + 1);
        assert(items.take(k + 1).drop_last() == items.take(k));
    } else {
        assert(items.take(k) == items);
    }
}

/// Aggregated result of scanning a module.
#[derive(Debug, Clone)]
pub struct ScanResult {
    pub items: Vec<ScanItem>,
}

impl Default for ScanResult {
    fn default() -> (r: ScanResult)
        ensures
            r.items@.len() == 0,
    {
        ScanResult { items: Vec::new() }
    }
}

impl ScanResult {
    pub fn total_size(&self) -> (n: u64)
        requires
            sizes_sum(self.items@) <= u64::MAX,
        ensures
            n == sizes_sum(self.items@),
    {
        total_size(self.items.as_slice())
    }

    pub fn selected_size(&self) -> (n: u64)
        requires
            selected_sum(self.items@) <= u64::MAX,
        ensures
            n == selected_sum(self.items@),
    {
        selected_size(self.items.as_slice())
    }

    pub fn human_total(&self) -> (s: String)
        requires
            sizes_sum(self.items@) <= u64::MAX,
        ensures
            s@ == decimal_size_text(sizes_sum(self.items@) as u64),
    {
        format_decimal_size(self.total_size())
    }
}

/// Outcome of a cleanup run — what actually got freed and any per-item failures.
#[derive(Debug, Clone)]
pub struct CleanReport {
    pub freed_bytes: u64,
    pub removed: usize,
    /// (path, reason) for items that could not be removed.
    pub failures: Vec<(String, String)>,
}

impl Default for CleanReport {
    fn default() -> (r: CleanReport)
        ensures
            r.freed_bytes == 0,
            r.removed == 0,
            r.failures@.len() == 0,
    {
        CleanReport { freed_bytes: 0, removed: 0, failures: Vec::new() }
    }
}

impl CleanReport {
    pub fn human_freed(&self) -> (s: String)
        ensures
            s@ == decimal_size_text(self.freed_bytes),
    {
        format_decimal_size(self.freed_bytes)
    }
}

/// The scheme that tags a privileged row's path.
pub open spec fn priv_scheme() -> Seq<char> {
    seq!['p', 'r', 'i', 'v', ':', '/', '/']
}

/// Whether a path is a `priv://` marker rather than a filesystem path.
pub open spec fn is_marker(path: Seq<char>) -> bool {
    starts_with(path, priv_scheme())
}

pub fn is_priv_marker(path: &str) -> (b: bool)
    ensures
        b == is_marker(path@),
{
    let scheme = vec!['p', 'r', 'i', 'v', ':', '/', '/'];
    assert(scheme@ =~= priv_scheme());
    starts_with_chars(&chars_of(path), &scheme)
}

/// A copy of `items`, row for row.
pub fn clone_items(items: &Vec<ScanItem>) -> (r: Vec<ScanItem>)
    ensures
        item_views(r@) == item_views(items@),
{
    let mut r: Vec<ScanItem> = Vec::new();
    let mut i: usize = 0;
    while i < items.len()
        invariant
            i <= items.len(),
            r@.len() == i,
            item_views(r@) == item_views(items@).take(i as int),
        decreases items.len() - i,
    {
        let ghost before = r@;
        let c = items[i].clone_item();
        r.push(c);
        assert(r@ == before.push(c));
        assert forall|k: int| 0 <= k < i + 1 implies #[trigger] item_views(r@)[k] == item_views(items@).take(i + 1)[k] by {
            if k < i {
                assert(item_views(r@)[k] == r@[k]@);
                assert(r@[k] == before[k]);
                assert(item_views(before)[k] == before[k]@);
            }
        }
        assert(item_views(r@) =~= item_views(items@).take(i + 1));
        i = i + 1;
    }
    assert(item_views(items@).take(items@.len() as int) =~= item_views(items@));
    r
}

} // verus!
