//! What the desktop frontends show: headings, row text, the confirmation
//! before a cleanup, status lines, and row selection. The toolkits (GTK, Qt)
//! only lay these out.

use vstd::prelude::*;
use crate::helper::message_with_number;
use crate::text::{chars_of, concat, decimal_digits, string_of};
use crate::types::{
    decimal_size_text, format_decimal_size, is_marker, is_priv_marker, module_title, selected_sum,
    CleanReport, DeleteMode, Module, Safety, ScanItem,
};

verus! {

/// One line under a module's title.
pub open spec fn module_subtitle_of(m: Module) -> Seq<char> {
    match m {
        Module::SystemJunk => "Caches, thumbnails, Trash and logs"@,
        Module::PackageCleanup => "APT cache, orphans, old kernels, journal"@,
        Module::LargeAndOldFiles => "Big files in your home folder (sent to Trash)"@,
        Module::Uninstaller => "Remove installed applications"@,
        Module::SystemMonitor => "Live CPU, memory and disk usage"@,
    }
}

pub fn module_subtitle(m: Module) -> (s: &'static str)
    ensures
        s@ == module_subtitle_of(m),
{
    match m {
        Module::SystemJunk => "Caches, thumbnails, Trash and logs",
        Module::PackageCleanup => "APT cache, orphans, old kernels, journal",
        Module::LargeAndOldFiles => "Big files in your home folder (sent to Trash)",
        Module::Uninstaller => "Remove installed applications",
        Module::SystemMonitor => "Live CPU, memory and disk usage",
    }
}

/// The title and subtitle of a view: Smart Scan (`None`) or a module.
pub open spec fn heading_of(view: Option<Module>) -> (Seq<char>, Seq<char>) {
    match view {
        None => ("Smart Scan"@, "Reclaim space with one click"@),
        Some(m) => (module_title(m), module_subtitle_of(m)),
    }
}

pub fn view_heading(view: Option<Module>) -> (r: (&'static str, &'static str))
    ensures
        (r.0@, r.1@) == heading_of(view),
{
    match view {
        None => ("Smart Scan", "Reclaim space with one click"),
        Some(m) => (m.title(), module_subtitle(m)),
    }
}

/// Entering a view scans it, except the System Monitor.
pub fn scans_on_entry(view: Option<Module>) -> (b: bool)
    ensures
        b == (view != Some(Module::SystemMonitor)),
{
    match view {
        Some(Module::SystemMonitor) => false,
        _ => true,
    }
}

/// The icon shown beside a row of the given safety.
pub open spec fn safety_icon_of(s: Safety) -> Seq<char> {
    match s {
        Safety::Safe => "emblem-ok-symbolic"@,
        Safety::Review => "dialog-information-symbolic"@,
        Safety::Risky => "dialog-warning-symbolic"@,
    }
}

pub fn safety_icon(s: Safety) -> (r: &'static str)
    ensures
        r@ == safety_icon_of(s),
{
    match s {
        Safety::Safe => "emblem-ok-symbolic",
        Safety::Review => "dialog-information-symbolic",
        Safety::Risky => "dialog-warning-symbolic",
    }
}

/// The tooltip of that icon.
pub open spec fn safety_tooltip_of(s: Safety) -> Seq<char> {
    match s {
        Safety::Safe => "Safe to remove"@,
        Safety::Review => "Review before removing"@,
        Safety::Risky => "Risky — your data; sent to Trash"@,
    }
}

pub fn safety_tooltip(s: Safety) -> (r: &'static str)
    ensures
        r@ == safety_tooltip_of(s),
{
    match s {
        Safety::Safe => "Safe to remove",
        Safety::Review => "Review before removing",
        Safety::Risky => "Risky — your data; sent to Trash",
    }
}

/// A row's subtitle: its size, then its note when it has one.
pub open spec fn row_subtitle_of(size: Seq<char>, note: Option<Seq<char>>) -> Seq<char> {
    match note {
        Some(n) => size + " · "@ + n,
        None => size,
    }
}

pub fn subtitle(size: &str, note: &Option<String>) -> (s: String)
    ensures
        s@ == row_subtitle_of(
            size@,
            match note {
                Some(n) => Some(n@),
                None => None,
            },
        ),
{
    match note {
        Some(n) => {
            let a = concat(&chars_of(size), &chars_of(" · "));
            let b = concat(&a, &chars_of(n.as_str()));
            string_of(b.as_slice())
        },
        None => size.to_owned(),
    }
}

/// How many selected items satisfy `f`.
pub open spec fn count_selected(items: Seq<ScanItem>, f: spec_fn(ScanItem) -> bool) -> nat
    decreases items.len(),
{
    if items.len() == 0 {
        0
    } else {
        count_selected(items.drop_last(), f) + if items.last().selected && f(items.last()) {
            1nat
        } else {
            0nat
        }
    }
}

proof fn lemma_count_bound(items: Seq<ScanItem>, f: spec_fn(ScanItem) -> bool)
    ensures
        count_selected(items, f) <= items.len(),
    decreases items.len(),
{
    if items.len() > 0 {
        lemma_count_bound(items.drop_last(), f);
    }
}

pub open spec fn any_item() -> spec_fn(ScanItem) -> bool {
    |i: ScanItem| true
}

pub open spec fn is_permanent() -> spec_fn(ScanItem) -> bool {
    |i: ScanItem| i.delete_mode == DeleteMode::Permanent
}

pub open spec fn is_trash() -> spec_fn(ScanItem) -> bool {
    |i: ScanItem| i.delete_mode == DeleteMode::Trash
}

pub open spec fn is_privileged() -> spec_fn(ScanItem) -> bool {
    |i: ScanItem| is_marker(i.path@)
}

pub open spec fn is_risky() -> spec_fn(ScanItem) -> bool {
    |i: ScanItem| i.safety == Safety::Risky
}

/// The body of the confirmation shown before cleaning: what is selected,
/// how much, how many items go for good, and, when there are any, how many go
/// to the Trash, need the password, or are risky.
pub open spec fn clean_dialog_body(items: Seq<ScanItem>) -> Seq<Seq<char>> {
    let first = seq![
        decimal_size_text(selected_sum(items) as u64) + " selected across "@ + decimal_digits(
            count_selected(items, any_item()),
        ) + " item(s)."@,
        decimal_digits(count_selected(items, is_permanent())) + " item(s) will be deleted permanently."@,
    ];
    let trash = count_selected(items, is_trash());
    let privileged = count_selected(items, is_privileged());
    let risky = count_selected(items, is_risky());
    let with_trash = if trash > 0 {
        first.push(decimal_digits(trash) + " user file(s) will be moved to Trash."@)
    } else {
        first
    };
    let with_privileged = if privileged > 0 {
        with_trash.push(
            decimal_digits(privileged) + " privileged action(s) may ask for your password."@,
        )
    } else {
        with_trash
    };
    if risky > 0 {
        with_privileged.push(decimal_digits(risky) + " risky item(s) are selected."@)
    } else {
        with_privileged
    }
}

pub open spec fn string_views(v: Seq<String>) -> Seq<Seq<char>> {
    v.map_values(|s: String| s@)
}

fn push_line(lines: &mut Vec<String>, line: String)
    ensures
        string_views(final(lines)@) == string_views(old(lines)@).push(line@),
{
    let ghost before = lines@;
    lines.push(line);
    assert(string_views(lines@) =~= string_views(before).push(line@));
}

fn count_line(n: u64, suffix: &str) -> (s: String)
    ensures
        s@ == decimal_digits(n as nat) + suffix@,
{
    let s = message_with_number("", n, suffix);
    assert(""@ + decimal_digits(n as nat) + suffix@ =~= decimal_digits(n as nat) + suffix@) by {
        reveal_strlit("");
    }
    s
}

/// The lines of the confirmation before cleaning, or `None` when nothing is
/// selected (no confirmation is shown then).
pub fn clean_dialog_lines(items: &Vec<ScanItem>) -> (r: Option<Vec<String>>)
    requires
        selected_sum(items@) <= u64::MAX,
    ensures
        count_selected(items@, any_item()) == 0 ==> r is None,
        count_selected(items@, any_item()) > 0 ==> (r matches Some(lines) && string_views(lines@)
            == clean_dialog_body(items@)),
{
    let mut bytes: u64 = 0;
    let mut selected: u64 = 0;
    let mut permanent: u64 = 0;
    let mut trash: u64 = 0;
    let mut privileged: u64 = 0;
    let mut risky: u64 = 0;
    let mut i: usize = 0;
    while i < items.len()
        invariant
            i <= items.len(),
            selected_sum(items@) <= u64::MAX,
            bytes == selected_sum(items@.take(i as int)),
            selected == count_selected(items@.take(i as int), any_item()),
            permanent == count_selected(items@.take(i as int), is_permanent()),
            trash == count_selected(items@.take(i as int), is_trash()),
            privileged == count_selected(items@.take(i as int), is_privileged()),
            risky == count_selected(items@.take(i as int), is_risky()),
        decreases items.len() - i,
    {
        let ghost pre = items@.take(i as int);
        let ghost next = items@.take(i + 1);
        proof {
            assert(next.drop_last() == pre);
            assert(next.last() == items@[i as int]);
            crate::types::lemma_selected_prefix(items@, i + 1);
            lemma_count_bound(pre, any_item());
            lemma_count_bound(pre, is_permanent());
            lemma_count_bound(pre, is_trash());
            lemma_count_bound(pre, is_privileged());
            lemma_count_bound(pre, is_risky());
        }
        let item = &items[i];
        if item.selected {
            bytes = bytes + item.size;
            selected = selected + 1;
            match item.delete_mode {
                DeleteMode::Permanent => {
                    permanent = permanent + 1;
                },
                DeleteMode::Trash => {
                    trash = trash + 1;
                },
            }
            if is_priv_marker(item.path.as_str()) {
                privileged = privileged + 1;
            }
            match item.safety {
                Safety::Risky => {
                    risky = risky + 1;
                },
                _ => {},
            }
        }
        i = i + 1;
    }
    assert(items@.take(items@.len() as int) == items@);
    if selected == 0 {
        return None;
    }
    let mut lines: Vec<String> = Vec::new();
    let size_text = format_decimal_size(bytes);
    let first = concat(&chars_of(size_text.as_str()), &chars_of(" selected across "));
    let first = concat(&first, &chars_of(count_line(selected, " item(s).").as_str()));
    let first_line = string_of(first.as_slice());
    assert(first_line@ =~= decimal_size_text(selected_sum(items@) as u64) + " selected across "@
        + decimal_digits(count_selected(items@, any_item())) + " item(s)."@);
    push_line(&mut lines, first_line);
    push_line(&mut lines, count_line(permanent, " item(s) will be deleted permanently."));
    if trash > 0 {
        push_line(&mut lines, count_line(trash, " user file(s) will be moved to Trash."));
    }
    if privileged > 0 {
        push_line(&mut lines, count_line(privileged, " privileged action(s) may ask for your password."));
    }
    if risky > 0 {
        push_line(&mut lines, count_line(risky, " risky item(s) are selected."));
    }
    proof {
        let body = clean_dialog_body(items@);
        assert(string_views(lines@) =~= body);
    }
    Some(lines)
}

/// The status line after a cleanup: what was freed, then what the helper
/// reported (`extra`) and how many items were skipped, when there are any.
pub open spec fn clean_status_of(freed: u64, extra: Seq<char>, failures: nat) -> Seq<char> {
    let base = "Freed "@ + decimal_size_text(freed);
    let with_extra = if extra.len() > 0 {
        base + " · "@ + extra
    } else {
        base
    };
    if failures > 0 {
        with_extra + " · "@ + decimal_digits(failures) + " skipped"@
    } else {
        with_extra
    }
}

pub fn clean_status(report: &CleanReport, extra: &str) -> (s: String)
    ensures
        s@ == clean_status_of(report.freed_bytes, extra@, report.failures@.len()),
{
    let mut msg = concat(&chars_of("Freed "), &chars_of(report.human_freed().as_str()));
    let e = chars_of(extra);
    if e.len() > 0 {
        msg = concat(&msg, &chars_of(" · "));
        msg = concat(&msg, &e);
    }
    if report.failures.len() > 0 {
        msg = concat(&msg, &chars_of(" · "));
        msg = concat(&msg, &chars_of(count_line(report.failures.len() as u64, " skipped").as_str()));
    }
    string_of(msg.as_slice())
}

/// The status line after a scan: the total found.
pub fn scan_status(total: u64) -> (s: String)
    ensures
        s@ == decimal_size_text(total) + " found"@,
{
    let v = concat(&chars_of(format_decimal_size(total).as_str()), &chars_of(" found"));
    string_of(v.as_slice())
}

/// The gauge caption: the size selected.
pub fn selection_summary(selected: u64) -> (s: String)
    ensures
        s@ == decimal_size_text(selected) + " selected"@,
{
    let v = concat(&chars_of(format_decimal_size(selected).as_str()), &chars_of(" selected"));
    string_of(v.as_slice())
}

/// The status line after a scan, by count of rows.
pub fn items_found_status(found: usize) -> (s: String)
    ensures
        s@ == decimal_digits(found as nat) + " items found"@,
{
    count_line(found as u64, " items found")
}

/// Set one row's selection, by the index a frontend passes (negative or past
/// the end: nothing changes). Returns whether a row changed.
pub fn set_selected(items: &mut Vec<ScanItem>, index: i32, selected: bool) -> (changed: bool)
    ensures
        changed == (0 <= index < old(items)@.len()),
        changed ==> final(items)@ == old(items)@.update(
            index as int,
            ScanItem { selected, ..old(items)@[index as int] },
        ),
        !changed ==> final(items)@ == old(items)@,
{
    if index < 0 {
        return false;
    }
    let i = index as usize;
    if i >= items.len() {
        return false;
    }
    let mut item = items.remove(i);
    item.selected = selected;
    items.insert(i, item);
    true
}

/// Select or deselect every row.
pub fn select_all(items: &mut Vec<ScanItem>, selected: bool)
    ensures
        final(items)@.len() == old(items)@.len(),
        forall|k: int|
            0 <= k < old(items)@.len() ==> #[trigger] final(items)@[k] == (ScanItem {
                selected,
                ..old(items)@[k]
            }),
{
    let mut i: usize = 0;
    let ghost start = items@;
    while i < items.len()
        invariant
            i <= items.len() == start.len(),
            forall|k: int| 0 <= k < i ==> #[trigger] items@[k] == (ScanItem { selected, ..start[k] }),
            forall|k: int| i <= k < start.len() ==> #[trigger] items@[k] == start[k],
        decreases items.len() - i,
    {
        let mut item = items.remove(i);
        item.selected = selected;
        items.insert(i, item);
        i = i + 1;
    }
}

/// A row as the Qt frontend renders it.
#[derive(Debug, Clone)]
pub struct UiRow {
    pub category: String,
    pub label: String,
    pub size: u64,
    pub size_text: String,
    pub safety: &'static str,
    pub delete_mode: &'static str,
    pub selected: bool,
    pub privileged: bool,
    pub note: String,
}

pub open spec fn safety_word(s: Safety) -> Seq<char> {
    match s {
        Safety::Safe => "safe"@,
        Safety::Review => "review"@,
        Safety::Risky => "risky"@,
    }
}

pub open spec fn mode_word(m: DeleteMode) -> Seq<char> {
    match m {
        DeleteMode::Permanent => "permanent"@,
        DeleteMode::Trash => "trash"@,
    }
}

/// The rendered row of an item: its fields, its size in words, the safety
/// and delete mode as words, whether it is privileged, and its note (empty
/// when it has none).
pub open spec fn ui_row_of(r: UiRow, i: ScanItem) -> bool {
    &&& r.category@ == i.category@
    &&& r.label@ == i.label@
    &&& r.size == i.size
    &&& r.size_text@ == decimal_size_text(i.size)
    &&& r.safety@ == safety_word(i.safety)
    &&& r.delete_mode@ == mode_word(i.delete_mode)
    &&& r.selected == i.selected
    &&& r.privileged == is_marker(i.path@)
    &&& r.note@ == match i.note {
        Some(n) => n@,
        None => Seq::<char>::empty(),
    }
}

pub fn ui_row(i: &ScanItem) -> (r: UiRow)
    ensures
        ui_row_of(r, *i),
{
    UiRow {
        category: i.category.clone(),
        label: i.label.clone(),
        size: i.size,
        size_text: format_decimal_size(i.size),
        safety: match i.safety {
            Safety::Safe => "safe",
            Safety::Review => "review",
            Safety::Risky => "risky",
        },
        delete_mode: match i.delete_mode {
            DeleteMode::Permanent => "permanent",
            DeleteMode::Trash => "trash",
        },
        selected: i.selected,
        privileged: is_priv_marker(i.path.as_str()),
        note: match &i.note {
            Some(n) => n.clone(),
            None => String::new(),
        },
    }
}

/// The rendered rows of `items`, in order.
pub fn ui_rows(items: &Vec<ScanItem>) -> (r: Vec<UiRow>)
    ensures
        r@.len() == items@.len(),
        forall|k: int| 0 <= k < items@.len() ==> ui_row_of(#[trigger] r@[k], items@[k]),
{
    let mut r: Vec<UiRow> = Vec::new();
    let mut i: usize = 0;
    while i < items.len()
        invariant
            i <= items.len(),
            r@.len() == i,
            forall|k: int| 0 <= k < i ==> ui_row_of(#[trigger] r@[k], items@[k]),
        decreases items.len() - i,
    {
        r.push(ui_row(&items[i]));
        i = i + 1;
    }
    r
}

} // verus!
