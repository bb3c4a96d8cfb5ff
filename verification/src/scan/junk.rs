//! System Junk: how each entry found under `~/.cache`, the Trash and flatpak
//! per-app caches is reported.
//!
//! `~/.cache` is partitioned by its top-level entries: known entries
//! (thumbnails, browser caches) get their own category and safety, the rest
//! are generic per-app rows. A browser cache is de-selected, with a note, while
//! its browser runs.

use vstd::prelude::*;
use crate::text::{chars_of, concat, eq_chars, string_of};
use crate::path::{components, is_plain_name, join_path, lemma_components_join, path_join, path_starts_with};
use crate::safety::{protects, Safelist, SafelistView};
use crate::types::{item_views, DeleteMode, Safety, ScanItem, ScanItemView};

verus! {

/// A `~/.cache` entry with its own category: `(category, label, safety,
/// process that must not be running)`.
pub open spec fn special_entry(name: Seq<char>) -> Option<(Seq<char>, Seq<char>, Safety, Option<Seq<char>>)> {
    if name == "thumbnails"@ {
        Some(("Thumbnails"@, "Thumbnail cache"@, Safety::Safe, None))
    } else if name == "mozilla"@ {
        Some(("Browser Cache"@, "Firefox cache"@, Safety::Review, Some("firefox"@)))
    } else if name == "chromium"@ {
        Some(("Browser Cache"@, "Chromium cache"@, Safety::Review, Some("chromium"@)))
    } else if name == "google-chrome"@ {
        Some(("Browser Cache"@, "Google Chrome cache"@, Safety::Review, Some("chrome"@)))
    } else {
        None
    }
}

/// The process to look for before offering the cache entry `name`.
pub fn cache_entry_guard(name: &str) -> (g: Option<&'static str>)
    ensures
        match special_entry(name@) {
            Some((_c, _l, _s, guard)) => match guard {
                Some(p) => g matches Some(x) && x@ == p,
                None => g is None,
            },
            None => g is None,
        },
{
    let n = chars_of(name);
    if eq_chars(&n, &chars_of("thumbnails")) {
        None
    } else if eq_chars(&n, &chars_of("mozilla")) {
        Some("firefox")
    } else if eq_chars(&n, &chars_of("chromium")) {
        Some("chromium")
    } else if eq_chars(&n, &chars_of("google-chrome")) {
        Some("chrome")
    } else {
        None
    }
}

/// The note on a de-selected browser cache.
pub open spec fn running_note(process: Seq<char>) -> Seq<char> {
    process + " is running — review before cleaning"@
}

/// The row for the `~/.cache` entry `name` at `path` of `size` bytes, given
/// whether its guard process is running; none for an empty entry.
pub open spec fn cache_entry_row(
    name: Seq<char>,
    size: u64,
    guard_running: bool,
) -> (Seq<char>, Seq<char>, Safety, bool, Option<Seq<char>>) {
    match special_entry(name) {
        Some((category, label, safety, guard)) => match guard {
            Some(p) => if guard_running {
                (category, label, safety, false, Some(running_note(p)))
            } else {
                (category, label, safety, true, None)
            },
            None => (category, label, safety, true, None),
        },
        None => ("Application Cache"@, name + " cache"@, Safety::Safe, true, None),
    }
}

pub open spec fn row_of(item: ScanItem) -> (Seq<char>, Seq<char>, Safety, bool, Option<Seq<char>>) {
    (
        item.category@,
        item.label@,
        item.safety,
        item.selected,
        match item.note {
            Some(n) => Some(n@),
            None => None,
        },
    )
}

/// The scan row for a top-level `~/.cache` entry (`None` when it uses no
/// space). Every row is permanent-delete and points at the entry itself.
pub fn cache_entry_item(path: String, name: &str, size: u64, guard_running: bool) -> (r: Option<
    ScanItem,
>)
    ensures
        size == 0 ==> r is None,
        size > 0 ==> (r matches Some(item) && item.path@ == path@ && item.size == size
            && item.delete_mode == DeleteMode::Permanent && row_of(item) == cache_entry_row(
            name@,
            size,
            guard_running,
        )),
{
    if size == 0 {
        return None;
    }
    let n = chars_of(name);
    let (category, label, safety, guard): (&str, &str, Safety, Option<&str>) = if eq_chars(
        &n,
        &chars_of("thumbnails"),
    ) {
        ("Thumbnails", "Thumbnail cache", Safety::Safe, None)
    } else if eq_chars(&n, &chars_of("mozilla")) {
        ("Browser Cache", "Firefox cache", Safety::Review, Some("firefox"))
    } else if eq_chars(&n, &chars_of("chromium")) {
        ("Browser Cache", "Chromium cache", Safety::Review, Some("chromium"))
    } else if eq_chars(&n, &chars_of("google-chrome")) {
        ("Browser Cache", "Google Chrome cache", Safety::Review, Some("chrome"))
    } else {
        let label = concat(&n, &chars_of(" cache"));
        return Some(
            ScanItem {
                category: "Application Cache".to_owned(),
                label: string_of(label.as_slice()),
                path,
                size,
                safety: Safety::Safe,
                delete_mode: DeleteMode::Permanent,
                selected: true,
                note: None,
            },
        );
    };
    let mut selected = true;
    let mut note: Option<String> = None;
    match guard {
        Some(p) => {
            if guard_running {
                selected = false;
                let msg = concat(&chars_of(p), &chars_of(" is running — review before cleaning"));
                note = Some(string_of(msg.as_slice()));
            }
        },
        None => {},
    }
    Some(
        ScanItem {
            category: category.to_owned(),
            label: label.to_owned(),
            path,
            size,
            safety,
            delete_mode: DeleteMode::Permanent,
            selected,
            note,
        },
    )
}

/// The Trash row (`None` when the Trash uses no space).
pub fn trash_item(path: String, size: u64) -> (r: Option<ScanItem>)
    ensures
        size == 0 ==> r is None,
        size > 0 ==> (r matches Some(item) && item.path@ == path@ && item.size == size
            && item.category@ == "Trash"@ && item.label@ == "Trash bin"@ && item.safety
            == Safety::Review && item.delete_mode == DeleteMode::Permanent && item.selected
            && item.note is None),
{
    if size == 0 {
        return None;
    }
    Some(
        ScanItem {
            category: "Trash".to_owned(),
            label: "Trash bin".to_owned(),
            path,
            size,
            safety: Safety::Review,
            delete_mode: DeleteMode::Permanent,
            selected: true,
            note: None,
        },
    )
}

/// The row for a flatpak app's `cache` directory (`None` when it uses no
/// space).
pub fn flatpak_cache_item(path: String, app_id: &str, size: u64) -> (r: Option<ScanItem>)
    ensures
        size == 0 ==> r is None,
        size > 0 ==> (r matches Some(item) && item.path@ == path@ && item.size == size
            && item.category@ == "Flatpak Cache"@ && item.label@ == app_id@ + " cache"@
            && item.safety == Safety::Safe && item.delete_mode == DeleteMode::Permanent
            && item.selected && item.note is None),
{
    if size == 0 {
        return None;
    }
    let label = concat(&chars_of(app_id), &chars_of(" cache"));
    Some(
        ScanItem {
            category: "Flatpak Cache".to_owned(),
            label: string_of(label.as_slice()),
            path,
            size,
            safety: Safety::Safe,
            delete_mode: DeleteMode::Permanent,
            selected: true,
            note: None,
        },
    )
}

/// The browser caches under `~/.cache` and the process each belongs to.
pub open spec fn browser_guard(name: Seq<char>) -> Option<Seq<char>> {
    if name == "mozilla"@ {
        Some("firefox"@)
    } else if name == "chromium"@ {
        Some("chromium"@)
    } else if name == "google-chrome"@ {
        Some("chrome"@)
    } else {
        None
    }
}

/// A browser cache is never pre-selected while its browser runs: the
/// Firefox, Chromium and Chrome caches are Browser Cache rows guarded by
/// their browser's process, and while it runs the row is not selected and
/// says "<process> is running — review before cleaning"; while it does not,
/// the row is selected with no note. Every Browser Cache row is guarded so.
pub proof fn law_running_browser_cache_deselected(name: Seq<char>, size: u64)
    ensures
        browser_guard(name) matches Some(p) ==> {
            &&& cache_entry_row(name, size, true).0 == "Browser Cache"@
            &&& !cache_entry_row(name, size, true).3
            &&& cache_entry_row(name, size, true).4 == Some(p + " is running — review before cleaning"@)
            &&& cache_entry_row(name, size, false).3
            &&& cache_entry_row(name, size, false).4 is None
            &&& (special_entry(name) matches Some((_c, _l, _s, g)) && g == Some(p))
        },
        cache_entry_row(name, size, true).0 == "Browser Cache"@ ==> !cache_entry_row(name, size, true).3
            && cache_entry_row(name, size, true).4 is Some,
{
    reveal_strlit("thumbnails");
    reveal_strlit("mozilla");
    reveal_strlit("chromium");
    reveal_strlit("google-chrome");
    reveal_strlit("Browser Cache");
    reveal_strlit("Thumbnails");
    reveal_strlit("Application Cache");
    assert("thumbnails"@[0] != "mozilla"@[0]);
    assert("thumbnails"@ != "mozilla"@);
    assert("thumbnails"@[0] != "chromium"@[0]);
    assert("thumbnails"@ != "chromium"@);
    assert("thumbnails"@ != "google-chrome"@);
    assert("mozilla"@ != "chromium"@);
    assert("mozilla"@ != "google-chrome"@);
    assert("chromium"@ != "google-chrome"@);
    assert("Thumbnails"@[0] != "Browser Cache"@[0]);
    assert("Thumbnails"@ != "Browser Cache"@);
    assert("Application Cache"@[0] != "Browser Cache"@[0]);
    assert("Application Cache"@ != "Browser Cache"@);
}

/// A top-level `~/.cache` entry as the walk found it: its name, its disk
/// usage, and whether the process guarding it (if any) is running.
#[derive(Debug, Clone)]
pub struct CacheEntry {
    pub name: String,
    pub size: u64,
    pub guard_running: bool,
}

/// `~/.cache`, `~/.local/share/Trash` and `~/.var/app` under `home`.
pub open spec fn cache_dir_of(home: Seq<char>) -> Seq<char> {
    path_join(home, ".cache"@)
}

pub open spec fn trash_dir_of(home: Seq<char>) -> Seq<char> {
    path_join(path_join(path_join(home, ".local"@), "share"@), "Trash"@)
}

pub open spec fn var_app_of(home: Seq<char>) -> Seq<char> {
    path_join(path_join(home, ".var"@), "app"@)
}

/// Where the junk scanner looks under `home`: `~/.cache`, the Trash
/// (`~/.local/share/Trash`) and the flatpak per-app data (`~/.var/app`).
pub fn junk_locations(home: &str) -> (r: (String, String, String))
    ensures
        r.0@ == cache_dir_of(home@),
        r.1@ == trash_dir_of(home@),
        r.2@ == var_app_of(home@),
{
    let local = join_path(home, ".local");
    let share = join_path(local.as_str(), "share");
    let var = join_path(home, ".var");
    (join_path(home, ".cache"), join_path(share.as_str(), "Trash"), join_path(var.as_str(), "app"))
}

/// The path of the `~/.cache` entry `name`.
pub fn cache_entry_path(cache: &str, name: &str) -> (r: String)
    ensures
        r@ == path_join(cache@, name@),
{
    join_path(cache, name)
}

/// The row a `~/.cache` entry gets.
pub open spec fn cache_row_view(cache: Seq<char>, e: CacheEntry) -> ScanItemView {
    let r = cache_entry_row(e.name@, e.size, e.guard_running);
    ScanItemView {
        category: r.0,
        label: r.1,
        path: path_join(cache, e.name@),
        size: e.size,
        safety: r.2,
        delete_mode: DeleteMode::Permanent,
        selected: r.3,
        note: r.4,
    }
}

/// The `~/.cache` entries that get a row, in order: not protected, not empty.
pub open spec fn kept_cache_entries(sl: SafelistView, cache: Seq<char>, entries: Seq<CacheEntry>) -> Seq<
    CacheEntry,
>
    decreases entries.len(),
{
    if entries.len() == 0 {
        seq![]
    } else {
        let prev = kept_cache_entries(sl, cache, entries.drop_last());
        let e = entries.last();
        if protects(sl, path_join(cache, e.name@)) || e.size == 0 {
            prev
        } else {
            prev.push(e)
        }
    }
}

/// The rows of `~/.cache`: one per kept entry, in order.
pub open spec fn cache_rows(sl: SafelistView, cache: Seq<char>, entries: Seq<CacheEntry>) -> Seq<
    ScanItemView,
> {
    kept_cache_entries(sl, cache, entries).map_values(|e: CacheEntry| cache_row_view(cache, e))
}

/// Partition `~/.cache` (the directory `cache`) by its top-level entries so
/// categories never overlap.
pub fn scan_cache_tree(safelist: &Safelist, cache: &str, entries: &Vec<CacheEntry>) -> (r: Vec<ScanItem>)
    ensures
        item_views(r@) == cache_rows(safelist@, cache@, entries@),
{
    let mut r: Vec<ScanItem> = Vec::new();
    let mut i: usize = 0;
    while i < entries.len()
        invariant
            i <= entries.len(),
            item_views(r@) == cache_rows(safelist@, cache@, entries@.take(i as int)),
        decreases entries.len() - i,
    {
        let e = &entries[i];
        let ghost kept = kept_cache_entries(safelist@, cache@, entries@.take(i as int));
        proof {
            assert(entries@.take(i + 1).drop_last() == entries@.take(i as int));
            assert(entries@.take(i + 1).last() == entries@[i as int]);
        }
        let path = cache_entry_path(cache, e.name.as_str());
        if !safelist.is_protected(path.as_str()) {
            match cache_entry_item(path, e.name.as_str(), e.size, e.guard_running) {
                Some(item) => {
                    let ghost before = r@;
                    assert(item@ == cache_row_view(cache@, entries@[i as int]));
                    r.push(item);
                    assert(kept_cache_entries(safelist@, cache@, entries@.take(i + 1)) == kept.push(
                        entries@[i as int],
                    ));
                    assert(item_views(r@) =~= item_views(before).push(item@));
                    assert(cache_rows(safelist@, cache@, entries@.take(i + 1)) =~= cache_rows(
                        safelist@,
                        cache@,
                        entries@.take(i as int),
                    ).push(cache_row_view(cache@, entries@[i as int])));
                },
                None => {},
            }
        }
        i = i + 1;
    }
    assert(entries@.take(entries@.len() as int) == entries@);
    r
}

/// Every kept entry is one of the entries, and distinct names stay distinct.
proof fn lemma_kept_cache(sl: SafelistView, cache: Seq<char>, entries: Seq<CacheEntry>)
    ensures
        forall|k: int|
            0 <= k < kept_cache_entries(sl, cache, entries).len() ==> exists|j: int|
                0 <= j < entries.len() && #[trigger] kept_cache_entries(sl, cache, entries)[k]
                    == entries[j],
        (forall|a: int, b: int|
            0 <= a < b < entries.len() ==> (#[trigger] entries[a]).name@ != (#[trigger] entries[b]).name@)
            ==> (forall|a: int, b: int|
            0 <= a < b < kept_cache_entries(sl, cache, entries).len() ==> (
            #[trigger] kept_cache_entries(sl, cache, entries)[a]).name@ != (
            #[trigger] kept_cache_entries(sl, cache, entries)[b]).name@),
    decreases entries.len(),
{
    if entries.len() > 0 {
        let init = entries.drop_last();
        lemma_kept_cache(sl, cache, init);
        let prev = kept_cache_entries(sl, cache, init);
        let kept = kept_cache_entries(sl, cache, entries);
        assert forall|k: int| 0 <= k < kept.len() implies exists|j: int|
            0 <= j < entries.len() && #[trigger] kept[k] == entries[j] by {
            if k < prev.len() {
                assert(kept[k] == prev[k]);
                let j = choose|j: int| 0 <= j < init.len() && prev[k] == init[j];
                assert(init[j] == entries[j]);
            } else {
                assert(kept[k] == entries[entries.len() - 1]);
            }
        }
        if forall|a: int, b: int|
            0 <= a < b < entries.len() ==> (#[trigger] entries[a]).name@ != (#[trigger] entries[b]).name@ {
            assert forall|a: int, b: int|
                0 <= a < b < init.len() implies (#[trigger] init[a]).name@ != (#[trigger] init[b]).name@ by {
                assert(init[a] == entries[a] && init[b] == entries[b]);
            }
            assert forall|a: int, b: int|
                0 <= a < b < kept.len() implies (#[trigger] kept[a]).name@ != (#[trigger] kept[b]).name@ by {
                if b < prev.len() {
                    assert(kept[a] == prev[a] && kept[b] == prev[b]);
                } else {
                    assert(kept[a] == prev[a]);
                    let j = choose|j: int| 0 <= j < init.len() && prev[a] == init[j];
                    assert(init[j] == entries[j]);
                    assert(kept[b] == entries[entries.len() - 1]);
                }
            }
        }
    }
}

/// No `~/.cache` row covers more than one entry: each row is the row of one
/// entry that is not protected and uses space.
pub proof fn law_cache_rows_partition(sl: SafelistView, cache: Seq<char>, entries: Seq<CacheEntry>, k: int)
    requires
        0 <= k < cache_rows(sl, cache, entries).len(),
    ensures
        exists|j: int|
            0 <= j < entries.len() && cache_rows(sl, cache, entries)[k] == cache_row_view(
                cache,
                #[trigger] entries[j],
            ) && !protects(sl, path_join(cache, entries[j].name@)) && entries[j].size > 0,
{
    lemma_kept_cache(sl, cache, entries);
    lemma_kept_cache_ok(sl, cache, entries, k);
    let kept = kept_cache_entries(sl, cache, entries);
    let j = choose|j: int| 0 <= j < entries.len() && kept[k] == entries[j];
    assert(cache_rows(sl, cache, entries)[k] == cache_row_view(cache, entries[j]));
}

proof fn lemma_kept_cache_ok(sl: SafelistView, cache: Seq<char>, entries: Seq<CacheEntry>, k: int)
    requires
        0 <= k < kept_cache_entries(sl, cache, entries).len(),
    ensures
        !protects(sl, path_join(cache, kept_cache_entries(sl, cache, entries)[k].name@)),
        kept_cache_entries(sl, cache, entries)[k].size > 0,
    decreases entries.len(),
{
    if entries.len() > 0 {
        let prev = kept_cache_entries(sl, cache, entries.drop_last());
        if k < prev.len() {
            lemma_kept_cache_ok(sl, cache, entries.drop_last(), k);
        }
    }
}

/// A flatpak app's `cache` directory as the walk found it.
#[derive(Debug, Clone)]
pub struct FlatpakCacheEntry {
    pub app_id: String,
    pub exists: bool,
    pub size: u64,
}

/// A flatpak app's cache directory: `<var_app>/<app id>/cache`.
pub open spec fn flatpak_cache_path(var_app: Seq<char>, app_id: Seq<char>) -> Seq<char> {
    path_join(path_join(var_app, app_id), "cache"@)
}

pub fn flatpak_cache_dir(var_app: &str, app_id: &str) -> (r: String)
    ensures
        r@ == flatpak_cache_path(var_app@, app_id@),
{
    let app = join_path(var_app, app_id);
    join_path(app.as_str(), "cache")
}

pub open spec fn flatpak_row_view(var_app: Seq<char>, e: FlatpakCacheEntry) -> ScanItemView {
    ScanItemView {
        category: "Flatpak Cache"@,
        label: e.app_id@ + " cache"@,
        path: flatpak_cache_path(var_app, e.app_id@),
        size: e.size,
        safety: Safety::Safe,
        delete_mode: DeleteMode::Permanent,
        selected: true,
        note: None,
    }
}

/// The flatpak caches that get a row, in order: existing, not protected, not
/// empty.
pub open spec fn kept_flatpak_entries(sl: SafelistView, var_app: Seq<char>, entries: Seq<FlatpakCacheEntry>) -> Seq<
    FlatpakCacheEntry,
>
    decreases entries.len(),
{
    if entries.len() == 0 {
        seq![]
    } else {
        let prev = kept_flatpak_entries(sl, var_app, entries.drop_last());
        let e = entries.last();
        if !e.exists || protects(sl, flatpak_cache_path(var_app, e.app_id@)) || e.size == 0 {
            prev
        } else {
            prev.push(e)
        }
    }
}

pub open spec fn flatpak_rows(sl: SafelistView, var_app: Seq<char>, entries: Seq<FlatpakCacheEntry>) -> Seq<
    ScanItemView,
> {
    kept_flatpak_entries(sl, var_app, entries).map_values(
        |e: FlatpakCacheEntry| flatpak_row_view(var_app, e),
    )
}

/// Flatpak per-app caches: `~/.var/app/*/cache`.
pub fn scan_flatpak_caches(safelist: &Safelist, var_app: &str, entries: &Vec<FlatpakCacheEntry>) -> (r: Vec<
    ScanItem,
>)
    ensures
        item_views(r@) == flatpak_rows(safelist@, var_app@, entries@),
{
    let mut r: Vec<ScanItem> = Vec::new();
    let mut i: usize = 0;
    while i < entries.len()
        invariant
            i <= entries.len(),
            item_views(r@) == flatpak_rows(safelist@, var_app@, entries@.take(i as int)),
        decreases entries.len() - i,
    {
        let e = &entries[i];
        let ghost kept = kept_flatpak_entries(safelist@, var_app@, entries@.take(i as int));
        proof {
            assert(entries@.take(i + 1).drop_last() == entries@.take(i as int));
            assert(entries@.take(i + 1).last() == entries@[i as int]);
        }
        let path = flatpak_cache_dir(var_app, e.app_id.as_str());
        if e.exists && !safelist.is_protected(path.as_str()) {
            match flatpak_cache_item(path, e.app_id.as_str(), e.size) {
                Some(item) => {
                    let ghost before = r@;
                    assert(item@ == flatpak_row_view(var_app@, entries@[i as int]));
                    r.push(item);
                    assert(kept_flatpak_entries(safelist@, var_app@, entries@.take(i + 1)) == kept.push(
                        entries@[i as int],
                    ));
                    assert(item_views(r@) =~= item_views(before).push(item@));
                    assert(flatpak_rows(safelist@, var_app@, entries@.take(i + 1)) =~= flatpak_rows(
                        safelist@,
                        var_app@,
                        entries@.take(i as int),
                    ).push(flatpak_row_view(var_app@, entries@[i as int])));
                },
                None => {},
            }
        }
        i = i + 1;
    }
    assert(entries@.take(entries@.len() as int) == entries@);
    r
}

proof fn lemma_kept_flatpak(sl: SafelistView, var_app: Seq<char>, entries: Seq<FlatpakCacheEntry>)
    ensures
        forall|k: int|
            0 <= k < kept_flatpak_entries(sl, var_app, entries).len() ==> exists|j: int|
                0 <= j < entries.len() && #[trigger] kept_flatpak_entries(sl, var_app, entries)[k]
                    == entries[j],
        forall|k: int|
            0 <= k < kept_flatpak_entries(sl, var_app, entries).len() ==> !protects(
                sl,
                flatpak_cache_path(var_app, (#[trigger] kept_flatpak_entries(sl, var_app, entries)[k]).app_id@),
            ) && kept_flatpak_entries(sl, var_app, entries)[k].size > 0,
        (forall|a: int, b: int|
            0 <= a < b < entries.len() ==> (#[trigger] entries[a]).app_id@ != (
            #[trigger] entries[b]).app_id@) ==> (forall|a: int, b: int|
            0 <= a < b < kept_flatpak_entries(sl, var_app, entries).len() ==> (
            #[trigger] kept_flatpak_entries(sl, var_app, entries)[a]).app_id@ != (
            #[trigger] kept_flatpak_entries(sl, var_app, entries)[b]).app_id@),
    decreases entries.len(),
{
    if entries.len() > 0 {
        let init = entries.drop_last();
        lemma_kept_flatpak(sl, var_app, init);
        let prev = kept_flatpak_entries(sl, var_app, init);
        let kept = kept_flatpak_entries(sl, var_app, entries);
        assert forall|k: int| 0 <= k < kept.len() implies exists|j: int|
            0 <= j < entries.len() && #[trigger] kept[k] == entries[j] by {
            if k < prev.len() {
                assert(kept[k] == prev[k]);
                let j = choose|j: int| 0 <= j < init.len() && prev[k] == init[j];
                assert(init[j] == entries[j]);
            } else {
                assert(kept[k] == entries[entries.len() - 1]);
            }
        }
        assert forall|k: int| 0 <= k < kept.len() implies !protects(
            sl,
            flatpak_cache_path(var_app, (#[trigger] kept[k]).app_id@),
        ) && kept[k].size > 0 by {
            if k < prev.len() {
                assert(kept[k] == prev[k]);
            }
        }
        if forall|a: int, b: int|
            0 <= a < b < entries.len() ==> (#[trigger] entries[a]).app_id@ != (#[trigger] entries[b]).app_id@ {
            assert forall|a: int, b: int|
                0 <= a < b < init.len() implies (#[trigger] init[a]).app_id@ != (#[trigger] init[b]).app_id@ by {
                assert(init[a] == entries[a] && init[b] == entries[b]);
            }
            assert forall|a: int, b: int|
                0 <= a < b < kept.len() implies (#[trigger] kept[a]).app_id@ != (#[trigger] kept[b]).app_id@ by {
                if b < prev.len() {
                    assert(kept[a] == prev[a] && kept[b] == prev[b]);
                } else {
                    assert(kept[a] == prev[a]);
                    let j = choose|j: int| 0 <= j < init.len() && prev[a] == init[j];
                    assert(init[j] == entries[j]);
                    assert(kept[b] == entries[entries.len() - 1]);
                }
            }
        }
    }
}

/// The Trash row: the Trash at `trash` when it exists and is not empty
/// (`trash_size` is its usage then, `None` otherwise), is not protected and
/// uses space.
pub open spec fn trash_rows(sl: SafelistView, trash: Seq<char>, trash_size: Option<u64>) -> Seq<ScanItemView> {
    match trash_size {
        Some(size) => if size > 0 && !protects(sl, trash) {
            seq![
                ScanItemView {
                    category: "Trash"@,
                    label: "Trash bin"@,
                    path: trash,
                    size,
                    safety: Safety::Review,
                    delete_mode: DeleteMode::Permanent,
                    selected: true,
                    note: None,
                },
            ]
        } else {
            seq![]
        },
        None => seq![],
    }
}

/// Whether the Trash is worth sizing: it exists, is not empty, and is not
/// protected.
pub fn trash_considered(safelist: &Safelist, path: &str, exists: bool, nonempty: bool) -> (b: bool)
    ensures
        b == (exists && nonempty && !protects(safelist@, path@)),
{
    exists && nonempty && !safelist.is_protected(path)
}

/// The System Junk rows for `home`: the `~/.cache` rows, then the Trash row,
/// then the flatpak cache rows.
pub open spec fn junk_rows_of(
    sl: SafelistView,
    home: Seq<char>,
    entries: Seq<CacheEntry>,
    trash_size: Option<u64>,
    flatpak: Seq<FlatpakCacheEntry>,
) -> Seq<ScanItemView> {
    cache_rows(sl, cache_dir_of(home), entries) + trash_rows(sl, trash_dir_of(home), trash_size)
        + flatpak_rows(sl, var_app_of(home), flatpak)
}

/// The System Junk rows from what the walk found under `home`.
pub fn junk_rows(
    safelist: &Safelist,
    home: &str,
    entries: &Vec<CacheEntry>,
    trash_size: Option<u64>,
    flatpak: &Vec<FlatpakCacheEntry>,
) -> (r: Vec<ScanItem>)
    ensures
        item_views(r@) == junk_rows_of(safelist@, home@, entries@, trash_size, flatpak@),
{
    let (cache, trash, var_app) = junk_locations(home);
    let mut r = scan_cache_tree(safelist, cache.as_str(), entries);
    let ghost a = item_views(r@);
    let mut t: Vec<ScanItem> = Vec::new();
    match trash_size {
        Some(size) => {
            if !safelist.is_protected(trash.as_str()) {
                match trash_item(trash, size) {
                    Some(item) => {
                        t.push(item);
                    },
                    None => {},
                }
            }
        },
        None => {},
    }
    assert(item_views(t@) =~= trash_rows(safelist@, trash_dir_of(home@), trash_size));
    let mut f = scan_flatpak_caches(safelist, var_app.as_str(), flatpak);
    let ghost b = item_views(f@);
    r.append(&mut t);
    r.append(&mut f);
    assert(item_views(r@) =~= junk_rows_of(safelist@, home@, entries@, trash_size, flatpak@));
    r
}

/// The names a junk path ends in under home.
pub open spec fn plain_names(es: Seq<CacheEntry>) -> bool {
    forall|i: int| 0 <= i < es.len() ==> is_plain_name((#[trigger] es[i]).name@)
}

pub open spec fn plain_ids(fs: Seq<FlatpakCacheEntry>) -> bool {
    forall|i: int| 0 <= i < fs.len() ==> is_plain_name((#[trigger] fs[i]).app_id@)
}

pub open spec fn distinct_names(es: Seq<CacheEntry>) -> bool {
    forall|a: int, b: int| 0 <= a < b < es.len() ==> (#[trigger] es[a]).name@ != (#[trigger] es[b]).name@
}

pub open spec fn distinct_ids(fs: Seq<FlatpakCacheEntry>) -> bool {
    forall|a: int, b: int| 0 <= a < b < fs.len() ==> (#[trigger] fs[a]).app_id@ != (#[trigger] fs[b]).app_id@
}

proof fn lemma_literals_plain()
    ensures
        is_plain_name(".cache"@),
        is_plain_name(".local"@),
        is_plain_name("share"@),
        is_plain_name("Trash"@),
        is_plain_name(".var"@),
        is_plain_name("app"@),
        is_plain_name("cache"@),
        ".cache"@ != ".local"@,
        ".cache"@ != ".var"@,
        ".local"@ != ".var"@,
{
    reveal_strlit(".cache");
    reveal_strlit(".local");
    reveal_strlit("share");
    reveal_strlit("Trash");
    reveal_strlit(".var");
    reveal_strlit("app");
    reveal_strlit("cache");
    assert(".cache"@[1] != ".local"@[1]);
    assert(".cache"@[1] != ".var"@[1]);
    assert(".local"@[1] != ".var"@[1]);
}

/// Neither of two component lists that differ at a common position is a
/// prefix of the other.
proof fn lemma_differ_not_prefix(x: Seq<Seq<char>>, y: Seq<Seq<char>>, i: int)
    requires
        0 <= i < x.len(),
        i < y.len(),
        x[i] != y[i],
    ensures
        !x.is_prefix_of(y),
        !y.is_prefix_of(x),
{
}

/// The components of a junk row's path: home's, then a tail saying which row
/// it is.
pub open spec fn junk_tail(
    sl: SafelistView,
    home: Seq<char>,
    entries: Seq<CacheEntry>,
    trash_size: Option<u64>,
    flatpak: Seq<FlatpakCacheEntry>,
    k: int,
) -> Seq<Seq<char>> {
    let nc = cache_rows(sl, cache_dir_of(home), entries).len();
    let nt = trash_rows(sl, trash_dir_of(home), trash_size).len();
    if k < nc {
        seq![".cache"@, kept_cache_entries(sl, cache_dir_of(home), entries)[k].name@]
    } else if k < nc + nt {
        seq![".local"@, "share"@, "Trash"@]
    } else {
        seq![".var"@, "app"@, kept_flatpak_entries(sl, var_app_of(home), flatpak)[k - nc - nt].app_id@, "cache"@]
    }
}

proof fn lemma_junk_tail(
    sl: SafelistView,
    home: Seq<char>,
    entries: Seq<CacheEntry>,
    trash_size: Option<u64>,
    flatpak: Seq<FlatpakCacheEntry>,
    k: int,
)
    requires
        plain_names(entries),
        plain_ids(flatpak),
        0 <= k < junk_rows_of(sl, home, entries, trash_size, flatpak).len(),
    ensures
        components(junk_rows_of(sl, home, entries, trash_size, flatpak)[k].path) == components(home)
            + junk_tail(sl, home, entries, trash_size, flatpak, k),
        !protects(sl, junk_rows_of(sl, home, entries, trash_size, flatpak)[k].path),
        junk_rows_of(sl, home, entries, trash_size, flatpak)[k].size > 0,
        junk_rows_of(sl, home, entries, trash_size, flatpak)[k].delete_mode == DeleteMode::Permanent,
{
    lemma_literals_plain();
    let cache = cache_dir_of(home);
    let var_app = var_app_of(home);
    let rc = cache_rows(sl, cache, entries);
    let rt = trash_rows(sl, trash_dir_of(home), trash_size);
    let rf = flatpak_rows(sl, var_app, flatpak);
    let rows = junk_rows_of(sl, home, entries, trash_size, flatpak);
    let h = components(home);
    lemma_components_join(home, ".cache"@);
    if k < rc.len() {
        lemma_kept_cache(sl, cache, entries);
        lemma_kept_cache_ok(sl, cache, entries, k);
        let e = kept_cache_entries(sl, cache, entries)[k];
        let j = choose|j: int| 0 <= j < entries.len() && kept_cache_entries(sl, cache, entries)[k] == entries[j];
        assert(is_plain_name(entries[j].name@));
        assert(rows[k] == rc[k]);
        assert(rc[k] == cache_row_view(cache, e));
        lemma_components_join(cache, e.name@);
        assert(components(rows[k].path) =~= h + junk_tail(sl, home, entries, trash_size, flatpak, k));
    } else if k < rc.len() + rt.len() {
        assert(rows[k] == rt[k - rc.len()]);
        lemma_components_join(home, ".local"@);
        lemma_components_join(path_join(home, ".local"@), "share"@);
        lemma_components_join(path_join(path_join(home, ".local"@), "share"@), "Trash"@);
        assert(components(rows[k].path) =~= h + junk_tail(sl, home, entries, trash_size, flatpak, k));
    } else {
        let i = k - rc.len() - rt.len();
        assert(rows[k] == rf[i]);
        lemma_kept_flatpak(sl, var_app, flatpak);
        let e = kept_flatpak_entries(sl, var_app, flatpak)[i];
        let j = choose|j: int| 0 <= j < flatpak.len() && kept_flatpak_entries(sl, var_app, flatpak)[i] == flatpak[j];
        assert(is_plain_name(flatpak[j].app_id@));
        assert(rf[i] == flatpak_row_view(var_app, e));
        lemma_components_join(home, ".var"@);
        lemma_components_join(path_join(home, ".var"@), "app"@);
        lemma_components_join(var_app, e.app_id@);
        lemma_components_join(path_join(var_app, e.app_id@), "cache"@);
        assert(components(rows[k].path) =~= h + junk_tail(sl, home, entries, trash_size, flatpak, k));
    }
}

/// System Junk never counts anything twice and stays in home: every row lies
/// under home, none is `~/.cache` itself, no row's path lies inside another's,
/// and every row is unprotected, uses space and is deleted permanently. (The
/// directory entries' names are single names and distinct, as a listing
/// gives them.)
pub proof fn law_junk_rows_disjoint(
    sl: SafelistView,
    home: Seq<char>,
    entries: Seq<CacheEntry>,
    trash_size: Option<u64>,
    flatpak: Seq<FlatpakCacheEntry>,
)
    requires
        plain_names(entries),
        distinct_names(entries),
        plain_ids(flatpak),
        distinct_ids(flatpak),
    ensures
        forall|k: int|
            0 <= k < junk_rows_of(sl, home, entries, trash_size, flatpak).len() ==> {
                let p = (#[trigger] junk_rows_of(sl, home, entries, trash_size, flatpak)[k]).path;
                &&& path_starts_with(p, home)
                &&& components(p) != components(cache_dir_of(home))
                &&& !protects(sl, p)
                &&& junk_rows_of(sl, home, entries, trash_size, flatpak)[k].size > 0
                &&& junk_rows_of(sl, home, entries, trash_size, flatpak)[k].delete_mode
                    == DeleteMode::Permanent
            },
        forall|k: int, l: int|
            0 <= k < junk_rows_of(sl, home, entries, trash_size, flatpak).len() && 0 <= l
                < junk_rows_of(sl, home, entries, trash_size, flatpak).len() && k != l ==> !path_starts_with(
                (#[trigger] junk_rows_of(sl, home, entries, trash_size, flatpak)[k]).path,
                (#[trigger] junk_rows_of(sl, home, entries, trash_size, flatpak)[l]).path,
            ),
{
    lemma_literals_plain();
    let rows = junk_rows_of(sl, home, entries, trash_size, flatpak);
    let h = components(home);
    let cache = cache_dir_of(home);
    let var_app = var_app_of(home);
    let nc = cache_rows(sl, cache, entries).len();
    let nt = trash_rows(sl, trash_dir_of(home), trash_size).len();
    lemma_components_join(home, ".cache"@);
    lemma_kept_cache(sl, cache, entries);
    lemma_kept_flatpak(sl, var_app, flatpak);
    assert forall|k: int| 0 <= k < rows.len() implies {
        let p = (#[trigger] rows[k]).path;
        &&& path_starts_with(p, home)
        &&& components(p) != components(cache)
        &&& !protects(sl, p)
        &&& rows[k].size > 0
        &&& rows[k].delete_mode == DeleteMode::Permanent
    } by {
        lemma_junk_tail(sl, home, entries, trash_size, flatpak, k);
        let t = junk_tail(sl, home, entries, trash_size, flatpak, k);
        let cp = components(rows[k].path);
        assert(h.is_prefix_of(cp)) by {
            assert forall|i: int| 0 <= i < h.len() implies h[i] == cp[i] by {}
        }
        assert(components(cache) == h.push(".cache"@));
        if k < nc {
            assert(cp.len() == h.len() + 2);
        } else {
            assert(cp[h.len() as int] == t[0]);
            assert(components(cache)[h.len() as int] == ".cache"@);
        }
    }
    assert forall|k: int, l: int|
        0 <= k < rows.len() && 0 <= l < rows.len() && k != l implies !path_starts_with(
        (#[trigger] rows[k]).path,
        (#[trigger] rows[l]).path,
    ) by {
        lemma_junk_tail(sl, home, entries, trash_size, flatpak, k);
        lemma_junk_tail(sl, home, entries, trash_size, flatpak, l);
        let ck = components(rows[k].path);
        let cl = components(rows[l].path);
        let tk = junk_tail(sl, home, entries, trash_size, flatpak, k);
        let tl = junk_tail(sl, home, entries, trash_size, flatpak, l);
        let n = h.len() as int;
        assert(ck[n] == tk[0] && cl[n] == tl[0]);
        if tk[0] != tl[0] {
            lemma_differ_not_prefix(cl, ck, n);
        } else if k < nc && l < nc {
            let kept = kept_cache_entries(sl, cache, entries);
            if k < l {
                assert(kept[k].name@ != kept[l].name@);
            } else {
                assert(kept[l].name@ != kept[k].name@);
            }
            assert(ck[n + 1] == tk[1] && cl[n + 1] == tl[1]);
            lemma_differ_not_prefix(cl, ck, n + 1);
        } else if k >= nc + nt && l >= nc + nt {
            let kept = kept_flatpak_entries(sl, var_app, flatpak);
            let a = k - nc - nt;
            let b = l - nc - nt;
            if a < b {
                assert(kept[a].app_id@ != kept[b].app_id@);
            } else {
                assert(kept[b].app_id@ != kept[a].app_id@);
            }
            assert(ck[n + 2] == tk[2] && cl[n + 2] == tl[2]);
            lemma_differ_not_prefix(cl, ck, n + 2);
        } else {
            // Both are the Trash row, of which there is at most one.
            assert(nt <= 1);
            assert(false);
        }
    }
}

} // verus!
