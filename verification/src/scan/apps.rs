//! Uninstaller: inventory of installed applications across apt, flatpak and
//! snap, read from what `dpkg-query`, `flatpak list` and `snap list` print.

use vstd::prelude::*;
use crate::numbers::{all_digits, digit_value, digits_value};
use crate::order::{lemma_lex_refl, lemma_lex_total, lemma_lex_trans, lex_le, lex_le_chars};
use crate::scan::human_size_bytes;
use crate::text::{
    ascii_lower, chars_of, is_ascii_digit, is_ascii_text, is_digit, lines, lowercase, lowercase_chars, slice_chars,
    split_char, split_lines, split_on, split_words, string_of, trim, trim_chars, views, words,
};

verus! {

#[derive(Debug, Clone, Copy, PartialEq, Eq, Structural)]
pub enum AppSource {
    Apt,
    Flatpak,
    Snap,
}

#[derive(Debug, Clone)]
pub struct InstalledApp {
    pub name: String,
    /// Package / app id used for removal.
    pub id: String,
    pub version: String,
    pub source: AppSource,
    /// Best-effort installed size in bytes (0 if unknown).
    pub size: u64,
}

/// What an installed application is, as plain values.
pub struct AppView {
    pub name: Seq<char>,
    pub id: Seq<char>,
    pub version: Seq<char>,
    pub source: AppSource,
    pub size: u64,
}

pub open spec fn app_view(a: InstalledApp) -> AppView {
    AppView { name: a.name@, id: a.id@, version: a.version@, source: a.source, size: a.size }
}

pub open spec fn app_views(s: Seq<InstalledApp>) -> Seq<AppView> {
    s.map_values(|a: InstalledApp| app_view(a))
}

/// `u64::from_str`: an optional `+`, then decimal digits, within range.
pub open spec fn parse_u64(s: Seq<char>) -> Option<u64> {
    let d = if s.len() > 0 && s[0] == '+' { s.skip(1) } else { s };
    if d.len() > 0 && all_digits(d) && digits_value(d) <= u64::MAX {
        Some(digits_value(d) as u64)
    } else {
        None
    }
}

/// Field `i` of `f`, or `default` when there are fewer fields.
pub open spec fn field_or(f: Seq<Seq<char>>, i: int, default: Seq<char>) -> Seq<char> {
    if 0 <= i < f.len() { f[i] } else { default }
}

/// The `Installed-Size` (KiB) of a `${Package}\t${Version}\t${Installed-Size}`
/// line, 0 when it is not a number.
pub open spec fn apt_kib(line: Seq<char>) -> u64 {
    match parse_u64(trim(field_or(split_char(line, '\t'), 2, seq!['0']))) {
        Some(v) => v,
        None => 0,
    }
}

pub open spec fn apt_app(line: Seq<char>) -> AppView {
    let f = split_char(line, '\t');
    AppView {
        name: f[0],
        id: f[0],
        version: field_or(f, 1, seq![]),
        source: AppSource::Apt,
        size: (apt_kib(line) * 1024) as u64,
    }
}

/// Every line's size in bytes fits in a `u64` (KiB times 1024 overflows
/// otherwise).
pub open spec fn apt_sizes_fit(out: Seq<char>) -> bool {
    forall|i: int| 0 <= i < lines(out).len() ==> #[trigger] apt_kib(lines(out)[i]) * 1024 <= u64::MAX
}

pub open spec fn flatpak_app(line: Seq<char>) -> Option<AppView> {
    let f = split_char(line, '\t');
    let id = trim(field_or(f, 1, seq![]));
    if id.len() == 0 {
        None
    } else {
        Some(
            AppView {
                name: trim(f[0]),
                id,
                version: trim(field_or(f, 2, seq![])),
                source: AppSource::Flatpak,
                size: human_size_bytes(field_or(f, 3, seq![])),
            },
        )
    }
}

pub open spec fn snap_app(line: Seq<char>) -> Option<AppView> {
    let w = words(line);
    if w.len() == 0 {
        None
    } else {
        Some(
            AppView {
                name: w[0],
                id: w[0],
                version: field_or(w, 1, seq![]),
                source: AppSource::Snap,
                size: 0,
            },
        )
    }
}

/// The present values, in order.
pub open spec fn somes(s: Seq<Option<AppView>>) -> Seq<AppView>
    decreases s.len(),
{
    if s.len() == 0 {
        seq![]
    } else {
        let prev = somes(s.drop_last());
        match s.last() {
            Some(a) => prev.push(a),
            None => prev,
        }
    }
}

pub open spec fn apt_apps_of(out: Seq<char>) -> Seq<AppView> {
    lines(out).map_values(|l: Seq<char>| apt_app(l))
}

pub open spec fn flatpak_apps_of(out: Seq<char>) -> Seq<AppView> {
    somes(lines(out).map_values(|l: Seq<char>| flatpak_app(l)))
}

/// `snap list` rows after its header row.
pub open spec fn snap_apps_of(out: Seq<char>) -> Seq<AppView> {
    let ls = lines(out);
    somes((if ls.len() == 0 { ls } else { ls.skip(1) }).map_values(|l: Seq<char>| snap_app(l)))
}

pub open spec fn sort_key(a: AppView) -> Seq<char> {
    lowercase(a.name)
}

/// `out` is `inp` sorted by `sort_key` with a stable sort: a permutation of
/// it, in key order, equal keys in their input order.
pub open spec fn stably_sorted(out: Seq<AppView>, inp: Seq<AppView>) -> bool {
    exists|perm: Seq<int>| is_stable_permutation(out, inp, perm)
}

pub open spec fn is_stable_permutation(out: Seq<AppView>, inp: Seq<AppView>, perm: Seq<int>) -> bool {
    &&& out.len() == inp.len()
    &&& perm.len() == inp.len()
    &&& forall|k: int| 0 <= k < out.len() ==> 0 <= #[trigger] perm[k] < inp.len() && out[k] == inp[perm[k]]
    &&& forall|k: int, l: int| 0 <= k < l < out.len() ==> #[trigger] perm[k] != #[trigger] perm[l]
    &&& forall|k: int, l: int| 0 <= k < l < out.len() ==> lex_le(sort_key(#[trigger] out[k]), sort_key(#[trigger] out[l]))
    &&& forall|k: int, l: int|
        0 <= k < l < out.len() && sort_key(#[trigger] out[k]) == sort_key(#[trigger] out[l]) ==> perm[k] < perm[l]
}

// ------------------------------------------------------------ parsing

/// `u64::from_str`.
pub fn parse_u64_chars(v: &Vec<char>) -> (r: Option<u64>)
    ensures
        r == parse_u64(v@),
{
    let start: usize = if v.len() > 0 && v[0] == '+' { 1 } else { 0 };
    let ghost d = if v@.len() > 0 && v@[0] == '+' { v@.skip(1) } else { v@ };
    assert(d == v@.skip(start as int));
    if start >= v.len() {
        return None;
    }
    let mut value: u64 = 0;
    let mut i = start;
    while i < v.len()
        invariant
            start <= i <= v.len(),
            d == v@.skip(start as int),
            d == (if v@.len() > 0 && v@[0] == '+' { v@.skip(1) } else { v@ }),
            forall|q: int| start <= q < i ==> is_digit(#[trigger] v@[q]),
            value == digits_value(v@.subrange(start as int, i as int)),
        decreases v.len() - i,
    {
        if !is_ascii_digit(v[i]) {
            assert(d[i - start] == v@[i as int]);
            assert(!all_digits(d));
            return None;
        }
        proof {
            assert(v@.subrange(start as int, i + 1).drop_last() == v@.subrange(start as int, i as int));
            assert(v@.subrange(start as int, i + 1).last() == v@[i as int]);
        }
        let g = (v[i] as u32 - 48) as u64;
        assert(g == digit_value(v@[i as int]));
        if value > (u64::MAX - g) / 10 {
            proof {
                assert(value * 10 + g > u64::MAX) by (nonlinear_arith)
                    requires value > (u64::MAX - g) / 10, g <= 9;
                lemma_digits_prefix_bound(v@.skip(start as int), (i + 1 - start) as int);
                assert(v@.skip(start as int).take(i + 1 - start) == v@.subrange(start as int, i + 1));
            }
            return None;
        }
        value = value * 10 + g;
        i = i + 1;
    }
    proof {
        assert(v@.subrange(start as int, v@.len() as int) == d);
        assert forall|q: int| 0 <= q < d.len() implies is_digit(#[trigger] d[q]) by {
            assert(d[q] == v@[start + q]);
        }
    }
    Some(value)
}

/// A prefix's value never exceeds the whole digit string's.
proof fn lemma_digits_prefix_bound(d: Seq<char>, k: int)
    requires
        0 <= k <= d.len(),
    ensures
        digits_value(d.take(k)) <= digits_value(d),
    decreases d.len() - k,
{
    if k < d.len() {
        lemma_digits_prefix_bound(d, k + 1);
        assert(d.take(k + 1).drop_last() == d.take(k));
    } else {
        assert(d.take(k) == d);
    }
}

fn field_or_chars(f: &Vec<Vec<char>>, i: usize, default: &Vec<char>) -> (r: Vec<char>)
    ensures
        r@ == field_or(views(f@), i as int, default@),
{
    if i < f.len() {
        slice_chars(&f[i], 0, f[i].len())
    } else {
        slice_chars(default, 0, default.len())
    }
}

proof fn lemma_full_slice(s: Seq<char>)
    ensures
        s.subrange(0, s.len() as int) == s,
{
    assert(s.subrange(0, s.len() as int) =~= s);
}

fn apt_line(line: &Vec<char>) -> (a: InstalledApp)
    requires
        apt_kib(line@) * 1024 <= u64::MAX,
    ensures
        app_view(a) == apt_app(line@),
{
    let f = split_on(line, '\t');
    proof {
        crate::path::lemma_split_char_nonempty(line@, '\t');
        assert(views(f@)[0] == f@[0]@);
        lemma_full_slice(f@[0]@);
        if f@.len() > 1 {
            lemma_full_slice(f@[1]@);
        }
        if f@.len() > 2 {
            lemma_full_slice(f@[2]@);
        }
        lemma_full_slice(seq!['0']);
        lemma_full_slice(Seq::<char>::empty());
    }
    let pkg = string_of(f[0].as_slice());
    let ver = field_or_chars(&f, 1, &Vec::new());
    let zero = vec!['0'];
    assert(zero@ =~= seq!['0']);
    let kib = match parse_u64_chars(&trim_chars(&field_or_chars(&f, 2, &zero))) {
        Some(v) => v,
        None => 0,
    };
    assert(kib == apt_kib(line@));
    let pkg2 = string_of(f[0].as_slice());
    InstalledApp {
        name: pkg,
        id: pkg2,
        version: string_of(ver.as_slice()),
        source: AppSource::Apt,
        size: kib * 1024,
    }
}

fn flatpak_line(line: &Vec<char>) -> (a: Option<InstalledApp>)
    ensures
        match a {
            Some(app) => flatpak_app(line@) == Some(app_view(app)),
            None => flatpak_app(line@) is None,
        },
{
    let f = split_on(line, '\t');
    proof {
        crate::path::lemma_split_char_nonempty(line@, '\t');
        assert(views(f@)[0] == f@[0]@);
        lemma_full_slice(Seq::<char>::empty());
        if f@.len() > 1 {
            lemma_full_slice(f@[1]@);
        }
        if f@.len() > 2 {
            lemma_full_slice(f@[2]@);
        }
        if f@.len() > 3 {
            lemma_full_slice(f@[3]@);
        }
    }
    let empty: Vec<char> = Vec::new();
    let id = trim_chars(&field_or_chars(&f, 1, &empty));
    if id.len() == 0 {
        return None;
    }
    let name = trim_chars(&f[0]);
    let ver = trim_chars(&field_or_chars(&f, 2, &empty));
    let size_text = field_or_chars(&f, 3, &empty);
    let size = crate::scan::packages_size_from_human(string_of(size_text.as_slice()).as_str());
    Some(
        InstalledApp {
            name: string_of(name.as_slice()),
            id: string_of(id.as_slice()),
            version: string_of(ver.as_slice()),
            source: AppSource::Flatpak,
            size,
        },
    )
}

fn snap_line(line: &Vec<char>) -> (a: Option<InstalledApp>)
    ensures
        match a {
            Some(app) => snap_app(line@) == Some(app_view(app)),
            None => snap_app(line@) is None,
        },
{
    let w = split_words(line);
    if w.len() == 0 {
        return None;
    }
    proof {
        assert(views(w@)[0] == w@[0]@);
        lemma_full_slice(Seq::<char>::empty());
        if w@.len() > 1 {
            lemma_full_slice(w@[1]@);
        }
    }
    let ver = field_or_chars(&w, 1, &Vec::new());
    Some(
        InstalledApp {
            name: string_of(w[0].as_slice()),
            id: string_of(w[0].as_slice()),
            version: string_of(ver.as_slice()),
            source: AppSource::Snap,
            size: 0,
        },
    )
}

/// Installed apt packages from
/// `dpkg-query -W -f='${Package}\t${Version}\t${Installed-Size}\n'`.
pub fn apt_apps(out: &str) -> (r: Vec<InstalledApp>)
    requires
        apt_sizes_fit(out@),
    ensures
        app_views(r@) == apt_apps_of(out@),
{
    let ls = split_lines(&chars_of(out));
    let mut r: Vec<InstalledApp> = Vec::new();
    let mut i: usize = 0;
    while i < ls.len()
        invariant
            i <= ls.len(),
            views(ls@) == lines(out@),
            apt_sizes_fit(out@),
            r@.len() == i,
            app_views(r@) == apt_apps_of(out@).take(i as int),
        decreases ls.len() - i,
    {
        assert(views(ls@)[i as int] == ls@[i as int]@);
        assert(apt_kib(lines(out@)[i as int]) * 1024 <= u64::MAX);
        let a = apt_line(&ls[i]);
        r.push(a);
        assert(app_views(r@) =~= apt_apps_of(out@).take(i + 1));
        i = i + 1;
    }
    assert(apt_apps_of(out@).take(ls@.len() as int) == apt_apps_of(out@));
    r
}

/// Installed flatpak apps from
/// `flatpak list --app --columns=name,application,version,size`.
pub fn flatpak_apps(out: &str) -> (r: Vec<InstalledApp>)
    ensures
        app_views(r@) == flatpak_apps_of(out@),
{
    let ls = split_lines(&chars_of(out));
    let ghost opts = lines(out@).map_values(|l: Seq<char>| flatpak_app(l));
    let mut r: Vec<InstalledApp> = Vec::new();
    let mut i: usize = 0;
    while i < ls.len()
        invariant
            i <= ls.len(),
            views(ls@) == lines(out@),
            opts == lines(out@).map_values(|l: Seq<char>| flatpak_app(l)),
            app_views(r@) == somes(opts.take(i as int)),
        decreases ls.len() - i,
    {
        proof {
            assert(opts.take(i + 1).drop_last() == opts.take(i as int));
            assert(opts.take(i + 1).last() == flatpak_app(ls@[i as int]@));
        }
        match flatpak_line(&ls[i]) {
            Some(a) => {
                let ghost old_r = r@;
                r.push(a);
                assert(app_views(r@) =~= app_views(old_r).push(app_view(a)));
            },
            None => {},
        }
        i = i + 1;
    }
    assert(opts.take(ls@.len() as int) == opts);
    r
}

/// Installed snaps from `snap list` (its header row skipped).
pub fn snap_apps(out: &str) -> (r: Vec<InstalledApp>)
    ensures
        app_views(r@) == snap_apps_of(out@),
{
    let ls = split_lines(&chars_of(out));
    let mut r: Vec<InstalledApp> = Vec::new();
    if ls.len() == 0 {
        assert(lines(out@).len() == 0);
        assert(app_views(r@) =~= Seq::<AppView>::empty());
        assert(snap_apps_of(out@) =~= Seq::<AppView>::empty()) by {
            assert(lines(out@).map_values(|l: Seq<char>| snap_app(l)).len() == 0);
        }
        return r;
    }
    let ghost opts = lines(out@).skip(1).map_values(|l: Seq<char>| snap_app(l));
    let mut i: usize = 1;
    assert(opts.take(0).len() == 0);
    assert(somes(opts.take(0)) =~= Seq::<AppView>::empty());
    while i < ls.len()
        invariant
            1 <= i <= ls.len(),
            views(ls@) == lines(out@),
            opts == lines(out@).skip(1).map_values(|l: Seq<char>| snap_app(l)),
            app_views(r@) == somes(opts.take(i - 1)),
        decreases ls.len() - i,
    {
        proof {
            assert(opts.take(i as int).drop_last() == opts.take(i - 1));
            assert(opts.take(i as int).last() == snap_app(ls@[i as int]@));
        }
        match snap_line(&ls[i]) {
            Some(a) => {
                let ghost old_r = r@;
                r.push(a);
                assert(app_views(r@) =~= app_views(old_r).push(app_view(a)));
            },
            None => {},
        }
        i = i + 1;
    }
    assert(opts.take(ls@.len() - 1) == opts);
    r
}

// ------------------------------------------------------------ sorting

/// For every app with an ASCII name, its sort key is the ASCII
/// lower-casing of the name.
pub open spec fn ascii_keys_lowered(v: Seq<AppView>) -> bool {
    forall|k: int|
        0 <= k < v.len() && is_ascii_text((#[trigger] v[k]).name) ==> sort_key(v[k]) == ascii_lower(
            v[k].name,
        )
}

/// Stable insertion sort by lower-cased name.
fn sort_by_lowercase_name(items: Vec<InstalledApp>) -> (r: Vec<InstalledApp>)
    ensures
        stably_sorted(app_views(r@), app_views(items@)),
        ascii_keys_lowered(app_views(r@)),
{
    let ghost inp = app_views(items@);
    let mut out: Vec<InstalledApp> = Vec::new();
    let mut keys: Vec<Vec<char>> = Vec::new();
    let ghost mut perm: Seq<int> = seq![];
    let mut i: usize = 0;
    while i < items.len()
        invariant
            i <= items.len(),
            inp == app_views(items@),
            out@.len() == i,
            keys@.len() == i,
            forall|k: int| 0 <= k < i ==> #[trigger] keys@[k]@ == sort_key(app_view(out@[k])),
            forall|k: int|
                0 <= k < i && is_ascii_text(app_view(#[trigger] out@[k]).name) ==> sort_key(
                    app_view(out@[k]),
                ) == ascii_lower(app_view(out@[k]).name),
            perm.len() == i,
            forall|k: int| 0 <= k < i ==> 0 <= #[trigger] perm[k] < i && app_view(out@[k]) == inp[perm[k]],
            forall|k: int, l: int| 0 <= k < l < i ==> #[trigger] perm[k] != #[trigger] perm[l],
            forall|k: int, l: int| 0 <= k < l < i ==> lex_le(#[trigger] keys@[k]@, #[trigger] keys@[l]@),
            forall|k: int, l: int|
                0 <= k < l < i && #[trigger] keys@[k]@ == #[trigger] keys@[l]@ ==> perm[k] < perm[l],
        decreases items.len() - i,
    {
        let item = items[i].clone_app();
        let key = lowercase_chars(&chars_of(item.name.as_str()));
        assert(key@ == sort_key(inp[i as int]));
        let mut p = out.len();
        while p > 0 && !lex_le_chars(&keys[p - 1], &key)
            invariant
                p <= keys@.len() == i,
                forall|q: int| p <= q < i ==> !lex_le(#[trigger] keys@[q]@, key@),
            decreases p,
        {
            p = p - 1;
        }
        proof {
            // everything before p is <= key; everything from p on is > key
            assert forall|q: int| 0 <= q < p implies lex_le(#[trigger] keys@[q]@, key@) by {
                if q < p - 1 {
                    lemma_lex_trans(keys@[q]@, keys@[p - 1]@, key@);
                }
            }
            assert forall|q: int| p <= q < i implies lex_le(key@, #[trigger] keys@[q]@) && key@ != keys@[q]@ by {
                lemma_lex_total(key@, keys@[q]@);
                if key@ == keys@[q]@ {
                    lemma_lex_refl(key@);
                }
            }
        }
        let ghost old_keys = keys@;
        let ghost old_out = out@;
        let ghost old_perm = perm;
        out.insert(p, item);
        keys.insert(p, key);
        proof {
            perm = old_perm.insert(p as int, i as int);
            assert forall|k: int| 0 <= k < i + 1 implies #[trigger] keys@[k]@ == sort_key(app_view(out@[k])) by {
                if k < p {
                    assert(keys@[k] == old_keys[k] && out@[k] == old_out[k]);
                } else if k > p {
                    assert(keys@[k] == old_keys[k - 1] && out@[k] == old_out[k - 1]);
                }
            }
            assert forall|k: int|
                0 <= k < i + 1 && is_ascii_text(app_view(#[trigger] out@[k]).name) implies sort_key(
                app_view(out@[k]),
            ) == ascii_lower(app_view(out@[k]).name) by {
                if k < p {
                    assert(out@[k] == old_out[k]);
                } else if k > p {
                    assert(out@[k] == old_out[k - 1]);
                }
            }
            assert forall|k: int| 0 <= k < i + 1 implies 0 <= #[trigger] perm[k] < i + 1 && app_view(out@[k]) == inp[perm[k]] by {
                if k < p {
                    assert(perm[k] == old_perm[k] && out@[k] == old_out[k]);
                } else if k > p {
                    assert(perm[k] == old_perm[k - 1] && out@[k] == old_out[k - 1]);
                }
            }
            assert forall|k: int, l: int| 0 <= k < l < i + 1 implies #[trigger] perm[k] != #[trigger] perm[l] by {
                if k < p && l > p {
                    assert(perm[k] == old_perm[k] && perm[l] == old_perm[l - 1]);
                } else if k > p {
                    assert(perm[k] == old_perm[k - 1] && perm[l] == old_perm[l - 1]);
                } else if l < p {
                    assert(perm[k] == old_perm[k] && perm[l] == old_perm[l]);
                } else if k == p {
                    assert(perm[l] == old_perm[l - 1]);
                } else {
                    assert(perm[k] == old_perm[k]);
                }
            }
            assert forall|k: int, l: int| 0 <= k < l < i + 1 implies lex_le(#[trigger] keys@[k]@, #[trigger] keys@[l]@) by {
                if k < p && l > p {
                    assert(keys@[k] == old_keys[k] && keys@[l] == old_keys[l - 1]);
                } else if k > p {
                    assert(keys@[k] == old_keys[k - 1] && keys@[l] == old_keys[l - 1]);
                } else if l < p {
                    assert(keys@[k] == old_keys[k] && keys@[l] == old_keys[l]);
                } else if k == p {
                    assert(keys@[l] == old_keys[l - 1]);
                } else {
                    assert(keys@[k] == old_keys[k]);
                }
            }
            assert forall|k: int, l: int|
                0 <= k < l < i + 1 && #[trigger] keys@[k]@ == #[trigger] keys@[l]@ implies perm[k] < perm[l] by {
                if k < p && l > p {
                    assert(keys@[k] == old_keys[k] && keys@[l] == old_keys[l - 1]);
                    assert(perm[k] == old_perm[k] && perm[l] == old_perm[l - 1]);
                } else if k > p {
                    assert(keys@[k] == old_keys[k - 1] && keys@[l] == old_keys[l - 1]);
                    assert(perm[k] == old_perm[k - 1] && perm[l] == old_perm[l - 1]);
                } else if l < p {
                    assert(keys@[k] == old_keys[k] && keys@[l] == old_keys[l]);
                    assert(perm[k] == old_perm[k] && perm[l] == old_perm[l]);
                } else if k == p {
                    assert(keys@[l] == old_keys[l - 1]);
                } else {
                    assert(perm[k] == old_perm[k]);
                }
            }
        }
        i = i + 1;
    }
    proof {
        let ov = app_views(out@);
        assert forall|k: int| 0 <= k < ov.len() && is_ascii_text((#[trigger] ov[k]).name) implies sort_key(
            ov[k],
        ) == ascii_lower(ov[k].name) by {
            assert(ov[k] == app_view(out@[k]));
        }
        assert(is_stable_permutation(ov, inp, perm)) by {
            assert forall|k: int| 0 <= k < ov.len() implies 0 <= #[trigger] perm[k] < inp.len() && ov[k] == inp[perm[k]] by {}
            assert forall|k: int, l: int| 0 <= k < l < ov.len() implies lex_le(sort_key(#[trigger] ov[k]), sort_key(#[trigger] ov[l])) by {
                assert(keys@[k]@ == sort_key(ov[k]) && keys@[l]@ == sort_key(ov[l]));
            }
            assert forall|k: int, l: int|
                0 <= k < l < ov.len() && sort_key(#[trigger] ov[k]) == sort_key(#[trigger] ov[l]) implies perm[k] < perm[l] by {
                assert(keys@[k]@ == sort_key(ov[k]) && keys@[l]@ == sort_key(ov[l]));
            }
        }
    }
    out
}

impl InstalledApp {
    /// A copy with every field equal.
    pub fn clone_app(&self) -> (r: InstalledApp)
        ensures
            app_view(r) == app_view(*self),
    {
        InstalledApp {
            name: self.name.clone(),
            id: self.id.clone(),
            version: self.version.clone(),
            source: self.source,
            size: self.size,
        }
    }
}

fn append_apps(a: &mut Vec<InstalledApp>, b: Vec<InstalledApp>)
    ensures
        app_views(final(a)@) == app_views(old(a)@) + app_views(b@),
{
    let mut i: usize = 0;
    let ghost start = app_views(a@);
    while i < b.len()
        invariant
            i <= b.len(),
            app_views(a@) == start + app_views(b@).take(i as int),
        decreases b.len() - i,
    {
        let x = b[i].clone_app();
        let ghost before = a@;
        a.push(x);
        assert(app_views(a@) =~= app_views(before).push(app_view(x)));
        assert(app_views(b@).take(i + 1) =~= app_views(b@).take(i as int).push(app_view(b@[i as int])));
        i = i + 1;
    }
    assert(app_views(b@).take(b@.len() as int) == app_views(b@));
}

/// Inventory all installed user-facing apps from every source's listing
/// (an empty listing where a tool is missing), sorted by lower-cased name.
pub fn inventory(dpkg_listing: &str, flatpak_listing: &str, snap_listing: &str) -> (r: Vec<
    InstalledApp,
>)
    requires
        apt_sizes_fit(dpkg_listing@),
    ensures
        stably_sorted(
            app_views(r@),
            apt_apps_of(dpkg_listing@) + flatpak_apps_of(flatpak_listing@) + snap_apps_of(
                snap_listing@,
            ),
        ),
        ascii_keys_lowered(app_views(r@)),
{
    let mut apps = apt_apps(dpkg_listing);
    append_apps(&mut apps, flatpak_apps(flatpak_listing));
    append_apps(&mut apps, snap_apps(snap_listing));
    sort_by_lowercase_name(apps)
}

/// Whether every line of a `dpkg-query` size listing converts to bytes
/// without overflow (the condition `inventory` needs).
pub fn dpkg_sizes_fit(out: &str) -> (b: bool)
    ensures
        b == apt_sizes_fit(out@),
{
    let ls = split_lines(&chars_of(out));
    let mut i: usize = 0;
    while i < ls.len()
        invariant
            i <= ls.len(),
            views(ls@) == lines(out@),
            forall|k: int| 0 <= k < i ==> #[trigger] apt_kib(lines(out@)[k]) * 1024 <= u64::MAX,
        decreases ls.len() - i,
    {
        let f = split_on(&ls[i], '\t');
        let zero = vec!['0'];
        assert(zero@ =~= seq!['0']);
        proof {
            lemma_full_slice(seq!['0']);
            if f@.len() > 2 {
                lemma_full_slice(f@[2]@);
            }
            assert(views(ls@)[i as int] == ls@[i as int]@);
        }
        let kib = match parse_u64_chars(&trim_chars(&field_or_chars(&f, 2, &zero))) {
            Some(v) => v,
            None => 0,
        };
        assert(kib == apt_kib(lines(out@)[i as int]));
        if kib > u64::MAX / 1024 {
            return false;
        }
        i = i + 1;
    }
    true
}

/// Every present value comes from some position of `s`, in order of
/// positions.
proof fn lemma_somes_from(s: Seq<Option<AppView>>, k: int)
    requires
        0 <= k < somes(s).len(),
    ensures
        exists|j: int| 0 <= j < s.len() && s[j] == Some(#[trigger] somes(s)[k]),
    decreases s.len(),
{
    if s.len() > 0 {
        let prev = somes(s.drop_last());
        if k < prev.len() {
            match s.last() {
                Some(a) => assert(somes(s)[k] == prev[k]),
                None => {},
            }
            lemma_somes_from(s.drop_last(), k);
            let j = choose|j: int| 0 <= j < s.drop_last().len() && s.drop_last()[j] == Some(prev[k]);
            assert(s[j] == s.drop_last()[j]);
        } else {
            assert(s[s.len() - 1] == Some(somes(s)[k]));
        }
    }
}

/// Every installed snap comes from a `snap list` row after the header: its
/// name and id are the row's first word, its version the row's second word
/// (the Version column; empty when the row has one word), its size unknown.
pub proof fn law_snap_apps_rows(out: Seq<char>, k: int)
    requires
        0 <= k < snap_apps_of(out).len(),
    ensures
        exists|j: int|
            1 <= j < lines(out).len() && {
                let w = #[trigger] words(lines(out)[j]);
                &&& w.len() >= 1
                &&& snap_apps_of(out)[k].name == w[0]
                &&& snap_apps_of(out)[k].id == w[0]
                &&& (w.len() >= 2 ==> snap_apps_of(out)[k].version == w[1])
                &&& (w.len() < 2 ==> snap_apps_of(out)[k].version == Seq::<char>::empty())
                &&& snap_apps_of(out)[k].source == AppSource::Snap
                &&& snap_apps_of(out)[k].size == 0
            },
{
    let ls = lines(out);
    let rows = if ls.len() == 0 { ls } else { ls.skip(1) };
    let opts = rows.map_values(|l: Seq<char>| snap_app(l));
    lemma_somes_from(opts, k);
    let i = choose|i: int| 0 <= i < opts.len() && opts[i] == Some(somes(opts)[k]);
    assert(ls.len() > 0);
    assert(rows[i] == ls[i + 1]);
    assert(opts[i] == snap_app(ls[i + 1]));
    let w = words(ls[i + 1]);
    assert(w.len() >= 1);
    assert(1 <= i + 1 < ls.len());
}

} // verus!
