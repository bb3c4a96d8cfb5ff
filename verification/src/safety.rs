//! Protected-paths safelist: what no cleaner may ever touch.
//!
//! The built-in list (credentials and irreplaceable data under `$HOME`, and
//! pseudo-filesystems) cannot be overridden; users can only add exclusions.

use vstd::prelude::*;
use crate::path::{join_path, lemma_starts_with_trans, path_join, path_starts_with, starts_with_path};

verus! {

/// Directories (relative to `$HOME`) that hold credentials / irreplaceable
/// data and must never be removed by any cleaner.
pub const PROTECTED_HOME_DIRS: [&'static str; 8] = [
    ".gnupg",
    ".ssh",
    ".password-store",
    ".local/share/keyrings",
    ".cache/keyring",
    ".config/dconf",
    ".mozilla",
    ".thunderbird",
];

/// Absolute path prefixes that are pseudo-filesystems or otherwise off-limits.
pub const FORBIDDEN_PREFIXES: [&'static str; 6] = ["/proc", "/sys", "/dev", "/run", "/boot", "/snap"];

pub open spec fn protected_home_dirs() -> Seq<Seq<char>> {
    PROTECTED_HOME_DIRS@.map_values(|s: &str| s@)
}

pub open spec fn forbidden_prefixes() -> Seq<Seq<char>> {
    FORBIDDEN_PREFIXES@.map_values(|s: &str| s@)
}

/// What a safelist is: the home directory, the built-in protected paths, and
/// the user's own exclusions.
pub struct SafelistView {
    pub home: Seq<char>,
    pub protected: Seq<Seq<char>>,
    pub exclusions: Seq<Seq<char>>,
}

/// Decides whether a given path is allowed to be scanned/deleted.
#[derive(Debug, Clone)]
pub struct Safelist {
    home: String,
    protected: Vec<String>,
    user_exclusions: Vec<String>,
}

pub open spec fn string_views(v: Seq<String>) -> Seq<Seq<char>> {
    v.map_values(|s: String| s@)
}

/// Whether `p` is, or is inside, one of `bases`.
pub open spec fn inside_any(p: Seq<char>, bases: Seq<Seq<char>>) -> bool {
    exists|i: int| 0 <= i < bases.len() && path_starts_with(p, #[trigger] bases[i])
}

/// The protection rule: `p` is, or is inside, a forbidden system prefix, a
/// protected entry, or a user exclusion.
pub open spec fn protects(sl: SafelistView, p: Seq<char>) -> bool {
    inside_any(p, forbidden_prefixes()) || inside_any(p, sl.protected) || inside_any(p, sl.exclusions)
}

/// The built-in protected entries of a home directory.
pub open spec fn protected_under(home: Seq<char>) -> Seq<Seq<char>> {
    protected_home_dirs().map_values(|rel: Seq<char>| path_join(home, rel))
}

impl View for Safelist {
    type V = SafelistView;

    closed spec fn view(&self) -> SafelistView {
        SafelistView {
            home: self.home@,
            protected: string_views(self.protected@),
            exclusions: string_views(self.user_exclusions@),
        }
    }
}

/// Clones a list of strings.
pub fn clone_strings(v: &Vec<String>) -> (r: Vec<String>)
    ensures
        string_views(r@) == string_views(v@),
{
    let mut r: Vec<String> = Vec::new();
    let mut i: usize = 0;
    while i < v.len()
        invariant
            i <= v.len(),
            r@.len() == i,
            string_views(r@) == string_views(v@).take(i as int),
        decreases v.len() - i,
    {
        let s = v[i].clone();
        let ghost old_r = r@;
        r.push(s);
        assert(r@ == old_r.push(s));
        assert(s@ == v@[i as int]@);
        assert(string_views(r@) =~= string_views(v@).take(i + 1));
        i = i + 1;
    }
    assert(string_views(v@).take(v@.len() as int) =~= string_views(v@));
    r
}

impl Safelist {
    /// Build the safelist for the user's home directory.
    pub fn new(home: String, user_exclusions: Vec<String>) -> (sl: Safelist)
        ensures
            sl@.home == home@,
            sl@.protected == protected_under(home@),
            sl@.exclusions == string_views(user_exclusions@),
    {
        let mut protected: Vec<String> = Vec::new();
        let mut i: usize = 0;
        while i < 8
            invariant
                i <= 8,
                protected@.len() == i,
                string_views(protected@) == protected_under(home@).take(i as int),
            decreases 8 - i,
        {
            let rel = PROTECTED_HOME_DIRS[i];
            assert(rel@ == protected_home_dirs()[i as int]);
            let p = join_path(home.as_str(), rel);
            let ghost old_p = protected@;
            protected.push(p);
            assert(protected@ == old_p.push(p));
            assert(string_views(protected@) =~= protected_under(home@).take(i + 1));
            i = i + 1;
        }
        assert(protected_under(home@).take(8) =~= protected_under(home@));
        Safelist { home, protected, user_exclusions }
    }

    pub fn home(&self) -> (h: &str)
        ensures
            h@ == self@.home,
    {
        self.home.as_str()
    }

    /// True if `path` is protected and must not be touched: it *is* or is
    /// *inside* any protected entry, user exclusion, or forbidden system prefix.
    pub fn is_protected(&self, path: &str) -> (b: bool)
        ensures
            b == protects(self@, path@),
    {
        let mut i: usize = 0;
        while i < 6
            invariant
                i <= 6,
                forall|j: int| 0 <= j < i ==> !path_starts_with(path@, #[trigger] forbidden_prefixes()[j]),
            decreases 6 - i,
        {
            if starts_with_path(path, FORBIDDEN_PREFIXES[i]) {
                assert(path_starts_with(path@, forbidden_prefixes()[i as int]));
                return true;
            }
            i = i + 1;
        }
        let mut k: usize = 0;
        while k < self.protected.len()
            invariant
                k <= self.protected.len(),
                !inside_any(path@, forbidden_prefixes()),
                forall|j: int| 0 <= j < k ==> !path_starts_with(path@, #[trigger] self@.protected[j]),
                self@.protected == string_views(self.protected@),
            decreases self.protected.len() - k,
        {
            if starts_with_path(path, self.protected[k].as_str()) {
                assert(path_starts_with(path@, self@.protected[k as int]));
                return true;
            }
            k = k + 1;
        }
        let mut m: usize = 0;
        while m < self.user_exclusions.len()
            invariant
                m <= self.user_exclusions.len(),
                !inside_any(path@, forbidden_prefixes()),
                !inside_any(path@, self@.protected),
                forall|j: int| 0 <= j < m ==> !path_starts_with(path@, #[trigger] self@.exclusions[j]),
                self@.exclusions == string_views(self.user_exclusions@),
            decreases self.user_exclusions.len() - m,
        {
            if starts_with_path(path, self.user_exclusions[m].as_str()) {
                assert(path_starts_with(path@, self@.exclusions[m as int]));
                return true;
            }
            m = m + 1;
        }
        false
    }

    /// True if the path is safe to act on: under `$HOME` and not protected.
    pub fn is_safe_user_path(&self, path: &str) -> (b: bool)
        ensures
            b == (path_starts_with(path@, self@.home) && !protects(self@, path@)),
    {
        starts_with_path(path, self.home.as_str()) && !self.is_protected(path)
    }
}

impl Default for Safelist {
    fn default() -> (sl: Safelist)
        ensures
            sl@.home == Seq::<char>::empty(),
            sl@.protected == Seq::<Seq<char>>::empty(),
            sl@.exclusions == Seq::<Seq<char>>::empty(),
    {
        let sl = Safelist { home: String::new(), protected: Vec::new(), user_exclusions: Vec::new() };
        assert(string_views(sl.protected@) =~= Seq::<Seq<char>>::empty());
        assert(string_views(sl.user_exclusions@) =~= Seq::<Seq<char>>::empty());
        sl
    }
}

/// Protection is inherited: anything inside a protected path is protected.
pub proof fn law_protection_inherited(sl: SafelistView, p: Seq<char>, q: Seq<char>)
    requires
        protects(sl, p),
        path_starts_with(q, p),
    ensures
        protects(sl, q),
{
    if inside_any(p, forbidden_prefixes()) {
        let i = choose|i: int| 0 <= i < forbidden_prefixes().len() && path_starts_with(p, #[trigger] forbidden_prefixes()[i]);
        lemma_starts_with_trans(q, p, forbidden_prefixes()[i]);
    } else if inside_any(p, sl.protected) {
        let i = choose|i: int| 0 <= i < sl.protected.len() && path_starts_with(p, #[trigger] sl.protected[i]);
        lemma_starts_with_trans(q, p, sl.protected[i]);
    } else {
        let i = choose|i: int| 0 <= i < sl.exclusions.len() && path_starts_with(p, #[trigger] sl.exclusions[i]);
        lemma_starts_with_trans(q, p, sl.exclusions[i]);
    }
}

/// The built-in list cannot be overridden: whatever exclusions a user gives,
/// every path inside `$HOME/<protected dir>` is protected by the safelist that
/// `Safelist::new` builds.
pub proof fn law_builtin_protection(
    sl: SafelistView,
    home: Seq<char>,
    exclusions: Seq<Seq<char>>,
    k: int,
    p: Seq<char>,
)
    requires
        sl.home == home,
        sl.protected == protected_under(home),
        sl.exclusions == exclusions,
        0 <= k < protected_home_dirs().len(),
        path_starts_with(p, path_join(home, protected_home_dirs()[k])),
    ensures
        protects(sl, p),
{
    assert(sl.protected[k] == path_join(home, protected_home_dirs()[k]));
    assert(inside_any(p, sl.protected));
}

/// Users can only add protection: extending the exclusions never unprotects
/// a path.
pub proof fn law_exclusions_only_add(a: SafelistView, b: SafelistView, p: Seq<char>)
    requires
        a.home == b.home,
        a.protected == b.protected,
        a.exclusions.is_prefix_of(b.exclusions),
        protects(a, p),
    ensures
        protects(b, p),
{
    if inside_any(p, a.exclusions) {
        let i = choose|i: int| 0 <= i < a.exclusions.len() && path_starts_with(p, #[trigger] a.exclusions[i]);
        assert(b.exclusions[i] == a.exclusions[i]);
        assert(inside_any(p, b.exclusions));
    }
}

/// Pseudo-filesystems are off-limits to every safelist.
pub proof fn law_forbidden_prefixes(sl: SafelistView, k: int, p: Seq<char>)
    requires
        0 <= k < forbidden_prefixes().len(),
        path_starts_with(p, forbidden_prefixes()[k]),
    ensures
        protects(sl, p),
{
}

} // verus!
