//! Character-sequence primitives over `str` views: whitespace, trimming,
//! splitting into lines, words and fields, searching.
//!
//! Every exec function here works on a `Vec<char>` and is tied by its contract
//! to a spec function over `Seq<char>` that says what `str`'s own method of the
//! same purpose returns.

use vstd::prelude::*;

verus! {

/// Unicode `White_Space`, the property `char::is_whitespace` tests.
pub open spec fn is_ws(c: char) -> bool {
    ||| ('\u{9}' <= c && c <= '\u{d}')
    ||| c == ' '
    ||| c == '\u{85}'
    ||| c == '\u{a0}'
    ||| c == '\u{1680}'
    ||| ('\u{2000}' <= c && c <= '\u{200a}')
    ||| c == '\u{2028}'
    ||| c == '\u{2029}'
    ||| c == '\u{202f}'
    ||| c == '\u{205f}'
    ||| c == '\u{3000}'
}

pub open spec fn is_digit(c: char) -> bool {
    '0' <= c && c <= '9'
}

pub open spec fn ws_pred() -> spec_fn(char) -> bool {
    |c: char| is_ws(c)
}

pub open spec fn non_ws_pred() -> spec_fn(char) -> bool {
    |c: char| !is_ws(c)
}

pub open spec fn digit_pred() -> spec_fn(char) -> bool {
    |c: char| is_digit(c)
}

pub open spec fn ne_pred(x: char) -> spec_fn(char) -> bool {
    |c: char| c != x
}

pub open spec fn eq_pred(x: char) -> spec_fn(char) -> bool {
    |c: char| c == x
}

/// Length of the longest prefix of `s` whose characters all satisfy `p`.
pub open spec fn run_len(s: Seq<char>, p: spec_fn(char) -> bool) -> nat
    decreases s.len(),
{
    if s.len() > 0 && p(s[0]) {
        1 + run_len(s.drop_first(), p)
    } else {
        0
    }
}

/// Length of the longest suffix of `s` whose characters all satisfy `p`.
pub open spec fn back_run_len(s: Seq<char>, p: spec_fn(char) -> bool) -> nat
    decreases s.len(),
{
    if s.len() > 0 && p(s.last()) {
        1 + back_run_len(s.drop_last(), p)
    } else {
        0
    }
}

pub proof fn lemma_run_len(s: Seq<char>, p: spec_fn(char) -> bool)
    ensures
        run_len(s, p) <= s.len(),
        forall|j: int| 0 <= j < run_len(s, p) ==> #[trigger] p(s[j]),
        run_len(s, p) < s.len() ==> !p(s[run_len(s, p) as int]),
    decreases s.len(),
{
    if s.len() > 0 && p(s[0]) {
        lemma_run_len(s.drop_first(), p);
        assert forall|j: int| 0 <= j < run_len(s, p) implies #[trigger] p(s[j]) by {
            if j > 0 {
                assert(s[j] == s.drop_first()[j - 1]);
            }
        }
    }
}

/// `i` is the length of the run of `p` at the start of `s` exactly when every
/// character before `i` satisfies `p` and the one at `i` (if any) does not.
pub proof fn lemma_run_len_at(s: Seq<char>, p: spec_fn(char) -> bool, i: int)
    requires
        0 <= i <= s.len(),
        forall|j: int| 0 <= j < i ==> #[trigger] p(s[j]),
        i == s.len() || !p(s[i]),
    ensures
        run_len(s, p) == i,
{
    lemma_run_len(s, p);
    if run_len(s, p) < i {
        assert(p(s[run_len(s, p) as int]));
    }
    if run_len(s, p) > i {
        assert(p(s[i]));
    }
}

pub proof fn lemma_back_run_len(s: Seq<char>, p: spec_fn(char) -> bool)
    ensures
        back_run_len(s, p) <= s.len(),
        forall|j: int| s.len() - back_run_len(s, p) <= j < s.len() ==> #[trigger] p(s[j]),
        back_run_len(s, p) < s.len() ==> !p(s[s.len() - back_run_len(s, p) - 1]),
    decreases s.len(),
{
    if s.len() > 0 && p(s.last()) {
        lemma_back_run_len(s.drop_last(), p);
        assert forall|j: int| s.len() - back_run_len(s, p) <= j < s.len() implies #[trigger] p(
            s[j],
        ) by {
            if j < s.len() - 1 {
                assert(s[j] == s.drop_last()[j]);
            }
        }
        if back_run_len(s, p) < s.len() {
            assert(s[s.len() - back_run_len(s, p) - 1] == s.drop_last()[s.drop_last().len()
                - back_run_len(s.drop_last(), p) - 1]);
        }
    }
}

pub proof fn lemma_back_run_len_at(s: Seq<char>, p: spec_fn(char) -> bool, k: int)
    requires
        0 <= k <= s.len(),
        forall|j: int| s.len() - k <= j < s.len() ==> #[trigger] p(s[j]),
        k == s.len() || !p(s[s.len() - k - 1]),
    ensures
        back_run_len(s, p) == k,
{
    lemma_back_run_len(s, p);
    let b = back_run_len(s, p);
    if b < k {
        assert(p(s[s.len() - b - 1]));
    }
    if b > k {
        assert(p(s[s.len() - k - 1]));
    }
}

/// What `str::trim_start` leaves.
pub open spec fn trim_start(s: Seq<char>) -> Seq<char> {
    s.skip(run_len(s, ws_pred()) as int)
}

/// What `str::trim_end` leaves.
pub open spec fn trim_end(s: Seq<char>) -> Seq<char> {
    s.take(s.len() - back_run_len(s, ws_pred()))
}

/// What `str::trim` leaves.
pub open spec fn trim(s: Seq<char>) -> Seq<char> {
    trim_end(trim_start(s))
}

/// The items `str::split_whitespace` yields.
pub open spec fn words(s: Seq<char>) -> Seq<Seq<char>>
    decreases s.len(),
{
    let t = trim_start(s);
    if t.len() == 0 {
        seq![]
    } else {
        proof {
            lemma_run_len(s, ws_pred());
            lemma_run_len(t, non_ws_pred());
            assert(!is_ws(t[0]));
        }
        let w = run_len(t, non_ws_pred()) as int;
        seq![t.take(w)] + words(t.skip(w))
    }
}

/// A line as `str::lines` yields it: without the final `'\r'` of a `"\r\n"`.
pub open spec fn strip_cr(s: Seq<char>) -> Seq<char> {
    if s.len() > 0 && s.last() == '\r' {
        s.drop_last()
    } else {
        s
    }
}

/// The items `str::lines` yields.
pub open spec fn lines(s: Seq<char>) -> Seq<Seq<char>>
    decreases s.len(),
{
    if s.len() == 0 {
        seq![]
    } else {
        let i = run_len(s, ne_pred('\n')) as int;
        if i >= s.len() {
            seq![s]
        } else {
            seq![strip_cr(s.take(i))] + lines(s.skip(i + 1))
        }
    }
}

/// The items `str::split` yields for a single-character separator.
pub open spec fn split_char(s: Seq<char>, sep: char) -> Seq<Seq<char>>
    decreases s.len(),
{
    let i = run_len(s, ne_pred(sep)) as int;
    if i >= s.len() {
        seq![s]
    } else {
        seq![s.take(i)] + split_char(s.skip(i + 1), sep)
    }
}

/// The character sequences held by a vector of character vectors.
pub open spec fn views(r: Seq<Vec<char>>) -> Seq<Seq<char>> {
    r.map_values(|v: Vec<char>| v@)
}

/// Whether `pat` occurs in `s` starting at `i`.
pub open spec fn occurs_at(s: Seq<char>, pat: Seq<char>, i: int) -> bool {
    0 <= i && i + pat.len() <= s.len() && s.subrange(i, i + pat.len()) == pat
}

/// What `str::contains` answers for a string pattern.
pub open spec fn contains(s: Seq<char>, pat: Seq<char>) -> bool {
    exists|i: int| occurs_at(s, pat, i)
}

/// What `str::find` answers for a string pattern: the first occurrence.
#[verifier::opaque]
pub open spec fn find(s: Seq<char>, pat: Seq<char>) -> Option<int> {
    if contains(s, pat) {
        Some(choose|i: int| occurs_at(s, pat, i) && forall|k: int| 0 <= k < i ==> !occurs_at(s, pat, k))
    } else {
        None
    }
}

/// The first occurrence, characterised without `choose`.
pub proof fn lemma_find_at(s: Seq<char>, pat: Seq<char>, i: int)
    requires
        occurs_at(s, pat, i),
        forall|k: int| 0 <= k < i ==> !occurs_at(s, pat, k),
    ensures
        find(s, pat) == Some(i),
{
    reveal(find);
    assert(contains(s, pat));
    let j = choose|j: int| occurs_at(s, pat, j) && forall|k: int| 0 <= k < j ==> !occurs_at(s, pat, k);
    assert(occurs_at(s, pat, j) && forall|k: int| 0 <= k < j ==> !occurs_at(s, pat, k));
    if j < i {
        assert(!occurs_at(s, pat, j));
    }
    if i < j {
        assert(!occurs_at(s, pat, i));
    }
}

/// What `str::starts_with` answers for a string pattern.
pub open spec fn starts_with(s: Seq<char>, pat: Seq<char>) -> bool {
    pat.len() <= s.len() && s.take(pat.len() as int) == pat
}

/// What `str::ends_with` answers for a string pattern.
pub open spec fn ends_with(s: Seq<char>, pat: Seq<char>) -> bool {
    pat.len() <= s.len() && s.skip(s.len() - pat.len()) == pat
}

pub fn is_whitespace(c: char) -> (b: bool)
    ensures
        b == is_ws(c),
{
    ('\u{9}' <= c && c <= '\u{d}') || c == ' ' || c == '\u{85}' || c == '\u{a0}' || c
        == '\u{1680}' || ('\u{2000}' <= c && c <= '\u{200a}') || c == '\u{2028}' || c
        == '\u{2029}' || c == '\u{202f}' || c == '\u{205f}' || c == '\u{3000}'
}

pub fn is_ascii_digit(c: char) -> (b: bool)
    ensures
        b == is_digit(c),
{
    '0' <= c && c <= '9'
}

/// Converts a string slice into its characters.
pub fn chars_of(s: &str) -> (v: Vec<char>)
    ensures
        v@ == s@,
{
    let mut v: Vec<char> = Vec::new();
    for c in it: s.chars()
        invariant
            v@ == it.seq().take(it.index() as int),
            it.seq() == s@,
    {
        v.push(c);
    }
    v
}

/// Builds a `String` from characters, via `FromIterator<char>` of std.
#[verifier::external_body]
pub(crate) fn string_of(v: &[char]) -> (s: String)
    ensures
        s@ == v@,
{
    v.iter().collect()
}

/// The characters of `v` in `lo..hi`.
pub fn slice_chars(v: &Vec<char>, lo: usize, hi: usize) -> (r: Vec<char>)
    requires
        lo <= hi <= v.len(),
    ensures
        r@ == v@.subrange(lo as int, hi as int),
{
    let mut r: Vec<char> = Vec::new();
    let mut i = lo;
    while i < hi
        invariant
            lo <= i <= hi <= v.len(),
            r@ == v@.subrange(lo as int, i as int),
        decreases hi - i,
    {
        r.push(v[i]);
        i = i + 1;
    }
    r
}

/// First index at or after `from` holding a non-whitespace character (or `len`).
fn skip_ws(v: &Vec<char>, from: usize) -> (i: usize)
    requires
        from <= v.len(),
    ensures
        from <= i <= v.len(),
        i - from == run_len(v@.skip(from as int), ws_pred()),
{
    let mut i = from;
    while i < v.len() && is_whitespace(v[i])
        invariant
            from <= i <= v.len(),
            forall|j: int| from <= j < i ==> is_ws(#[trigger] v@[j]),
        decreases v.len() - i,
    {
        i = i + 1;
    }
    proof {
        let t = v@.skip(from as int);
        assert forall|j: int| 0 <= j < i - from implies #[trigger] ws_pred()(t[j]) by {
            assert(t[j] == v@[from + j]);
        }
        if i < v.len() {
            assert(t[i - from] == v@[i as int]);
        }
        lemma_run_len_at(t, ws_pred(), i - from);
    }
    i
}

/// First index at or after `from` holding a whitespace character (or `len`).
fn skip_non_ws(v: &Vec<char>, from: usize) -> (i: usize)
    requires
        from <= v.len(),
    ensures
        from <= i <= v.len(),
        i - from == run_len(v@.skip(from as int), non_ws_pred()),
{
    let mut i = from;
    while i < v.len() && !is_whitespace(v[i])
        invariant
            from <= i <= v.len(),
            forall|j: int| from <= j < i ==> !is_ws(#[trigger] v@[j]),
        decreases v.len() - i,
    {
        i = i + 1;
    }
    proof {
        let t = v@.skip(from as int);
        assert forall|j: int| 0 <= j < i - from implies #[trigger] non_ws_pred()(t[j]) by {
            assert(t[j] == v@[from + j]);
        }
        if i < v.len() {
            assert(t[i - from] == v@[i as int]);
        }
        lemma_run_len_at(t, non_ws_pred(), i - from);
    }
    i
}

/// First index at or after `from` holding `c` (or `len`).
fn skip_to(v: &Vec<char>, from: usize, c: char) -> (i: usize)
    requires
        from <= v.len(),
    ensures
        from <= i <= v.len(),
        i - from == run_len(v@.skip(from as int), ne_pred(c)),
{
    let mut i = from;
    while i < v.len() && v[i] != c
        invariant
            from <= i <= v.len(),
            forall|j: int| from <= j < i ==> #[trigger] v@[j] != c,
        decreases v.len() - i,
    {
        i = i + 1;
    }
    proof {
        let t = v@.skip(from as int);
        assert forall|j: int| 0 <= j < i - from implies #[trigger] ne_pred(c)(t[j]) by {
            assert(t[j] == v@[from + j]);
        }
        if i < v.len() {
            assert(t[i - from] == v@[i as int]);
        }
        lemma_run_len_at(t, ne_pred(c), i - from);
    }
    i
}

/// `str::trim_start`.
pub fn trim_start_chars(v: &Vec<char>) -> (r: Vec<char>)
    ensures
        r@ == trim_start(v@),
{
    let i = skip_ws(v, 0);
    assert(v@.skip(0) == v@);
    slice_chars(v, i, v.len())
}

/// `str::trim`.
pub fn trim_chars(v: &Vec<char>) -> (r: Vec<char>)
    ensures
        r@ == trim(v@),
{
    let i = skip_ws(v, 0);
    assert(v@.skip(0) == v@);
    let ghost t = v@.skip(i as int);
    let mut k = v.len();
    while k > i && is_whitespace(v[k - 1])
        invariant
            i <= k <= v.len(),
            t == v@.skip(i as int),
            forall|j: int| k <= j < v.len() ==> is_ws(#[trigger] v@[j]),
        decreases k,
    {
        k = k - 1;
    }
    proof {
        let b = (v.len() - k) as int;
        assert forall|j: int| t.len() - b <= j < t.len() implies #[trigger] ws_pred()(t[j]) by {
            assert(t[j] == v@[i + j]);
        }
        if b < t.len() {
            assert(t[t.len() - b - 1] == v@[k - 1]);
        }
        lemma_back_run_len_at(t, ws_pred(), b);
        assert(v@.subrange(i as int, k as int) == t.take(t.len() - b));
    }
    slice_chars(v, i, k)
}

/// `str::trim_end_matches` for a single character.
pub open spec fn trim_end_char(s: Seq<char>, c: char) -> Seq<char> {
    s.take(s.len() - back_run_len(s, eq_pred(c)))
}

pub fn trim_end_char_chars(v: &Vec<char>, c: char) -> (r: Vec<char>)
    ensures
        r@ == trim_end_char(v@, c),
{
    let mut k = v.len();
    while k > 0 && v[k - 1] == c
        invariant
            k <= v.len(),
            forall|j: int| k <= j < v.len() ==> #[trigger] v@[j] == c,
        decreases k,
    {
        k = k - 1;
    }
    proof {
        let b = (v.len() - k) as int;
        assert forall|j: int| v@.len() - b <= j < v@.len() implies #[trigger] eq_pred(c)(
            v@[j],
        ) by {}
        lemma_back_run_len_at(v@, eq_pred(c), b);
    }
    slice_chars(v, 0, k)
}

proof fn lemma_skip_skip(s: Seq<char>, a: int, b: int)
    requires
        0 <= a,
        0 <= b,
        a + b <= s.len(),
    ensures
        s.skip(a).skip(b) == s.skip(a + b),
{
    assert(s.skip(a).skip(b) =~= s.skip(a + b));
}

/// `str::split_whitespace`, collected.
pub fn split_words(v: &Vec<char>) -> (r: Vec<Vec<char>>)
    ensures
        views(r@) == words(v@),
{
    let mut r: Vec<Vec<char>> = Vec::new();
    let mut i: usize = 0;
    assert(v@.skip(0) == v@);
    loop
        invariant
            i <= v.len(),
            views(r@) + words(v@.skip(i as int)) == words(v@),
        decreases v.len() - i,
    {
        let ghost s = v@.skip(i as int);
        let j = skip_ws(v, i);
        proof {
            lemma_skip_skip(v@, i as int, j - i);
        }
        if j == v.len() {
            assert(trim_start(s).len() == 0);
            assert(words(s) == Seq::<Seq<char>>::empty());
            assert(views(r@) + words(s) == views(r@));
            return r;
        }
        let k = skip_non_ws(v, j);
        proof {
            let t = trim_start(s);
            assert(t == v@.skip(j as int));
            lemma_skip_skip(v@, j as int, k - j);
            assert(t.take(k - j) == v@.subrange(j as int, k as int));
            assert(words(s) == seq![t.take(k - j)] + words(v@.skip(k as int)));
        }
        let w = slice_chars(v, j, k);
        let ghost old_r = views(r@);
        r.push(w);
        proof {
            assert(views(r@) =~= old_r.push(w@));
            assert(views(r@) + words(v@.skip(k as int)) == old_r + words(s));
        }
        i = k;
    }
}

/// `str::lines`, collected.
pub fn split_lines(v: &Vec<char>) -> (r: Vec<Vec<char>>)
    ensures
        views(r@) == lines(v@),
{
    let mut r: Vec<Vec<char>> = Vec::new();
    let mut i: usize = 0;
    assert(v@.skip(0) == v@);
    while i < v.len()
        invariant
            i <= v.len(),
            views(r@) + lines(v@.skip(i as int)) == lines(v@),
        decreases v.len() - i,
    {
        let ghost s = v@.skip(i as int);
        let j = skip_to(v, i, '\n');
        let ghost old_r = views(r@);
        if j == v.len() {
            let w = slice_chars(v, i, j);
            r.push(w);
            proof {
                assert(w@ == s);
                assert(lines(s) == seq![s]);
                assert(views(r@) =~= old_r.push(s));
                assert(v@.skip(j as int).len() == 0);
                assert(lines(v@.skip(j as int)) == Seq::<Seq<char>>::empty());
                assert(views(r@) + lines(v@.skip(j as int)) == old_r + lines(s));
            }
            i = j;
        } else {
            let mut k = j;
            if k > i && v[k - 1] == '\r' {
                k = k - 1;
            }
            let w = slice_chars(v, i, k);
            r.push(w);
            proof {
                lemma_skip_skip(v@, i as int, j - i + 1);
                assert(s.take(j - i) == v@.subrange(i as int, j as int));
                assert(w@ == strip_cr(s.take(j - i)));
                assert(lines(s) == seq![strip_cr(s.take(j - i))] + lines(v@.skip(j + 1)));
                assert(views(r@) =~= old_r.push(w@));
                assert(views(r@) + lines(v@.skip(j + 1)) == old_r + lines(s));
            }
            i = j + 1;
        }
    }
    assert(v@.skip(i as int).len() == 0);
    assert(lines(v@.skip(i as int)) == Seq::<Seq<char>>::empty());
    assert(views(r@) + lines(v@.skip(i as int)) == views(r@));
    r
}

/// `str::split` on one character, collected.
pub fn split_on(v: &Vec<char>, sep: char) -> (r: Vec<Vec<char>>)
    ensures
        views(r@) == split_char(v@, sep),
{
    let mut r: Vec<Vec<char>> = Vec::new();
    let mut i: usize = 0;
    assert(v@.skip(0) == v@);
    loop
        invariant
            i <= v.len(),
            views(r@) + split_char(v@.skip(i as int), sep) == split_char(v@, sep),
        decreases v.len() - i,
    {
        let ghost s = v@.skip(i as int);
        let j = skip_to(v, i, sep);
        let w = slice_chars(v, i, j);
        let ghost old_r = views(r@);
        r.push(w);
        if j == v.len() {
            proof {
                assert(w@ == s);
                assert(split_char(s, sep) == seq![s]);
                assert(views(r@) =~= old_r.push(w@));
                assert(views(r@) == old_r + split_char(s, sep));
            }
            return r;
        }
        proof {
            lemma_skip_skip(v@, i as int, j - i + 1);
            assert(s.take(j - i) == w@);
            assert(split_char(s, sep) == seq![w@] + split_char(v@.skip(j + 1), sep));
            assert(views(r@) =~= old_r.push(w@));
            assert(views(r@) + split_char(v@.skip(j + 1), sep) == old_r + split_char(s, sep));
        }
        i = j + 1;
    }
}

/// Whether `pat` occurs in `v` at `i`.
fn matches_at(v: &Vec<char>, pat: &Vec<char>, i: usize) -> (b: bool)
    ensures
        b == occurs_at(v@, pat@, i as int),
{
    if pat.len() > v.len() || i > v.len() - pat.len() {
        return false;
    }
    let mut k: usize = 0;
    while k < pat.len()
        invariant
            k <= pat.len(),
            i + pat.len() <= v.len(),
            forall|j: int| 0 <= j < k ==> v@[i + j] == pat@[j],
        decreases pat.len() - k,
    {
        if v[i + k] != pat[k] {
            assert(v@.subrange(i as int, i + pat.len())[k as int] != pat@[k as int]);
            return false;
        }
        k = k + 1;
    }
    assert(v@.subrange(i as int, i + pat.len()) =~= pat@);
    true
}

/// `str::find` for a string pattern.
pub fn find_chars(v: &Vec<char>, pat: &Vec<char>) -> (r: Option<usize>)
    ensures
        match r {
            Some(i) => find(v@, pat@) == Some(i as int) && occurs_at(v@, pat@, i as int),
            None => find(v@, pat@) is None,
        },
{
    proof {
        reveal(find);
    }
    if pat.len() > v.len() {
        proof {
            assert forall|k: int| !#[trigger] occurs_at(v@, pat@, k) by {}
        }
        return None;
    }
    let last = v.len() - pat.len();
    let mut i: usize = 0;
    while i <= last
        invariant
            last == v.len() - pat.len(),
            i <= last + 1,
            forall|k: int| 0 <= k < i ==> !#[trigger] occurs_at(v@, pat@, k),
        decreases last + 1 - i,
    {
        if matches_at(v, pat, i) {
            proof {
                lemma_find_at(v@, pat@, i as int);
            }
            return Some(i);
        }
        if i == last {
            proof {
                reveal(find);
                assert forall|k: int| !#[trigger] occurs_at(v@, pat@, k) by {
                    if 0 <= k < i {
                    }
                }
            }
            return None;
        }
        i = i + 1;
    }
    proof {
        reveal(find);
        assert forall|k: int| !#[trigger] occurs_at(v@, pat@, k) by {
            if 0 <= k < i {
            }
        }
    }
    None
}

/// `str::contains` for a string pattern.
pub fn contains_chars(v: &Vec<char>, pat: &Vec<char>) -> (b: bool)
    ensures
        b == contains(v@, pat@),
{
    let r = find_chars(v, pat);
    proof {
        lemma_find_bounds(v@, pat@);
    }
    match r {
        Some(_) => true,
        None => false,
    }
}

/// `str::starts_with` for a string pattern.
pub fn starts_with_chars(v: &Vec<char>, pat: &Vec<char>) -> (b: bool)
    ensures
        b == starts_with(v@, pat@),
{
    let b = matches_at(v, pat, 0);
    proof {
        if pat@.len() <= v@.len() {
            assert(v@.subrange(0, pat@.len() as int) == v@.take(pat@.len() as int));
        }
    }
    b
}

/// `str::ends_with` for a string pattern.
pub fn ends_with_chars(v: &Vec<char>, pat: &Vec<char>) -> (b: bool)
    ensures
        b == ends_with(v@, pat@),
{
    if pat.len() > v.len() {
        return false;
    }
    let b = matches_at(v, pat, v.len() - pat.len());
    proof {
        assert(v@.subrange(v@.len() - pat@.len(), v@.len() as int) == v@.skip(
            v@.len() - pat@.len(),
        ));
    }
    b
}

/// Concatenation of two character vectors.
pub fn concat(a: &Vec<char>, b: &Vec<char>) -> (r: Vec<char>)
    ensures
        r@ == a@ + b@,
{
    let mut r = slice_chars(a, 0, a.len());
    let mut i: usize = 0;
    assert(a@.subrange(0, a@.len() as int) == a@);
    while i < b.len()
        invariant
            i <= b.len(),
            r@ == a@ + b@.take(i as int),
        decreases b.len() - i,
    {
        r.push(b[i]);
        i = i + 1;
        assert(r@ == a@ + b@.take(i as int));
    }
    assert(b@.take(b@.len() as int) == b@);
    r
}


/// Whether two character vectors are equal.
pub fn eq_chars(a: &Vec<char>, b: &Vec<char>) -> (r: bool)
    ensures
        r == (a@ == b@),
{
    if a.len() != b.len() {
        return false;
    }
    let mut i: usize = 0;
    while i < a.len()
        invariant
            i <= a.len(),
            a.len() == b.len(),
            forall|j: int| 0 <= j < i ==> a@[j] == b@[j],
        decreases a.len() - i,
    {
        if a[i] != b[i] {
            return false;
        }
        i = i + 1;
    }
    assert(a@ =~= b@);
    true
}

/// What `str::to_lowercase` returns: Unicode lower-casing of the text. It
/// depends on the text alone.
pub uninterp spec fn lowercase(s: Seq<char>) -> Seq<char>;

/// Whether every character is ASCII.
pub open spec fn is_ascii_text(s: Seq<char>) -> bool {
    forall|i: int| 0 <= i < s.len() ==> (#[trigger] s[i] as u32) < 128
}

/// ASCII lower-casing: `A`..`Z` become `a`..`z`, everything else stays.
pub open spec fn ascii_lower(s: Seq<char>) -> Seq<char> {
    s.map_values(|c: char| if 'A' <= c <= 'Z' { ((c as u32) + 32) as char } else { c })
}

/// Pieces of ASCII text are ASCII.
pub proof fn lemma_ascii_sub(s: Seq<char>, lo: int, hi: int)
    requires
        is_ascii_text(s),
        0 <= lo <= hi <= s.len(),
    ensures
        is_ascii_text(s.subrange(lo, hi)),
        is_ascii_text(s.skip(lo)),
        is_ascii_text(s.take(hi)),
{
    assert forall|i: int| 0 <= i < s.subrange(lo, hi).len() implies (#[trigger] s.subrange(lo, hi)[i] as u32)
        < 128 by {
        assert(s.subrange(lo, hi)[i] == s[lo + i]);
    }
    assert forall|i: int| 0 <= i < s.skip(lo).len() implies (#[trigger] s.skip(lo)[i] as u32) < 128 by {
        assert(s.skip(lo)[i] == s[lo + i]);
    }
    assert forall|i: int| 0 <= i < s.take(hi).len() implies (#[trigger] s.take(hi)[i] as u32) < 128 by {
        assert(s.take(hi)[i] == s[i]);
    }
}

/// Trimming ASCII text leaves ASCII text.
pub proof fn lemma_ascii_trim(s: Seq<char>)
    requires
        is_ascii_text(s),
    ensures
        is_ascii_text(trim(s)),
{
    lemma_run_len(s, ws_pred());
    let t = trim_start(s);
    lemma_ascii_sub(s, run_len(s, ws_pred()) as int, s.len() as int);
    lemma_back_run_len(t, ws_pred());
    lemma_ascii_sub(t, 0, t.len() - back_run_len(t, ws_pred()));
}

/// Every word of ASCII text is ASCII.
pub proof fn lemma_ascii_words(s: Seq<char>)
    requires
        is_ascii_text(s),
    ensures
        forall|k: int| 0 <= k < words(s).len() ==> is_ascii_text(#[trigger] words(s)[k]),
    decreases s.len(),
{
    lemma_run_len(s, ws_pred());
    let t = trim_start(s);
    lemma_ascii_sub(s, run_len(s, ws_pred()) as int, s.len() as int);
    if t.len() > 0 {
        lemma_run_len(t, non_ws_pred());
        assert(!is_ws(t[0]));
        let w = run_len(t, non_ws_pred()) as int;
        lemma_ascii_sub(t, w, t.len() as int);
        lemma_ascii_sub(t, 0, w);
        lemma_ascii_words(t.skip(w));
        assert forall|k: int| 0 <= k < words(s).len() implies is_ascii_text(#[trigger] words(s)[k]) by {
            if k > 0 {
                assert(words(s)[k] == words(t.skip(w))[k - 1]);
            }
        }
    }
}

/// Replacing one ASCII character by another keeps text ASCII.
pub proof fn lemma_ascii_replace(s: Seq<char>, from: char, to: char)
    requires
        is_ascii_text(s),
        (to as u32) < 128,
    ensures
        is_ascii_text(replace_char(s, from, to)),
{
    assert forall|i: int| 0 <= i < replace_char(s, from, to).len() implies (#[trigger] replace_char(
        s,
        from,
        to,
    )[i] as u32) < 128 by {}
}

/// `str::to_lowercase` of std. The contract names the result, and of its
/// content states only the ASCII case, where Unicode lower-casing is ASCII
/// lower-casing character for character; the rest of Unicode's table is not
/// stated here.
#[verifier::external_body]
pub(crate) fn to_lowercase(s: &str) -> (r: String)
    ensures
        r@ == lowercase(s@),
        is_ascii_text(s@) ==> r@ == ascii_lower(s@),
{
    s.to_lowercase()
}

/// Lower-cases characters through `str::to_lowercase`.
pub fn lowercase_chars(v: &Vec<char>) -> (r: Vec<char>)
    ensures
        r@ == lowercase(v@),
        is_ascii_text(v@) ==> r@ == ascii_lower(v@),
{
    let s = string_of(v.as_slice());
    let l = to_lowercase(s.as_str());
    chars_of(l.as_str())
}

/// `s` with every `from` replaced by `to` (`str::replace` on characters).
pub open spec fn replace_char(s: Seq<char>, from: char, to: char) -> Seq<char> {
    s.map_values(|c: char| if c == from { to } else { c })
}

/// `s` without any `c` (`str::replace(c, "")`).
pub open spec fn remove_char(s: Seq<char>, c: char) -> Seq<char>
    decreases s.len(),
{
    if s.len() == 0 {
        seq![]
    } else if s.last() == c {
        remove_char(s.drop_last(), c)
    } else {
        remove_char(s.drop_last(), c).push(s.last())
    }
}

pub fn replace_char_chars(v: &Vec<char>, from: char, to: char) -> (r: Vec<char>)
    ensures
        r@ == replace_char(v@, from, to),
{
    let mut r: Vec<char> = Vec::new();
    let mut i: usize = 0;
    while i < v.len()
        invariant
            i <= v.len(),
            r@ == replace_char(v@.take(i as int), from, to),
        decreases v.len() - i,
    {
        let c = if v[i] == from { to } else { v[i] };
        r.push(c);
        i = i + 1;
        assert(r@ =~= replace_char(v@.take(i as int), from, to));
    }
    assert(v@.take(v@.len() as int) == v@);
    r
}

pub fn remove_char_chars(v: &Vec<char>, c: char) -> (r: Vec<char>)
    ensures
        r@ == remove_char(v@, c),
{
    let mut r: Vec<char> = Vec::new();
    let mut i: usize = 0;
    while i < v.len()
        invariant
            i <= v.len(),
            r@ == remove_char(v@.take(i as int), c),
        decreases v.len() - i,
    {
        assert(v@.take(i + 1).drop_last() == v@.take(i as int));
        if v[i] != c {
            r.push(v[i]);
        }
        i = i + 1;
    }
    assert(v@.take(v@.len() as int) == v@);
    r
}

pub proof fn lemma_find_bounds(s: Seq<char>, pat: Seq<char>)
    ensures
        find(s, pat) matches Some(i) ==> occurs_at(s, pat, i),
        find(s, pat) is None <==> !contains(s, pat),
{
    reveal(find);
    if contains(s, pat) {
        let w = choose|i: int| occurs_at(s, pat, i);
        lemma_first_occurrence_exists(s, pat, w);
    }
}

proof fn lemma_first_occurrence_exists(s: Seq<char>, pat: Seq<char>, w: int)
    requires
        occurs_at(s, pat, w),
    ensures
        exists|i: int| occurs_at(s, pat, i) && forall|k: int| 0 <= k < i ==> !occurs_at(s, pat, k),
    decreases w,
{
    if exists|k: int| 0 <= k < w && occurs_at(s, pat, k) {
        let k = choose|k: int| 0 <= k < w && occurs_at(s, pat, k);
        lemma_first_occurrence_exists(s, pat, k);
    } else {
        assert(occurs_at(s, pat, w) && forall|k: int| 0 <= k < w ==> !occurs_at(s, pat, k));
    }
}

/// The decimal representation of `n`, as `u64`'s `Display` writes it.
pub open spec fn decimal_digits(n: nat) -> Seq<char>
    decreases n,
{
    if n < 10 {
        seq![digit_char(n)]
    } else {
        decimal_digits(n / 10).push(digit_char(n % 10))
    }
}

pub open spec fn digit_char(d: nat) -> char {
    if d == 0 { '0' }
    else if d == 1 { '1' }
    else if d == 2 { '2' }
    else if d == 3 { '3' }
    else if d == 4 { '4' }
    else if d == 5 { '5' }
    else if d == 6 { '6' }
    else if d == 7 { '7' }
    else if d == 8 { '8' }
    else { '9' }
}

fn digit_char_exec(d: u64) -> (c: char)
    requires
        d < 10,
    ensures
        c == digit_char(d as nat),
{
    if d == 0 { '0' }
    else if d == 1 { '1' }
    else if d == 2 { '2' }
    else if d == 3 { '3' }
    else if d == 4 { '4' }
    else if d == 5 { '5' }
    else if d == 6 { '6' }
    else if d == 7 { '7' }
    else if d == 8 { '8' }
    else { '9' }
}

/// `n.to_string()`, as characters.
pub fn decimal_chars(n: u64) -> (r: Vec<char>)
    ensures
        r@ == decimal_digits(n as nat),
    decreases n,
{
    if n < 10 {
        let mut r: Vec<char> = Vec::new();
        r.push(digit_char_exec(n));
        assert(r@ =~= seq![digit_char(n as nat)]);
        r
    } else {
        let mut r = decimal_chars(n / 10);
        r.push(digit_char_exec(n % 10));
        r
    }
}

/// `n.to_string()`.
pub fn decimal_string(n: u64) -> (s: String)
    ensures
        s@ == decimal_digits(n as nat),
{
    let v = decimal_chars(n);
    string_of(v.as_slice())
}
} // verus!
