//! Unix paths held as strings, with the component semantics of `std::path`:
//! comparison by components, `push`/`join`, and `file_name`.

use vstd::prelude::*;
use crate::text::{chars_of, concat, ne_pred, run_len, slice_chars, split_char, split_on, string_of, views};

verus! {

/// The segments of a path that name something: neither empty (from repeated or
/// trailing separators) nor `.` (which `Path` drops when not leading).
pub open spec fn named_segments(segs: Seq<Seq<char>>) -> Seq<Seq<char>>
    decreases segs.len(),
{
    if segs.len() == 0 {
        seq![]
    } else {
        let rest = named_segments(segs.drop_first());
        if segs[0].len() == 0 || segs[0] == seq!['.'] {
            rest
        } else {
            seq![segs[0]] + rest
        }
    }
}

/// The components `Path::components` yields on Unix, each written as
/// characters: `"/"` for the root, `"."` for a leading current directory, and
/// the segment itself otherwise. No normal component contains `'/'` and no
/// non-leading one is `"."`, so the encoding is one to one.
pub open spec fn components(p: Seq<char>) -> Seq<Seq<char>> {
    let segs = split_char(p, '/');
    if p.len() > 0 && p[0] == '/' {
        seq![seq!['/']] + named_segments(segs.drop_first())
    } else if segs[0] == seq!['.'] {
        seq![seq!['.']] + named_segments(segs.drop_first())
    } else {
        named_segments(segs)
    }
}

/// `Path::starts_with`: `base`'s components are a prefix of `p`'s.
/// (`Path`'s `==` is the special case of equal components.)
pub open spec fn path_starts_with(p: Seq<char>, base: Seq<char>) -> bool {
    components(base).is_prefix_of(components(p))
}

/// `PathBuf::push` / `Path::join` on Unix: an absolute `rel` replaces `base`;
/// otherwise a separator is put between them when `base` is non-empty and does
/// not already end in one.
pub open spec fn path_join(base: Seq<char>, rel: Seq<char>) -> Seq<char> {
    if rel.len() > 0 && rel[0] == '/' {
        rel
    } else if base.len() == 0 || base.last() == '/' {
        base + rel
    } else {
        base + seq!['/'] + rel
    }
}

/// `Path::file_name`: the last component when it is a name (not the root, a
/// leading `.`, or `..`).
pub open spec fn path_file_name(p: Seq<char>) -> Option<Seq<char>> {
    let c = components(p);
    if c.len() == 0 {
        None
    } else {
        let last = c.last();
        if last == seq!['/'] || last == seq!['.'] || last == seq!['.', '.'] {
            None
        } else {
            Some(last)
        }
    }
}

pub proof fn lemma_split_char_nonempty(s: Seq<char>, sep: char)
    ensures
        split_char(s, sep).len() > 0,
    decreases s.len(),
{
    let i = run_len(s, ne_pred(sep)) as int;
    if i < s.len() {
        lemma_split_char_nonempty(s.skip(i + 1), sep);
    }
}

/// Components are a prefix relation, so "inside" is transitive.
pub proof fn lemma_starts_with_trans(a: Seq<char>, b: Seq<char>, c: Seq<char>)
    requires
        path_starts_with(a, b),
        path_starts_with(b, c),
    ensures
        path_starts_with(a, c),
{
    let ca = components(a);
    let cb = components(b);
    let cc = components(c);
    assert forall|i: int| 0 <= i < cc.len() implies cc[i] == ca[i] by {
        assert(cc[i] == cb[i]);
    }
}

fn is_dot(v: &Vec<char>) -> (b: bool)
    ensures
        b == (v@ == seq!['.']),
{
    if v.len() == 1 && v[0] == '.' {
        assert(v@ =~= seq!['.']);
        true
    } else {
        false
    }
}

fn is_dot_dot(v: &Vec<char>) -> (b: bool)
    ensures
        b == (v@ == seq!['.', '.']),
{
    if v.len() == 2 && v[0] == '.' && v[1] == '.' {
        assert(v@ =~= seq!['.', '.']);
        true
    } else {
        false
    }
}

proof fn lemma_named_segments_step(segs: Seq<Seq<char>>, i: int)
    requires
        0 <= i < segs.len(),
    ensures
        named_segments(segs.skip(i)) == (if segs[i].len() == 0 || segs[i] == seq!['.'] {
            named_segments(segs.skip(i + 1))
        } else {
            seq![segs[i]] + named_segments(segs.skip(i + 1))
        }),
{
    assert(segs.skip(i).drop_first() == segs.skip(i + 1));
    assert(segs.skip(i)[0] == segs[i]);
}

/// The components of a path.
pub fn components_of(p: &Vec<char>) -> (r: Vec<Vec<char>>)
    ensures
        views(r@) == components(p@),
{
    let segs = split_on(p, '/');
    proof {
        lemma_split_char_nonempty(p@, '/');
    }
    let mut r: Vec<Vec<char>> = Vec::new();
    let ghost sv = views(segs@);
    let ghost first_special: bool = (p@.len() > 0 && p@[0] == '/') || sv[0] == seq!['.'];
    let mut i: usize = 0;
    if p.len() > 0 && p[0] == '/' {
        r.push(vec!['/']);
        i = 1;
    } else if is_dot(&segs[0]) {
        r.push(vec!['.']);
        i = 1;
    }
    proof {
        assert(views(segs@)[0] == segs@[0]@);
        if i == 1 {
            assert(views(r@) =~= seq![components(p@)[0]]) by {
                if p@.len() > 0 && p@[0] == '/' {
                    assert(r@[0]@ =~= seq!['/']);
                } else {
                    assert(r@[0]@ =~= seq!['.']);
                }
            }
            assert(components(p@) == views(r@) + named_segments(sv.skip(1))) by {
                assert(sv.skip(1) == sv.drop_first());
            }
        } else {
            assert(views(r@) =~= Seq::<Seq<char>>::empty());
            assert(sv.skip(0) == sv);
        }
    }
    while i < segs.len()
        invariant
            i <= segs.len(),
            sv == views(segs@),
            sv.len() == segs.len(),
            views(r@) + named_segments(sv.skip(i as int)) == components(p@),
        decreases segs.len() - i,
    {
        proof {
            lemma_named_segments_step(sv, i as int);
            assert(sv[i as int] == segs@[i as int]@);
        }
        let ghost old_r = views(r@);
        if segs[i].len() == 0 || is_dot(&segs[i]) {
        } else {
            let c = slice_chars(&segs[i], 0, segs[i].len());
            assert(c@ == segs@[i as int]@) by {
                assert(segs@[i as int]@.subrange(0, segs@[i as int]@.len() as int) =~= segs@[i as int]@);
            }
            r.push(c);
            assert(views(r@) =~= old_r.push(c@));
            assert(views(r@) + named_segments(sv.skip(i + 1)) == old_r + (seq![sv[i as int]] + named_segments(sv.skip(i + 1))));
        }
        i = i + 1;
    }
    assert(sv.skip(i as int).len() == 0);
    assert(named_segments(sv.skip(i as int)) == Seq::<Seq<char>>::empty());
    assert(views(r@) + named_segments(sv.skip(i as int)) == views(r@));
    r
}

fn same_chars(a: &Vec<char>, b: &Vec<char>) -> (r: bool)
    ensures
        r == (a@ == b@),
{
    if a.len() != b.len() {
        return false;
    }
    let mut i: usize = 0;
    while i < a.len()
        invariant
            i <= a.len(),
            a.len() == b.len(),
            forall|j: int| 0 <= j < i ==> a@[j] == b@[j],
        decreases a.len() - i,
    {
        if a[i] != b[i] {
            return false;
        }
        i = i + 1;
    }
    assert(a@ =~= b@);
    true
}

/// `Path::starts_with`.
pub fn starts_with_path(p: &str, base: &str) -> (r: bool)
    ensures
        r == path_starts_with(p@, base@),
{
    let pc = components_of(&chars_of(p));
    let bc = components_of(&chars_of(base));
    if bc.len() > pc.len() {
        return false;
    }
    let mut i: usize = 0;
    while i < bc.len()
        invariant
            i <= bc.len() <= pc.len(),
            views(bc@) == components(base@),
            views(pc@) == components(p@),
            forall|j: int| 0 <= j < i ==> views(bc@)[j] == views(pc@)[j],
        decreases bc.len() - i,
    {
        if !same_chars(&bc[i], &pc[i]) {
            assert(views(bc@)[i as int] != views(pc@)[i as int]);
            return false;
        }
        i = i + 1;
    }
    true
}

/// `Path::join` of two paths, as a string.
pub fn join_path(base: &str, rel: &str) -> (r: String)
    ensures
        r@ == path_join(base@, rel@),
{
    let b = chars_of(base);
    let rv = chars_of(rel);
    if rv.len() > 0 && rv[0] == '/' {
        string_of(rv.as_slice())
    } else if b.len() == 0 || b[b.len() - 1] == '/' {
        let j = concat(&b, &rv);
        string_of(j.as_slice())
    } else {
        let mut j = slice_chars(&b, 0, b.len());
        assert(j@ == b@) by {
            assert(b@.subrange(0, b@.len() as int) =~= b@);
        }
        j.push('/');
        let k = concat(&j, &rv);
        string_of(k.as_slice())
    }
}

/// `Path::file_name`, as a string.
pub fn file_name_of(p: &str) -> (r: Option<String>)
    ensures
        match r {
            Some(n) => path_file_name(p@) == Some(n@),
            None => path_file_name(p@) is None,
        },
{
    let c = components_of(&chars_of(p));
    if c.len() == 0 {
        return None;
    }
    let last = &c[c.len() - 1];
    assert(last@ == components(p@).last());
    let root = vec!['/'];
    let dot = vec!['.'];
    if same_chars(last, &root) || is_dot(last) || is_dot_dot(last) {
        assert(root@ =~= seq!['/']);
        None
    } else {
        assert(root@ =~= seq!['/']);
        Some(string_of(last.as_slice()))
    }
}

/// A single name to push onto a path: not empty, no `/`, and not `.`.
pub open spec fn is_plain_name(n: Seq<char>) -> bool {
    &&& n.len() > 0
    &&& forall|i: int| 0 <= i < n.len() ==> #[trigger] n[i] != '/'
    &&& n != seq!['.']
}

proof fn lemma_split_no_sep(n: Seq<char>)
    requires
        forall|i: int| 0 <= i < n.len() ==> #[trigger] n[i] != '/',
    ensures
        split_char(n, '/') == seq![n],
{
    assert forall|j: int| 0 <= j < n.len() implies #[trigger] ne_pred('/')(n[j]) by {}
    crate::text::lemma_run_len_at(n, ne_pred('/'), n.len() as int);
}

/// Splitting `t/n` gives the segments of `t` and then `n`.
proof fn lemma_split_append(t: Seq<char>, n: Seq<char>)
    requires
        forall|i: int| 0 <= i < n.len() ==> #[trigger] n[i] != '/',
    ensures
        split_char(t + seq!['/'] + n, '/') == split_char(t, '/').push(n),
    decreases t.len(),
{
    let s = t + seq!['/'] + n;
    crate::text::lemma_run_len(t, ne_pred('/'));
    let i = run_len(t, ne_pred('/')) as int;
    if i >= t.len() {
        assert forall|j: int| 0 <= j < t.len() implies #[trigger] ne_pred('/')(s[j]) by {
            assert(s[j] == t[j]);
        }
        crate::text::lemma_run_len_at(s, ne_pred('/'), t.len() as int);
        assert(s.take(t.len() as int) =~= t);
        assert(s.skip(t.len() as int + 1) =~= n);
        lemma_split_no_sep(n);
        assert(split_char(t, '/') == seq![t]);
        assert(split_char(s, '/') =~= split_char(t, '/').push(n));
    } else {
        assert forall|j: int| 0 <= j < i implies #[trigger] ne_pred('/')(s[j]) by {
            assert(s[j] == t[j]);
        }
        assert(s[i] == t[i]);
        crate::text::lemma_run_len_at(s, ne_pred('/'), i);
        let rest = t.skip(i + 1);
        assert(s.skip(i + 1) =~= rest + seq!['/'] + n);
        assert(s.take(i) =~= t.take(i));
        lemma_split_append(rest, n);
        assert(split_char(s, '/') =~= split_char(t, '/').push(n));
    }
}

proof fn lemma_named_single(x: Seq<char>)
    ensures
        named_segments(seq![x]) == (if x.len() == 0 || x == seq!['.'] {
            Seq::<Seq<char>>::empty()
        } else {
            seq![x]
        }),
{
    assert(seq![x].drop_first() =~= Seq::<Seq<char>>::empty());
    assert(named_segments(Seq::<Seq<char>>::empty()) == Seq::<Seq<char>>::empty());
    assert(named_segments(seq![x].drop_first()) == Seq::<Seq<char>>::empty());
    if !(x.len() == 0 || x == seq!['.']) {
        assert(seq![x] + Seq::<Seq<char>>::empty() =~= seq![x]);
    }
}

proof fn lemma_named_push(segs: Seq<Seq<char>>, n: Seq<char>)
    requires
        n.len() > 0,
        n != seq!['.'],
    ensures
        named_segments(segs.push(n)) == named_segments(segs).push(n),
    decreases segs.len(),
{
    if segs.len() == 0 {
        assert(segs.push(n) =~= seq![n]);
        lemma_named_single(n);
        assert(named_segments(segs) == Seq::<Seq<char>>::empty());
        assert(named_segments(segs).push(n) =~= seq![n]);
    } else {
        assert(segs.push(n).drop_first() =~= segs.drop_first().push(n));
        assert(segs.push(n)[0] == segs[0]);
        lemma_named_push(segs.drop_first(), n);
        assert(named_segments(segs.push(n)) =~= named_segments(segs).push(n));
    }
}

proof fn lemma_named_push_empty(segs: Seq<Seq<char>>)
    ensures
        named_segments(segs.push(Seq::<char>::empty())) == named_segments(segs),
    decreases segs.len(),
{
    let e = Seq::<char>::empty();
    if segs.len() == 0 {
        assert(segs.push(e) =~= seq![e]);
        lemma_named_single(e);
        assert(named_segments(segs) == Seq::<Seq<char>>::empty());
    } else {
        assert(segs.push(e).drop_first() =~= segs.drop_first().push(e));
        assert(segs.push(e)[0] == segs[0]);
        lemma_named_push_empty(segs.drop_first());
    }
}

/// The components of `t/` and `t/n`, in every branch of `components`.
proof fn lemma_components_segs(p: Seq<char>, q: Seq<char>, t: Seq<char>, n: Seq<char>)
    requires
        is_plain_name(n),
        split_char(p, '/') == split_char(t, '/').push(Seq::<char>::empty()),
        split_char(q, '/') == split_char(t, '/').push(n),
        p.len() > 0,
        q.len() > 0,
        p[0] == q[0],
    ensures
        components(q) == components(p).push(n),
{
    let e = Seq::<char>::empty();
    lemma_split_char_nonempty(t, '/');
    let st = split_char(t, '/');
    assert(st.push(e)[0] == st[0]);
    assert(st.push(n)[0] == st[0]);
    assert(st.push(e).drop_first() =~= st.drop_first().push(e));
    assert(st.push(n).drop_first() =~= st.drop_first().push(n));
    lemma_named_push_empty(st.drop_first());
    lemma_named_push_empty(st);
    lemma_named_push(st.drop_first(), n);
    lemma_named_push(st, n);
    let dp = named_segments(split_char(p, '/').drop_first());
    let dq = named_segments(split_char(q, '/').drop_first());
    assert(dp == named_segments(st.drop_first()));
    assert(dq == named_segments(st.drop_first()).push(n));
    let wp = named_segments(split_char(p, '/'));
    let wq = named_segments(split_char(q, '/'));
    assert(wp == named_segments(st));
    assert(wq == named_segments(st).push(n));
    if p[0] == '/' {
        assert(components(p) == seq![seq!['/']] + dp);
        assert(components(q) == seq![seq!['/']] + dq);
        assert(components(q) =~= components(p).push(n));
    } else if st[0] == seq!['.'] {
        assert(components(p) == seq![seq!['.']] + dp);
        assert(components(q) == seq![seq!['.']] + dq);
        assert(components(q) =~= components(p).push(n));
    } else {
        assert(components(p) == wp);
        assert(components(q) == wq);
    }
}

/// Pushing a plain name adds exactly that component.
pub proof fn lemma_components_join(b: Seq<char>, n: Seq<char>)
    requires
        is_plain_name(n),
    ensures
        components(path_join(b, n)) == components(b).push(n),
{
    let j = path_join(b, n);
    if b.len() == 0 {
        assert(j == n);
        lemma_split_no_sep(n);
        assert(split_char(b, '/') == seq![b]) by {
            crate::text::lemma_run_len_at(b, ne_pred('/'), 0);
        }
        lemma_named_single(b);
        lemma_named_single(n);
        assert(components(j) =~= components(b).push(n));
    } else if b.last() == '/' {
        let t = b.drop_last();
        assert(b =~= t + seq!['/'] + Seq::<char>::empty());
        assert(j =~= t + seq!['/'] + n);
        lemma_split_append(t, Seq::<char>::empty());
        lemma_split_append(t, n);
        assert(j[0] == b[0]);
        lemma_components_segs(b, j, t, n);
    } else {
        assert(j =~= b + seq!['/'] + n);
        lemma_split_append(b, n);
        assert(j[0] == b[0]);
        lemma_components_segs_self(b, j, n);
    }
}

/// The components of `b/n` when `b` does not end in `/`.
proof fn lemma_components_segs_self(b: Seq<char>, j: Seq<char>, n: Seq<char>)
    requires
        is_plain_name(n),
        b.len() > 0,
        b.last() != '/',
        j == b + seq!['/'] + n,
        split_char(j, '/') == split_char(b, '/').push(n),
    ensures
        components(j) == components(b).push(n),
{
    lemma_split_char_nonempty(b, '/');
    let sb = split_char(b, '/');
    assert(j[0] == b[0]);
    assert(sb.push(n)[0] == sb[0]);
    assert(sb.push(n).drop_first() =~= sb.drop_first().push(n));
    lemma_named_push(sb.drop_first(), n);
    lemma_named_push(sb, n);
    assert(components(j) =~= components(b).push(n));
}

} // verus!
