//! Markdown rendering: bundle links are rewritten to concept IDs, then the
//! markdown is rendered to HTML by `comrak`.
use vstd::prelude::*;
use vstd::string::*;

use crate::text::{
    ascii_lower, ascii_lowercase, char_ascii_lower, char_is_ws, chars_of, find_char, is_suffix, is_ws,
    join, join_strings, lemma_next_char, lemma_split_pieces_len, next_char, owned, push_char,
    split_bounds, split_pieces, string_of_range, trim_char, trim_matches_char, trim_start, views,
};

verus! {

/// An ASCII letter.
pub open spec fn is_ascii_alpha(c: char) -> bool {
    ('a' <= c && c <= 'z') || ('A' <= c && c <= 'Z')
}

/// A character allowed in a URL scheme after the first: ASCII alphanumeric, `+`,
/// `-` or `.`.
pub open spec fn is_scheme_char(c: char) -> bool {
    is_ascii_alpha(c) || ('0' <= c && c <= '9') || c == '+' || c == '-' || c == '.'
}

/// `url` has a scheme: the text before its first `:` is non-empty, starts with an
/// ASCII letter and holds only scheme characters.
pub open spec fn is_external_url(url: Seq<char>) -> bool {
    let k = next_char(url, ':', 0);
    &&& k < url.len()
    &&& k > 0
    &&& is_ascii_alpha(url[0])
    &&& forall|i: int| 0 <= i < k ==> is_scheme_char(#[trigger] url[i])
}

/// Whether `url` has a scheme (`https:`, `mailto:`, ...) and so points outside the
/// bundle.
pub fn is_external(url: &str) -> (r: bool)
    ensures
        r == is_external_url(url@),
{
    let v = chars_of(url);
    let k = find_char(&v, ':', 0);
    if k == v.len() || k == 0 {
        return false;
    }
    let c0 = v[0];
    if !(('a' <= c0 && c0 <= 'z') || ('A' <= c0 && c0 <= 'Z')) {
        return false;
    }
    let mut i: usize = 0;
    while i < k
        invariant
            i <= k < v@.len(),
            v@ == url@,
            k == next_char(url@, ':', 0),
            forall|j: int| 0 <= j < i ==> is_scheme_char(#[trigger] v@[j]),
        decreases k - i,
    {
        let c = v[i];
        if !(('a' <= c && c <= 'z') || ('A' <= c && c <= 'Z') || ('0' <= c && c <= '9') || c == '+'
            || c == '-' || c == '.') {
            assert(!is_scheme_char(v@[i as int]));
            return false;
        }
        i = i + 1;
    }
    true
}

/// `.`
pub open spec fn dot() -> Seq<char> {
    seq!['.']
}

/// `..`
pub open spec fn dot_dot() -> Seq<char> {
    seq!['.', '.']
}

/// The segments left after walking `ps`: empty and `.` segments are skipped,
/// `..` drops the last segment kept so far (if any), others are kept.
pub open spec fn walk_segments(ps: Seq<Seq<char>>) -> Seq<Seq<char>>
    decreases ps.len(),
{
    if ps.len() == 0 {
        seq![]
    } else {
        let s = walk_segments(ps.drop_last());
        let p = ps.last();
        if p.len() == 0 || p == dot() {
            s
        } else if p == dot_dot() {
            if s.len() > 0 {
                s.drop_last()
            } else {
                s
            }
        } else {
            s.push(p)
        }
    }
}

/// `path` normalized: its `/`-separated segments walked (see [`walk_segments`])
/// and joined with `/`.
pub open spec fn normalized(path: Seq<char>) -> Seq<char> {
    join(walk_segments(split_pieces(path, '/')), seq!['/'])
}

/// `c` does not occur in `s`.
pub open spec fn free_of(s: Seq<char>, c: char) -> bool {
    forall|k: int| 0 <= k < s.len() ==> s[k] != c
}

/// A segment a normalized path keeps: not empty, `.` or `..`, and without `/`.
pub open spec fn kept_segment(p: Seq<char>) -> bool {
    p.len() > 0 && p != dot() && p != dot_dot() && free_of(p, '/')
}

/// The pieces of a split hold no separator.
proof fn lemma_pieces_free(s: Seq<char>, c: char)
    ensures
        forall|i: int| 0 <= i < split_pieces(s, c).len() ==> free_of(#[trigger] split_pieces(s, c)[i], c),
    decreases s.len(),
{
    if s.len() > 0 {
        lemma_pieces_free(s.drop_last(), c);
        lemma_split_pieces_len(s.drop_last(), c);
        let p = split_pieces(s.drop_last(), c);
        assert forall|i: int| 0 <= i < split_pieces(s, c).len() implies free_of(#[trigger] split_pieces(s, c)[i], c) by {
            if s.last() != c && i == p.len() - 1 {
                let q = p.last().push(s.last());
                assert(split_pieces(s, c)[i] == q);
                assert forall|k: int| 0 <= k < q.len() implies q[k] != c by {
                    if k < p.last().len() {
                        assert(q[k] == p[p.len() - 1][k]);
                    }
                }
            }
        }
    }
}

/// Splitting text without the separator gives the text back as one piece.
proof fn lemma_split_free(b: Seq<char>, c: char)
    requires
        free_of(b, c),
    ensures
        split_pieces(b, c) == seq![b],
    decreases b.len(),
{
    if b.len() > 0 {
        assert(free_of(b.drop_last(), c));
        lemma_split_free(b.drop_last(), c);
        assert(b.drop_last().push(b.last()) =~= b);
        assert(split_pieces(b, c) =~= seq![b]);
    } else {
        assert(b =~= Seq::<char>::empty());
    }
}

/// Splitting `a`, a separator and text without it adds that text as a piece.
proof fn lemma_split_append(a: Seq<char>, c: char, b: Seq<char>)
    requires
        free_of(b, c),
    ensures
        split_pieces(a + seq![c] + b, c) == split_pieces(a, c).push(b),
    decreases b.len(),
{
    let s = a + seq![c] + b;
    if b.len() == 0 {
        assert(s.drop_last() =~= a);
        assert(b =~= Seq::<char>::empty());
    } else {
        let b0 = b.drop_last();
        assert(free_of(b0, c));
        lemma_split_append(a, c, b0);
        assert(s.drop_last() =~= a + seq![c] + b0);
        assert(b0.push(b.last()) =~= b);
        assert(split_pieces(s, c) =~= split_pieces(a, c).push(b));
    }
}

/// Splitting joined pieces without the separator gives the pieces back.
proof fn lemma_split_join(w: Seq<Seq<char>>)
    requires
        w.len() > 0,
        forall|i: int| 0 <= i < w.len() ==> free_of(#[trigger] w[i], '/'),
    ensures
        split_pieces(join(w, seq!['/']), '/') == w,
    decreases w.len(),
{
    if w.len() == 1 {
        lemma_split_free(w[0], '/');
        assert(w =~= seq![w[0]]);
    } else {
        let d = w.drop_last();
        assert forall|i: int| 0 <= i < d.len() implies free_of(#[trigger] d[i], '/') by {
            assert(d[i] == w[i]);
        }
        lemma_split_join(d);
        lemma_split_append(join(d, seq!['/']), '/', w.last());
        assert(d.push(w.last()) =~= w);
    }
}

/// The segments left after a walk are kept segments, given pieces without `/`.
proof fn lemma_walk_kept(ps: Seq<Seq<char>>)
    requires
        forall|i: int| 0 <= i < ps.len() ==> free_of(#[trigger] ps[i], '/'),
    ensures
        forall|i: int| 0 <= i < walk_segments(ps).len() ==> kept_segment(#[trigger] walk_segments(ps)[i]),
    decreases ps.len(),
{
    if ps.len() > 0 {
        let d = ps.drop_last();
        assert forall|i: int| 0 <= i < d.len() implies free_of(#[trigger] d[i], '/') by {
            assert(d[i] == ps[i]);
        }
        lemma_walk_kept(d);
        let w = walk_segments(d);
        assert forall|i: int| 0 <= i < walk_segments(ps).len() implies kept_segment(#[trigger] walk_segments(ps)[i]) by {
            if i < w.len() {
                assert(walk_segments(ps)[i] == w[i]);
            }
        }
    }
}

/// Walking kept segments keeps them all.
proof fn lemma_walk_identity(w: Seq<Seq<char>>)
    requires
        forall|i: int| 0 <= i < w.len() ==> kept_segment(#[trigger] w[i]),
    ensures
        walk_segments(w) == w,
    decreases w.len(),
{
    if w.len() > 0 {
        let d = w.drop_last();
        assert forall|i: int| 0 <= i < d.len() implies kept_segment(#[trigger] d[i]) by {
            assert(d[i] == w[i]);
        }
        lemma_walk_identity(d);
        assert(kept_segment(w[w.len() - 1]));
        assert(d.push(w.last()) =~= w);
    }
}

/// Normalizing a normalized path changes nothing.
pub proof fn lemma_normalized_idempotent(path: Seq<char>)
    ensures
        normalized(normalized(path)) == normalized(path),
{
    let ps = split_pieces(path, '/');
    lemma_pieces_free(path, '/');
    lemma_walk_kept(ps);
    let w = walk_segments(ps);
    if w.len() == 0 {
        assert(join(w, seq!['/']) =~= Seq::<char>::empty());
        assert(split_pieces(Seq::<char>::empty(), '/') =~= seq![Seq::<char>::empty()]);
        let e = seq![Seq::<char>::empty()];
        assert(e.drop_last() =~= Seq::<Seq<char>>::empty());
        assert(walk_segments(Seq::<Seq<char>>::empty()) =~= Seq::<Seq<char>>::empty());
        assert(e.last().len() == 0);
        assert(walk_segments(e) =~= Seq::<Seq<char>>::empty());
    } else {
        assert forall|i: int| 0 <= i < w.len() implies free_of(#[trigger] w[i], '/') by {
            assert(kept_segment(w[i]));
        }
        lemma_split_join(w);
        lemma_walk_identity(w);
    }
}

/// A normalized path is empty, or each of its `/`-separated segments is kept:
/// none is empty, `.` or `..`.
pub proof fn lemma_normalized_segments(path: Seq<char>)
    ensures
        normalized(path).len() == 0 || forall|i: int|
            0 <= i < split_pieces(normalized(path), '/').len() ==> kept_segment(
                #[trigger] split_pieces(normalized(path), '/')[i],
            ),
{
    let ps = split_pieces(path, '/');
    lemma_pieces_free(path, '/');
    lemma_walk_kept(ps);
    let w = walk_segments(ps);
    if w.len() == 0 {
        assert(join(w, seq!['/']) =~= Seq::<char>::empty());
    } else {
        assert forall|i: int| 0 <= i < w.len() implies free_of(#[trigger] w[i], '/') by {
            assert(kept_segment(w[i]));
        }
        lemma_split_join(w);
    }
}

/// Normalizes a bundle path (see [`normalized`]).
pub fn normalize_path(path: &str) -> (r: String)
    ensures
        r@ == normalized(path@),
{
    let v = chars_of(path);
    let bounds = split_bounds(&v, '/');
    let ghost ps = split_pieces(v@, '/');
    let mut segs: Vec<String> = Vec::new();
    let mut i: usize = 0;
    while i < bounds.len()
        invariant
            i <= bounds@.len(),
            bounds@.len() == ps.len(),
            ps == split_pieces(v@, '/'),
            forall|k: int|
                0 <= k < bounds@.len() ==> bounds@[k].0 <= bounds@[k].1 <= v@.len() && v@.subrange(
                    #[trigger] bounds@[k].0 as int,
                    bounds@[k].1 as int,
                ) == ps[k],
            views(segs@) == walk_segments(ps.take(i as int)),
        decreases bounds.len() - i,
    {
        let (a, b) = bounds[i];
        let ghost p = v@.subrange(a as int, b as int);
        assert(p == ps[i as int]);
        assert(ps.take(i + 1).drop_last() =~= ps.take(i as int));
        assert(ps.take(i + 1).last() == p);
        if b == a {
        } else if b - a == 1 && v[a] == '.' {
            assert(p =~= dot());
        } else if b - a == 2 && v[a] == '.' && v[a + 1] == '.' {
            assert(p =~= dot_dot());
            let ghost before = segs@;
            if segs.len() > 0 {
                segs.pop();
                assert(views(segs@) =~= views(before).drop_last());
            }
        } else {
            assert(p != dot()) by {
                if p == dot() {
                    assert(p[0] == '.');
                }
            }
            assert(p != dot_dot()) by {
                if p == dot_dot() {
                    assert(p[0] == '.' && p[1] == '.');
                }
            }
            let ghost before = segs@;
            let s = string_of_range(&v, a, b);
            segs.push(s);
            assert(views(segs@) =~= views(before).push(p));
        }
        i = i + 1;
    }
    assert(ps.take(ps.len() as int) =~= ps);
    let mut sep = String::new();
    push_char(&mut sep, '/');
    assert(sep@ =~= seq!['/']);
    join_strings(&segs, sep.as_str())
}

} // verus!

verus! {

/// `.md`
pub open spec fn md_suffix() -> Seq<char> {
    seq!['.', 'm', 'd']
}

/// `s` without its trailing `.md`s (`str::trim_end_matches(".md")`).
pub open spec fn strip_md(s: Seq<char>) -> Seq<char>
    decreases s.len(),
{
    if is_suffix(md_suffix(), s) {
        strip_md(s.subrange(0, s.len() - 3))
    } else {
        s
    }
}

/// Where a markdown link `url` in a file in directory `base_dir` points:
/// anchors and external URLs are kept; a bundle path is resolved against the
/// bundle root (a leading `/`) or against `base_dir`, normalized, stripped of
/// `.md` suffixes and rooted with `/`; a `#fragment` is kept.
pub open spec fn resolved_link(url: Seq<char>, base_dir: Seq<char>) -> Seq<char> {
    let h = next_char(url, '#', 0);
    let path = url.subrange(0, h);
    let fragment = url.subrange(h, url.len() as int);
    if path.len() == 0 || is_external_url(path) {
        url
    } else {
        let base = trim_char(base_dir, '/');
        let resolved = if path[0] == '/' {
            normalized(path)
        } else if base.len() == 0 {
            normalized(path)
        } else {
            normalized(base + seq!['/'] + path)
        };
        let stripped = strip_md(resolved);
        let rooted = if stripped.len() > 0 && stripped[0] == '/' {
            stripped
        } else {
            seq!['/'] + stripped
        };
        rooted + fragment
    }
}

/// `strip_md` leaves no `.md` at the end.
pub proof fn lemma_strip_md(s: Seq<char>)
    ensures
        !is_suffix(md_suffix(), strip_md(s)),
    decreases s.len(),
{
    if is_suffix(md_suffix(), s) {
        lemma_strip_md(s.subrange(0, s.len() - 3));
    }
}

/// What link rewriting does: an anchor or an external URL stays as it is; any
/// other link becomes a path rooted at `/`, with no `.md` at the end of its
/// path, followed by the link's own `#fragment`.
pub proof fn lemma_resolved_link_shape(url: Seq<char>, base_dir: Seq<char>)
    ensures
        ({
            let h = next_char(url, '#', 0);
            let path = url.subrange(0, h);
            let fragment = url.subrange(h, url.len() as int);
            let r = resolved_link(url, base_dir);
            &&& (path.len() == 0 || is_external_url(path)) ==> r == url
            &&& !(path.len() == 0 || is_external_url(path)) ==> {
                &&& r.len() > fragment.len()
                &&& r[0] == '/'
                &&& r.subrange(r.len() - fragment.len(), r.len() as int) == fragment
                &&& !is_suffix(md_suffix(), r.subrange(0, r.len() - fragment.len()))
            }
        }),
{
    lemma_next_char(url, '#', 0);
    let h = next_char(url, '#', 0);
    let path = url.subrange(0, h);
    let fragment = url.subrange(h, url.len() as int);
    if !(path.len() == 0 || is_external_url(path)) {
        let base = trim_char(base_dir, '/');
        let resolved = if path[0] == '/' {
            normalized(path)
        } else if base.len() == 0 {
            normalized(path)
        } else {
            normalized(base + seq!['/'] + path)
        };
        let stripped = strip_md(resolved);
        lemma_strip_md(resolved);
        let rooted = if stripped.len() > 0 && stripped[0] == '/' {
            stripped
        } else {
            seq!['/'] + stripped
        };
        let r = rooted + fragment;
        assert(r.subrange(r.len() - fragment.len(), r.len() as int) =~= fragment);
        assert(r.subrange(0, r.len() - fragment.len()) =~= rooted);
        if !(stripped.len() > 0 && stripped[0] == '/') {
            if is_suffix(md_suffix(), rooted) {
                assert(rooted.len() >= 3);
                if stripped.len() >= 3 {
                    assert(stripped.subrange(stripped.len() - 3, stripped.len() as int) =~= rooted.subrange(
                        rooted.len() - 3,
                        rooted.len() as int,
                    ));
                } else {
                    assert(rooted.len() == 3);
                    assert(rooted[0] == '/');
                    assert(rooted.subrange(0, 3)[0] == md_suffix()[0]);
                }
            }
        }
    }
}

/// Resolves a markdown link target (see [`resolved_link`]).
pub fn resolve_link(url: &str, base_dir: &str) -> (r: String)
    ensures
        r@ == resolved_link(url@, base_dir@),
{
    let v = chars_of(url);
    let h = find_char(&v, '#', 0);
    let path = string_of_range(&v, 0, h);
    let fragment = string_of_range(&v, h, v.len());
    if h == 0 || is_external(path.as_str()) {
        return owned(url);
    }
    let base = trim_matches_char(base_dir, '/');
    assert(path@[0] == v@[0]);
    let resolved = if v[0] == '/' {
        normalize_path(path.as_str())
    } else if base.as_str().is_empty() {
        normalize_path(path.as_str())
    } else {
        let mut joined = owned(base.as_str());
        push_char(&mut joined, '/');
        joined.append(path.as_str());
        assert(joined@ =~= base@ + seq!['/'] + path@);
        normalize_path(joined.as_str())
    };
    let rv = chars_of(resolved.as_str());
    let md = chars_of(".md");
    proof {
        reveal_strlit(".md");
    }
    assert(md@ =~= md_suffix());
    let mut n = rv.len();
    assert(rv@.subrange(0, n as int) =~= rv@);
    while n >= 3 && ends_with_exec_range(&rv, n, &md)
        invariant
            n <= rv@.len(),
            md@ == md_suffix(),
            strip_md(resolved@) == strip_md(rv@.subrange(0, n as int)),
            rv@ == resolved@,
        decreases n,
    {
        assert(rv@.subrange(0, n as int).subrange(0, n - 3) =~= rv@.subrange(0, n - 3));
        n = n - 3;
    }
    proof {
        let s = rv@.subrange(0, n as int);
        if n < 3 {
            assert(!is_suffix(md_suffix(), s));
        }
    }
    let stripped = string_of_range(&rv, 0, n);
    assert(stripped@ == strip_md(resolved@));
    assert(path@ == url@.subrange(0, next_char(url@, '#', 0)));
    assert(fragment@ == url@.subrange(next_char(url@, '#', 0), url@.len() as int));
    assert(resolved@ == (if path@[0] == '/' {
            normalized(path@)
        } else if trim_char(base_dir@, '/').len() == 0 {
            normalized(path@)
        } else {
            normalized(trim_char(base_dir@, '/') + seq!['/'] + path@)
        }));
    let mut out = if n > 0 && rv[0] == '/' {
        stripped
    } else {
        let mut o = String::new();
        push_char(&mut o, '/');
        o.append(stripped.as_str());
        o
    };
    out.append(fragment.as_str());
    out
}

/// Whether `v[..n]` ends with `p`.
fn ends_with_exec_range(v: &Vec<char>, n: usize, p: &Vec<char>) -> (r: bool)
    requires
        n <= v@.len(),
    ensures
        r == is_suffix(p@, v@.subrange(0, n as int)),
{
    if p.len() > n {
        return false;
    }
    let mut k: usize = 0;
    while k < p.len()
        invariant
            p@.len() <= n <= v@.len(),
            k <= p@.len(),
            forall|j: int| 0 <= j < k ==> v@[n - p@.len() + j] == p@[j],
        decreases p.len() - k,
    {
        if v[n - p.len() + k] != p[k] {
            let ghost s = v@.subrange(0, n as int);
            assert(s.subrange(s.len() - p@.len(), s.len() as int)[k as int] != p@[k as int]);
            return false;
        }
        k = k + 1;
    }
    let ghost s = v@.subrange(0, n as int);
    assert(s.subrange(s.len() - p@.len(), s.len() as int) =~= p@);
    true
}

} // verus!

verus! {

/// A markdown link `[label](url)` starts at `i`: the label runs to the first
/// `]` after `i`, a `(` follows, and the URL up to the next `)` is non-empty and
/// holds no white space (the pattern `\[([^\]]*)\]\(([^)\s]+)\)`).
pub open spec fn link_at(s: Seq<char>, i: int) -> bool {
    let j = next_char(s, ']', i + 1);
    let k = next_char(s, ')', j + 2);
    &&& 0 <= i < s.len()
    &&& s[i] == '['
    &&& j + 1 < s.len()
    &&& s[j + 1] == '('
    &&& k < s.len()
    &&& k > j + 2
    &&& forall|t: int| j + 2 <= t < k ==> !is_ws(#[trigger] s[t])
}

/// `s` from `i` on with every link found left to right (the leftmost match
/// first, matches not overlapping) rewritten to `[label](target)`, where
/// `target` is the link's URL resolved against `base_dir` (see
/// [`resolved_link`]).
pub open spec fn rewritten(s: Seq<char>, base_dir: Seq<char>, i: int) -> Seq<char>
    decreases s.len() - i,
{
    if i < 0 || i >= s.len() {
        seq![]
    } else if link_at(s, i) {
        let j = next_char(s, ']', i + 1);
        let k = next_char(s, ')', j + 2);
        proof {
            lemma_next_char(s, ']', i + 1);
        }
        seq!['['] + s.subrange(i + 1, j) + seq![']', '('] + resolved_link(s.subrange(j + 2, k), base_dir)
            + seq![')'] + rewritten(s, base_dir, k + 1)
    } else {
        seq![s[i]] + rewritten(s, base_dir, i + 1)
    }
}

/// Searching text that follows `t` finds what searching that text alone finds,
/// moved by the length of `t`.
proof fn lemma_next_char_after(t: Seq<char>, u: Seq<char>, c: char, m: int)
    requires
        0 <= m,
    ensures
        next_char(t + u, c, t.len() + m) == t.len() + next_char(u, c, m),
    decreases u.len() - m,
{
    if m < u.len() {
        assert((t + u)[t.len() + m] == u[m]);
        lemma_next_char_after(t, u, c, m + 1);
    }
}

/// Searching `t` followed by other text finds what searching `t` alone finds,
/// when that is inside `t`.
proof fn lemma_next_char_before(t: Seq<char>, u: Seq<char>, c: char, i: int)
    requires
        0 <= i <= t.len(),
        next_char(t, c, i) < t.len(),
    ensures
        next_char(t + u, c, i) == next_char(t, c, i),
    decreases t.len() - i,
{
    assert((t + u)[i] == t[i]);
    if t[i] != c {
        lemma_next_char_before(t, u, c, i + 1);
    }
}

/// Rewriting text that follows `t` from a position on does not look back at
/// `t`: it gives what rewriting that text alone gives from there.
pub proof fn lemma_rewritten_after(t: Seq<char>, u: Seq<char>, base_dir: Seq<char>, m: int)
    requires
        0 <= m,
    ensures
        rewritten(t + u, base_dir, t.len() + m) == rewritten(u, base_dir, m),
    decreases u.len() - m,
{
    let s = t + u;
    let i = t.len() + m;
    if m < u.len() {
        assert(s[i] == u[m]);
        lemma_next_char_after(t, u, ']', m + 1);
        lemma_next_char(u, ']', m + 1);
        let j = next_char(u, ']', m + 1);
        lemma_next_char_after(t, u, ')', j + 2);
        let k = next_char(u, ')', j + 2);
        if j + 2 <= u.len() {
            lemma_next_char(u, ')', j + 2);
        }
        assert forall|x: int| j + 2 <= x < k implies s[t.len() + x] == u[x] by {}
        if link_at(u, m) {
            assert(forall|x: int| t.len() + j + 2 <= x < t.len() + k ==> !is_ws(#[trigger] s[x])) by {
                assert forall|x: int| t.len() + j + 2 <= x < t.len() + k implies !is_ws(#[trigger] s[x]) by {
                    assert(s[x] == u[x - t.len()]);
                }
            }
            assert(s[t.len() + j + 1] == u[j + 1]);
            assert(link_at(s, i));
            assert(s.subrange(i + 1, t.len() + j) =~= u.subrange(m + 1, j));
            assert(s.subrange(t.len() + j + 2, t.len() + k) =~= u.subrange(j + 2, k));
            lemma_rewritten_after(t, u, base_dir, k + 1);
        } else {
            assert(!link_at(s, i)) by {
                if link_at(s, i) {
                    assert(s[t.len() + j + 1] == u[j + 1]);
                    assert forall|x: int| j + 2 <= x < k implies !is_ws(#[trigger] u[x]) by {
                        assert(s[t.len() + x] == u[x]);
                    }
                }
            }
            lemma_rewritten_after(t, u, base_dir, m + 1);
        }
    }
}

/// Rewriting goes link by link through the whole text: text made of one link
/// `t` and then anything `u` rewrites to the rewritten link followed by `u`
/// rewritten on its own, and a character that cannot open a link is kept and
/// followed by the rest rewritten on its own. So every link of the text is
/// rewritten, not only the first.
pub proof fn lemma_rewritten_compose(t: Seq<char>, u: Seq<char>, base_dir: Seq<char>, ch: char)
    ensures
        link_at(t, 0) && next_char(t, ')', next_char(t, ']', 1) + 2) == t.len() - 1 ==> rewritten(t + u, base_dir, 0)
            == rewritten(t, base_dir, 0) + rewritten(u, base_dir, 0),
        !link_at(seq![ch] + u, 0) ==> rewritten(seq![ch] + u, base_dir, 0) == seq![ch] + rewritten(u, base_dir, 0),
{
    lemma_rewritten_after(t, u, base_dir, 0);
    lemma_rewritten_after(seq![ch], u, base_dir, 0);
    let s = t + u;
    if link_at(t, 0) && next_char(t, ')', next_char(t, ']', 1) + 2) == t.len() - 1 {
        let j = next_char(t, ']', 1);
        let k = t.len() - 1;
        lemma_next_char(t, ']', 1);
        lemma_next_char_before(t, u, ']', 1);
        lemma_next_char(t, ')', j + 2);
        lemma_next_char_before(t, u, ')', j + 2);
        assert(s[0] == t[0]);
        assert(s[j + 1] == t[j + 1]);
        assert forall|x: int| j + 2 <= x < k implies !is_ws(#[trigger] s[x]) by {
            assert(s[x] == t[x]);
        }
        assert(link_at(s, 0));
        assert(s.subrange(1, j) =~= t.subrange(1, j));
        assert(s.subrange(j + 2, k) =~= t.subrange(j + 2, k));
        assert(rewritten(t, base_dir, k + 1) =~= Seq::<char>::empty());
        assert(t.len() + 0 == k + 1);
    }
    if !link_at(seq![ch] + u, 0) {
        let s2 = seq![ch] + u;
        assert(s2[0] == ch);
        assert(1 + 0 == seq![ch].len());
    }
}

/// The first `c` at or after `i` is at `j` when none comes between them and
/// `j` holds one.
proof fn lemma_next_char_at(s: Seq<char>, c: char, i: int, j: int)
    requires
        0 <= i <= j < s.len(),
        forall|x: int| i <= x < j ==> s[x] != c,
        s[j] == c,
    ensures
        next_char(s, c, i) == j,
    decreases j - i,
{
    if i < j {
        lemma_next_char_at(s, c, i + 1, j);
    }
}

/// A link written `[label](url)`, where the label has no `]` and the URL is
/// not empty and has neither `)` nor white space, is rewritten to
/// `[label](target)` with the URL resolved against `base_dir`, and the text
/// after it is rewritten on its own.
pub proof fn lemma_rewritten_link(label: Seq<char>, url: Seq<char>, u: Seq<char>, base_dir: Seq<char>)
    requires
        forall|x: int| 0 <= x < label.len() ==> label[x] != ']',
        url.len() > 0,
        forall|x: int| 0 <= x < url.len() ==> url[x] != ')' && !is_ws(#[trigger] url[x]),
    ensures
        rewritten(seq!['['] + label + seq![']', '('] + url + seq![')'] + u, base_dir, 0) == seq!['['] + label
            + seq![']', '('] + resolved_link(url, base_dir) + seq![')'] + rewritten(u, base_dir, 0),
{
    let t = seq!['['] + label + seq![']', '('] + url + seq![')'];
    let s = t + u;
    let n = label.len() as int;
    let j = 1 + n;
    let k = j + 2 + url.len();
    assert(t.len() == k + 1);
    assert forall|x: int| 1 <= x < j implies t[x] == label[x - 1] by {}
    assert forall|x: int| j + 2 <= x < k implies t[x] == url[x - j - 2] by {}
    assert(t[j] == ']' && t[j + 1] == '(' && t[k] == ')' && t[0] == '[');
    lemma_next_char_at(t, ']', 1, j);
    lemma_next_char_at(t, ')', j + 2, k);
    assert forall|x: int| j + 2 <= x < k implies !is_ws(#[trigger] t[x]) by {
        assert(t[x] == url[x - j - 2]);
    }
    assert(link_at(t, 0));
    lemma_rewritten_compose(t, u, base_dir, '[');
    assert(t.subrange(1, j) =~= label);
    assert(t.subrange(j + 2, k) =~= url);
    assert(rewritten(t, base_dir, k + 1) =~= Seq::<char>::empty());
    assert(rewritten(t, base_dir, 0) == seq!['['] + t.subrange(1, j) + seq![']', '('] + resolved_link(
        t.subrange(j + 2, k),
        base_dir,
    ) + seq![')'] + rewritten(t, base_dir, k + 1));
    assert(rewritten(t, base_dir, 0) =~= seq!['['] + label + seq![']', '('] + resolved_link(url, base_dir) + seq![')']);
}

/// The positions `(j, k)` of the `]` and the closing `)` of a link at `i`.
fn link_match(v: &Vec<char>, i: usize) -> (r: Option<(usize, usize)>)
    requires
        i < v@.len(),
    ensures
        r is Some <==> link_at(v@, i as int),
        r matches Some((j, k)) ==> j == next_char(v@, ']', i + 1) && k == next_char(v@, ')', j + 2)
            && i < j && j + 2 < k < v@.len(),
{
    let n = v.len();
    if v[i] != '[' {
        return None;
    }
    let j = find_char(v, ']', i + 1);
    if j >= n - 1 || v[j + 1] != '(' {
        return None;
    }
    let k = find_char(v, ')', j + 2);
    if k == v.len() || k <= j + 2 {
        return None;
    }
    let mut t = j + 2;
    while t < k
        invariant
            j + 2 <= t <= k < v@.len(),
            i < v@.len(),
            v@[i as int] == '[',
            j == next_char(v@, ']', i + 1),
            k == next_char(v@, ')', j + 2),
            v@[j + 1] == '(',
            forall|u: int| j + 2 <= u < t ==> !is_ws(#[trigger] v@[u]),
        decreases k - t,
    {
        if char_is_ws(v[t]) {
            assert(is_ws(v@[t as int]));
            return None;
        }
        t = t + 1;
    }
    Some((j, k))
}

/// Rewrites the bundle links of a markdown text (see [`rewritten`]).
pub fn rewrite_links(markdown: &str, base_dir: &str) -> (r: String)
    ensures
        r@ == rewritten(markdown@, base_dir@, 0),
{
    let v = chars_of(markdown);
    let mut out = String::new();
    let mut i: usize = 0;
    while i < v.len()
        invariant
            i <= v@.len(),
            v@ == markdown@,
            out@ + rewritten(v@, base_dir@, i as int) == rewritten(v@, base_dir@, 0),
        decreases v.len() - i,
    {
        match link_match(&v, i) {
            Some((j, k)) => {
                let ghost before = out@;
                let url = string_of_range(&v, j + 2, k);
                let label = string_of_range(&v, i + 1, j);
                push_char(&mut out, '[');
                out.append(label.as_str());
                push_char(&mut out, ']');
                push_char(&mut out, '(');
                let target = resolve_link(url.as_str(), base_dir);
                out.append(target.as_str());
                push_char(&mut out, ')');
                assert(out@ =~= before + (seq!['['] + v@.subrange(i + 1, j as int) + seq![']', '(']
                    + resolved_link(v@.subrange(j + 2, k as int), base_dir@) + seq![')']));
                i = k + 1;
            },
            None => {
                let ghost before = out@;
                push_char(&mut out, v[i]);
                assert(out@ =~= before + seq![v@[i as int]]);
                i = i + 1;
            },
        }
    }
    assert(out@ + rewritten(v@, base_dir@, i as int) =~= out@);
    out
}

} // verus!

verus! {

/// The `comrak` options a bundle renders with.
#[derive(Clone, Copy, Debug, PartialEq, Eq, Structural)]
pub struct RenderOptions {
    pub strikethrough: bool,
    pub table: bool,
    pub autolink: bool,
    pub tasklist: bool,
    pub footnotes: bool,
    pub superscript: bool,
    pub hardbreaks: bool,
}

/// Strikethrough, tables, autolinks, task lists, footnotes, superscript and hard
/// line breaks on.
pub open spec fn bundle_options() -> RenderOptions {
    RenderOptions {
        strikethrough: true,
        table: true,
        autolink: true,
        tasklist: true,
        footnotes: true,
        superscript: true,
        hardbreaks: true,
    }
}

/// The options bundles are rendered with.
pub fn build_options() -> (r: RenderOptions)
    ensures
        r == bundle_options(),
{
    RenderOptions {
        strikethrough: true,
        table: true,
        autolink: true,
        tasklist: true,
        footnotes: true,
        superscript: true,
        hardbreaks: true,
    }
}

/// The HTML `comrak` renders for `md` with `opts`.
pub uninterp spec fn comrak_html(md: Seq<char>, opts: RenderOptions) -> Seq<char>;

/// `comrak::markdown_to_html` with the given extensions set on `comrak`'s
/// default options (whose renderer omits raw HTML and dangerous link targets):
/// the result is a function of `md` and `opts` alone; the HTML itself is not
/// stated.
#[verifier::external_body]
fn markdown_to_html(md: &str, opts: RenderOptions) -> (r: String)
    ensures
        r@ == comrak_html(md@, opts),
{
    let mut options = comrak::Options::default();
    options.extension.strikethrough = opts.strikethrough;
    options.extension.table = opts.table;
    options.extension.autolink = opts.autolink;
    options.extension.tasklist = opts.tasklist;
    options.extension.footnotes = opts.footnotes;
    options.extension.superscript = opts.superscript;
    options.render.hardbreaks = opts.hardbreaks;
    comrak::markdown_to_html(md, &options)
}

/// The HTML of a markdown body rendered in directory `base_dir`: its bundle
/// links rewritten, then rendered by `comrak` with the bundle's options.
pub open spec fn rendered(markdown: Seq<char>, base_dir: Seq<char>) -> Seq<char> {
    comrak_html(rewritten(markdown, base_dir, 0), bundle_options())
}

/// Render a markdown body to safe HTML, rewriting bundle links so that `.md`
/// suffixes are dropped (concepts are addressed by their concept ID) and
/// relative links resolve against `base_dir`.
pub fn render_markdown(markdown: &str, base_dir: &str) -> (r: String)
    ensures
        r@ == rendered(markdown@, base_dir@),
{
    let expanded = rewrite_links(markdown, base_dir);
    let options = build_options();
    markdown_to_html(expanded.as_str(), options)
}

/// `mermaid`
pub open spec fn mermaid_word() -> Seq<char> {
    seq!['m', 'e', 'r', 'm', 'a', 'i', 'd']
}

/// The first white-space-separated word of `info`, if any.
pub open spec fn first_word(info: Seq<char>) -> Option<Seq<char>> {
    let t = trim_start(info);
    if t.len() == 0 {
        None
    } else {
        Some(t.subrange(0, first_ws(t, 0)))
    }
}

/// The index of the first white space in `s` at or after `i`, or `s.len()`.
pub open spec fn first_ws(s: Seq<char>, i: int) -> int
    decreases s.len() - i,
{
    if i >= s.len() {
        s.len() as int
    } else if is_ws(s[i]) {
        i
    } else {
        first_ws(s, i + 1)
    }
}

/// Whether the info string of a fenced code block names a Mermaid diagram: its
/// first word is `mermaid`, ASCII case-insensitively.
pub open spec fn is_mermaid(info: Seq<char>) -> bool {
    match first_word(info) {
        Some(w) => ascii_lowercase(w) == mermaid_word(),
        None => false,
    }
}

/// Whether a code block info string names a Mermaid diagram (see [`is_mermaid`]).
pub fn is_mermaid_info(info: &str) -> (r: bool)
    ensures
        r == is_mermaid(info@),
{
    let v = chars_of(info);
    let mut a: usize = 0;
    assert(v@.subrange(0, v@.len() as int) =~= v@);
    while a < v.len() && char_is_ws(v[a])
        invariant
            a <= v@.len(),
            trim_start(v@) == trim_start(v@.subrange(a as int, v@.len() as int)),
        decreases v.len() - a,
    {
        assert(v@.subrange(a as int, v@.len() as int).drop_first() =~= v@.subrange(a + 1, v@.len() as int));
        a = a + 1;
    }
    let ghost t = v@.subrange(a as int, v@.len() as int);
    assert(trim_start(v@) == t);
    if a == v.len() {
        return false;
    }
    let mut b = a;
    while b < v.len() && !char_is_ws(v[b])
        invariant
            a <= b <= v@.len(),
            t == v@.subrange(a as int, v@.len() as int),
            first_ws(t, 0) == first_ws(t, b - a),
        decreases v.len() - b,
    {
        b = b + 1;
    }
    let ghost w = t.subrange(0, b - a);
    assert(w =~= v@.subrange(a as int, b as int));
    assert(first_word(v@) == Some(w));
    if b - a != 7 {
        assert(mermaid_word().len() == 7);
        assert(ascii_lowercase(w).len() == w.len());
        return false;
    }
    let word = chars_of("mermaid");
    proof {
        reveal_strlit("mermaid");
    }
    assert(word@ =~= mermaid_word());
    let mut k: usize = 0;
    while k < 7
        invariant
            k <= 7,
            b - a == 7,
            a + 7 <= v@.len(),
            w =~= v@.subrange(a as int, b as int),
            v@ == info@,
            first_word(info@) == Some(w),
            word@ == mermaid_word(),
            forall|j: int| 0 <= j < k ==> ascii_lower(v@[a + j]) == mermaid_word()[j],
        decreases 7 - k,
    {
        if char_ascii_lower(v[a + k]) != word[k] {
            assert(ascii_lowercase(w)[k as int] != mermaid_word()[k as int]);
            return false;
        }
        k = k + 1;
    }
    assert(ascii_lowercase(w) =~= mermaid_word());
    true
}

} // verus!
