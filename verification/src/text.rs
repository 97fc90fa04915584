//! Character-level text helpers: the `char` views of strings, Unicode
//! white space, trimming, lower-casing, and building strings back up.
use vstd::prelude::*;
use vstd::string::*;

verus! {

/// Whether `c` has the Unicode `White_Space` property (what `char::is_whitespace`
/// and `str::trim` test).
pub open spec fn is_ws(c: char) -> bool {
    ||| ('\u{9}' <= c && c <= '\u{d}')
    ||| c == ' '
    ||| c == '\u{85}'
    ||| c == '\u{a0}'
    ||| c == '\u{1680}'
    ||| ('\u{2000}' <= c && c <= '\u{200a}')
    ||| c == '\u{2028}'
    ||| c == '\u{2029}'
    ||| c == '\u{202f}'
    ||| c == '\u{205f}'
    ||| c == '\u{3000}'
}

/// Exec test of [`is_ws`].
pub fn char_is_ws(c: char) -> (r: bool)
    ensures
        r == is_ws(c),
{
    ('\u{9}' <= c && c <= '\u{d}') || c == ' ' || c == '\u{85}' || c == '\u{a0}' || c == '\u{1680}'
        || ('\u{2000}' <= c && c <= '\u{200a}') || c == '\u{2028}' || c == '\u{2029}' || c
        == '\u{202f}' || c == '\u{205f}' || c == '\u{3000}'
}

/// `s` without its leading white space.
pub open spec fn trim_start(s: Seq<char>) -> Seq<char>
    decreases s.len(),
{
    if s.len() > 0 && is_ws(s[0]) {
        trim_start(s.drop_first())
    } else {
        s
    }
}

/// `s` without its trailing white space.
pub open spec fn trim_end(s: Seq<char>) -> Seq<char>
    decreases s.len(),
{
    if s.len() > 0 && is_ws(s.last()) {
        trim_end(s.drop_last())
    } else {
        s
    }
}

/// `s` without leading and trailing white space (`str::trim`).
pub open spec fn trim(s: Seq<char>) -> Seq<char> {
    trim_end(trim_start(s))
}

/// Every character of `s` is white space.
pub open spec fn all_ws(s: Seq<char>) -> bool {
    forall|i: int| 0 <= i < s.len() ==> is_ws(#[trigger] s[i])
}

/// White space before `x` is dropped by [`trim_start`].
pub proof fn lemma_trim_start_ws(pre: Seq<char>, x: Seq<char>)
    requires
        all_ws(pre),
    ensures
        trim_start(pre + x) == trim_start(x),
    decreases pre.len(),
{
    if pre.len() > 0 {
        let rest = pre.drop_first();
        assert(all_ws(rest)) by {
            assert forall|i: int| 0 <= i < rest.len() implies is_ws(#[trigger] rest[i]) by {
                assert(rest[i] == pre[i + 1]);
            }
        }
        assert((pre + x)[0] == pre[0]);
        assert((pre + x).drop_first() =~= rest + x);
        lemma_trim_start_ws(rest, x);
    } else {
        assert(pre + x =~= x);
    }
}

/// White space after `x` is dropped by [`trim_end`].
pub proof fn lemma_trim_end_ws(x: Seq<char>, post: Seq<char>)
    requires
        all_ws(post),
    ensures
        trim_end(x + post) == trim_end(x),
    decreases post.len(),
{
    if post.len() > 0 {
        let rest = post.drop_last();
        assert(all_ws(rest)) by {
            assert forall|i: int| 0 <= i < rest.len() implies is_ws(#[trigger] rest[i]) by {
                assert(rest[i] == post[i]);
            }
        }
        assert((x + post).last() == post[post.len() - 1]);
        assert((x + post).drop_last() =~= x + rest);
        lemma_trim_end_ws(x, rest);
    } else {
        assert(x + post =~= x);
    }
}

/// Text that neither starts nor ends with white space, between runs of white
/// space, is what [`trim`] leaves.
pub proof fn lemma_trim_padded(pre: Seq<char>, t: Seq<char>, post: Seq<char>)
    requires
        all_ws(pre),
        all_ws(post),
        t.len() > 0,
        !is_ws(t[0]),
        !is_ws(t.last()),
    ensures
        trim(pre + t + post) == t,
{
    assert(pre + t + post =~= pre + (t + post));
    lemma_trim_start_ws(pre, t + post);
    assert((t + post)[0] == t[0]);
    assert(trim_start(t + post) == t + post);
    lemma_trim_end_ws(t, post);
    assert(trim_end(t) == t);
}

/// Bounds `(a, b)` with `v[a..b] == trim(v[lo..hi])`.
pub fn trim_bounds(v: &Vec<char>, lo: usize, hi: usize) -> (r: (usize, usize))
    requires
        lo <= hi <= v@.len(),
    ensures
        lo <= r.0 <= r.1 <= hi,
        v@.subrange(r.0 as int, r.1 as int) == trim(v@.subrange(lo as int, hi as int)),
{
    let mut a = lo;
    while a < hi && char_is_ws(v[a])
        invariant
            lo <= a <= hi <= v@.len(),
            trim_start(v@.subrange(lo as int, hi as int)) == trim_start(
                v@.subrange(a as int, hi as int),
            ),
        decreases hi - a,
    {
        assert(v@.subrange(a as int, hi as int).drop_first() =~= v@.subrange(
            a + 1,
            hi as int,
        ));
        a = a + 1;
    }
    let mut b = hi;
    while b > a && char_is_ws(v[b - 1])
        invariant
            lo <= a <= b <= hi <= v@.len(),
            trim_start(v@.subrange(lo as int, hi as int)) == v@.subrange(a as int, hi as int)
                ==> trim(v@.subrange(lo as int, hi as int)) == trim_end(
                v@.subrange(a as int, b as int),
            ),
            trim_start(v@.subrange(lo as int, hi as int)) == v@.subrange(a as int, hi as int),
        decreases b - a,
    {
        assert(v@.subrange(a as int, b as int).drop_last() =~= v@.subrange(
            a as int,
            b - 1,
        ));
        b = b - 1;
    }
    (a, b)
}

/// Appends `c` to `s` (`String::push`).
#[verifier::external_body]
pub(crate) fn push_char(s: &mut String, c: char)
    ensures
        final(s)@ == old(s)@.push(c),
{
    s.push(c);
}

/// The characters of `s`, one per element.
pub fn chars_of(s: &str) -> (r: Vec<char>)
    ensures
        r@ == s@,
{
    let mut r: Vec<char> = Vec::new();
    for c in it: s.chars()
        invariant
            r@ == it.seq().take(it.index() as int),
    {
        r.push(c);
    }
    r
}

/// The string made of `v[lo..hi]`.
pub fn string_of_range(v: &Vec<char>, lo: usize, hi: usize) -> (r: String)
    requires
        lo <= hi <= v@.len(),
    ensures
        r@ == v@.subrange(lo as int, hi as int),
{
    let mut r = String::new();
    let mut i = lo;
    while i < hi
        invariant
            lo <= i <= hi <= v@.len(),
            r@ == v@.subrange(lo as int, i as int),
        decreases hi - i,
    {
        push_char(&mut r, v[i]);
        assert(v@.subrange(lo as int, i + 1) =~= v@.subrange(lo as int, i as int).push(v@[i as int]));
        i = i + 1;
    }
    r
}

/// The string made of all of `v`.
pub fn string_of(v: &Vec<char>) -> (r: String)
    ensures
        r@ == v@,
{
    let r = string_of_range(v, 0, v.len());
    assert(v@.subrange(0, v@.len() as int) =~= v@);
    r
}

} // verus!

verus! {

/// The index of the first `'\n'` at or after `i`, or `s.len()` when there is none.
pub open spec fn next_nl(s: Seq<char>, i: int) -> int
    decreases s.len() - i,
{
    if i >= s.len() {
        s.len() as int
    } else if s[i] == '\n' {
        i
    } else {
        next_nl(s, i + 1)
    }
}

/// The line that starts at `i` ends at `j` when no newline comes between them
/// and `j` is a newline or the end of `s`.
pub proof fn lemma_next_nl_at(s: Seq<char>, i: int, j: int)
    requires
        0 <= i <= j <= s.len(),
        forall|k: int| i <= k < j ==> s[k] != '\n',
        j == s.len() || s[j] == '\n',
    ensures
        next_nl(s, i) == j,
    decreases j - i,
{
    if i < j {
        lemma_next_nl_at(s, i + 1, j);
    }
}

/// What [`next_nl`] is: the line that starts at `i` holds no newline, and ends at one
/// or at the end of `s`.
pub proof fn lemma_next_nl(s: Seq<char>, i: int)
    requires
        0 <= i <= s.len(),
    ensures
        i <= next_nl(s, i) <= s.len(),
        forall|k: int| i <= k < next_nl(s, i) ==> s[k] != '\n',
        next_nl(s, i) < s.len() ==> s[next_nl(s, i)] == '\n',
    decreases s.len() - i,
{
    if i < s.len() && s[i] != '\n' {
        lemma_next_nl(s, i + 1);
    }
}

/// The index of the first `'\n'` in `v` at or after `i`, or `v.len()`.
pub fn find_nl(v: &Vec<char>, i: usize) -> (r: usize)
    requires
        i <= v@.len(),
    ensures
        r == next_nl(v@, i as int),
        i <= r <= v@.len(),
        forall|k: int| i <= k < r ==> v@[k] != '\n',
        r < v@.len() ==> v@[r as int] == '\n',
{
    proof {
        lemma_next_nl(v@, i as int);
    }
    let mut j = i;
    while j < v.len() && v[j] != '\n'
        invariant
            i <= j <= v@.len(),
            next_nl(v@, j as int) == next_nl(v@, i as int),
        decreases v.len() - j,
    {
        j = j + 1;
    }
    j
}

} // verus!

verus! {

/// The Unicode lower-case mapping of `s`, as `str::to_lowercase` computes it.
pub uninterp spec fn lowercase(s: Seq<char>) -> Seq<char>;

/// `str::to_lowercase`: the result is the Unicode lower-case mapping of `s`, a
/// function of `s` alone. Stated of it: ASCII text maps to its ASCII lower
/// case (`A` to `Z` become `a` to `z`, other ASCII characters stay); what the
/// mapping is for other characters is not stated.
#[verifier::external_body]
pub(crate) fn to_lowercase(s: &str) -> (r: String)
    ensures
        r@ == lowercase(s@),
        (forall|i: int| 0 <= i < s@.len() ==> (#[trigger] s@[i] as u32) < 128) ==> r@ == ascii_lowercase(s@),
{
    s.to_lowercase()
}

/// The ASCII lower-case of `c` (`char::to_ascii_lowercase`).
pub open spec fn ascii_lower(c: char) -> char {
    if 'A' <= c && c <= 'Z' {
        ((c as u32) + 32) as char
    } else {
        c
    }
}

/// Exec [`ascii_lower`].
pub fn char_ascii_lower(c: char) -> (r: char)
    ensures
        r == ascii_lower(c),
{
    if 'A' <= c && c <= 'Z' {
        let n: u32 = (c as u32) + 32;
        assert(n < 0xD800);
        char_from_u32(n)
    } else {
        c
    }
}

/// `char::from_u32` on a scalar value below the surrogate range.
#[verifier::external_body]
pub(crate) fn char_from_u32(n: u32) -> (r: char)
    requires
        n < 0xD800,
    ensures
        r == n as char,
{
    char::from_u32(n).unwrap()
}

/// `s` with every ASCII upper-case letter lower-cased (`str::to_ascii_lowercase`).
pub open spec fn ascii_lowercase(s: Seq<char>) -> Seq<char> {
    s.map_values(|c: char| ascii_lower(c))
}

/// `p` is a prefix of `s`.
pub open spec fn is_prefix(p: Seq<char>, s: Seq<char>) -> bool {
    p.len() <= s.len() && s.subrange(0, p.len() as int) == p
}

/// `p` is a suffix of `s`.
pub open spec fn is_suffix(p: Seq<char>, s: Seq<char>) -> bool {
    p.len() <= s.len() && s.subrange(s.len() - p.len(), s.len() as int) == p
}

/// `n` occurs in `h` starting at `i`.
pub open spec fn occurs_at(h: Seq<char>, n: Seq<char>, i: int) -> bool {
    0 <= i && i + n.len() <= h.len() && h.subrange(i, i + n.len()) == n
}

/// `n` occurs somewhere in `h` (`str::contains`).
pub open spec fn contains(h: Seq<char>, n: Seq<char>) -> bool {
    exists|i: int| occurs_at(h, n, i)
}

/// Whether `w` occurs in `v` starting at `i`.
pub fn occurs_at_exec(v: &Vec<char>, w: &Vec<char>, i: usize) -> (r: bool)
    ensures
        r == occurs_at(v@, w@, i as int),
{
    if i > v.len() || w.len() > v.len() - i {
        return false;
    }
    let mut k: usize = 0;
    while k < w.len()
        invariant
            i + w@.len() <= v@.len(),
            i <= v@.len(),
            v@.len() <= usize::MAX,
            k <= w@.len(),
            forall|j: int| 0 <= j < k ==> v@[i + j] == w@[j],
        decreases w.len() - k,
    {
        if v[i + k] != w[k] {
            assert(v@.subrange(i as int, i + w@.len())[k as int] != w@[k as int]);
            return false;
        }
        k = k + 1;
    }
    assert(v@.subrange(i as int, i + w@.len()) =~= w@);
    true
}

/// Whether `w` occurs in `v`.
pub fn contains_exec(v: &Vec<char>, w: &Vec<char>) -> (r: bool)
    ensures
        r == contains(v@, w@),
{
    if w.len() == 0 {
        assert(v@.subrange(0, 0) =~= w@);
        assert(occurs_at(v@, w@, 0));
        return true;
    }
    let mut i: usize = 0;
    while i < v.len()
        invariant
            i <= v@.len(),
            w@.len() > 0,
            forall|j: int| 0 <= j < i ==> !occurs_at(v@, w@, j),
        decreases v.len() - i,
    {
        if occurs_at_exec(v, w, i) {
            return true;
        }
        i = i + 1;
    }
    assert forall|j: int| !occurs_at(v@, w@, j) by {
        if 0 <= j && j < i {
        }
    }
    false
}

/// Whether `p` is a prefix of `v`.
pub fn starts_with_exec(v: &Vec<char>, p: &Vec<char>) -> (r: bool)
    ensures
        r == is_prefix(p@, v@),
{
    let r = occurs_at_exec(v, p, 0);
    assert(occurs_at(v@, p@, 0) == is_prefix(p@, v@));
    r
}

/// Whether `p` is a suffix of `v`.
pub fn ends_with_exec(v: &Vec<char>, p: &Vec<char>) -> (r: bool)
    ensures
        r == is_suffix(p@, v@),
{
    if p.len() > v.len() {
        return false;
    }
    let r = occurs_at_exec(v, p, v.len() - p.len());
    r
}

/// Lexicographic order on character sequences by code point, which is the order
/// of `String`'s `Ord` (UTF-8 byte order agrees with code point order):
/// negative when `a < b`, zero when equal, positive when `a > b`.
pub open spec fn seq_order(a: Seq<char>, b: Seq<char>) -> int
    decreases a.len(),
{
    if a.len() == 0 {
        if b.len() == 0 {
            0
        } else {
            -1
        }
    } else if b.len() == 0 {
        1
    } else if a[0] < b[0] {
        -1
    } else if a[0] > b[0] {
        1
    } else {
        seq_order(a.drop_first(), b.drop_first())
    }
}

/// `seq_order` is zero exactly on equal sequences and swaps sign when the
/// arguments are swapped.
pub proof fn lemma_seq_order_basic(a: Seq<char>, b: Seq<char>)
    ensures
        seq_order(a, b) == 0 <==> a == b,
        seq_order(a, b) == -seq_order(b, a),
        -1 <= seq_order(a, b) <= 1,
    decreases a.len(),
{
    if a.len() == 0 && b.len() == 0 {
        assert(a =~= b);
    } else if a.len() > 0 && b.len() > 0 && a[0] == b[0] {
        lemma_seq_order_basic(a.drop_first(), b.drop_first());
        if a.drop_first() == b.drop_first() {
            assert(a =~= seq![a[0]] + a.drop_first());
            assert(b =~= seq![b[0]] + b.drop_first());
        }
    }
}

/// `seq_order` is transitive.
pub proof fn lemma_seq_order_trans(a: Seq<char>, b: Seq<char>, c: Seq<char>)
    requires
        seq_order(a, b) <= 0,
        seq_order(b, c) <= 0,
    ensures
        seq_order(a, c) <= 0,
    decreases a.len(),
{
    if a.len() > 0 && b.len() > 0 && c.len() > 0 && a[0] == b[0] && b[0] == c[0] {
        lemma_seq_order_trans(a.drop_first(), b.drop_first(), c.drop_first());
    }
}

/// Exec [`seq_order`] on `a[..]` and `b[..]`.
pub fn order_chars(a: &Vec<char>, b: &Vec<char>) -> (r: i8)
    ensures
        r as int == seq_order(a@, b@),
{
    let mut i: usize = 0;
    assert(a@.subrange(0, a@.len() as int) =~= a@);
    assert(b@.subrange(0, b@.len() as int) =~= b@);
    while i < a.len() && i < b.len() && a[i] == b[i]
        invariant
            i <= a@.len(),
            i <= b@.len(),
            seq_order(a@, b@) == seq_order(a@.subrange(i as int, a@.len() as int), b@.subrange(i as int, b@.len() as int)),
        decreases a.len() - i,
    {
        assert(a@.subrange(i as int, a@.len() as int).drop_first() =~= a@.subrange(i + 1, a@.len() as int));
        assert(b@.subrange(i as int, b@.len() as int).drop_first() =~= b@.subrange(i + 1, b@.len() as int));
        i = i + 1;
    }
    let ghost sa = a@.subrange(i as int, a@.len() as int);
    let ghost sb = b@.subrange(i as int, b@.len() as int);
    if i == a.len() {
        if i == b.len() {
            0
        } else {
            -1
        }
    } else if i == b.len() {
        1
    } else {
        assert(sa[0] == a@[i as int] && sb[0] == b@[i as int]);
        if a[i] < b[i] {
            -1
        } else {
            1
        }
    }
}

/// Exec [`seq_order`] on two strings.
pub fn order_str(a: &str, b: &str) -> (r: i8)
    ensures
        r as int == seq_order(a@, b@),
{
    let va = chars_of(a);
    let vb = chars_of(b);
    order_chars(&va, &vb)
}

} // verus!

verus! {

/// The decimal digit for `d < 10`.
pub open spec fn digit_char(d: nat) -> char {
    (('0' as u32) + d) as char
}

/// The decimal text of `n`, without leading zeros (`"0"` for zero).
pub open spec fn decimal(n: nat) -> Seq<char>
    decreases n,
{
    if n < 10 {
        seq![digit_char(n)]
    } else {
        decimal(n / 10).push(digit_char(n % 10))
    }
}

/// The decimal digit character for `d < 10`.
pub fn digit_of(d: u64) -> (c: char)
    requires
        d < 10,
    ensures
        c == digit_char(d as nat),
{
    char_from_u32(48 + (d as u32))
}

/// `u64::to_string`: the decimal text of `n`.
pub fn decimal_string(n: u64) -> (r: String)
    ensures
        r@ == decimal(n as nat),
    decreases n,
{
    if n < 10 {
        let mut r = String::new();
        push_char(&mut r, digit_of(n));
        r
    } else {
        let mut r = decimal_string(n / 10);
        push_char(&mut r, digit_of(n % 10));
        r
    }
}

} // verus!

verus! {

/// Whether `a` and `b` hold the same characters.
pub fn eq_str(a: &str, b: &str) -> (r: bool)
    ensures
        r == (a@ == b@),
{
    let o = order_str(a, b);
    proof {
        lemma_seq_order_basic(a@, b@);
    }
    o == 0
}

/// `str::trim` as an owned string.
pub fn trim_string(s: &str) -> (r: String)
    ensures
        r@ == trim(s@),
{
    let v = chars_of(s);
    let (a, b) = trim_bounds(&v, 0, v.len());
    assert(v@.subrange(0, v@.len() as int) =~= v@);
    string_of_range(&v, a, b)
}

/// An owned copy of `s`.
pub fn owned(s: &str) -> (r: String)
    ensures
        r@ == s@,
{
    let v = chars_of(s);
    string_of(&v)
}

} // verus!

verus! {

/// The views of a sequence of strings.
pub open spec fn views(v: Seq<String>) -> Seq<Seq<char>> {
    v.map_values(|s: String| s@)
}

/// `parts` joined with `sep` between consecutive parts (`[String]::join`).
pub open spec fn join(parts: Seq<Seq<char>>, sep: Seq<char>) -> Seq<char>
    decreases parts.len(),
{
    if parts.len() == 0 {
        seq![]
    } else if parts.len() == 1 {
        parts[0]
    } else {
        join(parts.drop_last(), sep) + sep + parts.last()
    }
}

/// `parts.join(sep)`.
pub fn join_strings(parts: &Vec<String>, sep: &str) -> (r: String)
    ensures
        r@ == join(views(parts@), sep@),
{
    let mut r = String::new();
    let mut i: usize = 0;
    while i < parts.len()
        invariant
            i <= parts@.len(),
            r@ == join(views(parts@).take(i as int), sep@),
        decreases parts.len() - i,
    {
        assert(views(parts@).take(i + 1).drop_last() =~= views(parts@).take(i as int));
        if i == 0 {
            r.append(parts[i].as_str());
            assert(r@ =~= join(views(parts@).take(1), sep@));
        } else {
            r.append(sep);
            r.append(parts[i].as_str());
        }
        i = i + 1;
    }
    assert(views(parts@).take(parts@.len() as int) =~= views(parts@));
    r
}

/// `seq_order(a, b) < 0` and `seq_order(b, c) <= 0` give `seq_order(a, c) < 0`.
pub proof fn lemma_seq_order_lt_le(a: Seq<char>, b: Seq<char>, c: Seq<char>)
    requires
        seq_order(a, b) < 0,
        seq_order(b, c) <= 0,
    ensures
        seq_order(a, c) < 0,
{
    lemma_seq_order_basic(a, b);
    lemma_seq_order_basic(b, c);
    lemma_seq_order_basic(a, c);
    lemma_seq_order_trans(a, b, c);
    if seq_order(a, c) == 0 {
        assert(a == c);
        lemma_seq_order_basic(b, a);
    }
}

/// Every element is below every later one.
pub open spec fn strictly_sorted(s: Seq<Seq<char>>) -> bool {
    forall|i: int, j: int| 0 <= i < j < s.len() ==> seq_order(s[i], s[j]) < 0
}

/// Inserts `s` into the strictly sorted `out` unless it is already there.
pub fn insert_sorted_unique(out: &mut Vec<String>, s: String)
    requires
        strictly_sorted(views(old(out)@)),
    ensures
        strictly_sorted(views(final(out)@)),
        forall|x: Seq<char>|
            views(final(out)@).contains(x) <==> (views(old(out)@).contains(x) || x == s@),
{
    let mut p: usize = 0;
    let ghost v0 = views(out@);
    while p < out.len() && order_str(out[p].as_str(), s.as_str()) < 0
        invariant
            p <= out@.len(),
            v0 == views(out@),
            strictly_sorted(v0),
            forall|i: int| 0 <= i < p ==> seq_order(v0[i], s@) < 0,
        decreases out.len() - p,
    {
        p = p + 1;
    }
    if p < out.len() && eq_str(out[p].as_str(), s.as_str()) {
        assert(views(out@)[p as int] == s@);
        return;
    }
    proof {
        if p < out@.len() {
            lemma_seq_order_basic(v0[p as int], s@);
            lemma_seq_order_basic(s@, v0[p as int]);
            assert forall|i: int| p <= i < v0.len() implies seq_order(s@, v0[i]) < 0 by {
                if i > p {
                    lemma_seq_order_basic(v0[p as int], v0[i]);
                    lemma_seq_order_lt_le(s@, v0[p as int], v0[i]);
                }
            }
        }
    }
    out.insert(p, s);
    proof {
        let v1 = views(out@);
        assert(v1 =~= v0.insert(p as int, s@));
        assert forall|i: int, j: int| 0 <= i < j < v1.len() implies seq_order(v1[i], v1[j]) < 0 by {
            if j < p {
                assert(v1[i] == v0[i] && v1[j] == v0[j]);
            } else if i < p && j == p {
            } else if i < p && j > p {
                assert(v1[j] == v0[j - 1]);
            } else if i == p {
                assert(v1[j] == v0[j - 1]);
            } else {
                assert(v1[i] == v0[i - 1] && v1[j] == v0[j - 1]);
            }
        }
        assert forall|x: Seq<char>| v1.contains(x) <==> (v0.contains(x) || x == s@) by {
            if v1.contains(x) {
                let k = choose|k: int| 0 <= k < v1.len() && v1[k] == x;
                if k < p {
                    assert(v0[k] == x);
                } else if k > p {
                    assert(v0[k - 1] == x);
                }
            }
            if v0.contains(x) {
                let k = choose|k: int| 0 <= k < v0.len() && v0[k] == x;
                if k < p {
                    assert(v1[k] == x);
                } else {
                    assert(v1[k + 1] == x);
                }
            }
            if x == s@ {
                assert(v1[p as int] == x);
            }
        }
    }
}

} // verus!

verus! {

/// The index of the last `c` in `s`, or -1.
pub open spec fn last_index_of(s: Seq<char>, c: char) -> int
    decreases s.len(),
{
    if s.len() == 0 {
        -1
    } else if s.last() == c {
        s.len() - 1
    } else {
        last_index_of(s.drop_last(), c)
    }
}

/// What [`last_index_of`] finds.
pub proof fn lemma_last_index_of(s: Seq<char>, c: char)
    ensures
        -1 <= last_index_of(s, c) < s.len(),
        last_index_of(s, c) >= 0 ==> s[last_index_of(s, c)] == c,
        forall|j: int| last_index_of(s, c) < j < s.len() ==> s[j] != c,
    decreases s.len(),
{
    if s.len() > 0 && s.last() != c {
        lemma_last_index_of(s.drop_last(), c);
        assert forall|j: int| last_index_of(s, c) < j < s.len() implies s[j] != c by {
            if j < s.len() - 1 {
                assert(s[j] == s.drop_last()[j]);
            }
        }
    }
}

/// Exec [`last_index_of`] (`str::rfind` for a character), as an index into `v`.
pub fn rfind_char(v: &Vec<char>, c: char) -> (r: Option<usize>)
    ensures
        match r {
            Some(i) => last_index_of(v@, c) == i && i < v@.len(),
            None => last_index_of(v@, c) == -1,
        },
{
    let mut i = v.len();
    assert(v@.subrange(0, v@.len() as int) =~= v@);
    while i > 0
        invariant
            i <= v@.len(),
            last_index_of(v@, c) == last_index_of(v@.subrange(0, i as int), c),
        decreases i,
    {
        assert(v@.subrange(0, i as int).drop_last() =~= v@.subrange(0, i - 1));
        if v[i - 1] == c {
            return Some(i - 1);
        }
        i = i - 1;
    }
    None
}

/// Whether `c` is an ASCII decimal digit.
pub open spec fn is_digit(c: char) -> bool {
    '0' <= c && c <= '9'
}

/// The value of a string of decimal digits.
pub open spec fn digits_value(d: Seq<char>) -> nat
    decreases d.len(),
{
    if d.len() == 0 {
        0
    } else {
        digits_value(d.drop_last()) * 10 + ((d.last() as int) - ('0' as int)) as nat
    }
}

/// Every character of `d` is an ASCII digit.
pub open spec fn all_digits(d: Seq<char>) -> bool {
    forall|i: int| 0 <= i < d.len() ==> is_digit(#[trigger] d[i])
}

/// `str::parse::<u64>`: an optional `+` and then one or more ASCII digits whose
/// value fits in a `u64`.
pub open spec fn parse_u64_text(s: Seq<char>) -> Option<u64> {
    let d = if s.len() > 0 && s[0] == '+' {
        s.drop_first()
    } else {
        s
    };
    if d.len() > 0 && all_digits(d) && digits_value(d) <= u64::MAX {
        Some(digits_value(d) as u64)
    } else {
        None
    }
}

/// Exec [`parse_u64_text`].
pub fn parse_u64(s: &str) -> (r: Option<u64>)
    ensures
        r == parse_u64_text(s@),
{
    let v = chars_of(s);
    let start: usize = if v.len() > 0 && v[0] == '+' {
        1
    } else {
        0
    };
    let ghost d = if v@.len() > 0 && v@[0] == '+' {
        v@.drop_first()
    } else {
        v@
    };
    assert(d =~= v@.subrange(start as int, v@.len() as int));
    if start == v.len() {
        return None;
    }
    let mut acc: u64 = 0;
    let mut i = start;
    while i < v.len()
        invariant
            start <= i <= v@.len(),
            v@ == s@,
            d == (if s@.len() > 0 && s@[0] == '+' {
                s@.drop_first()
            } else {
                s@
            }),
            d == v@.subrange(start as int, v@.len() as int),
            forall|k: int| start <= k < i ==> is_digit(v@[k]),
            acc as nat == digits_value(v@.subrange(start as int, i as int)),
        decreases v.len() - i,
    {
        let c = v[i];
        if !('0' <= c && c <= '9') {
            assert(s@ == v@);
            assert(!is_digit(d[i - start]));
            assert(!all_digits(d));
            return None;
        }
        assert(v@.subrange(start as int, i + 1).drop_last() =~= v@.subrange(start as int, i as int));
        let dv: u64 = (c as u32 - 48) as u64;
        assert(dv as int == (c as int) - ('0' as int));
        if acc > (u64::MAX - dv) / 10 {
            proof {
                assert(s@ == v@);
                let m = u64::MAX as int;
                assert(acc * 10 + dv > m) by (nonlinear_arith)
                    requires
                        acc > (m - dv) / 10,
                        0 <= dv < 10,
                        m > 0,
                ;
                assert(digits_value(v@.subrange(start as int, i + 1)) > u64::MAX);
                lemma_digits_value_prefix(d, i + 1 - start);
                assert(d.subrange(0, i + 1 - start) =~= v@.subrange(start as int, i + 1));
            }
            return None;
        }
        acc = acc * 10 + dv;
        i = i + 1;
    }
    assert(v@.subrange(start as int, i as int) =~= d);
    Some(acc)
}

/// The value of a digit string is at least that of each of its prefixes.
pub proof fn lemma_digits_value_prefix(d: Seq<char>, n: int)
    requires
        0 <= n <= d.len(),
    ensures
        digits_value(d.subrange(0, n)) <= digits_value(d),
    decreases d.len(),
{
    if n < d.len() {
        assert(d.drop_last().subrange(0, n) =~= d.subrange(0, n));
        lemma_digits_value_prefix(d.drop_last(), n);
    } else {
        assert(d.subrange(0, n) =~= d);
    }
}

} // verus!

verus! {

/// The pieces of `s` between the occurrences of `c` (`str::split`): one more
/// piece than there are occurrences, empty pieces included.
pub open spec fn split_pieces(s: Seq<char>, c: char) -> Seq<Seq<char>>
    decreases s.len(),
{
    if s.len() == 0 {
        seq![seq![]]
    } else {
        let p = split_pieces(s.drop_last(), c);
        if s.last() == c {
            p.push(seq![])
        } else {
            p.update(p.len() - 1, p.last().push(s.last()))
        }
    }
}

/// There is always at least one piece.
pub proof fn lemma_split_pieces_len(s: Seq<char>, c: char)
    ensures
        split_pieces(s, c).len() >= 1,
    decreases s.len(),
{
    if s.len() > 0 {
        lemma_split_pieces_len(s.drop_last(), c);
    }
}

/// The pieces of `ps`, trimmed, without the ones that trim to nothing.
pub open spec fn keep_trimmed(ps: Seq<Seq<char>>) -> Seq<Seq<char>>
    decreases ps.len(),
{
    if ps.len() == 0 {
        seq![]
    } else {
        let k = keep_trimmed(ps.drop_last());
        let t = trim(ps.last());
        if t.len() > 0 {
            k.push(t)
        } else {
            k
        }
    }
}

/// `s.split(',').map(str::trim).filter(|t| !t.is_empty())`.
pub open spec fn comma_items(s: Seq<char>) -> Seq<Seq<char>> {
    keep_trimmed(split_pieces(s, ','))
}

/// Exec [`comma_items`].
pub fn comma_list(s: &str) -> (r: Vec<String>)
    ensures
        views(r@) == comma_items(s@),
{
    let v = chars_of(s);
    let mut out: Vec<String> = Vec::new();
    let mut st: usize = 0;
    let mut i: usize = 0;
    let ghost mut done: Seq<Seq<char>> = seq![];
    assert(v@.subrange(0, 0) =~= Seq::<char>::empty());
    assert(split_pieces(v@.subrange(0, 0), ',') =~= done.push(v@.subrange(0, 0)));
    while i < v.len()
        invariant
            st <= i <= v@.len(),
            split_pieces(v@.subrange(0, i as int), ',') == done.push(v@.subrange(st as int, i as int)),
            views(out@) == keep_trimmed(done),
        decreases v.len() - i,
    {
        let ghost pre = v@.subrange(0, i as int);
        assert(v@.subrange(0, i + 1).drop_last() =~= pre);
        assert(v@.subrange(0, i + 1).last() == v@[i as int]);
        if v[i] == ',' {
            let (a, b) = trim_bounds(&v, st, i);
            if b > a {
                out.push(string_of_range(&v, a, b));
            }
            proof {
                let piece = v@.subrange(st as int, i as int);
                assert(done.push(piece).drop_last() =~= done);
                assert(views(out@) =~= keep_trimmed(done.push(piece)));
                done = done.push(piece);
                assert(v@.subrange(i + 1, i + 1) =~= Seq::<char>::empty());
                assert(split_pieces(v@.subrange(0, i + 1), ',') =~= done.push(v@.subrange(i + 1, i + 1)));
            }
            st = i + 1;
        } else {
            proof {
                let p = split_pieces(pre, ',');
                assert(p.len() - 1 == done.len());
                assert(v@.subrange(st as int, i as int).push(v@[i as int]) =~= v@.subrange(st as int, i + 1));
                assert(split_pieces(v@.subrange(0, i + 1), ',') =~= done.push(v@.subrange(st as int, i + 1)));
            }
        }
        i = i + 1;
    }
    let (a, b) = trim_bounds(&v, st, v.len());
    if b > a {
        out.push(string_of_range(&v, a, b));
    }
    proof {
        let piece = v@.subrange(st as int, v@.len() as int);
        assert(v@.subrange(0, v@.len() as int) =~= v@);
        assert(done.push(piece).drop_last() =~= done);
        assert(views(out@) =~= keep_trimmed(done.push(piece)));
    }
    out
}

} // verus!

verus! {

/// The Unicode upper-case mapping of `c`, as `char::to_uppercase` yields it
/// (one to three characters).
pub uninterp spec fn uppercase_char(c: char) -> Seq<char>;

/// The ASCII upper-case of `c` (`char::to_ascii_uppercase`).
pub open spec fn ascii_upper(c: char) -> char {
    if 'a' <= c && c <= 'z' {
        ((c as u32) - 32) as char
    } else {
        c
    }
}

/// `char::to_uppercase`, collected into a string: the result is the Unicode
/// upper-case mapping of `c`, a function of `c` alone. Stated of it: an ASCII
/// character maps to its ASCII upper case alone; the mapping of other
/// characters is not stated.
#[verifier::external_body]
pub(crate) fn to_uppercase_char(c: char) -> (r: String)
    ensures
        r@ == uppercase_char(c),
        (c as u32) < 128 ==> r@ == seq![ascii_upper(c)],
{
    c.to_uppercase().collect()
}

} // verus!

verus! {

/// The index of the first `c` in `s` at or after `i`, or `s.len()`.
pub open spec fn next_char(s: Seq<char>, c: char, i: int) -> int
    decreases s.len() - i,
{
    if i >= s.len() {
        s.len() as int
    } else if s[i] == c {
        i
    } else {
        next_char(s, c, i + 1)
    }
}

/// What [`next_char`] finds.
pub proof fn lemma_next_char(s: Seq<char>, c: char, i: int)
    requires
        0 <= i <= s.len(),
    ensures
        i <= next_char(s, c, i) <= s.len(),
        forall|k: int| i <= k < next_char(s, c, i) ==> s[k] != c,
        next_char(s, c, i) < s.len() ==> s[next_char(s, c, i)] == c,
    decreases s.len() - i,
{
    if i < s.len() && s[i] != c {
        lemma_next_char(s, c, i + 1);
    }
}

/// The index of the first `c` in `v` at or after `i`, or `v.len()`.
pub fn find_char(v: &Vec<char>, c: char, i: usize) -> (r: usize)
    requires
        i <= v@.len(),
    ensures
        r == next_char(v@, c, i as int),
        i <= r <= v@.len(),
        forall|k: int| i <= k < r ==> v@[k] != c,
        r < v@.len() ==> v@[r as int] == c,
{
    proof {
        lemma_next_char(v@, c, i as int);
    }
    let mut j = i;
    while j < v.len() && v[j] != c
        invariant
            i <= j <= v@.len(),
            next_char(v@, c, j as int) == next_char(v@, c, i as int),
        decreases v.len() - j,
    {
        j = j + 1;
    }
    j
}

/// The bounds of the pieces of `v` between occurrences of `c`, in order, as
/// [`split_pieces`] gives them.
pub fn split_bounds(v: &Vec<char>, c: char) -> (r: Vec<(usize, usize)>)
    ensures
        r@.len() == split_pieces(v@, c).len(),
        forall|i: int|
            0 <= i < r@.len() ==> r@[i].0 <= r@[i].1 <= v@.len() && v@.subrange(
                #[trigger] r@[i].0 as int,
                r@[i].1 as int,
            ) == split_pieces(v@, c)[i],
{
    let mut out: Vec<(usize, usize)> = Vec::new();
    let mut st: usize = 0;
    let mut i: usize = 0;
    let ghost mut done: Seq<Seq<char>> = seq![];
    assert(v@.subrange(0, 0) =~= Seq::<char>::empty());
    assert(split_pieces(v@.subrange(0, 0), c) =~= done.push(v@.subrange(0, 0)));
    while i < v.len()
        invariant
            st <= i <= v@.len(),
            split_pieces(v@.subrange(0, i as int), c) == done.push(v@.subrange(st as int, i as int)),
            out@.len() == done.len(),
            forall|k: int|
                0 <= k < out@.len() ==> out@[k].0 <= out@[k].1 <= v@.len() && v@.subrange(
                    #[trigger] out@[k].0 as int,
                    out@[k].1 as int,
                ) == done[k],
        decreases v.len() - i,
    {
        let ghost pre = v@.subrange(0, i as int);
        assert(v@.subrange(0, i + 1).drop_last() =~= pre);
        assert(v@.subrange(0, i + 1).last() == v@[i as int]);
        if v[i] == c {
            out.push((st, i));
            proof {
                let piece = v@.subrange(st as int, i as int);
                done = done.push(piece);
                assert(v@.subrange(i + 1, i + 1) =~= Seq::<char>::empty());
                assert(split_pieces(v@.subrange(0, i + 1), c) =~= done.push(v@.subrange(i + 1, i + 1)));
            }
            st = i + 1;
        } else {
            proof {
                let p = split_pieces(pre, c);
                assert(p.len() - 1 == done.len());
                assert(v@.subrange(st as int, i as int).push(v@[i as int]) =~= v@.subrange(st as int, i + 1));
                assert(split_pieces(v@.subrange(0, i + 1), c) =~= done.push(v@.subrange(st as int, i + 1)));
            }
        }
        i = i + 1;
    }
    out.push((st, v.len()));
    proof {
        assert(v@.subrange(0, v@.len() as int) =~= v@);
        done = done.push(v@.subrange(st as int, v@.len() as int));
    }
    out
}

/// `s` without leading `c`s.
pub open spec fn trim_start_char(s: Seq<char>, c: char) -> Seq<char>
    decreases s.len(),
{
    if s.len() > 0 && s[0] == c {
        trim_start_char(s.drop_first(), c)
    } else {
        s
    }
}

/// `s` without trailing `c`s.
pub open spec fn trim_end_char(s: Seq<char>, c: char) -> Seq<char>
    decreases s.len(),
{
    if s.len() > 0 && s.last() == c {
        trim_end_char(s.drop_last(), c)
    } else {
        s
    }
}

/// `s` without leading and trailing `c`s (`str::trim_matches` for a character).
pub open spec fn trim_char(s: Seq<char>, c: char) -> Seq<char> {
    trim_end_char(trim_start_char(s, c), c)
}

/// Exec [`trim_char`].
pub fn trim_matches_char(s: &str, c: char) -> (r: String)
    ensures
        r@ == trim_char(s@, c),
{
    let v = chars_of(s);
    let mut a: usize = 0;
    assert(v@.subrange(0, v@.len() as int) =~= v@);
    while a < v.len() && v[a] == c
        invariant
            a <= v@.len(),
            trim_start_char(v@, c) == trim_start_char(v@.subrange(a as int, v@.len() as int), c),
        decreases v.len() - a,
    {
        assert(v@.subrange(a as int, v@.len() as int).drop_first() =~= v@.subrange(a + 1, v@.len() as int));
        a = a + 1;
    }
    let mut b = v.len();
    while b > a && v[b - 1] == c
        invariant
            a <= b <= v@.len(),
            trim_start_char(v@, c) == v@.subrange(a as int, v@.len() as int),
            trim_char(v@, c) == trim_end_char(v@.subrange(a as int, b as int), c),
        decreases b - a,
    {
        assert(v@.subrange(a as int, b as int).drop_last() =~= v@.subrange(a as int, b - 1));
        b = b - 1;
    }
    string_of_range(&v, a, b)
}

} // verus!
