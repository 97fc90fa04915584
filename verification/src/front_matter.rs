//! Front matter extraction: the YAML block delimited by `---` at the top of a
//! markdown file, and the queries the server makes of front matter values.
use vstd::prelude::*;

use std::cmp::Ordering;

use vstd::string::*;

use crate::text::{
    all_ws, chars_of, decimal, decimal_string, eq_str, find_nl, insert_sorted_unique, is_suffix, join, join_strings,
    lemma_next_nl, lemma_next_nl_at, lemma_trim_padded,
    lemma_seq_order_basic, lowercase, next_nl, order_str, owned, push_char, seq_order,
    strictly_sorted, string_of, string_of_range, to_lowercase, trim, trim_bounds, trim_string, views,
};
use crate::yaml::{compare_numbers, number_order, YamlNumber, YamlValue};

verus! {

/// The view of an optional string.
pub open spec fn opt_view(o: Option<String>) -> Option<Seq<char>> {
    match o {
        Some(s) => Some(s@),
        None => None,
    }
}

/// `---`
pub open spec fn dashes() -> Seq<char> {
    seq!['-', '-', '-']
}

/// `...`
pub open spec fn dots() -> Seq<char> {
    seq!['.', '.', '.']
}

/// A line that opens front matter: `---`, up to surrounding white space.
pub open spec fn is_open_delim(line: Seq<char>) -> bool {
    trim(line) == dashes()
}

/// A line that closes front matter: `---` or `...`, up to surrounding white space.
pub open spec fn is_close_delim(line: Seq<char>) -> bool {
    trim(line) == dashes() || trim(line) == dots()
}

/// `p` starts the line that closes the front matter of `c`: it is the first
/// line after the opening line that is a closing delimiter.
pub open spec fn is_close_line(c: Seq<char>, p: int) -> bool {
    let f = next_nl(c, 0);
    &&& f < p < c.len()
    &&& c[p - 1] == '\n'
    &&& is_close_delim(c.subrange(p, next_nl(c, p)))
    &&& forall|q: int|
        f < q < p && #[trigger] c[q - 1] == '\n' ==> !is_close_delim(c.subrange(q, next_nl(c, q)))
}

/// Whether `c` opens with a front matter block that is closed.
pub open spec fn has_front_matter(c: Seq<char>) -> bool {
    is_open_delim(c.subrange(0, next_nl(c, 0))) && exists|p: int| is_close_line(c, p)
}

/// The start of the closing line of the front matter of `c`.
pub open spec fn close_line_of(c: Seq<char>) -> int {
    choose|p: int| is_close_line(c, p)
}

/// Where the body starts: after the closing line and its newline, if any.
pub open spec fn body_start(c: Seq<char>) -> int {
    let e = next_nl(c, close_line_of(c));
    if e < c.len() {
        e + 1
    } else {
        e
    }
}

/// The front matter of `c` (between the opening and closing lines) and the body
/// after it; `None` and all of `c` when there is no closed front matter block.
pub open spec fn front_matter_split(c: Seq<char>) -> (Option<Seq<char>>, Seq<char>) {
    if has_front_matter(c) {
        (
            Some(c.subrange(next_nl(c, 0) + 1, close_line_of(c))),
            c.subrange(body_start(c), c.len() as int),
        )
    } else {
        (None, c)
    }
}

/// How a file is split: the body is always a suffix of the content, and all of
/// it when there is no front matter; front matter, when there is, is the text
/// right after the opening `---` line, and is followed by a closing line.
pub proof fn lemma_split_reassembles(c: Seq<char>)
    ensures
        is_suffix(front_matter_split(c).1, c),
        front_matter_split(c).0 is None ==> front_matter_split(c).1 == c,
        front_matter_split(c).0 matches Some(fm) ==> {
            let o = next_nl(c, 0) + 1;
            &&& is_open_delim(c.subrange(0, next_nl(c, 0)))
            &&& o + fm.len() + front_matter_split(c).1.len() <= c.len()
            &&& c.subrange(o, o + fm.len()) == fm
            &&& is_close_delim(c.subrange(o + fm.len(), next_nl(c, o + fm.len())))
        },
{
    if has_front_matter(c) {
        let p = close_line_of(c);
        assert(is_close_line(c, p));
        lemma_next_nl(c, 0);
        lemma_next_nl(c, p);
        let b = body_start(c);
        assert(p <= b <= c.len());
        let body = c.subrange(b, c.len() as int);
        assert(c.subrange(c.len() - body.len(), c.len() as int) =~= body);
    } else {
        assert(c.subrange(0, c.len() as int) =~= c);
    }
}

/// No line of `y` closes front matter.
pub open spec fn no_close_line(y: Seq<char>) -> bool {
    forall|q: int|
        0 <= q < y.len() && (q == 0 || y[q - 1] == '\n') ==> !is_close_delim(
            #[trigger] y.subrange(q, next_nl(y, q)),
        )
}

/// `---` trimmed is `---`.
proof fn lemma_dashes_trimmed()
    ensures
        trim(dashes()) == dashes(),
{
    let e = Seq::<char>::empty();
    assert(all_ws(e));
    assert(e + dashes() + e =~= dashes());
    lemma_trim_padded(e, dashes(), e);
}

/// Front matter written out and read back: `---`, the YAML text `y` (empty
/// or ending with a newline, with no line that would close it), `---`, and
/// the body `b` split into `y` and `b` again.
pub proof fn lemma_front_matter_round_trip(y: Seq<char>, b: Seq<char>)
    requires
        y.len() == 0 || y.last() == '\n',
        no_close_line(y),
    ensures
        front_matter_split(seq!['-', '-', '-', '\n'] + y + seq!['-', '-', '-', '\n'] + b) == (Some(y), b),
{
    let d = seq!['-', '-', '-', '\n'];
    let c = d + y + d + b;
    let n = y.len() as int;
    let p = 4 + n;
    assert(c.len() == p + 4 + b.len());
    assert forall|k: int| 0 <= k < 4 implies c[k] == d[k] by {}
    assert forall|k: int| 4 <= k < p implies c[k] == y[k - 4] by {}
    assert forall|k: int| p <= k < p + 4 implies c[k] == d[k - p] by {}
    lemma_dashes_trimmed();
    // The opening line.
    lemma_next_nl_at(c, 0, 3);
    assert(c.subrange(0, 3) =~= dashes());
    assert(is_open_delim(c.subrange(0, next_nl(c, 0))));
    // The closing line, right after `y`.
    lemma_next_nl_at(c, p, p + 3);
    assert(c.subrange(p, p + 3) =~= dashes());
    assert(c[p - 1] == '\n');
    assert forall|q: int| 3 < q < p && #[trigger] c[q - 1] == '\n' implies !is_close_delim(
        c.subrange(q, next_nl(c, q)),
    ) by {
        let q2 = q - 4;
        assert(q2 == 0 || y[q2 - 1] == c[q - 1]);
        lemma_next_nl(y, q2);
        let j = next_nl(y, q2);
        assert(j < n) by {
            if j == n {
                assert(y[n - 1] == '\n');
            }
        }
        lemma_next_nl_at(c, q, j + 4);
        assert(c.subrange(q, j + 4) =~= y.subrange(q2, j));
        assert(!is_close_delim(y.subrange(q2, next_nl(y, q2))));
    }
    assert(is_close_line(c, p));
    assert(has_front_matter(c));
    // It is the only closing line.
    let p2 = close_line_of(c);
    assert(is_close_line(c, p2));
    assert(p2 == p) by {
        if p2 < p {
            assert(c[p2 - 1] == '\n');
        } else if p2 > p {
            assert(c[p - 1] == '\n');
        }
    }
    assert(body_start(c) == p + 4);
    assert(c.subrange(4, p) =~= y);
    assert(c.subrange(p + 4, c.len() as int) =~= b);
}

/// Whether `v[lo..hi]`, trimmed, is `---` (or, when `dots_too`, `...`).
fn is_delim_range(v: &Vec<char>, lo: usize, hi: usize, dots_too: bool) -> (r: bool)
    requires
        lo <= hi <= v@.len(),
    ensures
        r == (trim(v@.subrange(lo as int, hi as int)) == dashes() || (dots_too && trim(
            v@.subrange(lo as int, hi as int),
        ) == dots())),
{
    let (a, b) = trim_bounds(v, lo, hi);
    let t = Ghost(v@.subrange(a as int, b as int));
    if b - a != 3 {
        assert(dashes().len() == 3 && dots().len() == 3);
        return false;
    }
    if v[a] == '-' && v[a + 1] == '-' && v[a + 2] == '-' {
        assert(t@ =~= dashes());
        true
    } else if dots_too && v[a] == '.' && v[a + 1] == '.' && v[a + 2] == '.' {
        assert(t@ =~= dots());
        true
    } else {
        assert(t@ != dashes()) by {
            if t@ == dashes() {
                assert(t@[0] == '-' && t@[1] == '-' && t@[2] == '-');
            }
        }
        assert(dots_too ==> t@ != dots()) by {
            if dots_too && t@ == dots() {
                assert(t@[0] == '.' && t@[1] == '.' && t@[2] == '.');
            }
        }
        false
    }
}

/// If `content` starts with a `---`-delimited front matter block, return the
/// raw YAML text (without the delimiters) plus the body that follows it.
/// Otherwise return `None` and the original content unchanged.
pub fn split_front_matter(content: &str) -> (r: (Option<String>, String))
    ensures
        (opt_view(r.0), r.1@) == front_matter_split(content@),
{
    let v = chars_of(content);
    let ghost c = v@;
    let f = find_nl(&v, 0);
    if !is_delim_range(&v, 0, f, false) {
        return (None, string_of(&v));
    }
    let mut cursor = if f < v.len() {
        f + 1
    } else {
        v.len()
    };
    loop
        invariant
            c == v@,
            c == content@,
            f == next_nl(c, 0),
            f <= c.len(),
            is_open_delim(c.subrange(0, f as int)),
            f < c.len() ==> (f < cursor <= c.len() && c[cursor - 1] == '\n'),
            f == c.len() ==> cursor == c.len(),
            forall|q: int|
                f < q < cursor && #[trigger] c[q - 1] == '\n' ==> !is_close_delim(
                    c.subrange(q, next_nl(c, q)),
                ),
        decreases c.len() - cursor,
    {
        if cursor >= v.len() {
            assert(!exists|p: int| is_close_line(c, p));
            return (None, string_of(&v));
        }
        let line_end = find_nl(&v, cursor);
        if is_delim_range(&v, cursor, line_end, true) {
            assert(is_close_line(c, cursor as int));
            assert(close_line_of(c) == cursor);
            let yaml = string_of_range(&v, f + 1, cursor);
            let start = if line_end < v.len() {
                line_end + 1
            } else {
                v.len()
            };
            let body = string_of_range(&v, start, v.len());
            return (Some(yaml), body);
        }
        if line_end == v.len() {
            assert(!exists|p: int| is_close_line(c, p)) by {
                if exists|p: int| is_close_line(c, p) {
                    let p = choose|p: int| is_close_line(c, p);
                    if p > cursor {
                        assert(c[p - 1] == '\n');
                    }
                }
            }
            return (None, string_of(&v));
        }
        cursor = line_end + 1;
    }
}

} // verus!

verus! {

/// `k` is a string key equal to `key`.
pub open spec fn is_string_key(k: YamlValue, key: Seq<char>) -> bool {
    match k {
        YamlValue::String(s) => s@ == key,
        _ => false,
    }
}

/// The index of the first entry of `m` at or after `i` whose key is the string
/// `key`, or -1.
pub open spec fn first_key(m: Seq<(YamlValue, YamlValue)>, key: Seq<char>, i: int) -> int
    decreases m.len() - i,
{
    if i < 0 || i >= m.len() {
        -1
    } else if is_string_key(m[i].0, key) {
        i
    } else {
        first_key(m, key, i + 1)
    }
}

/// What [`first_key`] finds.
pub proof fn lemma_first_key(m: Seq<(YamlValue, YamlValue)>, key: Seq<char>, i: int)
    requires
        0 <= i,
    ensures
        first_key(m, key, i) == -1 || (i <= first_key(m, key, i) < m.len() && is_string_key(
            m[first_key(m, key, i)].0,
            key,
        )),
        first_key(m, key, i) == -1 ==> forall|j: int|
            i <= j < m.len() ==> !is_string_key(#[trigger] m[j].0, key),
        first_key(m, key, i) != -1 ==> forall|j: int|
            i <= j < first_key(m, key, i) ==> !is_string_key(#[trigger] m[j].0, key),
    decreases m.len() - i,
{
    if i < m.len() && !is_string_key(m[i].0, key) {
        lemma_first_key(m, key, i + 1);
    }
}

/// The value of the top-level key `key` of `fm`: the first entry of a mapping
/// whose key is that string; `None` when `fm` is not a mapping or has no such key.
pub open spec fn field_of(fm: YamlValue, key: Seq<char>) -> Option<YamlValue> {
    match fm {
        YamlValue::Mapping(m) => {
            let i = first_key(m@, key, 0);
            if i >= 0 {
                Some(m@[i].1)
            } else {
                None
            }
        },
        _ => None,
    }
}

/// The index of the first entry of `m` whose key is the string `key`.
pub fn find_key(m: &Vec<(YamlValue, YamlValue)>, key: &str) -> (r: Option<usize>)
    ensures
        match r {
            Some(i) => first_key(m@, key@, 0) == i && i < m@.len(),
            None => first_key(m@, key@, 0) == -1,
        },
{
    let mut j: usize = 0;
    while j < m.len()
        invariant
            j <= m@.len(),
            first_key(m@, key@, 0) == first_key(m@, key@, j as int),
        decreases m.len() - j,
    {
        let hit = match &m[j].0 {
            YamlValue::String(s) => eq_str(s.as_str(), key),
            _ => false,
        };
        if hit {
            return Some(j);
        }
        j = j + 1;
    }
    None
}

/// Look up a top-level front matter key in a YAML mapping. Returns `None` when
/// `front_matter` is not a mapping or the key is absent.
pub fn get_field<'a>(front_matter: &'a YamlValue, key: &str) -> (r: Option<&'a YamlValue>)
    ensures
        match r {
            Some(v) => field_of(*front_matter, key@) == Some(*v),
            None => field_of(*front_matter, key@) is None,
        },
{
    match front_matter {
        YamlValue::Mapping(m) => match find_key(m, key) {
            Some(i) => Some(&m[i].1),
            None => None,
        },
        _ => None,
    }
}

/// The kind rank used to order values of different kinds:
/// `null < bool < number < string < sequence < mapping < tagged`.
pub open spec fn rank_of(v: YamlValue) -> u8 {
    match v {
        YamlValue::Null => 0,
        YamlValue::Bool(_) => 1,
        YamlValue::Number(_) => 2,
        YamlValue::String(_) => 3,
        YamlValue::Sequence(_) => 4,
        YamlValue::Mapping(_) => 5,
        YamlValue::Tagged => 6,
    }
}

/// Exec [`rank_of`].
pub fn value_rank(v: &YamlValue) -> (r: u8)
    ensures
        r == rank_of(*v),
{
    match v {
        YamlValue::Null => 0,
        YamlValue::Bool(_) => 1,
        YamlValue::Number(_) => 2,
        YamlValue::String(_) => 3,
        YamlValue::Sequence(_) => 4,
        YamlValue::Mapping(_) => 5,
        YamlValue::Tagged => 6,
    }
}

/// -1, 0 or 1 as `x` is negative, zero or positive.
pub open spec fn sign(x: int) -> int {
    if x < 0 {
        -1
    } else if x > 0 {
        1
    } else {
        0
    }
}

/// The order of two front matter values (negative, zero, positive): kinds by
/// [`rank_of`]; booleans `false < true`; numbers as `f64`; strings by their
/// lower-case forms; sequences by length, then element by element; two
/// mappings (and two tagged values) are equal.
pub open spec fn value_order(a: YamlValue, b: YamlValue) -> int
    decreases a, 0int,
{
    match a {
        YamlValue::Null => match b {
            YamlValue::Null => 0,
            _ => sign(rank_of(a) - rank_of(b)),
        },
        YamlValue::Bool(x) => match b {
            YamlValue::Bool(y) => if x == y {
                0
            } else if !x {
                -1
            } else {
                1
            },
            _ => sign(rank_of(a) - rank_of(b)),
        },
        YamlValue::Number(x) => match b {
            YamlValue::Number(y) => number_order(x, y),
            _ => sign(rank_of(a) - rank_of(b)),
        },
        YamlValue::String(x) => match b {
            YamlValue::String(y) => seq_order(lowercase(x@), lowercase(y@)),
            _ => sign(rank_of(a) - rank_of(b)),
        },
        YamlValue::Sequence(x) => match b {
            YamlValue::Sequence(y) => if x@.len() < y@.len() {
                -1
            } else if x@.len() > y@.len() {
                1
            } else {
                elems_order(x@, y@, 0)
            },
            _ => sign(rank_of(a) - rank_of(b)),
        },
        YamlValue::Mapping(_) => match b {
            YamlValue::Mapping(_) => 0,
            _ => sign(rank_of(a) - rank_of(b)),
        },
        YamlValue::Tagged => sign(rank_of(a) - rank_of(b)),
    }
}

/// The order of the first unequal pair `x[k]`, `y[k]` with `k >= i`, or 0.
pub open spec fn elems_order(x: Seq<YamlValue>, y: Seq<YamlValue>, i: int) -> int
    decreases x, x.len() - i,
{
    if 0 <= i < x.len() && i < y.len() {
        let o = value_order(x[i], y[i]);
        if o != 0 {
            o
        } else {
            elems_order(x, y, i + 1)
        }
    } else {
        0
    }
}

} // verus!

verus! {

/// -1, 0 or 1 for `Less`, `Equal`, `Greater`.
pub open spec fn ordering_value(o: Ordering) -> int {
    match o {
        Ordering::Less => -1,
        Ordering::Equal => 0,
        Ordering::Greater => 1,
    }
}

/// The `Ordering` of the sign of `x`.
fn ordering_of(x: i8) -> (r: Ordering)
    ensures
        ordering_value(r) == (if x < 0 {
            -1
        } else if x > 0 {
            1
        } else {
            0
        }),
{
    if x < 0 {
        Ordering::Less
    } else if x > 0 {
        Ordering::Greater
    } else {
        Ordering::Equal
    }
}

/// Compare two front matter values into an order for sorting.
///
/// Kind order is `null < bool < number < string < sequence < mapping`; within a
/// kind, values compare naturally: booleans `false < true`, numbers numerically,
/// strings case-insensitively, and sequences element-wise. Mappings are treated
/// as equal and thus keep the caller's stable fallback.
pub fn compare_values(a: &YamlValue, b: &YamlValue) -> (r: Ordering)
    ensures
        ordering_value(r) == value_order(*a, *b),
{
    let o = order_values(a, b);
    ordering_of(o)
}

/// No number occurs in `v` (mappings aside, whose contents are never compared).
pub open spec fn number_free(v: YamlValue) -> bool
    decreases v,
{
    match v {
        YamlValue::Number(_) => false,
        YamlValue::Sequence(x) => forall|i: int| 0 <= i < x@.len() ==> number_free(#[trigger] x@[i]),
        _ => true,
    }
}

/// Comparing values without numbers is antisymmetric: swapping the values
/// negates the order, which is -1, 0 or 1. (Numbers compare as `f64`, which
/// only the call itself tells about.)
pub proof fn lemma_value_order_antisymmetric(a: YamlValue, b: YamlValue)
    requires
        number_free(a),
        number_free(b),
    ensures
        value_order(a, b) == -value_order(b, a),
        -1 <= value_order(a, b) <= 1,
    decreases a, 0int,
{
    match a {
        YamlValue::String(x) => match b {
            YamlValue::String(y) => {
                lemma_seq_order_basic(lowercase(x@), lowercase(y@));
            },
            _ => {},
        },
        YamlValue::Sequence(x) => match b {
            YamlValue::Sequence(y) => {
                if x@.len() == y@.len() {
                    lemma_elems_antisymmetric(x@, y@, 0);
                }
            },
            _ => {},
        },
        _ => {},
    }
}

/// [`lemma_value_order_antisymmetric`], element by element from `i` on.
proof fn lemma_elems_antisymmetric(x: Seq<YamlValue>, y: Seq<YamlValue>, i: int)
    requires
        x.len() == y.len(),
        0 <= i <= x.len(),
        forall|k: int| 0 <= k < x.len() ==> number_free(#[trigger] x[k]),
        forall|k: int| 0 <= k < y.len() ==> number_free(#[trigger] y[k]),
    ensures
        elems_order(x, y, i) == -elems_order(y, x, i),
        -1 <= elems_order(x, y, i) <= 1,
    decreases x, x.len() - i,
{
    if i < x.len() {
        lemma_value_order_antisymmetric(x[i], y[i]);
        lemma_elems_antisymmetric(x, y, i + 1);
    }
}

/// A value without numbers compares equal to itself.
pub proof fn lemma_value_order_reflexive(a: YamlValue)
    requires
        number_free(a),
    ensures
        value_order(a, a) == 0,
    decreases a, 0int,
{
    match a {
        YamlValue::String(x) => {
            lemma_seq_order_basic(lowercase(x@), lowercase(x@));
        },
        YamlValue::Sequence(x) => {
            lemma_elems_reflexive(x@, 0);
        },
        _ => {},
    }
}

/// [`lemma_value_order_reflexive`], element by element from `i` on.
proof fn lemma_elems_reflexive(x: Seq<YamlValue>, i: int)
    requires
        0 <= i <= x.len(),
        forall|k: int| 0 <= k < x.len() ==> number_free(#[trigger] x[k]),
    ensures
        elems_order(x, x, i) == 0,
    decreases x, x.len() - i,
{
    if i < x.len() {
        lemma_value_order_reflexive(x[i]);
        lemma_elems_reflexive(x, i + 1);
    }
}

/// [`value_order`] of `a` and `b`, as -1, 0 or 1.
pub fn order_values(a: &YamlValue, b: &YamlValue) -> (r: i8)
    ensures
        r == value_order(*a, *b),
        -1 <= r <= 1,
    decreases *a, 0int,
{
    match (a, b) {
        (YamlValue::Null, YamlValue::Null) => 0,
        (YamlValue::Bool(x), YamlValue::Bool(y)) => {
            if *x == *y {
                0
            } else if !*x {
                -1
            } else {
                1
            }
        },
        (YamlValue::Number(x), YamlValue::Number(y)) => compare_numbers(x, y),
        (YamlValue::String(x), YamlValue::String(y)) => {
            let lx = to_lowercase(x.as_str());
            let ly = to_lowercase(y.as_str());
            let o = order_str(lx.as_str(), ly.as_str());
            proof {
                lemma_seq_order_basic(lx@, ly@);
            }
            o
        },
        (YamlValue::Sequence(x), YamlValue::Sequence(y)) => order_sequences(x, y),
        (YamlValue::Mapping(_), YamlValue::Mapping(_)) => 0,
        _ => {
            let ra = value_rank(a);
            let rb = value_rank(b);
            if ra < rb {
                -1
            } else if ra > rb {
                1
            } else {
                0
            }
        },
    }
}

/// Sequences compare by length, then element by element.
fn order_sequences(x: &Vec<YamlValue>, y: &Vec<YamlValue>) -> (r: i8)
    ensures
        r == (if x@.len() < y@.len() {
            -1
        } else if x@.len() > y@.len() {
            1
        } else {
            elems_order(x@, y@, 0)
        }),
        -1 <= r <= 1,
    decreases x@, 1int,
{
    if x.len() < y.len() {
        return -1;
    }
    if x.len() > y.len() {
        return 1;
    }
    let mut i: usize = 0;
    while i < x.len()
        invariant
            x@.len() == y@.len(),
            i <= x@.len(),
            elems_order(x@, y@, 0) == elems_order(x@, y@, i as int),
        decreases x.len() - i,
    {
        let o = order_values(&x[i], &y[i]);
        if o != 0 {
            return o;
        }
        i = i + 1;
    }
    0
}

} // verus!

verus! {

/// `true` or `false`, as `bool::to_string` writes them.
pub open spec fn bool_text(b: bool) -> Seq<char> {
    if b {
        seq!['t', 'r', 'u', 'e']
    } else {
        seq!['f', 'a', 'l', 's', 'e']
    }
}

/// The text `serde_yaml` displays for a number: decimal for integers, the kept
/// text for floats.
pub open spec fn number_text(n: YamlNumber) -> Seq<char> {
    match n {
        YamlNumber::PosInt(u) => decimal(u as nat),
        YamlNumber::NegInt(i) => if i < 0 {
            seq!['-'] + decimal((-i) as nat)
        } else {
            decimal(i as nat)
        },
        YamlNumber::Float(t) => t@,
    }
}

/// `bool::to_string`.
pub fn bool_string(b: bool) -> (r: String)
    ensures
        r@ == bool_text(b),
{
    let mut r = String::new();
    if b {
        push_char(&mut r, 't');
        push_char(&mut r, 'r');
        push_char(&mut r, 'u');
        push_char(&mut r, 'e');
    } else {
        push_char(&mut r, 'f');
        push_char(&mut r, 'a');
        push_char(&mut r, 'l');
        push_char(&mut r, 's');
        push_char(&mut r, 'e');
    }
    assert(r@ =~= bool_text(b));
    r
}

/// The display text of a number (`serde_yaml::Number::to_string`).
pub fn number_string(n: &YamlNumber) -> (r: String)
    ensures
        r@ == number_text(*n),
{
    match n {
        YamlNumber::PosInt(u) => decimal_string(*u),
        YamlNumber::NegInt(i) => {
            if *i >= 0 {
                return decimal_string(*i as u64);
            }
            let mut r = String::new();
            push_char(&mut r, '-');
            let m: u64 = if *i == i64::MIN {
                0x8000_0000_0000_0000u64
            } else {
                let p: i64 = -*i;
                p as u64
            };
            let d = decimal_string(m);
            r.append(d.as_str());
            r
        },
        YamlNumber::Float(t) => owned(t.as_str()),
    }
}

/// Whether `v` matches the filter `query`: the query is trimmed and
/// lower-cased; scalars match when their lower-cased text equals it; a sequence
/// matches when any element matches; null, mappings and tagged values never do.
pub open spec fn value_matches(v: YamlValue, query: Seq<char>) -> bool
    decreases v, 0int,
{
    let q = lowercase(trim(query));
    match v {
        YamlValue::Bool(b) => lowercase(bool_text(b)) == q,
        YamlValue::Number(n) => lowercase(number_text(n)) == q,
        YamlValue::String(s) => lowercase(s@) == q,
        YamlValue::Sequence(x) => any_matches(x@, q, 0),
        _ => false,
    }
}

/// Some element of `x` at or after `i` matches `q`.
pub open spec fn any_matches(x: Seq<YamlValue>, q: Seq<char>, i: int) -> bool
    decreases x, x.len() - i,
{
    if 0 <= i < x.len() {
        value_matches(x[i], q) || any_matches(x, q, i + 1)
    } else {
        false
    }
}

/// Whether `value` matches a filter string (case-insensitive).
///
/// Scalars match when their string form equals the query; a sequence matches
/// when any element matches; mappings and null never match.
pub fn values_match(value: &YamlValue, query: &str) -> (r: bool)
    ensures
        r == value_matches(*value, query@),
    decreases *value, 0int,
{
    let t = trim_string(query);
    let q = to_lowercase(t.as_str());
    match value {
        YamlValue::Null => false,
        YamlValue::Bool(b) => {
            let s = to_lowercase(bool_string(*b).as_str());
            eq_str(s.as_str(), q.as_str())
        },
        YamlValue::Number(n) => {
            let s = to_lowercase(number_string(n).as_str());
            eq_str(s.as_str(), q.as_str())
        },
        YamlValue::String(s) => {
            let l = to_lowercase(s.as_str());
            eq_str(l.as_str(), q.as_str())
        },
        YamlValue::Sequence(x) => any_element_matches(x, &q),
        YamlValue::Mapping(_) => false,
        YamlValue::Tagged => false,
    }
}

/// Whether some element of `x` matches `q`.
fn any_element_matches(x: &Vec<YamlValue>, q: &String) -> (r: bool)
    ensures
        r == any_matches(x@, q@, 0),
    decreases x@, 1int,
{
    let mut i: usize = 0;
    while i < x.len()
        invariant
            i <= x@.len(),
            any_matches(x@, q@, 0) == any_matches(x@, q@, i as int),
        decreases x.len() - i,
    {
        if values_match(&x[i], q.as_str()) {
            return true;
        }
        i = i + 1;
    }
    false
}

} // verus!

verus! {

/// `k` is a top-level string key of the mapping `fm`.
pub open spec fn has_string_key(fm: YamlValue, k: Seq<char>) -> bool {
    match fm {
        YamlValue::Mapping(m) => exists|i: int| 0 <= i < m@.len() && is_string_key(#[trigger] m@[i].0, k),
        _ => false,
    }
}

/// The distinct top-level front matter keys, sorted.
pub fn keys(front_matter: &YamlValue) -> (r: Vec<String>)
    ensures
        strictly_sorted(views(r@)),
        forall|i: int| 0 <= i < r@.len() ==> has_string_key(*front_matter, #[trigger] r@[i]@),
        forall|k: Seq<char>| has_string_key(*front_matter, k) ==> views(r@).contains(k),
{
    let mut out: Vec<String> = Vec::new();
    match front_matter {
        YamlValue::Mapping(m) => {
            let mut j: usize = 0;
            while j < m.len()
                invariant
                    j <= m@.len(),
                    *front_matter == YamlValue::Mapping(*m),
                    strictly_sorted(views(out@)),
                    forall|x: Seq<char>|
                        views(out@).contains(x) <==> exists|e: int|
                            0 <= e < j && is_string_key(#[trigger] m@[e].0, x),
                decreases m.len() - j,
            {
                match &m[j].0 {
                    YamlValue::String(s) => {
                        let ghost before = views(out@);
                        insert_sorted_unique(&mut out, s.clone());
                        assert forall|x: Seq<char>|
                            views(out@).contains(x) <==> exists|e: int|
                                0 <= e < j + 1 && is_string_key(#[trigger] m@[e].0, x) by {
                            if x == s@ {
                                assert(is_string_key(m@[j as int].0, x));
                            }
                            if exists|e: int| 0 <= e < j + 1 && is_string_key(#[trigger] m@[e].0, x) {
                                let e = choose|e: int| 0 <= e < j + 1 && is_string_key(#[trigger] m@[e].0, x);
                                if e < j {
                                    assert(before.contains(x));
                                }
                            }
                        }
                    },
                    _ => {
                        assert forall|x: Seq<char>|
                            views(out@).contains(x) <==> exists|e: int|
                                0 <= e < j + 1 && is_string_key(#[trigger] m@[e].0, x) by {
                            if exists|e: int| 0 <= e < j + 1 && is_string_key(#[trigger] m@[e].0, x) {
                                let e = choose|e: int| 0 <= e < j + 1 && is_string_key(#[trigger] m@[e].0, x);
                                assert(e < j);
                            }
                        }
                    },
                }
                j = j + 1;
            }
            assert forall|i: int| 0 <= i < out@.len() implies has_string_key(*front_matter, #[trigger] out@[i]@) by {
                assert(views(out@)[i] == out@[i]@);
                assert(views(out@).contains(out@[i]@));
            }
        },
        _ => {},
    }
    out
}

} // verus!

verus! {

/// The display text of a front matter value: scalars become their text, a
/// sequence comma-joins the texts of its elements that have one (`None` when
/// none has), and null, mappings and tagged values have none.
pub open spec fn display_of(v: YamlValue) -> Option<Seq<char>>
    decreases v, 0int,
{
    match v {
        YamlValue::Bool(b) => Some(bool_text(b)),
        YamlValue::Number(n) => Some(number_text(n)),
        YamlValue::String(s) => Some(s@),
        YamlValue::Sequence(x) => {
            let parts = display_parts(x@, x@.len() as int);
            if parts.len() == 0 {
                None
            } else {
                Some(join(parts, seq![',', ' ']))
            }
        },
        _ => None,
    }
}

/// The display texts of `x[0..n]`, skipping elements that have none.
pub open spec fn display_parts(x: Seq<YamlValue>, n: int) -> Seq<Seq<char>>
    decreases x, n,
{
    if 0 < n <= x.len() {
        let p = display_parts(x, n - 1);
        match display_of(x[n - 1]) {
            Some(t) => p.push(t),
            None => p,
        }
    } else {
        seq![]
    }
}

/// Stringify a front matter value for display. Scalars become their text form,
/// sequences comma-join their elements, and nulls/mappings/tagged values return
/// `None` (nothing to show).
pub fn display_string(value: &YamlValue) -> (r: Option<String>)
    ensures
        opt_view(r) == display_of(*value),
    decreases *value, 0int,
{
    match value {
        YamlValue::Null => None,
        YamlValue::Bool(b) => Some(bool_string(*b)),
        YamlValue::Number(n) => Some(number_string(n)),
        YamlValue::String(s) => Some(owned(s.as_str())),
        YamlValue::Sequence(x) => {
            let parts = element_texts(x);
            if parts.len() == 0 {
                None
            } else {
                let mut sep = String::new();
                push_char(&mut sep, ',');
                push_char(&mut sep, ' ');
                assert(sep@ =~= seq![',', ' ']);
                Some(join_strings(&parts, sep.as_str()))
            }
        },
        YamlValue::Mapping(_) => None,
        YamlValue::Tagged => None,
    }
}

/// The display texts of the elements of `x` that have one.
fn element_texts(x: &Vec<YamlValue>) -> (r: Vec<String>)
    ensures
        views(r@) == display_parts(x@, x@.len() as int),
    decreases x@, x@.len() as int + 1,
{
    let mut parts: Vec<String> = Vec::new();
    let mut i: usize = 0;
    while i < x.len()
        invariant
            i <= x@.len(),
            views(parts@) == display_parts(x@, i as int),
        decreases x.len() - i,
    {
        match display_string(&x[i]) {
            Some(t) => {
                parts.push(t);
                assert(views(parts@) =~= display_parts(x@, i as int).push(t@));
            },
            None => {},
        }
        i = i + 1;
    }
    parts
}

/// Whether `key` is one of the top-level front matter keys the server models and
/// renders in a dedicated, structured way.
pub open spec fn modeled_key(key: Seq<char>) -> bool {
    ||| key == "type"@
    ||| key == "title"@
    ||| key == "description"@
    ||| key == "resource"@
    ||| key == "tags"@
    ||| key == "status"@
    ||| key == "generated"@
    ||| key == "verified"@
    ||| key == "stale_after"@
    ||| key == "sources"@
}

/// Exec [`modeled_key`].
pub fn is_modeled_key(key: &str) -> (r: bool)
    ensures
        r == modeled_key(key@),
{
    eq_str(key, "type") || eq_str(key, "title") || eq_str(key, "description") || eq_str(
        key,
        "resource",
    ) || eq_str(key, "tags") || eq_str(key, "status") || eq_str(key, "generated") || eq_str(
        key,
        "verified",
    ) || eq_str(key, "stale_after") || eq_str(key, "sources")
}

/// The display text of the top-level field `key` of `fm`, if it has one.
pub open spec fn field_display(fm: YamlValue, key: Seq<char>) -> Option<Seq<char>> {
    match field_of(fm, key) {
        Some(v) => display_of(v),
        None => None,
    }
}

/// An extra field: a top-level string key the server does not model whose value
/// has a display text.
pub open spec fn is_extra_field(fm: YamlValue, key: Seq<char>) -> bool {
    has_string_key(fm, key) && !modeled_key(key) && field_display(fm, key) is Some
}

/// The keys of a list of key/value pairs.
pub open spec fn pair_keys(v: Seq<(String, String)>) -> Seq<Seq<char>> {
    v.map_values(|p: (String, String)| p.0@)
}

/// The top-level front matter fields the server does not model, as a
/// deterministic key-sorted list of (key, display string).
///
/// Sequences are comma-joined; nulls, mappings, and tagged values are omitted.
pub fn extra_fields(front_matter: &YamlValue) -> (r: Vec<(String, String)>)
    ensures
        strictly_sorted(pair_keys(r@)),
        forall|i: int|
            0 <= i < r@.len() ==> is_extra_field(*front_matter, #[trigger] r@[i].0@)
                && field_display(*front_matter, r@[i].0@) == Some(r@[i].1@),
        forall|k: Seq<char>| is_extra_field(*front_matter, k) ==> pair_keys(r@).contains(k),
{
    let ks = keys(front_matter);
    let mut out: Vec<(String, String)> = Vec::new();
    let mut i: usize = 0;
    while i < ks.len()
        invariant
            i <= ks@.len(),
            strictly_sorted(views(ks@)),
            forall|j: int| 0 <= j < ks@.len() ==> has_string_key(*front_matter, #[trigger] ks@[j]@),
            forall|k: Seq<char>| has_string_key(*front_matter, k) ==> views(ks@).contains(k),
            forall|a: int|
                0 <= a < out@.len() ==> exists|b: int|
                    0 <= b < i && #[trigger] out@[a].0@ == ks@[b]@,
            forall|a: int|
                0 <= a < out@.len() ==> is_extra_field(*front_matter, #[trigger] out@[a].0@)
                    && field_display(*front_matter, out@[a].0@) == Some(out@[a].1@),
            forall|b: int|
                0 <= b < i && is_extra_field(*front_matter, #[trigger] ks@[b]@) ==> pair_keys(
                    out@,
                ).contains(ks@[b]@),
            strictly_sorted(pair_keys(out@)),
            forall|a: int, b: int|
                0 <= a < out@.len() && i <= b < ks@.len() ==> seq_order(
                    #[trigger] out@[a].0@,
                    #[trigger] ks@[b]@,
                ) < 0,
        decreases ks.len() - i,
    {
        let key = &ks[i];
        if !is_modeled_key(key.as_str()) {
            match get_field(front_matter, key.as_str()) {
                Some(v) => match display_string(v) {
                    Some(d) => {
                        let ghost before = out@;
                        out.push((key.clone(), d));
                        proof {
                            assert(pair_keys(out@) =~= pair_keys(before).push(key@));
                            assert forall|a: int, b: int|
                                0 <= a < out@.len() && i + 1 <= b < ks@.len() implies seq_order(
                                #[trigger] out@[a].0@,
                                #[trigger] ks@[b]@,
                            ) < 0 by {
                                assert(views(ks@)[i as int] == ks@[i as int]@);
                                assert(views(ks@)[b] == ks@[b]@);
                                if a < before.len() {
                                    assert(out@[a] == before[a]);
                                }
                            }
                            assert forall|b: int|
                                0 <= b < i + 1 && is_extra_field(*front_matter, #[trigger] ks@[b]@) implies pair_keys(
                                out@,
                            ).contains(ks@[b]@) by {
                                if b < i {
                                    let w = choose|w: int| 0 <= w < pair_keys(before).len() && pair_keys(before)[w] == ks@[b]@;
                                    assert(pair_keys(out@)[w] == ks@[b]@);
                                } else {
                                    assert(pair_keys(out@)[before.len() as int] == ks@[b]@);
                                }
                            }
                            assert forall|a: int|
                                0 <= a < out@.len() implies exists|b: int|
                                    0 <= b < i + 1 && #[trigger] out@[a].0@ == ks@[b]@ by {
                                if a < before.len() {
                                    assert(out@[a] == before[a]);
                                } else {
                                    assert(out@[a].0@ == ks@[i as int]@);
                                }
                            }
                        }
                    },
                    None => {
                        assert(!is_extra_field(*front_matter, ks@[i as int]@));
                    },
                },
                None => {
                    assert(!is_extra_field(*front_matter, ks@[i as int]@));
                },
            }
        }
        proof {
            assert forall|a: int, b: int|
                0 <= a < out@.len() && i + 1 <= b < ks@.len() implies seq_order(
                #[trigger] out@[a].0@,
                #[trigger] ks@[b]@,
            ) < 0 by {
                assert(views(ks@)[i as int] == ks@[i as int]@);
                assert(views(ks@)[b] == ks@[b]@);
            }
        }
        i = i + 1;
    }
    proof {
        assert forall|k: Seq<char>| is_extra_field(*front_matter, k) implies pair_keys(out@).contains(k) by {
            let b = choose|b: int| 0 <= b < views(ks@).len() && views(ks@)[b] == k;
            assert(ks@[b]@ == k);
        }
    }
    out
}

} // verus!
