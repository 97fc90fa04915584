//! The web UI's side of the REST API: where requests go, how their paths and
//! query strings are built, what a page shows for what the API answered, and
//! the breadcrumbs and tree highlighting of the page.
use vstd::prelude::*;
use vstd::string::*;

use crate::concept::TrustTier;
use crate::dto::{ConceptResponse, DirListingResponse};
use crate::text::{
    ascii_lowercase, char_ascii_lower, char_from_u32, chars_of, eq_str, is_prefix, push_char,
    split_bounds, split_pieces, starts_with_exec, string_of_range, trim, trim_char, trim_matches_char,
    trim_string,
};

verus! {

/// The base URL of the REST API as the server side of the UI reaches it: set
/// once, by the process that also serves the API.
#[derive(Debug)]
pub struct ApiBase {
    pub url: Option<String>,
}

/// `http://127.0.0.1:8080`, the API's default address.
pub open spec fn default_api_base() -> Seq<char> {
    "http://127.0.0.1:8080"@
}

impl ApiBase {
    /// No base URL set yet.
    pub fn new() -> (r: ApiBase)
        ensures
            r.url is None,
    {
        ApiBase { url: None }
    }

    /// The base URL: the one set, or the default.
    pub fn base(&self) -> (r: String)
        ensures
            r@ == match self.url {
                Some(u) => u@,
                None => default_api_base(),
            },
    {
        match &self.url {
            Some(u) => u.clone(),
            None => "http://127.0.0.1:8080".to_string(),
        }
    }

    /// The URL of the API endpoint at `path`: `{base}/api/{path}`.
    pub fn api_url(&self, path: &str) -> (r: String)
        ensures
            r@ == match self.url {
                Some(u) => u@,
                None => default_api_base(),
            } + "/api/"@ + path@,
    {
        let mut r = self.base();
        r.append("/api/");
        r.append(path);
        r
    }
}

/// Set the base URL the UI reaches the REST API at. Only the first call has an
/// effect.
pub fn set_api_base_url(base: &mut ApiBase, url: String)
    ensures
        match old(base).url {
            Some(u) => final(base).url == Some(u),
            None => final(base).url == Some(url),
        },
{
    if base.url.is_none() {
        base.url = Some(url);
    }
}

/// Characters sent as they are in a query value: ASCII letters and digits, `-`,
/// `_`, `.` and `~`.
pub open spec fn is_unreserved(c: char) -> bool {
    ('a' <= c && c <= 'z') || ('A' <= c && c <= 'Z') || ('0' <= c && c <= '9') || c == '-' || c == '_'
        || c == '.' || c == '~'
}

/// The upper-case hexadecimal digit for `d < 16`.
pub open spec fn hex_digit(d: nat) -> char {
    if d < 10 {
        (('0' as u32) + d) as char
    } else {
        (('A' as u32) + d - 10) as char
    }
}

/// The upper-case hexadecimal text of `n`, without leading zeros.
pub open spec fn hex(n: nat) -> Seq<char>
    decreases n,
{
    if n < 16 {
        seq![hex_digit(n)]
    } else {
        hex(n / 16).push(hex_digit(n % 16))
    }
}

/// `%` and the hexadecimal code point of `c`, at least two digits.
pub open spec fn percent_code(c: char) -> Seq<char> {
    let n = (c as u32) as nat;
    if n < 16 {
        seq!['%', '0', hex_digit(n)]
    } else {
        seq!['%'] + hex(n)
    }
}

/// `s` percent-encoded for a query string: unreserved characters as they are,
/// every other character as `%` and its code point in hexadecimal.
pub open spec fn url_encoded(s: Seq<char>) -> Seq<char>
    decreases s.len(),
{
    if s.len() == 0 {
        seq![]
    } else {
        url_encoded(s.drop_last()) + if is_unreserved(s.last()) {
            seq![s.last()]
        } else {
            percent_code(s.last())
        }
    }
}

/// The character for hexadecimal digit `d`.
fn hex_char(d: u32) -> (r: char)
    requires
        d < 16,
    ensures
        r == hex_digit(d as nat),
{
    if d < 10 {
        char_from_u32(48 + d)
    } else {
        char_from_u32(55 + d)
    }
}

/// Append the hexadecimal text of `n`.
fn push_hex(out: &mut String, n: u32)
    ensures
        final(out)@ == old(out)@ + hex(n as nat),
    decreases n,
{
    if n >= 16 {
        push_hex(out, n / 16);
        let ghost mid = out@;
        push_char(out, hex_char(n % 16));
        assert(out@ =~= old(out)@ + hex(n as nat));
    } else {
        push_char(out, hex_char(n));
        assert(out@ =~= old(out)@ + hex(n as nat));
    }
}

/// The digits of a hexadecimal number are unreserved characters.
proof fn lemma_hex_unreserved(n: nat)
    ensures
        forall|i: int| 0 <= i < hex(n).len() ==> is_unreserved(#[trigger] hex(n)[i]),
    decreases n,
{
    if n >= 16 {
        lemma_hex_unreserved(n / 16);
        assert forall|i: int| 0 <= i < hex(n).len() implies is_unreserved(#[trigger] hex(n)[i]) by {
            if i < hex(n / 16).len() {
                assert(hex(n)[i] == hex(n / 16)[i]);
            } else {
                lemma_hex_digit_unreserved((n % 16) as nat);
            }
        }
    } else {
        lemma_hex_digit_unreserved(n);
    }
}

/// A hexadecimal digit is an unreserved character.
proof fn lemma_hex_digit_unreserved(d: nat)
    requires
        d < 16,
    ensures
        is_unreserved(hex_digit(d)),
{
    if d < 10 {
        assert(('0' as u32) + d <= ('9' as u32));
        assert('0' <= hex_digit(d) && hex_digit(d) <= '9');
    } else {
        assert('A' <= hex_digit(d) && hex_digit(d) <= 'Z');
    }
}

/// Percent-encoding leaves only unreserved characters and `%` in a query
/// value, so it can never break the query string apart.
pub proof fn lemma_url_encoded_safe(s: Seq<char>)
    ensures
        forall|i: int|
            0 <= i < url_encoded(s).len() ==> is_unreserved(#[trigger] url_encoded(s)[i]) || url_encoded(s)[i] == '%',
    decreases s.len(),
{
    if s.len() > 0 {
        lemma_url_encoded_safe(s.drop_last());
        let head = url_encoded(s.drop_last());
        let c = s.last();
        let n = (c as u32) as nat;
        lemma_hex_unreserved(n);
        if n < 16 {
            lemma_hex_digit_unreserved(n);
        }
        assert forall|i: int| 0 <= i < url_encoded(s).len() implies is_unreserved(#[trigger] url_encoded(s)[i])
            || url_encoded(s)[i] == '%' by {
            if i < head.len() {
                assert(url_encoded(s)[i] == head[i]);
            } else if !is_unreserved(c) && n >= 16 && i > head.len() {
                assert(url_encoded(s)[i] == hex(n)[i - head.len() - 1]);
            }
        }
    }
}

/// Percent-encode `s` for a query string (see [`url_encoded`]).
pub fn urlencode(s: &str) -> (r: String)
    ensures
        r@ == url_encoded(s@),
{
    let v = chars_of(s);
    let mut r = String::new();
    let mut i: usize = 0;
    while i < v.len()
        invariant
            i <= v@.len(),
            r@ == url_encoded(v@.subrange(0, i as int)),
        decreases v.len() - i,
    {
        let c = v[i];
        let ghost before = r@;
        assert(v@.subrange(0, i + 1).drop_last() =~= v@.subrange(0, i as int));
        assert(v@.subrange(0, i + 1).last() == c);
        if ('a' <= c && c <= 'z') || ('A' <= c && c <= 'Z') || ('0' <= c && c <= '9') || c == '-' || c == '_'
            || c == '.' || c == '~' {
            push_char(&mut r, c);
            assert(r@ =~= before + seq![c]);
        } else {
            let n = c as u32;
            push_char(&mut r, '%');
            if n < 16 {
                push_char(&mut r, '0');
                push_char(&mut r, hex_char(n));
                assert(r@ =~= before + percent_code(c));
            } else {
                let ghost mid = r@;
                push_hex(&mut r, n);
                assert(r@ =~= before + percent_code(c));
            }
        }
        i = i + 1;
    }
    assert(v@.subrange(0, v@.len() as int) =~= v@);
    r
}

/// The value of hexadecimal digit `c` (either case), or -1.
pub open spec fn hex_value(c: char) -> int {
    if '0' <= c && c <= '9' {
        c as int - '0' as int
    } else if 'A' <= c && c <= 'F' {
        c as int - 'A' as int + 10
    } else if 'a' <= c && c <= 'f' {
        c as int - 'a' as int + 10
    } else {
        -1
    }
}

/// `s` percent-decoded, read from the front: `%` and two hexadecimal digits
/// stand for the character with that code; any other character for itself.
pub open spec fn url_decoded(s: Seq<char>) -> Seq<char>
    decreases s.len(),
{
    if s.len() == 0 {
        seq![]
    } else if s[0] == '%' && s.len() >= 3 && hex_value(s[1]) >= 0 && hex_value(s[2]) >= 0 {
        seq![(hex_value(s[1]) * 16 + hex_value(s[2])) as char] + url_decoded(s.subrange(3, s.len() as int))
    } else {
        seq![s[0]] + url_decoded(s.drop_first())
    }
}

/// How one character is written by [`url_encoded`].
pub open spec fn encoded_char(c: char) -> Seq<char> {
    if is_unreserved(c) {
        seq![c]
    } else {
        percent_code(c)
    }
}

/// Encoding can be read from the front: the first character's encoding, then
/// that of the rest.
proof fn lemma_encoded_front(s: Seq<char>)
    requires
        s.len() > 0,
    ensures
        url_encoded(s) == encoded_char(s[0]) + url_encoded(s.drop_first()),
    decreases s.len(),
{
    if s.len() == 1 {
        assert(s.drop_last() =~= Seq::<char>::empty());
        assert(s.drop_first() =~= Seq::<char>::empty());
        assert(url_encoded(s) =~= encoded_char(s[0]) + url_encoded(s.drop_first()));
    } else {
        let d = s.drop_last();
        lemma_encoded_front(d);
        assert(d.drop_first() =~= s.drop_first().drop_last());
        assert(s.drop_first().last() == s.last());
        assert(d[0] == s[0]);
        assert(url_encoded(s) =~= encoded_char(s[0]) + url_encoded(s.drop_first()));
    }
}

/// An ASCII character that is not unreserved is written as `%` and two
/// upper-case hexadecimal digits.
proof fn lemma_percent_code_ascii(c: char)
    requires
        (c as u32) < 128,
    ensures
        percent_code(c) == seq!['%', hex_digit(((c as u32) / 16) as nat), hex_digit(((c as u32) % 16) as nat)],
{
    let n = (c as u32) as nat;
    if n < 16 {
        assert(hex_digit(0) == '0');
        assert(percent_code(c) =~= seq!['%', hex_digit((n / 16) as nat), hex_digit((n % 16) as nat)]);
    } else {
        assert(hex((n / 16) as nat) == seq![hex_digit((n / 16) as nat)]);
        assert(hex(n) == hex((n / 16) as nat).push(hex_digit((n % 16) as nat)));
        assert(percent_code(c) =~= seq!['%', hex_digit((n / 16) as nat), hex_digit((n % 16) as nat)]);
    }
}

/// A hexadecimal digit reads back as its value.
proof fn lemma_hex_value_digit(d: nat)
    requires
        d < 16,
    ensures
        hex_value(hex_digit(d)) == d,
{
}

/// Decoding reads the encoding of an ASCII character back as that character.
proof fn lemma_decode_step(c: char, rest: Seq<char>)
    requires
        (c as u32) < 128,
    ensures
        url_decoded(encoded_char(c) + rest) == seq![c] + url_decoded(rest),
{
    let s = encoded_char(c) + rest;
    if is_unreserved(c) {
        assert(s[0] == c);
        assert(s.drop_first() =~= rest);
    } else {
        lemma_percent_code_ascii(c);
        let n = (c as u32) as nat;
        lemma_hex_value_digit((n / 16) as nat);
        lemma_hex_value_digit((n % 16) as nat);
        assert(s[0] == '%' && s[1] == hex_digit((n / 16) as nat) && s[2] == hex_digit((n % 16) as nat));
        assert(hex_value(s[1]) * 16 + hex_value(s[2]) == n);
        assert(s.subrange(3, s.len() as int) =~= rest);
    }
}

/// For ASCII text, percent-decoding the encoding gives the text back.
pub proof fn lemma_url_round_trip(s: Seq<char>)
    requires
        forall|i: int| 0 <= i < s.len() ==> (#[trigger] s[i] as u32) < 128,
    ensures
        url_decoded(url_encoded(s)) == s,
    decreases s.len(),
{
    if s.len() > 0 {
        let t = s.drop_first();
        assert forall|i: int| 0 <= i < t.len() implies (#[trigger] t[i] as u32) < 128 by {
            assert(t[i] == s[i + 1]);
        }
        lemma_url_round_trip(t);
        lemma_encoded_front(s);
        lemma_decode_step(s[0], url_encoded(t));
        assert(seq![s[0]] + t =~= s);
    }
}

/// The number of characters of `s` that are not unreserved.
pub open spec fn reserved_count(s: Seq<char>) -> nat
    decreases s.len(),
{
    if s.len() == 0 {
        0
    } else {
        reserved_count(s.drop_last()) + if is_unreserved(s.last()) {
            0nat
        } else {
            1nat
        }
    }
}

/// For ASCII text, the encoding is two characters longer than the text for
/// each character that is escaped.
pub proof fn lemma_url_encoded_len(s: Seq<char>)
    requires
        forall|i: int| 0 <= i < s.len() ==> (#[trigger] s[i] as u32) < 128,
    ensures
        url_encoded(s).len() == s.len() + 2 * reserved_count(s),
    decreases s.len(),
{
    if s.len() > 0 {
        let d = s.drop_last();
        assert forall|i: int| 0 <= i < d.len() implies (#[trigger] d[i] as u32) < 128 by {
            assert(d[i] == s[i]);
        }
        lemma_url_encoded_len(d);
        assert(s[s.len() - 1] == s.last());
        if !is_unreserved(s.last()) {
            lemma_percent_code_ascii(s.last());
        }
    }
}

/// The API path under `prefix` for bundle path `path` (surrounding `/`s
/// dropped): `prefix` alone for the root, else `prefix/path`.
pub open spec fn api_path(prefix: Seq<char>, path: Seq<char>) -> Seq<char> {
    let p = trim_char(path, '/');
    if p.len() == 0 {
        prefix
    } else {
        prefix + seq!['/'] + p
    }
}

/// Exec [`api_path`].
fn api_path_for(prefix: &str, path: &str) -> (r: String)
    ensures
        r@ == api_path(prefix@, path@),
{
    let p = trim_matches_char(path, '/');
    let pv = chars_of(p.as_str());
    let mut r = prefix.to_string();
    if pv.len() > 0 {
        r.append("/");
        r.append(p.as_str());
        proof {
            reveal_strlit("/");
        }
        assert(r@ =~= prefix@ + seq!['/'] + p@);
    }
    r
}

/// The two API paths a page at bundle path `path` may be: the concept
/// (`concepts/...`) and the directory (`dirs/...`).
pub fn page_paths(path: &str) -> (r: (String, String))
    ensures
        r.0@ == api_path("concepts"@, path@),
        r.1@ == api_path("dirs"@, path@),
{
    (api_path_for("concepts", path), api_path_for("dirs", path))
}

/// `desc` or `descending`: a descending sort direction.
pub open spec fn is_descending(d: Seq<char>) -> bool {
    d == "desc"@ || d == "descending"@
}

/// The query string of a directory listing: none without a (non-blank) sort
/// key; else `sort=` the encoded trimmed key, `&dir=desc` when the direction
/// trimmed and ASCII-lowercased is descending, `&dir=asc` otherwise.
pub open spec fn dir_query(sort: Option<Seq<char>>, dir: Option<Seq<char>>) -> Option<Seq<char>> {
    match sort {
        Some(s) => if trim(s).len() == 0 {
            None
        } else {
            let desc = match dir {
                Some(d) => is_descending(ascii_lowercase(trim(d))),
                None => false,
            };
            Some("sort="@ + url_encoded(trim(s)) + if desc {
                "&dir=desc"@
            } else {
                "&dir=asc"@
            })
        },
        None => None,
    }
}

/// Whether the direction `d` asks for a descending sort.
fn descending(d: &str) -> (r: bool)
    ensures
        r == is_descending(ascii_lowercase(trim(d@))),
{
    let t = trim_string(d);
    let v = chars_of(t.as_str());
    let mut l = String::new();
    let mut i: usize = 0;
    while i < v.len()
        invariant
            i <= v@.len(),
            l@ == ascii_lowercase(v@.subrange(0, i as int)),
        decreases v.len() - i,
    {
        push_char(&mut l, char_ascii_lower(v[i]));
        assert(ascii_lowercase(v@.subrange(0, i + 1)) =~= ascii_lowercase(v@.subrange(0, i as int)).push(
            char_ascii_lower_spec(v@[i as int]),
        ));
        i = i + 1;
    }
    assert(v@.subrange(0, v@.len() as int) =~= v@);
    eq_str(l.as_str(), "desc") || eq_str(l.as_str(), "descending")
}

/// The ASCII lower-case of `c`, as [`ascii_lowercase`] maps it.
pub open spec fn char_ascii_lower_spec(c: char) -> char {
    crate::text::ascii_lower(c)
}

/// The API path of the listing of directory `path`, sorted by `sort` in
/// direction `dir` when a sort key is given.
pub fn dir_listing_path(path: &str, sort: Option<&str>, dir: Option<&str>) -> (r: String)
    ensures
        r@ == match dir_query(
            match sort {
                Some(s) => Some(s@),
                None => None,
            },
            match dir {
                Some(d) => Some(d@),
                None => None,
            },
        ) {
            Some(q) => api_path("dirs"@, path@) + seq!['?'] + q,
            None => api_path("dirs"@, path@),
        },
{
    let mut r = api_path_for("dirs", path);
    match sort {
        Some(s) => {
            let t = trim_string(s);
            let tv = chars_of(t.as_str());
            if tv.len() == 0 {
                return r;
            }
            let desc = match dir {
                Some(d) => descending(d),
                None => false,
            };
            proof {
                reveal_strlit("?sort=");
                reveal_strlit("sort=");
                reveal_strlit("&dir=desc");
                reveal_strlit("&dir=asc");
            }
            let ghost base = r@;
            r.append("?sort=");
            let e = urlencode(t.as_str());
            r.append(e.as_str());
            if desc {
                r.append("&dir=desc");
            } else {
                r.append("&dir=asc");
            }
            assert("?sort="@ =~= seq!['?'] + "sort="@);
            assert(r@ =~= base + seq!['?'] + ("sort="@ + url_encoded(trim(s@)) + if desc {
                "&dir=desc"@
            } else {
                "&dir=asc"@
            }));
            r
        },
        None => r,
    }
}

/// The API path of a keyword search for `query`: `search?q=` and the encoded
/// query.
pub fn search_path(query: &str) -> (r: String)
    ensures
        r@ == "search?q="@ + url_encoded(query@),
{
    let mut r = "search?q=".to_string();
    let e = urlencode(query);
    r.append(e.as_str());
    r
}

/// What a page at a bundle path shows: a concept, a directory, or nothing.
#[derive(Debug)]
pub enum PageData {
    Concept(ConceptResponse),
    Dir(DirListingResponse),
    NotFound,
}

/// The page for what the API answered: the concept if there is one at the
/// path, else the directory if there is one, else nothing.
pub fn page_from(concept: Option<ConceptResponse>, dir: Option<DirListingResponse>) -> (r: PageData)
    ensures
        concept is Some ==> r == PageData::Concept(concept->0),
        concept is None && dir is Some ==> r == PageData::Dir(dir->0),
        concept is None && dir is None ==> r is NotFound,
{
    match concept {
        Some(c) => PageData::Concept(c),
        None => match dir {
            Some(d) => PageData::Dir(d),
            None => PageData::NotFound,
        },
    }
}

/// Hands a future on unchanged (on the server side of the UI every future the
/// pages await is already `Send`).
pub fn to_send_future<F>(fut: F) -> (r: F)
    ensures
        r == fut,
{
    fut
}

/// The CSS class that shows a trust tier.
pub fn trust_class(tier: TrustTier) -> (r: &'static str)
    ensures
        r@ == match tier {
            TrustTier::Unverified => "trust-unverified"@,
            TrustTier::MachineConfirmed => "trust-machine"@,
            TrustTier::HumanReviewed => "trust-human"@,
        },
{
    match tier {
        TrustTier::Unverified => "trust-unverified",
        TrustTier::MachineConfirmed => "trust-machine",
        TrustTier::HumanReviewed => "trust-human",
    }
}

/// The path the breadcrumbs have reached after the first `k` segments: the
/// segments joined with `/`, where an empty path so far is replaced by the
/// next segment instead of being joined to it.
pub open spec fn crumb_path(segs: Seq<Seq<char>>, k: int) -> Seq<char>
    decreases k,
{
    if k <= 0 {
        seq![]
    } else {
        let a = crumb_path(segs, k - 1);
        if a.len() == 0 {
            segs[k - 1]
        } else {
            a + seq!['/'] + segs[k - 1]
        }
    }
}

/// The breadcrumbs of the page at `path`: `Home` (`/`), then one crumb per
/// `/`-separated segment linking to the directory reached so far; each with
/// whether it is the current page.
pub open spec fn breadcrumbs_of(path: Seq<char>) -> Seq<(Seq<char>, Seq<char>, bool)> {
    let home = ("Home"@, "/"@, path.len() == 0);
    if path.len() == 0 {
        seq![home]
    } else {
        let segs = split_pieces(path, '/');
        seq![home] + Seq::new(
            segs.len(),
            |i: int| (segs[i], seq!['/'] + crumb_path(segs, i + 1) + seq!['/'], i == segs.len() - 1),
        )
    }
}

/// `bounds` delimit the pieces `segs` of `v`.
pub open spec fn pieces_at(bounds: Seq<(usize, usize)>, v: Seq<char>, segs: Seq<Seq<char>>) -> bool {
    &&& bounds.len() == segs.len()
    &&& forall|k: int|
        0 <= k < bounds.len() ==> bounds[k].0 <= bounds[k].1 <= v.len() && v.subrange(
            #[trigger] bounds[k].0 as int,
            bounds[k].1 as int,
        ) == segs[k]
}

/// The breadcrumbs of the page at `path` (see [`breadcrumbs_of`]).
pub fn build_breadcrumbs(path: &str) -> (r: Vec<(String, String, bool)>)
    ensures
        r@.map_values(|c: (String, String, bool)| (c.0@, c.1@, c.2)) == breadcrumbs_of(path@),
{
    let v = chars_of(path);
    let mut out: Vec<(String, String, bool)> = Vec::new();
    proof {
        reveal_strlit("Home");
        reveal_strlit("/");
    }
    out.push(("Home".to_string(), "/".to_string(), v.len() == 0));
    if v.len() == 0 {
        assert(out@.map_values(|c: (String, String, bool)| (c.0@, c.1@, c.2)) =~= breadcrumbs_of(path@));
        return out;
    }
    let bounds = split_bounds(&v, '/');
    let ghost segs = split_pieces(v@, '/');
    assert(pieces_at(bounds@, v@, segs));
    let ghost home = ("Home"@, "/"@, false);
    let mut acc = String::new();
    let mut i: usize = 0;
    while i < bounds.len()
        invariant
            i <= bounds@.len(),
            bounds@.len() == segs.len(),
            segs == split_pieces(v@, '/'),
            v@ == path@,
            v@.len() > 0,
            home == ("Home"@, "/"@, false),
            pieces_at(bounds@, v@, segs),
            acc@ == crumb_path(segs, i as int),
            out@.map_values(|c: (String, String, bool)| (c.0@, c.1@, c.2)) == seq![home] + Seq::new(
                i as nat,
                |k: int| (segs[k], seq!['/'] + crumb_path(segs, k + 1) + seq!['/'], k == segs.len() - 1),
            ),
        decreases bounds.len() - i,
    {
        proof {
            reveal_strlit("/");
        }
        let (a, b) = bounds[i];
        assert(bounds@[i as int].0 <= bounds@[i as int].1 <= v@.len());
        assert(v@.subrange(bounds@[i as int].0 as int, bounds@[i as int].1 as int) == segs[i as int]);
        let seg = string_of_range(&v, a, b);
        assert(seg@ == segs[i as int]);
        let acc_chars = chars_of(acc.as_str());
        if acc_chars.len() == 0 {
            acc = seg.clone();
        } else {
            acc.append("/");
            acc.append(seg.as_str());
            proof {
                reveal_strlit("/");
            }
        }
        assert(acc@ =~= crumb_path(segs, i + 1));
        let mut link = "/".to_string();
        link.append(acc.as_str());
        link.append("/");
        let n = bounds.len();
        let last = i == n - 1;
        assert(link@ == seq!['/'] + crumb_path(segs, i + 1) + seq!['/']);
        let ghost before = out@.map_values(|c: (String, String, bool)| (c.0@, c.1@, c.2));
        let ghost item = (seg@, link@, last);
        out.push((seg, link, last));
        assert(out@.map_values(|c: (String, String, bool)| (c.0@, c.1@, c.2)) =~= before.push(item));
        assert(out@.map_values(|c: (String, String, bool)| (c.0@, c.1@, c.2)) =~= seq![home] + Seq::new(
            (i + 1) as nat,
            |k: int| (segs[k], seq!['/'] + crumb_path(segs, k + 1) + seq!['/'], k == segs.len() - 1),
        ));
        i = i + 1;
    }
    assert(out@.map_values(|c: (String, String, bool)| (c.0@, c.1@, c.2)) =~= breadcrumbs_of(path@));
    out
}

/// How the navigation tree shows the directory node at `node_path` while the
/// page at `current` is open: active when it is that page (the root when the
/// page is the root), and open when the page is the node or inside it (the
/// root always).
pub open spec fn tree_row_state(current: Seq<char>, node_path: Seq<char>) -> (bool, bool) {
    let cur = trim_char(current, '/');
    if node_path.len() == 0 {
        (cur.len() == 0, true)
    } else {
        (cur == node_path, cur == node_path || is_prefix(node_path.push('/'), cur))
    }
}

/// Whether the tree node at `node_path` is active and whether it is open while
/// the page at `current` is shown (see [`tree_row_state`]).
pub fn tree_row(current: &str, node_path: &str) -> (r: (bool, bool))
    ensures
        r == tree_row_state(current@, node_path@),
{
    let cur = trim_matches_char(current, '/');
    let cv = chars_of(cur.as_str());
    let nv = chars_of(node_path);
    if nv.len() == 0 {
        return (cv.len() == 0, true);
    }
    let same = eq_str(cur.as_str(), node_path);
    let mut prefix = chars_of(node_path);
    prefix.push('/');
    (same, same || starts_with_exec(&cv, &prefix))
}

/// Whether the tree leaf of concept `id` is active while the page at `current`
/// is shown: the page, without surrounding `/`s, is that concept.
pub fn leaf_is_active(current: &str, id: &str) -> (r: bool)
    ensures
        r == (trim_char(current@, '/') == id@),
{
    let cur = trim_matches_char(current, '/');
    eq_str(cur.as_str(), id)
}

} // verus!
