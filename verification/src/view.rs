//! What the web UI's pages show, as plain text: the labels, links and table
//! rows of a concept page, a directory page and the header search.
use vstd::prelude::*;

use crate::client::{trust_class, url_encoded, urlencode};
use crate::concept::{Source, Status, TrustTier};
use crate::date::{chrono_date, Date, Timestamp};
use crate::dto::ConceptResponse;
use crate::front_matter::opt_view;
use crate::text::{chars_of, decimal, decimal_string, eq_str, trim, trim_string};

verus! {

/// `%Y-%m-%d %H:%M UTC`, how the UI shows an instant.
pub open spec fn stamp_format() -> Seq<char> {
    "%Y-%m-%d %H:%M UTC"@
}

/// The text `chrono` formats the instant `t` to with `format`, if `t` is an
/// instant `chrono` can represent.
pub uninterp spec fn instant_text(t: Timestamp, format: Seq<char>) -> Option<Seq<char>>;

/// `DateTime::<Utc>::from_timestamp(secs, nanos)` formatted with `format`
/// (`format(..).to_string()`): a function of its arguments alone; the text is
/// not stated. Only the UI's own format is accepted, which holds no invalid
/// specifier (an invalid one makes the formatting panic).
#[verifier::external_body]
fn format_instant(t: Timestamp, format: &str) -> (r: Option<String>)
    requires
        format@ == stamp_format(),
    ensures
        opt_view(r) == instant_text(t, format@),
{
    chrono::DateTime::from_timestamp(t.secs, t.nanos).map(|d| d.format(format).to_string())
}

/// `n` in decimal, zero-padded on the left to at least `w` digits.
pub open spec fn zero_padded(n: nat, w: nat) -> Seq<char> {
    let d = decimal(n);
    if d.len() >= w {
        d
    } else {
        Seq::new((w - d.len()) as nat, |i: int| '0') + d
    }
}

/// A date as `chrono` shows it (`NaiveDate`'s `Display`): the year with at
/// least four digits, signed when outside 0 to 9999, then the month and the
/// day with two digits each, joined by `-`.
pub open spec fn date_display(d: Date) -> Seq<char> {
    let y = d.year as int;
    let year = if 0 <= y <= 9999 {
        zero_padded(y as nat, 4)
    } else if y < 0 {
        seq!['-'] + zero_padded((-y) as nat, 4)
    } else {
        seq!['+'] + zero_padded(y as nat, 4)
    };
    year + seq!['-'] + zero_padded(d.month as nat, 2) + seq!['-'] + zero_padded(d.day as nat, 2)
}

/// `NaiveDate::from_ymd_opt(year, month, day)` shown with `Display` (see
/// [`date_display`]); `None` for a date `chrono` cannot represent.
#[verifier::external_body]
fn format_date(d: Date) -> (r: Option<String>)
    ensures
        opt_view(r) == (if chrono_date(d) {
            Some(date_display(d))
        } else {
            None
        }),
{
    chrono::NaiveDate::from_ymd_opt(d.year, d.month, d.day).map(|n| n.to_string())
}

/// `by · when`, or `by` alone when there is no (representable) instant.
pub open spec fn stamp_label(by: Seq<char>, at: Option<Timestamp>) -> Seq<char> {
    match at {
        Some(t) => match instant_text(t, stamp_format()) {
            Some(when) => by + " · "@ + when,
            None => by,
        },
        None => by,
    }
}

/// The label of a generation or verification stamp (see [`stamp_label`]).
pub fn stamp_text(by: &str, at: Option<Timestamp>) -> (r: String)
    ensures
        r@ == stamp_label(by@, at),
{
    match at {
        Some(t) => match format_instant(t, "%Y-%m-%d %H:%M UTC") {
            Some(when) => {
                let mut r = by.to_string();
                r.append(" · ");
                r.append(when.as_str());
                r
            },
            None => by.to_string(),
        },
        None => by.to_string(),
    }
}

/// A date as the UI shows it: its `Display` text, or nothing.
pub open spec fn date_label(d: Option<Date>) -> Seq<char> {
    match d {
        Some(x) => if chrono_date(x) {
            date_display(x)
        } else {
            seq![]
        },
        None => seq![],
    }
}

/// Exec [`date_label`].
pub fn date_text(d: Option<Date>) -> (r: String)
    ensures
        r@ == date_label(d),
{
    match d {
        Some(x) => match format_date(x) {
            Some(t) => t,
            None => String::new(),
        },
        None => String::new(),
    }
}

/// The rows of a concept page's trust table: `Generated by` (when there is a
/// generation stamp whose label is not empty), one `Verified by` per verification, and `Stale after`
/// (when there is a date to show).
pub open spec fn trust_rows_of(c: ConceptResponse) -> Seq<(Seq<char>, Seq<char>)> {
    let generated = match c.generated {
        Some(g) => if stamp_label(g.by@, g.at).len() > 0 {
            seq![("Generated by"@, stamp_label(g.by@, g.at))]
        } else {
            seq![]
        },
        None => seq![],
    };
    let verified = Seq::new(
        c.verified@.len(),
        |i: int| ("Verified by"@, stamp_label(c.verified@[i].by@, c.verified@[i].at)),
    );
    let stale = date_label(c.stale_after);
    generated + verified + if stale.len() > 0 {
        seq![("Stale after"@, stale)]
    } else {
        seq![]
    }
}

/// The rows of the trust table of a concept page (see [`trust_rows_of`]).
pub fn trust_rows(c: &ConceptResponse) -> (r: Vec<(String, String)>)
    ensures
        r@.map_values(|x: (String, String)| (x.0@, x.1@)) == trust_rows_of(*c),
{
    let mut rows: Vec<(String, String)> = Vec::new();
    let ghost view = |x: (String, String)| (x.0@, x.1@);
    match &c.generated {
        Some(g) => {
            let label = stamp_text(g.by.as_str(), g.at);
            if chars_of(label.as_str()).len() > 0 {
                rows.push(("Generated by".to_string(), label));
            }
        },
        None => {},
    }
    let ghost head = rows@.map_values(view);
    let ghost generated = match &c.generated {
        Some(g) => if stamp_label(g.by@, g.at).len() > 0 {
            seq![("Generated by"@, stamp_label(g.by@, g.at))]
        } else {
            Seq::<(Seq<char>, Seq<char>)>::empty()
        },
        None => Seq::<(Seq<char>, Seq<char>)>::empty(),
    };
    assert(head =~= generated);
    let ghost verified = Seq::new(
        c.verified@.len(),
        |i: int| ("Verified by"@, stamp_label(c.verified@[i].by@, c.verified@[i].at)),
    );
    let mut i: usize = 0;
    while i < c.verified.len()
        invariant
            i <= c.verified@.len(),
            rows@.map_values(view) == generated + verified.take(i as int),
            view == (|x: (String, String)| (x.0@, x.1@)),
            verified == Seq::new(
                c.verified@.len(),
                |i: int| ("Verified by"@, stamp_label(c.verified@[i].by@, c.verified@[i].at)),
            ),
        decreases c.verified.len() - i,
    {
        let v = &c.verified[i];
        let ghost before = rows@.map_values(view);
        rows.push(("Verified by".to_string(), stamp_text(v.by.as_str(), v.at)));
        assert(rows@.map_values(view) =~= before.push(verified[i as int]));
        assert(verified.take(i + 1) =~= verified.take(i as int).push(verified[i as int]));
        i = i + 1;
    }
    assert(verified.take(c.verified@.len() as int) =~= verified);
    let stale = date_text(c.stale_after);
    let sv = chars_of(stale.as_str());
    if sv.len() > 0 {
        let ghost before = rows@.map_values(view);
        rows.push(("Stale after".to_string(), stale));
        assert(rows@.map_values(view) =~= before.push(("Stale after"@, date_label(c.stale_after))));
    }
    assert(rows@.map_values(view) =~= trust_rows_of(*c));
    rows
}

/// An optional string's text, or nothing.
pub open spec fn or_empty(o: Option<Seq<char>>) -> Seq<char> {
    match o {
        Some(s) => s,
        None => seq![],
    }
}

/// The cells of a source's row in a concept page's provenance table: ID, title,
/// resource, author, usage count (in decimal) and last modification date, each
/// empty when absent.
pub open spec fn source_cells_of(s: Source) -> Seq<Seq<char>> {
    seq![
        or_empty(opt_view(s.id)),
        or_empty(opt_view(s.title)),
        or_empty(opt_view(s.resource)),
        or_empty(opt_view(s.author)),
        match s.usage_count {
            Some(n) => decimal(n as nat),
            None => seq![],
        },
        date_label(s.last_modified),
    ]
}

/// An optional string's text, or an empty string.
fn text_or_empty(o: &Option<String>) -> (r: String)
    ensures
        r@ == or_empty(opt_view(*o)),
{
    match o {
        Some(s) => s.clone(),
        None => String::new(),
    }
}

/// The cells of a source's row (see [`source_cells_of`]).
pub fn source_cells(s: &Source) -> (r: Vec<String>)
    ensures
        r@.map_values(|x: String| x@) == source_cells_of(*s),
{
    let mut r: Vec<String> = Vec::new();
    r.push(text_or_empty(&s.id));
    r.push(text_or_empty(&s.title));
    r.push(text_or_empty(&s.resource));
    r.push(text_or_empty(&s.author));
    r.push(
        match s.usage_count {
            Some(n) => decimal_string(n),
            None => String::new(),
        },
    );
    r.push(date_text(s.last_modified));
    assert(r@.map_values(|x: String| x@) =~= source_cells_of(*s));
    r
}

/// The link to a concept page.
pub fn concept_href(id: &str) -> (r: String)
    ensures
        r@ == "/"@ + id@,
{
    let mut r = "/".to_string();
    r.append(id);
    r
}

/// The link to directory `name` listed on the page of directory `path`.
pub open spec fn subdir_href_of(path: Seq<char>, name: Seq<char>) -> Seq<char> {
    if path.len() == 0 {
        "/"@ + name + "/"@
    } else {
        "/"@ + path + "/"@ + name + "/"@
    }
}

/// The link to a subdirectory (see [`subdir_href_of`]).
pub fn subdir_href(path: &str, name: &str) -> (r: String)
    ensures
        r@ == subdir_href_of(path@, name@),
{
    let pv = chars_of(path);
    let mut r = "/".to_string();
    if pv.len() > 0 {
        r.append(path);
        r.append("/");
    }
    r.append(name);
    r.append("/");
    r
}

/// The search page a submitted query leads to: none for a blank query, else
/// `/search?q=` and the encoded query.
pub open spec fn search_page_of(query: Seq<char>) -> Option<Seq<char>> {
    if trim(query).len() == 0 {
        None
    } else {
        Some("/search?q="@ + url_encoded(query))
    }
}

/// The search page for a submitted query (see [`search_page_of`]).
pub fn search_page(query: &str) -> (r: Option<String>)
    ensures
        opt_view(r) == search_page_of(query@),
{
    let t = trim_string(query);
    let tv = chars_of(t.as_str());
    if tv.len() == 0 {
        return None;
    }
    let mut r = "/search?q=".to_string();
    let e = urlencode(query);
    r.append(e.as_str());
    Some(r)
}

/// How many search results the header's dropdown shows: at most eight.
pub fn dropdown_len(n: usize) -> (r: usize)
    ensures
        r == if n < 8 {
            n
        } else {
            8
        },
{
    if n < 8 {
        n
    } else {
        8
    }
}

/// Whether the header's dropdown is open for what is typed: it is when the
/// query is not blank.
pub fn dropdown_open(query: &str) -> (r: bool)
    ensures
        r == (trim(query@).len() > 0),
{
    let t = trim_string(query);
    let tv = chars_of(t.as_str());
    tv.len() > 0
}

/// Whether a page update is a hot reload in place (same page, newer reload
/// count) rather than a navigation, in which case the scroll offset is kept.
pub fn is_reload_in_place(prev: Option<(&str, u64)>, cur_path: &str, cur_reload: u64) -> (r: bool)
    ensures
        r == match prev {
            Some(p) => p.0@ == cur_path@ && cur_reload > p.1,
            None => false,
        },
{
    match prev {
        Some((p, n)) => eq_str(p, cur_path) && cur_reload > n,
        None => false,
    }
}

/// The classes of the status badge: `badge status-` and the status.
pub fn status_badge_class(status: Status) -> (r: String)
    ensures
        r@ == "badge status-"@ + match status {
            Status::Draft => "draft"@,
            Status::Stable => "stable"@,
            Status::Deprecated => "deprecated"@,
        },
{
    let mut r = "badge status-".to_string();
    r.append(status.as_str());
    r
}

/// The classes of the trust badge: `badge` and the tier's class.
pub fn trust_badge_class(tier: TrustTier) -> (r: String)
    ensures
        r@ == "badge "@ + match tier {
            TrustTier::Unverified => "trust-unverified"@,
            TrustTier::MachineConfirmed => "trust-machine"@,
            TrustTier::HumanReviewed => "trust-human"@,
        },
{
    let mut r = "badge ".to_string();
    r.append(trust_class(tier));
    r
}

} // verus!
