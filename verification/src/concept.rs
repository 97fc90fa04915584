//! The OKF concept model: a knowledge document, its front matter fields, and
//! the values derived from them (trust tier, staleness, directory, summary).
use vstd::prelude::*;
use vstd::string::*;

use crate::date::{
    date_le, date_on_or_before, lemma_date_order, midnight_of, midnight_utc, parse_rfc3339, parse_ymd,
    rfc3339_instant, ymd_date, Date, Timestamp,
};
use crate::front_matter::{
    find_key, first_key, front_matter_split, opt_view, split_front_matter,
};
use crate::text::{
    all_ws, ascii_lower, ascii_lowercase, char_ascii_lower, is_ws, lemma_trim_padded, chars_of, comma_items, comma_list, eq_str,
    is_prefix, last_index_of, lemma_last_index_of, owned, parse_u64, parse_u64_text, push_char,
    rfind_char, starts_with_exec, string_of, to_uppercase_char, trim,
    trim_string, uppercase_char, views,
};
use crate::yaml::{parse_yaml, yaml_document, YamlNumber, YamlValue};

verus! {

/// Lifecycle status of a concept.
#[derive(Clone, Copy, Debug, PartialEq, Eq, Structural)]
pub enum Status {
    Draft,
    Stable,
    Deprecated,
}

impl Default for Status {
    fn default() -> (r: Self)
        ensures
            r == Status::Stable,
    {
        Status::Stable
    }
}

impl Status {
    /// The lower-case name of the status.
    pub fn as_str(self) -> (r: &'static str)
        ensures
            r@ == match self {
                Status::Draft => "draft"@,
                Status::Stable => "stable"@,
                Status::Deprecated => "deprecated"@,
            },
    {
        match self {
            Status::Draft => "draft",
            Status::Stable => "stable",
            Status::Deprecated => "deprecated",
        }
    }
}

/// Trust tier derived from a concept's `verified` field.
#[derive(Clone, Copy, Debug, PartialEq, Eq, Structural)]
pub enum TrustTier {
    Unverified,
    MachineConfirmed,
    HumanReviewed,
}

impl TrustTier {
    /// The kebab-case name of the tier.
    pub fn as_str(self) -> (r: &'static str)
        ensures
            r@ == match self {
                TrustTier::Unverified => "unverified"@,
                TrustTier::MachineConfirmed => "machine-confirmed"@,
                TrustTier::HumanReviewed => "human-reviewed"@,
            },
    {
        match self {
            TrustTier::Unverified => "unverified",
            TrustTier::MachineConfirmed => "machine-confirmed",
            TrustTier::HumanReviewed => "human-reviewed",
        }
    }
}

/// Who generated a concept, and when.
#[derive(Debug)]
pub struct Generated {
    pub by: String,
    pub at: Option<Timestamp>,
}

/// One verification of a concept: by whom, and when.
#[derive(Debug)]
pub struct Verification {
    pub by: String,
    pub at: Option<Timestamp>,
}

/// A source a concept was derived from.
#[derive(Debug)]
pub struct Source {
    pub id: Option<String>,
    pub resource: Option<String>,
    pub title: Option<String>,
    pub author: Option<String>,
    pub usage_count: Option<u64>,
    pub last_modified: Option<Date>,
}

/// A single knowledge document in a bundle.
#[derive(Debug)]
pub struct Concept {
    /// Concept ID: the file path within the bundle with the `.md` suffix removed.
    pub id: String,
    /// The required `type` front matter field.
    pub concept_type: String,
    pub title: String,
    pub description: Option<String>,
    pub resource: Option<String>,
    pub tags: Vec<String>,
    pub status: Status,
    pub generated: Option<Generated>,
    pub verified: Vec<Verification>,
    pub stale_after: Option<Date>,
    pub sources: Vec<Source>,
    /// The markdown body (without front matter).
    pub content: String,
}

/// Lightweight view of a concept for listings and search results.
#[derive(Debug)]
pub struct ConceptSummary {
    pub id: String,
    pub title: String,
    pub concept_type: String,
    pub description: Option<String>,
    pub tags: Vec<String>,
    pub status: Status,
    pub trust_tier: TrustTier,
    pub stale_after: Option<Date>,
}

/// A `by`/`at` pair as plain values.
pub struct StampModel {
    pub by: Seq<char>,
    pub at: Option<Timestamp>,
}

/// A source as plain values.
pub struct SourceModel {
    pub id: Option<Seq<char>>,
    pub resource: Option<Seq<char>>,
    pub title: Option<Seq<char>>,
    pub author: Option<Seq<char>>,
    pub usage_count: Option<u64>,
    pub last_modified: Option<Date>,
}

/// A concept as plain values.
pub struct ConceptModel {
    pub id: Seq<char>,
    pub concept_type: Seq<char>,
    pub title: Seq<char>,
    pub description: Option<Seq<char>>,
    pub resource: Option<Seq<char>>,
    pub tags: Seq<Seq<char>>,
    pub status: Status,
    pub generated: Option<StampModel>,
    pub verified: Seq<StampModel>,
    pub stale_after: Option<Date>,
    pub sources: Seq<SourceModel>,
    pub content: Seq<char>,
}

/// A concept summary as plain values.
pub struct SummaryModel {
    pub id: Seq<char>,
    pub title: Seq<char>,
    pub concept_type: Seq<char>,
    pub description: Option<Seq<char>>,
    pub tags: Seq<Seq<char>>,
    pub status: Status,
    pub trust_tier: TrustTier,
    pub stale_after: Option<Date>,
}

impl View for Generated {
    type V = StampModel;

    open spec fn view(&self) -> StampModel {
        StampModel { by: self.by@, at: self.at }
    }
}

impl View for Verification {
    type V = StampModel;

    open spec fn view(&self) -> StampModel {
        StampModel { by: self.by@, at: self.at }
    }
}

impl View for Source {
    type V = SourceModel;

    open spec fn view(&self) -> SourceModel {
        SourceModel {
            id: opt_view(self.id),
            resource: opt_view(self.resource),
            title: opt_view(self.title),
            author: opt_view(self.author),
            usage_count: self.usage_count,
            last_modified: self.last_modified,
        }
    }
}

/// The view of an optional `Generated`.
pub open spec fn generated_view(g: Option<Generated>) -> Option<StampModel> {
    match g {
        Some(x) => Some(x@),
        None => None,
    }
}

impl View for Concept {
    type V = ConceptModel;

    open spec fn view(&self) -> ConceptModel {
        ConceptModel {
            id: self.id@,
            concept_type: self.concept_type@,
            title: self.title@,
            description: opt_view(self.description),
            resource: opt_view(self.resource),
            tags: views(self.tags@),
            status: self.status,
            generated: generated_view(self.generated),
            verified: self.verified@.map_values(|v: Verification| v@),
            stale_after: self.stale_after,
            sources: self.sources@.map_values(|s: Source| s@),
            content: self.content@,
        }
    }
}

impl View for ConceptSummary {
    type V = SummaryModel;

    open spec fn view(&self) -> SummaryModel {
        SummaryModel {
            id: self.id@,
            title: self.title@,
            concept_type: self.concept_type@,
            description: opt_view(self.description),
            tags: views(self.tags@),
            status: self.status,
            trust_tier: self.trust_tier,
            stale_after: self.stale_after,
        }
    }
}

} // verus!

verus! {

/// `human:`, the prefix of a human verifier.
pub open spec fn human_prefix() -> Seq<char> {
    "human:"@
}

/// The trust tier of a concept with verifications `verified`: unverified when
/// there are none, human-reviewed when some verifier is `human:`-prefixed, and
/// machine-confirmed otherwise.
pub open spec fn tier_of(verified: Seq<StampModel>) -> TrustTier {
    if verified.len() == 0 {
        TrustTier::Unverified
    } else if exists|i: int| 0 <= i < verified.len() && is_prefix(human_prefix(), #[trigger] verified[i].by) {
        TrustTier::HumanReviewed
    } else {
        TrustTier::MachineConfirmed
    }
}

/// The trust tier does not depend on the order of the verifications: it is
/// unverified exactly when there are none, human-reviewed as soon as any one
/// of them, at any position, is by a `human:` verifier (and only then), and
/// swapping two runs of verifications leaves it unchanged.
pub proof fn lemma_tier_laws(a: Seq<StampModel>, b: Seq<StampModel>, x: StampModel)
    ensures
        tier_of(a + b) == tier_of(b + a),
        tier_of(a) == TrustTier::Unverified <==> a.len() == 0,
        is_prefix(human_prefix(), x.by) ==> tier_of(a.push(x)) == TrustTier::HumanReviewed,
        is_prefix(human_prefix(), x.by) ==> tier_of(seq![x] + a) == TrustTier::HumanReviewed,
        is_prefix(human_prefix(), x.by) ==> tier_of(a + seq![x] + b) == TrustTier::HumanReviewed,
        tier_of(a) == TrustTier::HumanReviewed ==> exists|i: int|
            0 <= i < a.len() && is_prefix(human_prefix(), #[trigger] a[i].by),
        tier_of(a) == TrustTier::MachineConfirmed ==> a.len() > 0 && forall|i: int|
            0 <= i < a.len() ==> !is_prefix(human_prefix(), #[trigger] a[i].by),
{
    let ab = a + b;
    let ba = b + a;
    assert((exists|i: int| 0 <= i < ab.len() && is_prefix(human_prefix(), #[trigger] ab[i].by)) == (exists|i: int|
        0 <= i < ba.len() && is_prefix(human_prefix(), #[trigger] ba[i].by))) by {
        if exists|i: int| 0 <= i < ab.len() && is_prefix(human_prefix(), #[trigger] ab[i].by) {
            let i = choose|i: int| 0 <= i < ab.len() && is_prefix(human_prefix(), #[trigger] ab[i].by);
            if i < a.len() {
                assert(ba[b.len() + i] == ab[i]);
            } else {
                assert(ba[i - a.len()] == ab[i]);
            }
        }
        if exists|i: int| 0 <= i < ba.len() && is_prefix(human_prefix(), #[trigger] ba[i].by) {
            let i = choose|i: int| 0 <= i < ba.len() && is_prefix(human_prefix(), #[trigger] ba[i].by);
            if i < b.len() {
                assert(ab[a.len() + i] == ba[i]);
            } else {
                assert(ab[i - b.len()] == ba[i]);
            }
        }
    }
    if is_prefix(human_prefix(), x.by) {
        assert(a.push(x)[a.len() as int] == x);
        assert((seq![x] + a)[0] == x);
        assert((a + seq![x] + b)[a.len() as int] == x);
    }
}

/// Stale on `today`: there is a `stale_after` date and `today` is on or after it.
pub open spec fn stale_on(stale_after: Option<Date>, today: Date) -> bool {
    match stale_after {
        Some(d) => date_le(d, today),
        None => false,
    }
}

/// Staleness only comes on: a concept is stale on its `stale_after` date, not
/// on any day before it, and, once stale, on every later day too.
pub proof fn lemma_stale_laws(d: Date, t1: Date, t2: Date)
    ensures
        stale_on(Some(d), d),
        stale_on(Some(d), t1) <==> !(date_le(t1, d) && t1 != d),
        stale_on(Some(d), t1) && date_le(t1, t2) ==> stale_on(Some(d), t2),
        !stale_on(None, t1),
{
    lemma_date_order(d, t1, t2);
    lemma_date_order(t1, d, t2);
}

/// The parent directory of concept `id`: everything before its last `/`, or
/// empty for a concept at the bundle root.
pub open spec fn dir_of(id: Seq<char>) -> Seq<char> {
    let k = last_index_of(id, '/');
    if k >= 0 {
        id.subrange(0, k)
    } else {
        seq![]
    }
}

/// The summary of a concept.
pub open spec fn summary_of(c: ConceptModel) -> SummaryModel {
    SummaryModel {
        id: c.id,
        title: c.title,
        concept_type: c.concept_type,
        description: c.description,
        tags: c.tags,
        status: c.status,
        trust_tier: tier_of(c.verified),
        stale_after: c.stale_after,
    }
}

/// A copy of an optional string.
pub fn copy_opt_string(s: &Option<String>) -> (r: Option<String>)
    ensures
        opt_view(r) == opt_view(*s),
{
    match s {
        Some(x) => Some(x.clone()),
        None => None,
    }
}

/// A copy of a list of strings.
pub fn copy_strings(v: &Vec<String>) -> (r: Vec<String>)
    ensures
        views(r@) == views(v@),
{
    let mut r: Vec<String> = Vec::new();
    let mut i: usize = 0;
    while i < v.len()
        invariant
            i <= v@.len(),
            views(r@) == views(v@).take(i as int),
        decreases v.len() - i,
    {
        let ghost before = r@;
        let s = v[i].clone();
        assert(s@ == v@[i as int]@);
        r.push(s);
        assert(views(r@) =~= views(before).push(s@));
        assert(views(r@) =~= views(v@).take(i + 1));
        i = i + 1;
    }
    assert(views(v@).take(v@.len() as int) =~= views(v@));
    r
}

impl Concept {
    /// The derived trust tier.
    pub fn trust_tier(&self) -> (r: TrustTier)
        ensures
            r == tier_of(self@.verified),
    {
        if self.verified.len() == 0 {
            return TrustTier::Unverified;
        }
        let prefix = chars_of("human:");
        let mut i: usize = 0;
        while i < self.verified.len()
            invariant
                i <= self.verified@.len(),
                prefix@ == human_prefix(),
                forall|j: int| 0 <= j < i ==> !is_prefix(human_prefix(), #[trigger] self@.verified[j].by),
            decreases self.verified.len() - i,
        {
            let by = chars_of(self.verified[i].by.as_str());
            if starts_with_exec(&by, &prefix) {
                assert(self@.verified[i as int].by == by@);
                return TrustTier::HumanReviewed;
            }
            i = i + 1;
        }
        TrustTier::MachineConfirmed
    }

    /// Whether the concept is stale on `today`.
    pub fn is_stale(&self, today: Date) -> (r: bool)
        ensures
            r == stale_on(self.stale_after, today),
    {
        match self.stale_after {
            Some(d) => date_on_or_before(d, today),
            None => false,
        }
    }

    /// The parent directory of this concept (empty string for the bundle root).
    pub fn dir(&self) -> (r: &str)
        ensures
            r@ == dir_of(self.id@),
    {
        let v = chars_of(self.id.as_str());
        match rfind_char(&v, '/') {
            Some(i) => {
                proof {
                    lemma_last_index_of(v@, '/');
                }
                self.id.as_str().substring_char(0, i)
            },
            None => {
                proof {
                    reveal_strlit("");
                }
                assert(""@ =~= dir_of(self.id@));
                ""
            },
        }
    }

    /// The summary of this concept for listings and search results.
    pub fn summary(&self) -> (r: ConceptSummary)
        ensures
            r@ == summary_of(self@),
    {
        ConceptSummary {
            id: self.id.clone(),
            title: self.title.clone(),
            concept_type: self.concept_type.clone(),
            description: copy_opt_string(&self.description),
            tags: copy_strings(&self.tags),
            status: self.status,
            trust_tier: self.trust_tier(),
            stale_after: self.stale_after,
        }
    }
}

} // verus!

verus! {

/// The value of the first entry of `m` whose key is the string `key`.
pub open spec fn entry_of(m: Seq<(YamlValue, YamlValue)>, key: Seq<char>) -> Option<YamlValue> {
    let i = first_key(m, key, 0);
    if i >= 0 {
        Some(m[i].1)
    } else {
        None
    }
}

/// The text of a string value.
pub open spec fn str_of(v: Option<YamlValue>) -> Option<Seq<char>> {
    match v {
        Some(YamlValue::String(s)) => Some(s@),
        _ => None,
    }
}

/// The string value of `key` in `m`.
pub open spec fn str_field(m: Seq<(YamlValue, YamlValue)>, key: Seq<char>) -> Option<Seq<char>> {
    str_of(entry_of(m, key))
}

/// A `u64` value: a non-negative integer, or a string that parses as one once
/// trimmed.
pub open spec fn u64_of(v: Option<YamlValue>) -> Option<u64> {
    match v {
        Some(YamlValue::Number(YamlNumber::PosInt(n))) => Some(n),
        Some(YamlValue::String(s)) => parse_u64_text(trim(s@)),
        _ => None,
    }
}

/// The strings among `x[0..n]`, in order.
pub open spec fn string_items(x: Seq<YamlValue>, n: int) -> Seq<Seq<char>>
    decreases n,
{
    if 0 < n <= x.len() {
        let p = string_items(x, n - 1);
        match x[n - 1] {
            YamlValue::String(s) => p.push(s@),
            _ => p,
        }
    } else {
        seq![]
    }
}

/// A list of strings: the string elements of a sequence, or the comma-separated
/// items of a string; nothing for any other value.
pub open spec fn string_list_of(v: YamlValue) -> Seq<Seq<char>> {
    match v {
        YamlValue::Sequence(x) => string_items(x@, x@.len() as int),
        YamlValue::String(s) => comma_items(s@),
        _ => seq![],
    }
}

/// The lifecycle status a `status` text names: `draft` or `deprecated`
/// (trimmed, ASCII case-insensitively), and `stable` for anything else.
pub open spec fn status_of_text(s: Seq<char>) -> Status {
    let t = ascii_lowercase(trim(s));
    if t == "draft"@ {
        Status::Draft
    } else if t == "deprecated"@ {
        Status::Deprecated
    } else {
        Status::Stable
    }
}

/// The name of a status, as [`Status::as_str`] gives it.
pub open spec fn status_name(st: Status) -> Seq<char> {
    match st {
        Status::Draft => "draft"@,
        Status::Stable => "stable"@,
        Status::Deprecated => "deprecated"@,
    }
}

/// A status text names its status whatever the ASCII case of its letters and
/// whatever white space surrounds it; in particular each status's own name
/// names it.
pub proof fn lemma_status_text(st: Status, pre: Seq<char>, t: Seq<char>, post: Seq<char>)
    requires
        all_ws(pre),
        all_ws(post),
        ascii_lowercase(t) == status_name(st),
    ensures
        status_of_text(pre + t + post) == st,
        status_of_text(status_name(st)) == st,
{
    reveal_strlit("draft");
    reveal_strlit("stable");
    reveal_strlit("deprecated");
    let n = status_name(st);
    assert(t.len() == n.len());
    assert(ascii_lower(t[0]) == n[0]);
    assert(ascii_lower(t[t.len() - 1]) == n[n.len() - 1]);
    assert(!is_ws(t[0]));
    assert(!is_ws(t.last()));
    lemma_trim_padded(pre, t, post);
    let e = Seq::<char>::empty();
    assert(all_ws(e));
    assert(ascii_lowercase(n) =~= n);
    assert(e + n + e =~= n);
    lemma_trim_padded(e, n, e);
}

/// A date in `YYYY-MM-DD` form, trimmed.
pub open spec fn date_of_text(s: Seq<char>) -> Option<Date> {
    ymd_date(trim(s))
}

/// An instant: an RFC 3339 date-time, or else a `YYYY-MM-DD` date at midnight
/// UTC (trimmed).
pub open spec fn datetime_of_text(s: Seq<char>) -> Option<Timestamp> {
    let t = trim(s);
    match rfc3339_instant(t) {
        Some(x) => Some(x),
        None => match ymd_date(t) {
            Some(d) => midnight_of(d),
            None => None,
        },
    }
}

/// A `by`/`at` mapping: `by` defaults to empty, `at` is parsed as an instant.
pub open spec fn stamp_of(m: Seq<(YamlValue, YamlValue)>) -> StampModel {
    StampModel {
        by: match str_field(m, "by"@) {
            Some(b) => b,
            None => seq![],
        },
        at: match str_field(m, "at"@) {
            Some(a) => datetime_of_text(a),
            None => None,
        },
    }
}

/// The stamps of the mapping elements of `x[0..n]`.
pub open spec fn mapping_stamps(x: Seq<YamlValue>, n: int) -> Seq<StampModel>
    decreases n,
{
    if 0 < n <= x.len() {
        let p = mapping_stamps(x, n - 1);
        match x[n - 1] {
            YamlValue::Mapping(m) => p.push(stamp_of(m@)),
            _ => p,
        }
    } else {
        seq![]
    }
}

/// The verifications a `verified` value lists: one mapping, or the mappings of a
/// sequence.
pub open spec fn verified_of(v: Option<YamlValue>) -> Seq<StampModel> {
    match v {
        Some(YamlValue::Mapping(m)) => seq![stamp_of(m@)],
        Some(YamlValue::Sequence(x)) => mapping_stamps(x@, x@.len() as int),
        _ => seq![],
    }
}

/// A source mapping.
pub open spec fn source_of(m: Seq<(YamlValue, YamlValue)>) -> SourceModel {
    SourceModel {
        id: str_field(m, "id"@),
        resource: str_field(m, "resource"@),
        title: str_field(m, "title"@),
        author: str_field(m, "author"@),
        usage_count: u64_of(entry_of(m, "usage_count"@)),
        last_modified: match str_field(m, "last_modified"@) {
            Some(t) => date_of_text(t),
            None => None,
        },
    }
}

/// The sources of the mapping elements of `x[0..n]`.
pub open spec fn mapping_sources(x: Seq<YamlValue>, n: int) -> Seq<SourceModel>
    decreases n,
{
    if 0 < n <= x.len() {
        let p = mapping_sources(x, n - 1);
        match x[n - 1] {
            YamlValue::Mapping(m) => p.push(source_of(m@)),
            _ => p,
        }
    } else {
        seq![]
    }
}

/// The sources a `sources` value lists: the mappings of a sequence.
pub open spec fn sources_of(v: Option<YamlValue>) -> Seq<SourceModel> {
    match v {
        Some(YamlValue::Sequence(x)) => mapping_sources(x@, x@.len() as int),
        _ => seq![],
    }
}

/// The value of `key` in `m`.
pub fn mapping_get<'a>(m: &'a Vec<(YamlValue, YamlValue)>, key: &str) -> (r: Option<&'a YamlValue>)
    ensures
        match r {
            Some(v) => entry_of(m@, key@) == Some(*v),
            None => entry_of(m@, key@) is None,
        },
{
    match find_key(m, key) {
        Some(i) => Some(&m[i].1),
        None => None,
    }
}

/// The string value of `key` in `m`.
pub fn get_str(m: &Vec<(YamlValue, YamlValue)>, key: &str) -> (r: Option<String>)
    ensures
        opt_view(r) == str_field(m@, key@),
{
    match mapping_get(m, key) {
        Some(YamlValue::String(s)) => Some(s.clone()),
        _ => None,
    }
}

/// The `u64` value of `key` in `m`.
pub fn get_u64(m: &Vec<(YamlValue, YamlValue)>, key: &str) -> (r: Option<u64>)
    ensures
        r == u64_of(entry_of(m@, key@)),
{
    match mapping_get(m, key) {
        Some(YamlValue::Number(YamlNumber::PosInt(n))) => Some(*n),
        Some(YamlValue::String(s)) => {
            let t = trim_string(s.as_str());
            parse_u64(t.as_str())
        },
        _ => None,
    }
}

/// The mapping value of `key` in `m`.
pub fn get_map<'a>(m: &'a Vec<(YamlValue, YamlValue)>, key: &str) -> (r: Option<&'a Vec<(YamlValue, YamlValue)>>)
    ensures
        match r {
            Some(x) => entry_of(m@, key@) == Some(YamlValue::Mapping(*x)),
            None => !(entry_of(m@, key@) matches Some(YamlValue::Mapping(_))),
        },
{
    match mapping_get(m, key) {
        Some(YamlValue::Mapping(x)) => Some(x),
        _ => None,
    }
}

/// A list of strings from a value (see [`string_list_of`]).
pub fn value_to_string_list(v: &YamlValue) -> (r: Vec<String>)
    ensures
        views(r@) == string_list_of(*v),
{
    match v {
        YamlValue::Sequence(x) => {
            let mut out: Vec<String> = Vec::new();
            let mut i: usize = 0;
            while i < x.len()
                invariant
                    i <= x@.len(),
                    views(out@) == string_items(x@, i as int),
                decreases x.len() - i,
            {
                match &x[i] {
                    YamlValue::String(s) => {
                        let ghost before = out@;
                        out.push(s.clone());
                        assert(views(out@) =~= views(before).push(s@));
                    },
                    _ => {},
                }
                i = i + 1;
            }
            out
        },
        YamlValue::String(s) => comma_list(s.as_str()),
        _ => Vec::new(),
    }
}

/// The list of strings under `key` in `m`.
pub fn get_str_list(m: &Vec<(YamlValue, YamlValue)>, key: &str) -> (r: Vec<String>)
    ensures
        views(r@) == match entry_of(m@, key@) {
            Some(v) => string_list_of(v),
            None => seq![],
        },
{
    match mapping_get(m, key) {
        Some(v) => value_to_string_list(v),
        None => Vec::new(),
    }
}

/// The status a `status` text names (see [`status_of_text`]).
pub fn parse_status(s: &str) -> (r: Status)
    ensures
        r == status_of_text(s@),
{
    let t = chars_of(trim_string(s).as_str());
    let mut lower: Vec<char> = Vec::new();
    let mut i: usize = 0;
    while i < t.len()
        invariant
            i <= t@.len(),
            lower@ == ascii_lowercase(t@).take(i as int),
        decreases t.len() - i,
    {
        lower.push(char_ascii_lower(t[i]));
        assert(lower@ =~= ascii_lowercase(t@).take(i + 1));
        i = i + 1;
    }
    assert(ascii_lowercase(t@).take(t@.len() as int) =~= ascii_lowercase(t@));
    let l = string_of(&lower);
    if eq_str(l.as_str(), "draft") {
        Status::Draft
    } else if eq_str(l.as_str(), "deprecated") {
        Status::Deprecated
    } else {
        Status::Stable
    }
}

/// A `YYYY-MM-DD` date, trimmed.
pub fn parse_date(s: &str) -> (r: Option<Date>)
    ensures
        r == date_of_text(s@),
{
    let t = trim_string(s);
    parse_ymd(t.as_str())
}

/// An RFC 3339 date-time, or a `YYYY-MM-DD` date at midnight UTC (trimmed).
pub fn parse_datetime(s: &str) -> (r: Option<Timestamp>)
    ensures
        r == datetime_of_text(s@),
{
    let t = trim_string(s);
    match parse_rfc3339(t.as_str()) {
        Some(x) => Some(x),
        None => match parse_ymd(t.as_str()) {
            Some(d) => midnight_utc(d),
            None => None,
        },
    }
}

/// The `by`/`at` fields of a mapping.
fn parse_stamp(m: &Vec<(YamlValue, YamlValue)>) -> (r: (String, Option<Timestamp>))
    ensures
        r.0@ == stamp_of(m@).by,
        r.1 == stamp_of(m@).at,
{
    let by = match get_str(m, "by") {
        Some(b) => b,
        None => String::new(),
    };
    let at = match get_str(m, "at") {
        Some(a) => parse_datetime(a.as_str()),
        None => None,
    };
    (by, at)
}

/// A `generated` mapping.
pub fn parse_generated(m: &Vec<(YamlValue, YamlValue)>) -> (r: Generated)
    ensures
        r@ == stamp_of(m@),
{
    let (by, at) = parse_stamp(m);
    Generated { by, at }
}

/// One `verified` mapping.
pub fn parse_verification(m: &Vec<(YamlValue, YamlValue)>) -> (r: Verification)
    ensures
        r@ == stamp_of(m@),
{
    let (by, at) = parse_stamp(m);
    Verification { by, at }
}

/// The verifications a `verified` value lists.
pub fn parse_verified(v: Option<&YamlValue>) -> (r: Vec<Verification>)
    ensures
        r@.map_values(|x: Verification| x@) == verified_of(match v {
            Some(x) => Some(*x),
            None => None,
        }),
{
    match v {
        Some(YamlValue::Mapping(m)) => {
            let mut out: Vec<Verification> = Vec::new();
            out.push(parse_verification(m));
            assert(out@.map_values(|x: Verification| x@) =~= seq![stamp_of(m@)]);
            out
        },
        Some(YamlValue::Sequence(x)) => {
            let mut out: Vec<Verification> = Vec::new();
            let mut i: usize = 0;
            while i < x.len()
                invariant
                    i <= x@.len(),
                    out@.map_values(|y: Verification| y@) == mapping_stamps(x@, i as int),
                decreases x.len() - i,
            {
                match &x[i] {
                    YamlValue::Mapping(m) => {
                        let ghost before = out@;
                        let e = parse_verification(m);
                        out.push(e);
                        assert(out@.map_values(|y: Verification| y@) =~= before.map_values(
                            |y: Verification| y@,
                        ).push(e@));
                    },
                    _ => {},
                }
                i = i + 1;
            }
            out
        },
        _ => Vec::new(),
    }
}

/// One source mapping.
pub fn parse_source(m: &Vec<(YamlValue, YamlValue)>) -> (r: Source)
    ensures
        r@ == source_of(m@),
{
    Source {
        id: get_str(m, "id"),
        resource: get_str(m, "resource"),
        title: get_str(m, "title"),
        author: get_str(m, "author"),
        usage_count: get_u64(m, "usage_count"),
        last_modified: match get_str(m, "last_modified") {
            Some(t) => parse_date(t.as_str()),
            None => None,
        },
    }
}

/// The sources a `sources` value lists.
pub fn parse_sources(v: Option<&YamlValue>) -> (r: Vec<Source>)
    ensures
        r@.map_values(|x: Source| x@) == sources_of(match v {
            Some(x) => Some(*x),
            None => None,
        }),
{
    match v {
        Some(YamlValue::Sequence(x)) => {
            let mut out: Vec<Source> = Vec::new();
            let mut i: usize = 0;
            while i < x.len()
                invariant
                    i <= x@.len(),
                    out@.map_values(|y: Source| y@) == mapping_sources(x@, i as int),
                decreases x.len() - i,
            {
                match &x[i] {
                    YamlValue::Mapping(m) => {
                        let ghost before = out@;
                        let e = parse_source(m);
                        out.push(e);
                        assert(out@.map_values(|y: Source| y@) =~= before.map_values(
                            |y: Source| y@,
                        ).push(e@));
                    },
                    _ => {},
                }
                i = i + 1;
            }
            out
        },
        _ => Vec::new(),
    }
}

} // verus!

verus! {

/// The last `/`-separated segment of `id` (`id.rsplit('/').next()`).
pub open spec fn last_segment(id: Seq<char>) -> Seq<char> {
    id.subrange(last_index_of(id, '/') + 1, id.len() as int)
}

/// `s` with `-` and `_` replaced by spaces.
pub open spec fn humanize(s: Seq<char>) -> Seq<char> {
    s.map_values(|c: char| if c == '-' || c == '_' { ' ' } else { c })
}

/// The title derived from a concept ID: its last segment, humanized, with the
/// first character upper-cased.
pub open spec fn title_of_id(id: Seq<char>) -> Seq<char> {
    let h = humanize(last_segment(id));
    if h.len() == 0 {
        seq![]
    } else {
        uppercase_char(h[0]) + h.drop_first()
    }
}

/// The title derived from a concept ID (see [`title_of_id`]).
pub fn title_from_id(id: &str) -> (r: String)
    ensures
        r@ == title_of_id(id@),
{
    let v = chars_of(id);
    proof {
        lemma_last_index_of(v@, '/');
    }
    let n = v.len();
    let start = match rfind_char(&v, '/') {
        Some(i) => i + 1,
        None => 0,
    };
    let ghost h = humanize(last_segment(id@));
    assert(h.len() == v@.len() - start);
    if start == v.len() {
        return String::new();
    }
    let mut r = to_uppercase_char(humanized(v[start]));
    let mut i = start + 1;
    while i < v.len()
        invariant
            start < i <= v@.len(),
            v@ == id@,
            h == humanize(last_segment(id@)),
            h.len() == v@.len() - start,
            last_segment(id@) == v@.subrange(start as int, v@.len() as int),
            r@ == uppercase_char(h[0]) + h.subrange(1, i - start),
        decreases v.len() - i,
    {
        push_char(&mut r, humanized(v[i]));
        assert(h.subrange(1, i + 1 - start) =~= h.subrange(1, i - start).push(h[i - start]));
        i = i + 1;
    }
    assert(h.subrange(1, h.len() as int) =~= h.drop_first());
    r
}

/// `c`, or a space for `-` and `_`.
fn humanized(c: char) -> (r: char)
    ensures
        r == (if c == '-' || c == '_' {
            ' '
        } else {
            c
        }),
{
    if c == '-' || c == '_' {
        ' '
    } else {
        c
    }
}

/// The front matter fields of a concept as plain values.
pub struct MetaModel {
    pub concept_type: Seq<char>,
    pub title: Option<Seq<char>>,
    pub description: Option<Seq<char>>,
    pub resource: Option<Seq<char>>,
    pub tags: Seq<Seq<char>>,
    pub status: Status,
    pub generated: Option<StampModel>,
    pub verified: Seq<StampModel>,
    pub stale_after: Option<Date>,
    pub sources: Seq<SourceModel>,
}

/// The fields of a front matter mapping.
pub open spec fn meta_from(m: Seq<(YamlValue, YamlValue)>) -> MetaModel {
    MetaModel {
        concept_type: match str_field(m, "type"@) {
            Some(t) => t,
            None => seq![],
        },
        title: str_field(m, "title"@),
        description: str_field(m, "description"@),
        resource: str_field(m, "resource"@),
        tags: match entry_of(m, "tags"@) {
            Some(v) => string_list_of(v),
            None => seq![],
        },
        status: match str_field(m, "status"@) {
            Some(s) => status_of_text(s),
            None => Status::Stable,
        },
        generated: match entry_of(m, "generated"@) {
            Some(YamlValue::Mapping(g)) => Some(stamp_of(g@)),
            _ => None,
        },
        verified: verified_of(entry_of(m, "verified"@)),
        stale_after: match str_field(m, "stale_after"@) {
            Some(t) => date_of_text(t),
            None => None,
        },
        sources: sources_of(entry_of(m, "sources"@)),
    }
}

/// The fields of a concept without front matter.
pub open spec fn default_meta() -> MetaModel {
    MetaModel {
        concept_type: seq![],
        title: None,
        description: None,
        resource: None,
        tags: seq![],
        status: Status::Stable,
        generated: None,
        verified: seq![],
        stale_after: None,
        sources: seq![],
    }
}

/// The fields of front matter text: `None` unless it parses as a YAML mapping.
pub open spec fn meta_of_text(yaml: Seq<char>) -> Option<MetaModel> {
    match yaml_document(yaml) {
        Some(YamlValue::Mapping(m)) => Some(meta_from(m@)),
        _ => None,
    }
}

/// The concept that a markdown file with concept ID `id` holds: its front
/// matter fields (defaults where there is no front matter, or it is not a YAML
/// mapping), a title that falls back to [`title_of_id`] when missing or blank,
/// and the body after the front matter.
pub open spec fn concept_of(id: Seq<char>, markdown: Seq<char>) -> ConceptModel {
    let (yaml, body) = front_matter_split(markdown);
    let meta = match yaml {
        Some(y) => match meta_of_text(y) {
            Some(mm) => mm,
            None => default_meta(),
        },
        None => default_meta(),
    };
    ConceptModel {
        id: id,
        concept_type: meta.concept_type,
        title: match meta.title {
            Some(t) => if trim(t).len() > 0 {
                t
            } else {
                title_of_id(id)
            },
            None => title_of_id(id),
        },
        description: meta.description,
        resource: meta.resource,
        tags: meta.tags,
        status: meta.status,
        generated: meta.generated,
        verified: meta.verified,
        stale_after: meta.stale_after,
        sources: meta.sources,
        content: body,
    }
}

/// The front matter fields of a concept.
struct Meta {
    concept_type: String,
    title: Option<String>,
    description: Option<String>,
    resource: Option<String>,
    tags: Vec<String>,
    status: Status,
    generated: Option<Generated>,
    verified: Vec<Verification>,
    stale_after: Option<Date>,
    sources: Vec<Source>,
}

impl View for Meta {
    type V = MetaModel;

    closed spec fn view(&self) -> MetaModel {
        MetaModel {
            concept_type: self.concept_type@,
            title: opt_view(self.title),
            description: opt_view(self.description),
            resource: opt_view(self.resource),
            tags: views(self.tags@),
            status: self.status,
            generated: generated_view(self.generated),
            verified: self.verified@.map_values(|v: Verification| v@),
            stale_after: self.stale_after,
            sources: self.sources@.map_values(|s: Source| s@),
        }
    }
}

impl Meta {
    fn default_fields() -> (r: Meta)
        ensures
            r@ == default_meta(),
    {
        let r = Meta {
            concept_type: String::new(),
            title: None,
            description: None,
            resource: None,
            tags: Vec::new(),
            status: Status::Stable,
            generated: None,
            verified: Vec::new(),
            stale_after: None,
            sources: Vec::new(),
        };
        assert(r@.tags =~= seq![]);
        assert(r@.verified =~= seq![]);
        assert(r@.sources =~= seq![]);
        r
    }
}

/// The front matter fields of a YAML text, when it is a mapping.
fn parse_meta(yaml: &str) -> (r: Option<Meta>)
    ensures
        match r {
            Some(m) => meta_of_text(yaml@) == Some(m@),
            None => meta_of_text(yaml@) is None,
        },
{
    let value = parse_yaml(yaml);
    let map = match &value {
        Some(YamlValue::Mapping(m)) => m,
        _ => {
            return None;
        },
    };
    let meta = Meta {
        concept_type: match get_str(map, "type") {
            Some(t) => t,
            None => String::new(),
        },
        title: get_str(map, "title"),
        description: get_str(map, "description"),
        resource: get_str(map, "resource"),
        tags: get_str_list(map, "tags"),
        status: match get_str(map, "status") {
            Some(s) => parse_status(s.as_str()),
            None => Status::Stable,
        },
        generated: match get_map(map, "generated") {
            Some(g) => Some(parse_generated(g)),
            None => None,
        },
        verified: parse_verified(mapping_get(map, "verified")),
        stale_after: match get_str(map, "stale_after") {
            Some(t) => parse_date(t.as_str()),
            None => None,
        },
        sources: parse_sources(mapping_get(map, "sources")),
    };
    Some(meta)
}

impl Concept {
    /// The concept that the markdown file with concept ID `id` holds (see
    /// [`concept_of`]).
    pub fn from_markdown(id: &str, markdown: &str) -> (r: Concept)
        ensures
            r@ == concept_of(id@, markdown@),
    {
        let (yaml, body) = split_front_matter(markdown);
        let meta = match yaml {
            Some(y) => match parse_meta(y.as_str()) {
                Some(m) => m,
                None => Meta::default_fields(),
            },
            None => Meta::default_fields(),
        };
        let title = match meta.title {
            Some(t) => {
                let tt = trim_string(t.as_str());
                if !tt.as_str().is_empty() {
                    t
                } else {
                    title_from_id(id)
                }
            },
            None => title_from_id(id),
        };
        Concept {
            id: owned(id),
            concept_type: meta.concept_type,
            title,
            description: meta.description,
            resource: meta.resource,
            tags: meta.tags,
            status: meta.status,
            generated: meta.generated,
            verified: meta.verified,
            stale_after: meta.stale_after,
            sources: meta.sources,
            content: body,
        }
    }
}

} // verus!
