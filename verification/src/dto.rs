//! The shapes the REST API answers with: a concept with its derived trust tier,
//! staleness and rendered body; concept summaries; directory listings with
//! rendered `index.md`/`log.md`; and the navigation tree.
use vstd::prelude::*;

use crate::bundle::{DirListing, TreeNode};
use crate::concept::{
    dir_of, generated_view, stale_on, tier_of, Concept, ConceptSummary, Generated, Source,
    Status, TrustTier, Verification, copy_opt_string, copy_strings,
};
use crate::date::{date_on_or_before, Date};
use crate::front_matter::opt_view;
use crate::render::{render_markdown, rendered};
use crate::text::views;

verus! {

/// A concept, with derived trust and staleness and its body rendered to HTML.
#[derive(Debug)]
pub struct ConceptResponse {
    pub id: String,
    pub concept_type: String,
    pub title: String,
    pub description: Option<String>,
    pub resource: Option<String>,
    pub tags: Vec<String>,
    pub status: Status,
    pub trust_tier: TrustTier,
    pub stale: bool,
    pub stale_after: Option<Date>,
    pub generated: Option<Generated>,
    pub verified: Vec<Verification>,
    pub sources: Vec<Source>,
    pub content_html: String,
}

/// A concept summary for listings and search results.
#[derive(Debug)]
pub struct ConceptSummaryResponse {
    pub id: String,
    pub title: String,
    pub concept_type: String,
    pub description: Option<String>,
    pub tags: Vec<String>,
    pub status: Status,
    pub trust_tier: TrustTier,
    pub stale: bool,
    pub stale_after: Option<Date>,
}

/// A directory listing, with `index.md` and `log.md` rendered to HTML.
#[derive(Debug)]
pub struct DirListingResponse {
    pub path: String,
    pub index_html: Option<String>,
    pub log_html: Option<String>,
    pub concepts: Vec<ConceptSummaryResponse>,
    pub subdirs: Vec<String>,
}

/// A node of the navigation tree: the root has an empty `path`; every other
/// node is one directory with the concepts directly inside it and its nested
/// subdirectories.
#[derive(Debug)]
pub struct TreeNodeResponse {
    /// Directory segment name (empty for the bundle root).
    pub name: String,
    /// Directory path relative to the bundle root (`""` for the root).
    pub path: String,
    /// Concepts directly inside this directory.
    pub concepts: Vec<ConceptSummaryResponse>,
    /// Nested subdirectories.
    pub children: Vec<TreeNodeResponse>,
}

/// `r` is the response for summary `s` on day `today`: the same fields, and
/// stale when `stale_after` is on or before `today`.
pub open spec fn summary_response_of(r: ConceptSummaryResponse, s: ConceptSummary, today: Date) -> bool {
    &&& r.id@ == s.id@
    &&& r.title@ == s.title@
    &&& r.concept_type@ == s.concept_type@
    &&& opt_view(r.description) == opt_view(s.description)
    &&& views(r.tags@) == views(s.tags@)
    &&& r.status == s.status
    &&& r.trust_tier == s.trust_tier
    &&& r.stale == stale_on(s.stale_after, today)
    &&& r.stale_after == s.stale_after
}

/// Each response of `rs` is the response for the summary of `ss` at its
/// position.
pub open spec fn summary_responses_of(rs: Seq<ConceptSummaryResponse>, ss: Seq<ConceptSummary>, today: Date) -> bool {
    rs.len() == ss.len() && forall|i: int| 0 <= i < rs.len() ==> summary_response_of(#[trigger] rs[i], ss[i], today)
}

/// The HTML of an optional markdown body rendered in directory `dir`.
pub open spec fn rendered_opt(md: Option<Seq<char>>, dir: Seq<char>) -> Option<Seq<char>> {
    match md {
        Some(m) => Some(rendered(m, dir)),
        None => None,
    }
}

/// A copy of a generation stamp.
fn copy_generated(g: &Option<Generated>) -> (r: Option<Generated>)
    ensures
        generated_view(r) == generated_view(*g),
{
    match g {
        Some(x) => Some(Generated { by: x.by.clone(), at: x.at }),
        None => None,
    }
}

/// A copy of a list of verifications.
fn copy_verifications(v: &Vec<Verification>) -> (r: Vec<Verification>)
    ensures
        r@.map_values(|x: Verification| x@) == v@.map_values(|x: Verification| x@),
{
    let mut r: Vec<Verification> = Vec::new();
    let mut i: usize = 0;
    while i < v.len()
        invariant
            i <= v@.len(),
            r@.map_values(|x: Verification| x@) == v@.take(i as int).map_values(|x: Verification| x@),
        decreases v.len() - i,
    {
        let x = Verification { by: v[i].by.clone(), at: v[i].at };
        assert(x@ == v@[i as int]@);
        let ghost before = r@;
        r.push(x);
        assert(r@.map_values(|x: Verification| x@) =~= before.map_values(|x: Verification| x@).push(x@));
        assert(v@.take(i + 1) =~= v@.take(i as int).push(v@[i as int]));
        assert(r@.map_values(|x: Verification| x@) =~= v@.take(i + 1).map_values(|x: Verification| x@));
        i = i + 1;
    }
    assert(v@.take(v@.len() as int) =~= v@);
    r
}

/// A copy of a list of sources.
fn copy_sources(v: &Vec<Source>) -> (r: Vec<Source>)
    ensures
        r@.map_values(|x: Source| x@) == v@.map_values(|x: Source| x@),
{
    let mut r: Vec<Source> = Vec::new();
    let mut i: usize = 0;
    while i < v.len()
        invariant
            i <= v@.len(),
            r@.map_values(|x: Source| x@) == v@.take(i as int).map_values(|x: Source| x@),
        decreases v.len() - i,
    {
        let s = &v[i];
        let x = Source {
            id: copy_opt_string(&s.id),
            resource: copy_opt_string(&s.resource),
            title: copy_opt_string(&s.title),
            author: copy_opt_string(&s.author),
            usage_count: s.usage_count,
            last_modified: s.last_modified,
        };
        assert(x@ == v@[i as int]@);
        let ghost before = r@;
        r.push(x);
        assert(r@.map_values(|x: Source| x@) =~= before.map_values(|x: Source| x@).push(x@));
        assert(v@.take(i + 1) =~= v@.take(i as int).push(v@[i as int]));
        assert(r@.map_values(|x: Source| x@) =~= v@.take(i + 1).map_values(|x: Source| x@));
        i = i + 1;
    }
    assert(v@.take(v@.len() as int) =~= v@);
    r
}

/// Whether something with the given `stale_after` is stale on `today`.
fn stale_for(stale_after: Option<Date>, today: Date) -> (r: bool)
    ensures
        r == stale_on(stale_after, today),
{
    match stale_after {
        Some(d) => date_on_or_before(d, today),
        None => false,
    }
}

impl ConceptResponse {
    /// The response for `concept` on day `today`: its fields, its trust tier,
    /// whether it is stale, and its body rendered in its own directory.
    pub fn from_concept(concept: &Concept, today: Date) -> (r: ConceptResponse)
        ensures
            r.id@ == concept.id@,
            r.concept_type@ == concept.concept_type@,
            r.title@ == concept.title@,
            opt_view(r.description) == opt_view(concept.description),
            opt_view(r.resource) == opt_view(concept.resource),
            views(r.tags@) == views(concept.tags@),
            r.status == concept.status,
            r.trust_tier == tier_of(concept@.verified),
            r.stale == stale_on(concept.stale_after, today),
            r.stale_after == concept.stale_after,
            generated_view(r.generated) == concept@.generated,
            r.verified@.map_values(|x: Verification| x@) == concept@.verified,
            r.sources@.map_values(|x: Source| x@) == concept@.sources,
            r.content_html@ == rendered(concept.content@, dir_of(concept.id@)),
    {
        ConceptResponse {
            id: concept.id.clone(),
            concept_type: concept.concept_type.clone(),
            title: concept.title.clone(),
            description: copy_opt_string(&concept.description),
            resource: copy_opt_string(&concept.resource),
            tags: copy_strings(&concept.tags),
            status: concept.status,
            trust_tier: concept.trust_tier(),
            stale: concept.is_stale(today),
            stale_after: concept.stale_after,
            generated: copy_generated(&concept.generated),
            verified: copy_verifications(&concept.verified),
            sources: copy_sources(&concept.sources),
            content_html: render_markdown(concept.content.as_str(), concept.dir()),
        }
    }
}

impl ConceptSummaryResponse {
    /// The response for `summary` on day `today`.
    pub fn from_summary(summary: &ConceptSummary, today: Date) -> (r: ConceptSummaryResponse)
        ensures
            summary_response_of(r, *summary, today),
    {
        ConceptSummaryResponse {
            id: summary.id.clone(),
            title: summary.title.clone(),
            concept_type: summary.concept_type.clone(),
            description: copy_opt_string(&summary.description),
            tags: copy_strings(&summary.tags),
            status: summary.status,
            trust_tier: summary.trust_tier,
            stale: stale_for(summary.stale_after, today),
            stale_after: summary.stale_after,
        }
    }
}

/// The responses for a list of summaries on day `today`.
pub fn summary_responses(summaries: &Vec<ConceptSummary>, today: Date) -> (r: Vec<ConceptSummaryResponse>)
    ensures
        summary_responses_of(r@, summaries@, today),
{
    let mut r: Vec<ConceptSummaryResponse> = Vec::new();
    let mut i: usize = 0;
    while i < summaries.len()
        invariant
            i <= summaries@.len(),
            r@.len() == i,
            forall|k: int| 0 <= k < i ==> summary_response_of(#[trigger] r@[k], summaries@[k], today),
        decreases summaries.len() - i,
    {
        r.push(ConceptSummaryResponse::from_summary(&summaries[i], today));
        i = i + 1;
    }
    r
}

/// The optional markdown body `md` rendered in directory `dir`.
fn render_opt(md: &Option<String>, dir: &str) -> (r: Option<String>)
    ensures
        opt_view(r) == rendered_opt(opt_view(*md), dir@),
{
    match md {
        Some(m) => Some(render_markdown(m.as_str(), dir)),
        None => None,
    }
}

/// The response for a directory listing on day `today`: its `index.md` and
/// `log.md` bodies rendered in the listed directory.
pub fn dir_response(listing: DirListing, today: Date) -> (r: DirListingResponse)
    ensures
        r.path@ == listing.path@,
        opt_view(r.index_html) == rendered_opt(opt_view(listing.index_markdown), listing.path@),
        opt_view(r.log_html) == rendered_opt(opt_view(listing.log_markdown), listing.path@),
        summary_responses_of(r.concepts@, listing.concepts@, today),
        views(r.subdirs@) == views(listing.subdirs@),
{
    let index_html = render_opt(&listing.index_markdown, listing.path.as_str());
    let log_html = render_opt(&listing.log_markdown, listing.path.as_str());
    let concepts = summary_responses(&listing.concepts, today);
    DirListingResponse { path: listing.path, index_html, log_html, concepts, subdirs: listing.subdirs }
}

/// `r` is the response for tree `node` on day `today`: the same names and paths
/// throughout, every summary turned into its response.
pub open spec fn tree_response_of(r: TreeNodeResponse, node: TreeNode, today: Date) -> bool
    decreases node,
{
    &&& r.name@ == node.name@
    &&& r.path@ == node.path@
    &&& summary_responses_of(r.concepts@, node.concepts@, today)
    &&& r.children@.len() == node.children@.len()
    &&& forall|i: int|
        0 <= i < node.children@.len() ==> tree_response_of(#[trigger] r.children@[i], node.children@[i], today)
}

/// The response for the tree `node` on day `today`.
pub fn tree_response(node: &TreeNode, today: Date) -> (r: TreeNodeResponse)
    ensures
        tree_response_of(r, *node, today),
    decreases node,
{
    let concepts = summary_responses(&node.concepts, today);
    let mut children: Vec<TreeNodeResponse> = Vec::new();
    let mut i: usize = 0;
    while i < node.children.len()
        invariant
            i <= node.children@.len(),
            children@.len() == i,
            forall|k: int| 0 <= k < i ==> tree_response_of(#[trigger] children@[k], node.children@[k], today),
        decreases node.children.len() - i,
    {
        children.push(tree_response(&node.children[i], today));
        i = i + 1;
    }
    TreeNodeResponse { name: node.name.clone(), path: node.path.clone(), concepts, children }
}


/// A concept's page and its entry in a listing agree: the summary keeps the
/// concept's ID, title, type and staleness date, its trust tier is the
/// concept's, and so it is stale on the same days.
pub proof fn lemma_summary_agrees(c: crate::concept::ConceptModel, today: Date)
    ensures
        crate::concept::summary_of(c).id == c.id,
        crate::concept::summary_of(c).title == c.title,
        crate::concept::summary_of(c).concept_type == c.concept_type,
        crate::concept::summary_of(c).trust_tier == tier_of(c.verified),
        stale_on(crate::concept::summary_of(c).stale_after, today) == stale_on(c.stale_after, today),
{
}

} // verus!
