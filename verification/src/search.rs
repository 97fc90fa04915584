//! Keyword ranking of concepts, the grouping step of reciprocal rank fusion, and
//! the text a semantic index embeds for a concept.
use vstd::prelude::*;
use vstd::string::*;

use crate::bundle::{
    description_contains, description_contains_exec, lower_contains, lower_contains_exec,
    some_tag_contains, some_tag_contains_exec,
};
use crate::concept::{summary_of, Concept, ConceptModel, ConceptSummary, SummaryModel};
use crate::ranking::{
    building, concept_models, insert_ranked, lemma_building_done, lemma_building_insert,
    lemma_building_skip, lemma_building_start, ranked_at, summary_models, Ranked,
};
use crate::text::{chars_of, join, join_strings, lowercase, to_lowercase, trim, trim_string, views};

verus! {

/// The keyword relevance of concept `c` to the lowercase query `q`: a match in
/// the ID earns 3, in the title 4, in the type 2, in a tag 2, in the description
/// 1 and in the body 1 (each field lowercased); the weights of all matching
/// fields add up.
pub open spec fn keyword_score(c: ConceptModel, q: Seq<char>) -> int {
    (if lower_contains(c.id, q) { 3int } else { 0int }) + (if lower_contains(c.title, q) { 4int } else { 0int })
        + (if lower_contains(c.concept_type, q) { 2int } else { 0int }) + (if some_tag_contains(c.tags, q) {
        2int
    } else {
        0int
    }) + (if description_contains(c.description, q) { 1int } else { 0int }) + (if lower_contains(c.content, q) {
        1int
    } else {
        0int
    })
}

/// Selects the concepts of `src` with a positive keyword score for `q`.
pub open spec fn keyword_hits(src: Seq<ConceptModel>, q: Seq<char>) -> spec_fn(int) -> bool {
    |j: int| keyword_score(src[j], q) > 0
}

/// The keyword scores of the concepts of `src` for `q`.
pub open spec fn keyword_scores(src: Seq<ConceptModel>, q: Seq<char>) -> spec_fn(int) -> int {
    |j: int| keyword_score(src[j], q)
}

/// The query as matched: trimmed and lowercased.
pub open spec fn keyword_query(query: Seq<char>) -> Seq<char> {
    lowercase(trim(query))
}

/// A keyword search result: a summary and its relevance score.
#[derive(Debug)]
pub struct KeywordHit {
    pub summary: ConceptSummary,
    pub score: u32,
}

/// The summaries of a list of hits.
pub open spec fn hit_summaries(r: Seq<KeywordHit>) -> Seq<SummaryModel> {
    r.map_values(|h: KeywordHit| h.summary@)
}

/// `r` ranks the concepts of `src` with a positive keyword score for `q`, best
/// score first, then by lowercased title, ID and position, each with its score.
pub open spec fn is_keyword_ranking(r: Seq<KeywordHit>, src: Seq<ConceptModel>, q: Seq<char>) -> bool {
    exists|ix: Seq<int>|
        ranked_at(hit_summaries(r), src, keyword_hits(src, q), keyword_scores(src, q), ix) && forall|i: int|
            0 <= i < r.len() ==> r[i].score as int == keyword_score(src[#[trigger] ix[i]], q)
}

/// `w` when `b` holds, else 0.
pub open spec fn weight_if(b: bool, w: int) -> int {
    if b {
        w
    } else {
        0
    }
}

/// Each field adds its own fixed weight, whatever the other fields hold:
/// replacing one field of a concept by another value changes the score by
/// that field's weight times the change in whether it matches (ID 3, title 4,
/// type 2, tags 2, description 1, body 1). A concept where no field matches
/// scores 0; one whose description (or any other field) matches scores at
/// least that field's weight.
pub proof fn lemma_keyword_weights(c: ConceptModel, q: Seq<char>, x: Seq<char>, d: Option<Seq<char>>, tags: Seq<Seq<char>>)
    ensures
        keyword_score(ConceptModel { id: x, ..c }, q) - keyword_score(c, q) == weight_if(lower_contains(x, q), 3)
            - weight_if(lower_contains(c.id, q), 3),
        keyword_score(ConceptModel { title: x, ..c }, q) - keyword_score(c, q) == weight_if(lower_contains(x, q), 4)
            - weight_if(lower_contains(c.title, q), 4),
        keyword_score(ConceptModel { concept_type: x, ..c }, q) - keyword_score(c, q) == weight_if(
            lower_contains(x, q),
            2,
        ) - weight_if(lower_contains(c.concept_type, q), 2),
        keyword_score(ConceptModel { tags: tags, ..c }, q) - keyword_score(c, q) == weight_if(
            some_tag_contains(tags, q),
            2,
        ) - weight_if(some_tag_contains(c.tags, q), 2),
        keyword_score(ConceptModel { description: d, ..c }, q) - keyword_score(c, q) == weight_if(
            description_contains(d, q),
            1,
        ) - weight_if(description_contains(c.description, q), 1),
        keyword_score(ConceptModel { content: x, ..c }, q) - keyword_score(c, q) == weight_if(
            lower_contains(x, q),
            1,
        ) - weight_if(lower_contains(c.content, q), 1),
        !lower_contains(c.id, q) && !lower_contains(c.title, q) && !lower_contains(c.concept_type, q)
            && !some_tag_contains(c.tags, q) && !description_contains(c.description, q) && !lower_contains(
            c.content,
            q,
        ) ==> keyword_score(c, q) == 0,
        description_contains(c.description, q) ==> keyword_score(c, q) >= 1,
        lower_contains(c.content, q) ==> keyword_score(c, q) >= 1,
        lower_contains(c.title, q) ==> keyword_score(c, q) >= 4,
        lower_contains(c.id, q) ==> keyword_score(c, q) >= 3,
        lower_contains(c.concept_type, q) ==> keyword_score(c, q) >= 2,
        some_tag_contains(c.tags, q) ==> keyword_score(c, q) >= 2,
{
}

/// A keyword ranking lists every concept that matches the query in its
/// description (or anywhere else), with its score, which is at least 1.
pub proof fn lemma_keyword_match_listed(r: Seq<KeywordHit>, src: Seq<ConceptModel>, q: Seq<char>, j: int)
    requires
        is_keyword_ranking(r, src, q),
        0 <= j < src.len(),
        description_contains(src[j].description, q) || lower_contains(src[j].content, q) || lower_contains(
            src[j].title,
            q,
        ) || lower_contains(src[j].id, q) || lower_contains(src[j].concept_type, q) || some_tag_contains(
            src[j].tags,
            q,
        ),
    ensures
        exists|i: int| 0 <= i < r.len() && r[i].summary@ == summary_of(src[j]) && r[i].score >= 1,
{
    let ix = choose|ix: Seq<int>|
        ranked_at(hit_summaries(r), src, keyword_hits(src, q), keyword_scores(src, q), ix) && forall|i: int|
            0 <= i < r.len() ==> r[i].score as int == keyword_score(src[#[trigger] ix[i]], q);
    lemma_keyword_weights(src[j], q, seq![], None, seq![]);
    assert(keyword_hits(src, q)(j));
    let i = choose|i: int| 0 <= i < hit_summaries(r).len() && ix[i] == j;
    assert(hit_summaries(r)[i] == r[i].summary@);
    assert(r[i].score as int == keyword_score(src[ix[i]], q));
}

/// Exec [`keyword_score`].
fn keyword_score_exec(c: &Concept, q: &Vec<char>) -> (r: u32)
    ensures
        r as int == keyword_score(c@, q@),
{
    let mut score: u32 = 0;
    if lower_contains_exec(c.id.as_str(), q) {
        score = score + 3;
    }
    if lower_contains_exec(c.title.as_str(), q) {
        score = score + 4;
    }
    if lower_contains_exec(c.concept_type.as_str(), q) {
        score = score + 2;
    }
    if some_tag_contains_exec(&c.tags, q) {
        score = score + 2;
    }
    if description_contains_exec(&c.description, q) {
        score = score + 1;
    }
    if lower_contains_exec(c.content.as_str(), q) {
        score = score + 1;
    }
    score
}

/// The hits of `out`, in order.
fn into_hits(out: Vec<Ranked>) -> (r: Vec<KeywordHit>)
    ensures
        r@.len() == out@.len(),
        forall|i: int| 0 <= i < r@.len() ==> (#[trigger] r@[i]).summary == out@[i].summary && r@[i].score == out@[i].score,
{
    let ghost v0 = out@;
    let mut out = out;
    let mut r: Vec<KeywordHit> = Vec::new();
    while out.len() > 0
        invariant
            v0.len() == r@.len() + out@.len(),
            out@ == v0.subrange(r@.len() as int, v0.len() as int),
            forall|i: int| 0 <= i < r@.len() ==> (#[trigger] r@[i]).summary == v0[i].summary && r@[i].score == v0[i].score,
        decreases out.len(),
    {
        let ghost k: int = r@.len() as int;
        let x = out.remove(0);
        assert(x == v0[k]);
        r.push(KeywordHit { summary: x.summary, score: x.score });
        assert(out@ =~= v0.subrange(k + 1, v0.len() as int));
    }
    r
}

/// Whether `query` is blank: empty or only whitespace. Every search answers a
/// blank query with no results.
pub fn is_blank_query(query: &str) -> (r: bool)
    ensures
        r == (trim(query@).len() == 0),
{
    let t = trim_string(query);
    let v = chars_of(t.as_str());
    v.len() == 0
}

/// Rank `concepts` by keyword relevance to `query` (trimmed, lowercased): the
/// concepts with a positive [`keyword_score`], best first, ties by lowercased
/// title, then ID, then position. A blank query has no results.
pub fn rank_keyword(query: &str, concepts: &Vec<Concept>) -> (r: Vec<KeywordHit>)
    ensures
        keyword_query(query@).len() == 0 ==> r@.len() == 0,
        keyword_query(query@).len() > 0 ==> is_keyword_ranking(
            r@,
            concept_models(concepts@),
            keyword_query(query@),
        ),
{
    let t = trim_string(query);
    let ql = to_lowercase(t.as_str());
    let q = chars_of(ql.as_str());
    if q.len() == 0 {
        return Vec::new();
    }
    let ghost src = concept_models(concepts@);
    let ghost keep = keyword_hits(src, q@);
    let ghost score = keyword_scores(src, q@);
    let mut out: Vec<Ranked> = Vec::new();
    proof {
        lemma_building_start(src, keep, score);
        assert(out@ =~= Seq::<Ranked>::empty());
    }
    let mut i: usize = 0;
    while i < concepts.len()
        invariant
            i <= concepts@.len(),
            src == concept_models(concepts@),
            keep == keyword_hits(src, q@),
            score == keyword_scores(src, q@),
            building(out@, src, keep, score, i as int),
        decreases concepts.len() - i,
    {
        let c = &concepts[i];
        assert(src[i as int] == c@);
        let s = keyword_score_exec(c, &q);
        if s > 0 {
            let x = Ranked { score: s, key: to_lowercase(c.title.as_str()), at: i, summary: c.summary() };
            let ghost gx = x;
            let ghost before = out@;
            insert_ranked(&mut out, x);
            proof {
                lemma_building_insert(before, out@, gx, src, keep, score, i as int);
            }
        } else {
            proof {
                lemma_building_skip(out@, src, keep, score, i as int);
            }
        }
        i = i + 1;
    }
    let ghost fin = out@;
    let ghost sums = fin.map_values(|x: Ranked| x.summary);
    let r = into_hits(out);
    proof {
        lemma_building_done(fin, sums, src, keep, score);
        let ix = fin.map_values(|x: Ranked| x.at as int);
        assert(hit_summaries(r@) =~= summary_models(sums));
        assert forall|i: int| 0 <= i < r@.len() implies r@[i].score as int == keyword_score(src[#[trigger] ix[i]], q@) by {
            assert(r@[i].score == fin[i].score);
            assert(ix[i] == fin[i].at as int);
        }
        assert(ranked_at(hit_summaries(r@), src, keep, score, ix));
    }
    r
}

/// The pieces of text indexed for a concept: title, type, description (if
/// any), tags and body.
pub open spec fn text_parts(c: ConceptModel) -> Seq<Seq<char>> {
    seq![c.title, c.concept_type] + (match c.description {
        Some(d) => seq![d],
        None => Seq::<Seq<char>>::empty(),
    }) + c.tags + seq![c.content]
}

/// The text indexed for a concept: everything searchable, body included, one
/// piece per line.
pub fn concept_text(c: &Concept) -> (r: String)
    ensures
        r@ == join(text_parts(c@), seq!['\n']),
{
    let mut parts: Vec<String> = Vec::new();
    parts.push(c.title.clone());
    parts.push(c.concept_type.clone());
    match &c.description {
        Some(d) => {
            parts.push(d.clone());
        },
        None => {},
    }
    let ghost head = views(parts@);
    let mut i: usize = 0;
    while i < c.tags.len()
        invariant
            i <= c.tags@.len(),
            views(parts@) == head + views(c.tags@).take(i as int),
        decreases c.tags.len() - i,
    {
        let ghost before = views(parts@);
        parts.push(c.tags[i].clone());
        assert(views(parts@) =~= before.push(c.tags@[i as int]@));
        assert(views(c.tags@).take(i + 1) =~= views(c.tags@).take(i as int).push(c.tags@[i as int]@));
        assert(views(parts@) =~= head + views(c.tags@).take(i + 1));
        i = i + 1;
    }
    let ghost before = views(parts@);
    parts.push(c.content.clone());
    assert(views(c.tags@).take(c.tags@.len() as int) =~= views(c.tags@));
    assert(views(parts@) =~= before.push(c.content@));
    assert(views(parts@) =~= text_parts(c@));
    let sep = "\n";
    proof {
        reveal_strlit("\n");
    }
    assert(sep@ =~= seq!['\n']);
    join_strings(&parts, sep)
}


/// The entries of a ranked list: each summary with its position (rank 0 is the
/// best).
pub open spec fn list_entries(list: Seq<SummaryModel>) -> Seq<(SummaryModel, int)> {
    Seq::new(list.len(), |p: int| (list[p], p))
}

/// The entries of several ranked lists, list after list.
pub open spec fn all_entries(lists: Seq<Seq<SummaryModel>>) -> Seq<(SummaryModel, int)>
    decreases lists.len(),
{
    if lists.len() == 0 {
        seq![]
    } else {
        all_entries(lists.drop_last()) + list_entries(lists.last())
    }
}

/// The ranks at which concept `id` occurs among the entries `f`, in order.
pub open spec fn ranks_of(f: Seq<(SummaryModel, int)>, id: Seq<char>) -> Seq<int>
    decreases f.len(),
{
    if f.len() == 0 {
        seq![]
    } else {
        let r = ranks_of(f.drop_last(), id);
        if f.last().0.id == id {
            r.push(f.last().1)
        } else {
            r
        }
    }
}

/// The position of the first entry of `f` for concept `id`, or -1.
pub open spec fn first_at(f: Seq<(SummaryModel, int)>, id: Seq<char>) -> int
    decreases f.len(),
{
    if f.len() == 0 {
        -1
    } else {
        let k = first_at(f.drop_last(), id);
        if k >= 0 {
            k
        } else if f.last().0.id == id {
            f.len() - 1
        } else {
            -1
        }
    }
}

/// What [`first_at`] finds.
pub proof fn lemma_first_at(f: Seq<(SummaryModel, int)>, id: Seq<char>)
    ensures
        -1 <= first_at(f, id) < f.len(),
        first_at(f, id) >= 0 ==> f[first_at(f, id)].0.id == id,
        forall|k: int| 0 <= k < f.len() && f[k].0.id == id ==> 0 <= first_at(f, id) <= k,
    decreases f.len(),
{
    if f.len() > 0 {
        lemma_first_at(f.drop_last(), id);
        assert forall|k: int| 0 <= k < f.len() && f[k].0.id == id implies 0 <= first_at(f, id) <= k by {
            if k < f.len() - 1 {
                assert(f.drop_last()[k] == f[k]);
            }
        }
        if first_at(f.drop_last(), id) >= 0 {
            assert(f.drop_last()[first_at(f.drop_last(), id)] == f[first_at(f.drop_last(), id)]);
        }
    }
}

/// `g` groups the entries `f` by concept: one group per concept ID, in the
/// order the IDs first occur, each with the summary of its first entry and the
/// ranks of all its entries in order.
pub open spec fn grouped(g: Seq<(SummaryModel, Seq<int>)>, f: Seq<(SummaryModel, int)>) -> bool {
    &&& forall|i: int|
        0 <= i < g.len() ==> {
            let k = first_at(f, (#[trigger] g[i]).0.id);
            &&& 0 <= k
            &&& g[i].0 == f[k].0
            &&& g[i].1 == ranks_of(f, g[i].0.id)
        }
    &&& forall|k: int| 0 <= k < f.len() ==> exists|i: int| 0 <= i < g.len() && #[trigger] g[i].0.id == (#[trigger] f[k]).0.id
    &&& forall|i: int, j: int|
        0 <= i < j < g.len() ==> first_at(f, (#[trigger] g[i]).0.id) < first_at(f, (#[trigger] g[j]).0.id)
}

/// One more entry: it joins the group of its concept, or starts a new group.
proof fn lemma_grouped_push(g: Seq<(SummaryModel, Seq<int>)>, f: Seq<(SummaryModel, int)>, e: (SummaryModel, int), i: int)
    requires
        grouped(g, f),
        -1 <= i < g.len(),
        i >= 0 ==> g[i].0.id == e.0.id,
        i < 0 ==> forall|t: int| 0 <= t < g.len() ==> g[t].0.id != e.0.id,
    ensures
        grouped(
            if i >= 0 {
                g.update(i, (g[i].0, g[i].1.push(e.1)))
            } else {
                g.push((e.0, seq![e.1]))
            },
            f.push(e),
        ),
{
    let f2 = f.push(e);
    let g2 = if i >= 0 {
        g.update(i, (g[i].0, g[i].1.push(e.1)))
    } else {
        g.push((e.0, seq![e.1]))
    };
    assert(f2.drop_last() =~= f);
    assert forall|id: Seq<char>| #![trigger first_at(f2, id)] first_at(f, id) >= 0 ==> first_at(f2, id) == first_at(f, id) by {
    }
    assert forall|id: Seq<char>| #![trigger ranks_of(f2, id)] ranks_of(f2, id) == if e.0.id == id {
        ranks_of(f, id).push(e.1)
    } else {
        ranks_of(f, id)
    } by {
    }
    lemma_first_at(f, e.0.id);
    if i < 0 {
        assert(first_at(f, e.0.id) == -1) by {
            if first_at(f, e.0.id) >= 0 {
                let k = first_at(f, e.0.id);
                let t = choose|t: int| 0 <= t < g.len() && #[trigger] g[t].0.id == f[k].0.id;
            }
        }
        assert(first_at(f2, e.0.id) == f.len());
        assert(ranks_of(f, e.0.id) =~= Seq::<int>::empty()) by {
            lemma_ranks_of_absent(f, e.0.id);
        }
    }
    assert forall|t: int| 0 <= t < g2.len() implies {
        let k = first_at(f2, (#[trigger] g2[t]).0.id);
        &&& 0 <= k
        &&& g2[t].0 == f2[k].0
        &&& g2[t].1 == ranks_of(f2, g2[t].0.id)
    } by {
        if t < g.len() {
            lemma_first_at(f, g[t].0.id);
            assert(f2[first_at(f, g[t].0.id)] == f[first_at(f, g[t].0.id)]);
        } else {
            assert(g2[t] == (e.0, seq![e.1]));
            assert(f2[f.len() as int] == e);
            assert(ranks_of(f, e.0.id).push(e.1) =~= seq![e.1]);
        }
    }
    assert forall|k: int| 0 <= k < f2.len() implies exists|t: int| 0 <= t < g2.len() && #[trigger] g2[t].0.id == (#[trigger] f2[k]).0.id by {
        if k < f.len() {
            assert(f2[k] == f[k]);
            let t = choose|t: int| 0 <= t < g.len() && #[trigger] g[t].0.id == f[k].0.id;
            assert(g2[t].0.id == g[t].0.id);
        } else if i >= 0 {
            assert(g2[i].0.id == e.0.id);
        } else {
            assert(g2[g.len() as int].0.id == e.0.id);
        }
    }
    assert forall|a: int, b: int| 0 <= a < b < g2.len() implies first_at(f2, (#[trigger] g2[a]).0.id) < first_at(
        f2,
        (#[trigger] g2[b]).0.id,
    ) by {
        if b < g.len() {
            assert(g2[a].0.id == g[a].0.id && g2[b].0.id == g[b].0.id);
            lemma_first_at(f, g[a].0.id);
            lemma_first_at(f, g[b].0.id);
        } else {
            assert(g2[a].0.id == g[a].0.id);
            lemma_first_at(f, g[a].0.id);
        }
    }
}

/// A concept with no entry has no ranks.
proof fn lemma_ranks_of_absent(f: Seq<(SummaryModel, int)>, id: Seq<char>)
    requires
        forall|k: int| 0 <= k < f.len() ==> f[k].0.id != id,
    ensures
        ranks_of(f, id) == Seq::<int>::empty(),
    decreases f.len(),
{
    if f.len() > 0 {
        assert forall|k: int| 0 <= k < f.drop_last().len() implies f.drop_last()[k].0.id != id by {
            assert(f.drop_last()[k] == f[k]);
        }
        lemma_ranks_of_absent(f.drop_last(), id);
    }
}

/// One concept of a fused list: the summary of its first occurrence and the
/// ranks at which it occurs across the lists, in order.
#[derive(Debug)]
pub struct FusedEntry {
    pub summary: ConceptSummary,
    pub ranks: Vec<usize>,
}

/// The plain values of a list of fused entries.
pub open spec fn fused_model(r: Seq<FusedEntry>) -> Seq<(SummaryModel, Seq<int>)> {
    r.map_values(|e: FusedEntry| (e.summary@, e.ranks@.map_values(|x: usize| x as int)))
}

/// A copy of a summary.
pub fn copy_summary(s: &ConceptSummary) -> (r: ConceptSummary)
    ensures
        r@ == s@,
{
    ConceptSummary {
        id: s.id.clone(),
        title: s.title.clone(),
        concept_type: s.concept_type.clone(),
        description: crate::concept::copy_opt_string(&s.description),
        tags: crate::concept::copy_strings(&s.tags),
        status: s.status,
        trust_tier: s.trust_tier,
        stale_after: s.stale_after,
    }
}

/// The lists of summaries as plain values.
pub open spec fn lists_model(lists: Seq<Vec<ConceptSummary>>) -> Seq<Seq<SummaryModel>> {
    lists.map_values(|l: Vec<ConceptSummary>| summary_models(l@))
}

/// Group the ranked lists of several providers by concept, for reciprocal rank
/// fusion: one entry per concept ID, in the order the IDs first occur, with
/// the summary of the first occurrence and every rank at which it occurs.
pub fn fuse_groups(lists: &Vec<Vec<ConceptSummary>>) -> (r: Vec<FusedEntry>)
    ensures
        grouped(fused_model(r@), all_entries(lists_model(lists@))),
{
    let ghost ls = lists_model(lists@);
    let mut sums: Vec<ConceptSummary> = Vec::new();
    let mut rks: Vec<Vec<usize>> = Vec::new();
    let ghost mut seen: Seq<(SummaryModel, int)> = seq![];
    let ghost mut g: Seq<(SummaryModel, Seq<int>)> = seq![];
    let mut l: usize = 0;
    assert(ls.take(0) =~= Seq::<Seq<SummaryModel>>::empty());
    while l < lists.len()
        invariant
            l <= lists@.len(),
            ls == lists_model(lists@),
            seen == all_entries(ls.take(l as int)),
            grouped(g, seen),
            sums@.len() == g.len(),
            rks@.len() == g.len(),
            forall|t: int|
                0 <= t < g.len() ==> (#[trigger] g[t]).0 == sums@[t]@ && g[t].1 == rks@[t]@.map_values(|x: usize| x as int),
        decreases lists.len() - l,
    {
        let list = &lists[l];
        assert(ls[l as int] == summary_models(list@));
        let ghost before_list = seen;
        let mut p: usize = 0;
        while p < list.len()
            invariant
                p <= list@.len(),
                ls == lists_model(lists@),
                l < lists@.len(),
                list@ == lists@[l as int]@,
                ls[l as int] == summary_models(list@),
                before_list == all_entries(ls.take(l as int)),
                seen == before_list + list_entries(ls[l as int]).take(p as int),
                grouped(g, seen),
                sums@.len() == g.len(),
                rks@.len() == g.len(),
                forall|t: int|
                    0 <= t < g.len() ==> (#[trigger] g[t]).0 == sums@[t]@ && g[t].1 == rks@[t]@.map_values(
                        |x: usize| x as int,
                    ),
            decreases list.len() - p,
        {
            let item = &list[p];
            let ghost e = (item@, p as int);
            assert(list_entries(ls[l as int])[p as int] == e);
            let mut i: usize = 0;
            while i < sums.len() && !crate::text::eq_str(sums[i].id.as_str(), item.id.as_str())
                invariant
                    i <= sums@.len(),
                    sums@.len() == g.len(),
                    forall|t: int| 0 <= t < g.len() ==> (#[trigger] g[t]).0 == sums@[t]@,
                    forall|t: int| 0 <= t < i ==> (#[trigger] g[t]).0.id != item@.id,
                decreases sums.len() - i,
            {
                i = i + 1;
            }
            let found = i < sums.len();
            if found {
                assert(g[i as int].0.id == item@.id);
            }
            proof {
                lemma_grouped_push(g, seen, e, if found { i as int } else { -1 });
            }
            if found {
                let mut rv = rks.remove(i);
                let ghost old_rv = rv@;
                rv.push(p);
                rks.insert(i, rv);
                proof {
                    g = g.update(i as int, (g[i as int].0, g[i as int].1.push(p as int)));
                    assert(rv@.map_values(|x: usize| x as int) =~= old_rv.map_values(|x: usize| x as int).push(p as int));
                }
            } else {
                sums.push(copy_summary(item));
                let mut rv: Vec<usize> = Vec::new();
                rv.push(p);
                rks.push(rv);
                proof {
                    g = g.push((e.0, seq![p as int]));
                    assert(rv@.map_values(|x: usize| x as int) =~= seq![p as int]);
                }
            }
            proof {
                seen = seen.push(e);
                assert(list_entries(ls[l as int]).take(p + 1) =~= list_entries(ls[l as int]).take(p as int).push(e));
            }
            p = p + 1;
        }
        proof {
            assert(list_entries(ls[l as int]).take(list@.len() as int) =~= list_entries(ls[l as int]));
            assert(ls.take(l + 1).drop_last() =~= ls.take(l as int));
            assert(ls.take(l + 1).last() == ls[l as int]);
        }
        l = l + 1;
    }
    assert(ls.take(lists@.len() as int) =~= ls);
    let mut r: Vec<FusedEntry> = Vec::new();
    let ghost n = g.len();
    while sums.len() > 0
        invariant
            sums@.len() == rks@.len(),
            r@.len() + sums@.len() == n,
            n == g.len(),
            forall|t: int|
                0 <= t < sums@.len() ==> (#[trigger] g[t + r@.len()]).0 == sums@[t]@ && g[t + r@.len()].1
                    == rks@[t]@.map_values(|x: usize| x as int),
            fused_model(r@) == g.take(r@.len() as int),
        decreases sums.len(),
    {
        let ghost k: int = r@.len() as int;
        assert(g[0int + r@.len()].0 == sums@[0]@ && g[0int + r@.len()].1 == rks@[0]@.map_values(|x: usize| x as int));
        assert(g[k].0 == sums@[0]@ && g[k].1 == rks@[0]@.map_values(|x: usize| x as int));
        let s = sums.remove(0);
        let v = rks.remove(0);
        let ghost before = fused_model(r@);
        r.push(FusedEntry { summary: s, ranks: v });
        assert(fused_model(r@) =~= before.push(g[k]));
        assert(g.take(k + 1) =~= g.take(k).push(g[k]));
        assert forall|t: int| 0 <= t < sums@.len() implies (#[trigger] g[t + r@.len()]).0 == sums@[t]@ && g[t + r@.len()].1
            == rks@[t]@.map_values(|x: usize| x as int) by {
            assert(t + r@.len() == (t + 1) + k);
        }
    }
    assert(g.take(n as int) =~= g);
    r
}


/// In a keyword ranking every result has a positive score, and a result with a
/// higher score comes before one with a lower score (so a title match, worth
/// 4, always outranks a match in the body alone, worth 1).
pub proof fn lemma_keyword_better_first(r: Seq<KeywordHit>, src: Seq<ConceptModel>, q: Seq<char>)
    requires
        is_keyword_ranking(r, src, q),
    ensures
        forall|i: int| 0 <= i < r.len() ==> (#[trigger] r[i]).score > 0,
        forall|i: int, j: int| 0 <= i < r.len() && 0 <= j < r.len() && (#[trigger] r[i]).score > (#[trigger] r[j]).score ==> i < j,
{
    let ix = choose|ix: Seq<int>|
        ranked_at(hit_summaries(r), src, keyword_hits(src, q), keyword_scores(src, q), ix) && forall|i: int|
            0 <= i < r.len() ==> r[i].score as int == keyword_score(src[#[trigger] ix[i]], q);
    let m = hit_summaries(r);
    assert forall|i: int| 0 <= i < r.len() implies (#[trigger] r[i]).score > 0 by {
        assert(keyword_hits(src, q)(ix[i]));
    }
    assert forall|i: int, j: int| 0 <= i < r.len() && 0 <= j < r.len() && (#[trigger] r[i]).score > (#[trigger] r[j]).score implies i < j by {
        if j < i {
            assert(crate::ranking::ranks_before(
                crate::ranking::key_at(m, keyword_scores(src, q), ix, j),
                crate::ranking::key_at(m, keyword_scores(src, q), ix, i),
            ));
        }
        if i == j {
        }
    }
}

/// Grouping never lists a concept twice.
pub proof fn lemma_groups_distinct(g: Seq<(SummaryModel, Seq<int>)>, f: Seq<(SummaryModel, int)>)
    requires
        grouped(g, f),
    ensures
        forall|i: int, j: int| 0 <= i < j < g.len() ==> (#[trigger] g[i]).0.id != (#[trigger] g[j]).0.id,
{
}

} // verus!
