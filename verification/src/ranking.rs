//! Ranked listings of concept summaries: best score first, then by lowercased
//! title, then by concept ID, then by position in the list they were drawn from.
//! Directory listings, keyword search and the navigation tree all list concepts
//! this way (the first three with every score equal).
use vstd::prelude::*;

use crate::concept::{summary_of, Concept, ConceptModel, ConceptSummary, SummaryModel};
use crate::text::{
    lemma_seq_order_basic, lemma_seq_order_lt_le, lemma_seq_order_trans, lowercase, order_str,
    seq_order,
};

verus! {

/// The models of a list of concepts.
pub open spec fn concept_models(v: Seq<Concept>) -> Seq<ConceptModel> {
    v.map_values(|c: Concept| c@)
}

/// The models of a list of summaries.
pub open spec fn summary_models(v: Seq<ConceptSummary>) -> Seq<SummaryModel> {
    v.map_values(|s: ConceptSummary| s@)
}

/// The order of ranking keys `(score, lowercased title, id, position)`: higher
/// score first, then title, then id (both by code point), then position.
pub open spec fn ranks_before(a: (int, Seq<char>, Seq<char>, int), b: (int, Seq<char>, Seq<char>, int)) -> bool {
    if a.0 != b.0 {
        a.0 > b.0
    } else if seq_order(a.1, b.1) != 0 {
        seq_order(a.1, b.1) < 0
    } else if seq_order(a.2, b.2) != 0 {
        seq_order(a.2, b.2) < 0
    } else {
        a.3 < b.3
    }
}

/// Facts about `seq_order` on three sequences.
proof fn lemma_order3(a: Seq<char>, b: Seq<char>, c: Seq<char>)
    ensures
        seq_order(a, b) == 0 <==> a == b,
        seq_order(a, b) == -seq_order(b, a),
        seq_order(a, b) <= 0 && seq_order(b, c) <= 0 ==> seq_order(a, c) <= 0,
        seq_order(a, b) < 0 && seq_order(b, c) <= 0 ==> seq_order(a, c) < 0,
        seq_order(a, b) <= 0 && seq_order(b, c) < 0 ==> seq_order(a, c) < 0,
{
    lemma_seq_order_basic(a, b);
    lemma_seq_order_basic(b, c);
    lemma_seq_order_basic(a, c);
    if seq_order(a, b) <= 0 && seq_order(b, c) <= 0 {
        lemma_seq_order_trans(a, b, c);
    }
    if seq_order(a, b) < 0 && seq_order(b, c) <= 0 {
        lemma_seq_order_lt_le(a, b, c);
    }
    if seq_order(a, b) <= 0 && seq_order(b, c) < 0 {
        if seq_order(a, b) < 0 {
            lemma_seq_order_lt_le(a, b, c);
        }
    }
}

/// [`ranks_before`] is transitive.
pub proof fn lemma_ranks_before_trans(
    a: (int, Seq<char>, Seq<char>, int),
    b: (int, Seq<char>, Seq<char>, int),
    c: (int, Seq<char>, Seq<char>, int),
)
    requires
        ranks_before(a, b),
        ranks_before(b, c),
    ensures
        ranks_before(a, c),
{
    lemma_order3(a.1, b.1, c.1);
    lemma_order3(a.2, b.2, c.2);
    lemma_order3(b.1, c.1, a.1);
    lemma_order3(b.2, c.2, a.2);
}

/// [`ranks_before`] is asymmetric, and total on keys at different positions.
pub proof fn lemma_ranks_before_total(a: (int, Seq<char>, Seq<char>, int), b: (int, Seq<char>, Seq<char>, int))
    ensures
        !(ranks_before(a, b) && ranks_before(b, a)),
        a.3 != b.3 ==> (ranks_before(a, b) || ranks_before(b, a)),
{
    lemma_seq_order_basic(a.1, b.1);
    lemma_seq_order_basic(a.2, b.2);
}

/// A summary on its way into a ranked listing, with the key it is ranked by.
pub struct Ranked {
    pub score: u32,
    /// The lowercased title.
    pub key: String,
    /// The position in the source list.
    pub at: usize,
    pub summary: ConceptSummary,
}

/// The ranking key of `r`.
pub open spec fn rank_key(r: Ranked) -> (int, Seq<char>, Seq<char>, int) {
    (r.score as int, r.key@, r.summary.id@, r.at as int)
}

/// Every entry of `s` ranks before every later one.
pub open spec fn sorted_by_rank(s: Seq<Ranked>) -> bool {
    forall|i: int, j: int| 0 <= i < j < s.len() ==> ranks_before(rank_key(s[i]), rank_key(s[j]))
}

/// Exec [`ranks_before`] on two entries.
fn ranked_before(a: &Ranked, b: &Ranked) -> (r: bool)
    ensures
        r == ranks_before(rank_key(*a), rank_key(*b)),
{
    if a.score != b.score {
        return a.score > b.score;
    }
    let t = order_str(a.key.as_str(), b.key.as_str());
    if t != 0 {
        return t < 0;
    }
    let i = order_str(a.summary.id.as_str(), b.summary.id.as_str());
    if i != 0 {
        return i < 0;
    }
    a.at < b.at
}

/// Insert `x`, drawn from a later position than every entry of the sorted `out`,
/// at its place in the ranking.
pub fn insert_ranked(out: &mut Vec<Ranked>, x: Ranked)
    requires
        sorted_by_rank(old(out)@),
        forall|i: int| 0 <= i < old(out)@.len() ==> old(out)@[i].at < x.at,
    ensures
        sorted_by_rank(final(out)@),
        exists|p: int| 0 <= p <= old(out)@.len() && final(out)@ == old(out)@.insert(p, x),
{
    let ghost v0 = out@;
    let mut p: usize = 0;
    while p < out.len() && !ranked_before(&x, &out[p])
        invariant
            p <= out@.len(),
            out@ == v0,
            forall|i: int| 0 <= i < v0.len() ==> v0[i].at < x.at,
            forall|i: int| 0 <= i < p ==> ranks_before(rank_key(v0[i]), rank_key(x)),
        decreases out.len() - p,
    {
        proof {
            lemma_ranks_before_total(rank_key(x), rank_key(v0[p as int]));
        }
        p = p + 1;
    }
    proof {
        assert forall|i: int| p <= i < v0.len() implies ranks_before(rank_key(x), rank_key(v0[i])) by {
            if i > p {
                lemma_ranks_before_trans(rank_key(x), rank_key(v0[p as int]), rank_key(v0[i]));
            }
        }
    }
    out.insert(p, x);
    proof {
        let v1 = out@;
        assert(v1 == v0.insert(p as int, x));
        assert forall|i: int, j: int| 0 <= i < j < v1.len() implies ranks_before(rank_key(v1[i]), rank_key(v1[j])) by {
            if j < p {
                assert(v1[i] == v0[i] && v1[j] == v0[j]);
            } else if i < p && j == p {
                assert(v1[i] == v0[i]);
            } else if i < p && j > p {
                assert(v1[i] == v0[i] && v1[j] == v0[j - 1]);
            } else if i == p {
                assert(v1[j] == v0[j - 1]);
            } else {
                assert(v1[i] == v0[i - 1] && v1[j] == v0[j - 1]);
            }
        }
    }
}

/// The summaries of `out`, in order.
pub fn into_summaries(out: Vec<Ranked>) -> (r: Vec<ConceptSummary>)
    ensures
        r@ == out@.map_values(|x: Ranked| x.summary),
{
    let ghost v0 = out@;
    let mut out = out;
    let mut r: Vec<ConceptSummary> = Vec::new();
    while out.len() > 0
        invariant
            v0.len() == r@.len() + out@.len(),
            out@ == v0.subrange(r@.len() as int, v0.len() as int),
            r@ == v0.subrange(0, r@.len() as int).map_values(|x: Ranked| x.summary),
        decreases out.len(),
    {
        let ghost k: int = r@.len() as int;
        let x = out.remove(0);
        assert(x == v0[k]);
        r.push(x.summary);
        assert(out@ =~= v0.subrange(k + 1, v0.len() as int));
        assert(r@ =~= v0.subrange(0, k + 1).map_values(|x: Ranked| x.summary));
    }
    assert(v0.subrange(0, v0.len() as int) =~= v0);
    r
}

/// The key of the `i`-th entry of a listing `r` drawn from positions `ix` and
/// scored by `score`.
pub open spec fn key_at(r: Seq<SummaryModel>, score: spec_fn(int) -> int, ix: Seq<int>, i: int) -> (int, Seq<char>, Seq<char>, int) {
    (score(ix[i]), lowercase(r[i].title), r[i].id, ix[i])
}

/// `r` lists the summaries of the concepts at positions `ix` of `src`: exactly
/// the positions that `keep` selects, ranked by `score` (highest first), then by
/// lowercased title, id and position.
pub open spec fn ranked_at(
    r: Seq<SummaryModel>,
    src: Seq<ConceptModel>,
    keep: spec_fn(int) -> bool,
    score: spec_fn(int) -> int,
    ix: Seq<int>,
) -> bool {
    &&& ix.len() == r.len()
    &&& forall|i: int|
        0 <= i < r.len() ==> 0 <= #[trigger] ix[i] < src.len() && keep(ix[i]) && r[i] == summary_of(
            src[ix[i]],
        )
    &&& forall|j: int| 0 <= j < src.len() && #[trigger] keep(j) ==> exists|i: int| 0 <= i < r.len() && ix[i] == j
    &&& forall|i: int, k: int|
        0 <= i < k < r.len() ==> ranks_before(key_at(r, score, ix, i), key_at(r, score, ix, k))
}

/// `r` is the ranked listing of the concepts of `src` that `keep` selects,
/// ranked by `score` (see [`ranked_at`]).
pub open spec fn is_ranking(
    r: Seq<SummaryModel>,
    src: Seq<ConceptModel>,
    keep: spec_fn(int) -> bool,
    score: spec_fn(int) -> int,
) -> bool {
    exists|ix: Seq<int>| ranked_at(r, src, keep, score, ix)
}

/// A listing under construction: `out` ranks the concepts among the first `n` of
/// `src` that `keep` selects.
pub open spec fn building(
    out: Seq<Ranked>,
    src: Seq<ConceptModel>,
    keep: spec_fn(int) -> bool,
    score: spec_fn(int) -> int,
    n: int,
) -> bool {
    &&& 0 <= n <= src.len()
    &&& sorted_by_rank(out)
    &&& forall|t: int|
        0 <= t < out.len() ==> {
            let a = #[trigger] out[t].at as int;
            &&& a < n
            &&& keep(a)
            &&& out[t].summary@ == summary_of(src[a])
            &&& out[t].key@ == lowercase(src[a].title)
            &&& out[t].score as int == score(a)
        }
    &&& forall|j: int| 0 <= j < n && #[trigger] keep(j) ==> exists|t: int| 0 <= t < out.len() && out[t].at == j
}

/// Nothing is listed yet.
pub proof fn lemma_building_start(src: Seq<ConceptModel>, keep: spec_fn(int) -> bool, score: spec_fn(int) -> int)
    ensures
        building(Seq::empty(), src, keep, score, 0),
{
}

/// Passing over a position that `keep` does not select.
pub proof fn lemma_building_skip(
    out: Seq<Ranked>,
    src: Seq<ConceptModel>,
    keep: spec_fn(int) -> bool,
    score: spec_fn(int) -> int,
    n: int,
)
    requires
        building(out, src, keep, score, n),
        n < src.len(),
        !keep(n),
    ensures
        building(out, src, keep, score, n + 1),
{
    assert forall|j: int| 0 <= j < n + 1 && #[trigger] keep(j) implies exists|t: int| 0 <= t < out.len() && out[t].at == j by {
        assert(j < n);
    }
}

/// Inserting the entry for a position that `keep` selects.
pub proof fn lemma_building_insert(
    out: Seq<Ranked>,
    out2: Seq<Ranked>,
    x: Ranked,
    src: Seq<ConceptModel>,
    keep: spec_fn(int) -> bool,
    score: spec_fn(int) -> int,
    n: int,
)
    requires
        building(out, src, keep, score, n),
        n < src.len(),
        keep(n),
        x.at == n,
        x.summary@ == summary_of(src[n]),
        x.key@ == lowercase(src[n].title),
        x.score as int == score(n),
        sorted_by_rank(out2),
        exists|p: int| 0 <= p <= out.len() && out2 == out.insert(p, x),
    ensures
        building(out2, src, keep, score, n + 1),
{
    let p = choose|p: int| 0 <= p <= out.len() && out2 == out.insert(p, x);
    assert forall|t: int| 0 <= t < out2.len() implies {
        let a = #[trigger] out2[t].at as int;
        &&& a < n + 1
        &&& keep(a)
        &&& out2[t].summary@ == summary_of(src[a])
        &&& out2[t].key@ == lowercase(src[a].title)
        &&& out2[t].score as int == score(a)
    } by {
        if t < p {
            assert(out2[t] == out[t]);
        } else if t > p {
            assert(out2[t] == out[t - 1]);
        }
    }
    assert forall|j: int| 0 <= j < n + 1 && #[trigger] keep(j) implies exists|t: int| 0 <= t < out2.len() && out2[t].at == j by {
        if j == n {
            assert(out2[p].at == j);
        } else {
            let t = choose|t: int| 0 <= t < out.len() && out[t].at == j;
            if t < p {
                assert(out2[t] == out[t]);
            } else {
                assert(out2[t + 1] == out[t]);
            }
        }
    }
}

/// A finished listing is a ranking.
pub proof fn lemma_building_done(
    out: Seq<Ranked>,
    r: Seq<ConceptSummary>,
    src: Seq<ConceptModel>,
    keep: spec_fn(int) -> bool,
    score: spec_fn(int) -> int,
)
    requires
        building(out, src, keep, score, src.len() as int),
        r == out.map_values(|x: Ranked| x.summary),
    ensures
        ranked_at(summary_models(r), src, keep, score, out.map_values(|x: Ranked| x.at as int)),
        is_ranking(summary_models(r), src, keep, score),
{
    let m = summary_models(r);
    let ix = out.map_values(|x: Ranked| x.at as int);
    assert forall|i: int| 0 <= i < m.len() implies 0 <= #[trigger] ix[i] < src.len() && keep(ix[i]) && m[i] == summary_of(src[ix[i]]) by {
        assert(out[i].at as int == ix[i]);
    }
    assert forall|j: int| 0 <= j < src.len() && #[trigger] keep(j) implies exists|i: int| 0 <= i < m.len() && ix[i] == j by {
        let t = choose|t: int| 0 <= t < out.len() && out[t].at == j;
        assert(ix[t] == j);
    }
    assert forall|i: int, k: int| 0 <= i < k < m.len() implies ranks_before(key_at(m, score, ix, i), key_at(m, score, ix, k)) by {
        assert(out[i].at as int == ix[i]);
        assert(out[k].at as int == ix[k]);
        assert(rank_key(out[i]) == key_at(m, score, ix, i));
        assert(rank_key(out[k]) == key_at(m, score, ix, k));
    }
    assert(ranked_at(m, src, keep, score, ix));
}


/// The ranking key of position `j` of `src` under `score`.
pub open spec fn pos_key(src: Seq<ConceptModel>, score: spec_fn(int) -> int, j: int) -> (int, Seq<char>, Seq<char>, int) {
    (score(j), lowercase(src[j].title), src[j].id, j)
}

/// Every position of `x` ranks before every later one.
pub open spec fn positions_sorted(x: Seq<int>, src: Seq<ConceptModel>, score: spec_fn(int) -> int) -> bool {
    forall|i: int, k: int| 0 <= i < k < x.len() ==> ranks_before(pos_key(src, score, x[i]), pos_key(src, score, x[k]))
}

/// Two sorted lists of the same positions are the same list.
proof fn lemma_positions_unique(x: Seq<int>, y: Seq<int>, src: Seq<ConceptModel>, score: spec_fn(int) -> int)
    requires
        positions_sorted(x, src, score),
        positions_sorted(y, src, score),
        forall|a: int| x.contains(a) <==> y.contains(a),
    ensures
        x == y,
    decreases x.len(),
{
    if x.len() == 0 {
        if y.len() > 0 {
            assert(y.contains(y[0]));
        }
        assert(x =~= y);
    } else {
        assert(x.contains(x[0]));
        assert(y.len() > 0);
        assert(y.contains(y[0]));
        if x[0] != y[0] {
            let k = choose|k: int| 0 <= k < x.len() && x[k] == y[0];
            let m = choose|m: int| 0 <= m < y.len() && y[m] == x[0];
            assert(k > 0 && m > 0);
            lemma_ranks_before_total(pos_key(src, score, x[0]), pos_key(src, score, y[0]));
        }
        let x1 = x.drop_first();
        let y1 = y.drop_first();
        assert forall|a: int| x1.contains(a) <==> y1.contains(a) by {
            if x1.contains(a) {
                let k = choose|k: int| 0 <= k < x1.len() && x1[k] == a;
                assert(x[k + 1] == a);
                assert(a != x[0]) by {
                    lemma_ranks_before_total(pos_key(src, score, x[0]), pos_key(src, score, x[k + 1]));
                }
                assert(y.contains(a));
                let m = choose|m: int| 0 <= m < y.len() && y[m] == a;
                assert(m > 0);
                assert(y1[m - 1] == a);
            }
            if y1.contains(a) {
                let m = choose|m: int| 0 <= m < y1.len() && y1[m] == a;
                assert(y[m + 1] == a);
                assert(a != y[0]) by {
                    lemma_ranks_before_total(pos_key(src, score, y[0]), pos_key(src, score, y[m + 1]));
                }
                assert(x.contains(a));
                let k = choose|k: int| 0 <= k < x.len() && x[k] == a;
                assert(k > 0);
                assert(x1[k - 1] == a);
            }
        }
        assert(positions_sorted(x1, src, score)) by {
            assert forall|i: int, k: int| 0 <= i < k < x1.len() implies ranks_before(
                pos_key(src, score, x1[i]),
                pos_key(src, score, x1[k]),
            ) by {
                assert(x1[i] == x[i + 1] && x1[k] == x[k + 1]);
            }
        }
        assert(positions_sorted(y1, src, score)) by {
            assert forall|i: int, k: int| 0 <= i < k < y1.len() implies ranks_before(
                pos_key(src, score, y1[i]),
                pos_key(src, score, y1[k]),
            ) by {
                assert(y1[i] == y[i + 1] && y1[k] == y[k + 1]);
            }
        }
        lemma_positions_unique(x1, y1, src, score);
        assert(x =~= y) by {
            assert(x =~= seq![x[0]] + x1);
            assert(y =~= seq![y[0]] + y1);
        }
    }
}

/// A ranking is unique: two listings that both rank the concepts of `src`
/// selected by `keep` under `score` are the same listing.
pub proof fn lemma_ranking_unique(
    r1: Seq<SummaryModel>,
    r2: Seq<SummaryModel>,
    src: Seq<ConceptModel>,
    keep: spec_fn(int) -> bool,
    score: spec_fn(int) -> int,
)
    requires
        is_ranking(r1, src, keep, score),
        is_ranking(r2, src, keep, score),
    ensures
        r1 == r2,
{
    let ix1 = choose|ix: Seq<int>| ranked_at(r1, src, keep, score, ix);
    let ix2 = choose|ix: Seq<int>| ranked_at(r2, src, keep, score, ix);
    assert(positions_sorted(ix1, src, score)) by {
        assert forall|i: int, k: int| 0 <= i < k < ix1.len() implies ranks_before(
            pos_key(src, score, ix1[i]),
            pos_key(src, score, ix1[k]),
        ) by {
            assert(key_at(r1, score, ix1, i) == pos_key(src, score, ix1[i]));
            assert(key_at(r1, score, ix1, k) == pos_key(src, score, ix1[k]));
        }
    }
    assert(positions_sorted(ix2, src, score)) by {
        assert forall|i: int, k: int| 0 <= i < k < ix2.len() implies ranks_before(
            pos_key(src, score, ix2[i]),
            pos_key(src, score, ix2[k]),
        ) by {
            assert(key_at(r2, score, ix2, i) == pos_key(src, score, ix2[i]));
            assert(key_at(r2, score, ix2, k) == pos_key(src, score, ix2[k]));
        }
    }
    assert forall|a: int| ix1.contains(a) <==> ix2.contains(a) by {
        if ix1.contains(a) {
            let i = choose|i: int| 0 <= i < ix1.len() && ix1[i] == a;
            assert(0 <= ix1[i] < src.len() && keep(ix1[i]));
            let k = choose|k: int| 0 <= k < r2.len() && ix2[k] == a;
            assert(ix2[k] == a);
        }
        if ix2.contains(a) {
            let i = choose|i: int| 0 <= i < ix2.len() && ix2[i] == a;
            assert(0 <= ix2[i] < src.len() && keep(ix2[i]));
            let k = choose|k: int| 0 <= k < r1.len() && ix1[k] == a;
            assert(ix1[k] == a);
        }
    }
    lemma_positions_unique(ix1, ix2, src, score);
    assert forall|i: int| 0 <= i < r1.len() implies r1[i] == r2[i] by {
        assert(r1[i] == summary_of(src[ix1[i]]));
        assert(r2[i] == summary_of(src[ix2[i]]));
    }
    assert(r1 =~= r2);
}

} // verus!
