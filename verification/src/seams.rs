//! Seam detection: every pair of communities joined by at least one edge,
//! with its crossing count, ranked by crossings (most first).

use crate::graph::{graph_edge_ends, graph_node};
use crate::model::{CommunityId, Model};
use crate::verdict::edge_total;
use vstd::prelude::*;

verus! {

/// A pair of communities and the number of edges between them, either way.
/// `a` is the source community of the first such edge.
#[derive(Debug, Clone, PartialEq, Eq)]
pub struct Seam {
    pub a: CommunityId,
    pub b: CommunityId,
    pub crossings: usize,
}

/// A seam as (a, b, crossings).
pub type SeamEntry = (Seq<char>, Seq<char>, nat);

/// The entries of a list of seams.
pub open spec fn seam_entries(v: Seq<Seam>) -> Seq<SeamEntry> {
    v.map_values(|s: Seam| (s.a@, s.b@, s.crossings as nat))
}

/// `x` is the seam between `c1` and `c2`, in either order.
pub open spec fn same_pair(x: SeamEntry, c1: Seq<char>, c2: Seq<char>) -> bool {
    (x.0 == c1 && x.1 == c2) || (x.0 == c2 && x.1 == c1)
}

/// The position of the first entry for the pair `c1`/`c2`, or -1.
pub open spec fn pair_index(list: Seq<SeamEntry>, c1: Seq<char>, c2: Seq<char>) -> int
    decreases list.len(),
{
    if list.len() == 0 {
        -1
    } else {
        let j = pair_index(list.drop_last(), c1, c2);
        if j >= 0 {
            j
        } else if same_pair(list.last(), c1, c2) {
            list.len() - 1
        } else {
            -1
        }
    }
}

/// The seams over a model's first `k` edges, in order of first crossing:
/// an edge between two communities counts toward their pair's entry, or
/// starts it.
pub open spec fn seam_tally(m: Model, k: nat) -> Seq<SeamEntry>
    decreases k,
{
    if k == 0 {
        seq![]
    } else {
        let t = seam_tally(m, (k - 1) as nat);
        let (s, d) = m.edges()[k - 1];
        let sc = m.nodes()[s as int].community;
        let dc = m.nodes()[d as int].community;
        if sc == dc {
            t
        } else {
            let j = pair_index(t, sc, dc);
            if j >= 0 {
                t.update(j, (t[j].0, t[j].1, t[j].2 + 1))
            } else {
                t.push((sc, dc, 1))
            }
        }
    }
}

/// Where an entry with `c` crossings goes in a list ranked most first: after
/// every entry with at least `c`.
pub open spec fn rank_point(s: Seq<SeamEntry>, c: nat) -> nat
    decreases s.len(),
{
    if s.len() == 0 {
        0
    } else if s[0].2 < c {
        0
    } else {
        1 + rank_point(s.drop_first(), c)
    }
}

/// `list` ranked by crossings, most first, entries with equal crossings
/// keeping their order.
pub open spec fn ranked(list: Seq<SeamEntry>) -> Seq<SeamEntry>
    decreases list.len(),
{
    if list.len() == 0 {
        seq![]
    } else {
        let s = ranked(list.drop_last());
        s.insert(rank_point(s, list.last().2) as int, list.last())
    }
}

pub proof fn lemma_pair_index(list: Seq<SeamEntry>, c1: Seq<char>, c2: Seq<char>, i: int)
    requires
        0 <= i <= list.len(),
        forall|k: int| 0 <= k < i ==> !same_pair(#[trigger] list[k], c1, c2),
        i == list.len() || same_pair(list[i], c1, c2),
    ensures
        pair_index(list, c1, c2) == (if i == list.len() { -1 } else { i }),
    decreases list.len(),
{
    if list.len() > 0 {
        if i == list.len() {
            lemma_pair_index(list.drop_last(), c1, c2, i - 1);
        } else if i == list.len() - 1 {
            lemma_pair_index(list.drop_last(), c1, c2, i);
        } else {
            lemma_pair_index(list.drop_last(), c1, c2, i);
        }
    }
}

proof fn lemma_rank_point(s: Seq<SeamEntry>, c: nat, i: int)
    requires
        0 <= i <= s.len(),
        forall|k: int| 0 <= k < i ==> (#[trigger] s[k]).2 >= c,
        i == s.len() || s[i].2 < c,
    ensures
        rank_point(s, c) == i,
    decreases s.len(),
{
    if s.len() > 0 && i > 0 {
        assert forall|k: int| 0 <= k < i - 1 implies (#[trigger] s.drop_first()[k]).2 >= c by {
            assert(s.drop_first()[k] == s[k + 1]);
        }
        lemma_rank_point(s.drop_first(), c, i - 1);
    }
}

/// Whether `p` is the pair `c1`/`c2`, in either order.
fn is_pair(p: &(String, String), c1: &String, c2: &String) -> (r: bool)
    ensures
        r == ((p.0@ == c1@ && p.1@ == c2@) || (p.0@ == c2@ && p.1@ == c1@)),
{
    (p.0 == *c1 && p.1 == *c2) || (p.0 == *c2 && p.1 == *c1)
}

/// Every edge between two different communities, grouped by community pair
/// and ranked by crossing count, most first (ties in order of first
/// crossing).
#[verifier::loop_isolation(false)]
pub fn detect(model: &Model) -> (r: Vec<Seam>)
    requires
        model.wf(),
    ensures
        seam_entries(r@) == ranked(seam_tally(*model, model.edges().len())),
{
    let g = &model.graph;
    let ne = edge_total(g);
    let mut pairs: Vec<(String, String)> = Vec::new();
    let mut counts: Vec<usize> = Vec::new();
    let mut e: usize = 0;
    while e < ne
        invariant
            e <= ne,
            ne == model.edges().len(),
            pairs.len() == counts.len(),
            counts.len() == seam_tally(*model, e as nat).len(),
            forall|j: int|
                0 <= j < pairs.len() ==> (#[trigger] pairs[j]).0@ == seam_tally(*model, e as nat)[j].0
                    && pairs[j].1@ == seam_tally(*model, e as nat)[j].1 && counts[j]
                    == seam_tally(*model, e as nat)[j].2,
            forall|j: int| 0 <= j < counts.len() ==> #[trigger] counts[j] <= e,
        decreases ne - e,
    {
        let ghost t = seam_tally(*model, e as nat);
        let (s, d) = graph_edge_ends(g, e).unwrap();
        assert(model.edges()[e as int] == (s as nat, d as nat));
        let src = graph_node(g, s).unwrap();
        let dst = graph_node(g, d).unwrap();
        assert(src@ == model.nodes()[s as int]);
        assert(dst@ == model.nodes()[d as int]);
        if src.community != dst.community {
            let mut j: usize = 0;
            while j < pairs.len() && !is_pair(&pairs[j], &src.community, &dst.community)
                invariant
                    j <= pairs.len(),
                    pairs.len() == t.len(),
                    forall|k: int| 0 <= k < j ==> !same_pair(#[trigger] t[k], src.community@, dst.community@),
                decreases pairs.len() - j,
            {
                j = j + 1;
            }
            let found = j < pairs.len();
            if found {
                assert(same_pair(t[j as int], src.community@, dst.community@));
                proof {
                    lemma_pair_index(t, src.community@, dst.community@, j as int);
                }
                let c = counts[j];
                counts.set(j, c + 1);
            } else {
                proof {
                    lemma_pair_index(t, src.community@, dst.community@, t.len() as int);
                }
                pairs.push((src.community.clone(), dst.community.clone()));
                counts.push(1);
            }
        }
        e = e + 1;
    }
    let ghost list = seam_tally(*model, ne as nat);
    let mut out: Vec<Seam> = Vec::new();
    let mut k: usize = 0;
    while k < pairs.len()
        invariant
            k <= pairs.len(),
            pairs.len() == counts.len(),
            counts.len() == list.len(),
            forall|j: int|
                0 <= j < pairs.len() ==> (#[trigger] pairs[j]).0@ == list[j].0 && pairs[j].1@
                    == list[j].1 && counts[j] == list[j].2,
            seam_entries(out@) == ranked(list.take(k as int)),
        decreases pairs.len() - k,
    {
        let c = counts[k];
        let mut i: usize = 0;
        while i < out.len() && out[i].crossings >= c
            invariant
                i <= out.len(),
                forall|x: int| 0 <= x < i ==> (#[trigger] out@[x]).crossings >= c,
            decreases out.len() - i,
        {
            i = i + 1;
        }
        let ghost before = seam_entries(out@);
        proof {
            assert forall|x: int| 0 <= x < i implies (#[trigger] before[x]).2 >= c by {
                assert(before[x].2 == out@[x].crossings);
            }
            if i < out.len() {
                assert(before[i as int].2 == out@[i as int].crossings);
            }
            lemma_rank_point(before, c as nat, i as int);
        }
        let seam = Seam { a: pairs[k].0.clone(), b: pairs[k].1.clone(), crossings: c };
        out.insert(i, seam);
        assert(list.take(k + 1).drop_last() =~= list.take(k as int));
        assert(seam_entries(out@) =~= before.insert(i as int, list[k as int]));
        k = k + 1;
    }
    assert(list.take(pairs.len() as int) =~= list);
    out
}

/// Entries are ranked most crossings first.
pub open spec fn ranked_most_first(s: Seq<SeamEntry>) -> bool {
    forall|i: int, j: int| 0 <= i < j < s.len() ==> (#[trigger] s[i]).2 >= (#[trigger] s[j]).2
}

/// No two entries are for the same pair of communities, in either order.
pub open spec fn pairs_distinct(s: Seq<SeamEntry>) -> bool {
    forall|i: int, j: int| 0 <= i < j < s.len() ==> !same_pair(#[trigger] s[j], (#[trigger] s[i]).0, s[i].1)
}

/// Every entry joins two different communities and has at least one
/// crossing.
pub open spec fn entries_proper(s: Seq<SeamEntry>) -> bool {
    forall|k: int| 0 <= k < s.len() ==> (#[trigger] s[k]).0 != s[k].1 && s[k].2 >= 1
}

/// The crossings of all entries, added up.
pub open spec fn total_crossings(s: Seq<SeamEntry>) -> nat
    decreases s.len(),
{
    if s.len() == 0 {
        0
    } else {
        total_crossings(s.drop_last()) + s.last().2
    }
}

/// How many of the first `k` edges join two different communities.
pub open spec fn cross_edges(m: Model, k: nat) -> nat
    decreases k,
{
    if k == 0 {
        0
    } else {
        let (s, d) = m.edges()[k - 1];
        cross_edges(m, (k - 1) as nat) + if m.nodes()[s as int].community != m.nodes()[d as int].community {
            1nat
        } else {
            0nat
        }
    }
}

/// The communities at the two ends of edge `e`.
pub open spec fn edge_communities(m: Model, e: int) -> (Seq<char>, Seq<char>) {
    (m.nodes()[m.edges()[e].0 as int].community, m.nodes()[m.edges()[e].1 as int].community)
}

/// Some entry is for the pair `c1`/`c2`.
pub open spec fn pair_listed(s: Seq<SeamEntry>, c1: Seq<char>, c2: Seq<char>) -> bool {
    exists|j: int| 0 <= j < s.len() && #[trigger] same_pair(s[j], c1, c2)
}

/// `pair_index` finds an entry for the pair exactly when there is one.
proof fn lemma_pair_index_found(list: Seq<SeamEntry>, c1: Seq<char>, c2: Seq<char>)
    ensures
        pair_index(list, c1, c2) == -1 ==> forall|k: int| 0 <= k < list.len() ==> !same_pair(#[trigger] list[k], c1, c2),
        pair_index(list, c1, c2) != -1 ==> 0 <= pair_index(list, c1, c2) < list.len() && same_pair(
            list[pair_index(list, c1, c2)],
            c1,
            c2,
        ),
    decreases list.len(),
{
    if list.len() > 0 {
        lemma_pair_index_found(list.drop_last(), c1, c2);
        if pair_index(list, c1, c2) == -1 {
            assert forall|k: int| 0 <= k < list.len() implies !same_pair(#[trigger] list[k], c1, c2) by {
                if k < list.len() - 1 {
                    assert(list[k] == list.drop_last()[k]);
                }
            }
        }
    }
}

/// The crossings of an entry updated to one more crossing add up to one
/// more.
proof fn lemma_total_bump(s: Seq<SeamEntry>, j: int)
    requires
        0 <= j < s.len(),
    ensures
        total_crossings(s.update(j, (s[j].0, s[j].1, s[j].2 + 1))) == total_crossings(s) + 1,
    decreases s.len(),
{
    let u = s.update(j, (s[j].0, s[j].1, s[j].2 + 1));
    if j == s.len() - 1 {
        assert(u.drop_last() =~= s.drop_last());
    } else {
        lemma_total_bump(s.drop_last(), j);
        assert(u.drop_last() =~= s.drop_last().update(j, (s[j].0, s[j].1, s[j].2 + 1)));
    }
}

/// Inserting an entry adds its crossings.
proof fn lemma_total_insert(s: Seq<SeamEntry>, p: int, x: SeamEntry)
    requires
        0 <= p <= s.len(),
    ensures
        total_crossings(s.insert(p, x)) == total_crossings(s) + x.2,
    decreases s.len(),
{
    if p == s.len() {
        assert(s.insert(p, x) =~= s.push(x));
        assert(s.push(x).drop_last() =~= s);
    } else {
        lemma_total_insert(s.drop_last(), p, x);
        assert(s.insert(p, x).drop_last() =~= s.drop_last().insert(p, x));
    }
}

/// What the tally of seams over the first `k` edges is like: distinct
/// pairs of different communities, each with a crossing, adding up to the
/// edges that cross between communities.
proof fn lemma_tally_shape(m: Model, k: nat)
    ensures
        pairs_distinct(seam_tally(m, k)),
        entries_proper(seam_tally(m, k)),
        total_crossings(seam_tally(m, k)) == cross_edges(m, k),
        forall|e: int|
            0 <= e < k && (#[trigger] edge_communities(m, e)).0 != edge_communities(m, e).1 ==> pair_listed(
                seam_tally(m, k),
                edge_communities(m, e).0,
                edge_communities(m, e).1,
            ),
    decreases k,
{
    if k > 0 {
        lemma_tally_shape(m, (k - 1) as nat);
        lemma_tally_keeps_pairs(m, (k - 1) as nat);
        let t = seam_tally(m, (k - 1) as nat);
        let (s, d) = m.edges()[k - 1];
        let sc = m.nodes()[s as int].community;
        let dc = m.nodes()[d as int].community;
        if sc != dc {
            lemma_pair_index_found(t, sc, dc);
            let j = pair_index(t, sc, dc);
            if j >= 0 {
                lemma_total_bump(t, j);
            } else {
                let u = t.push((sc, dc, 1));
                assert(u.drop_last() =~= t);
                assert forall|i: int, l: int| 0 <= i < l < u.len() implies !same_pair(#[trigger] u[l], (#[trigger] u[i]).0, u[i].1) by {
                    if l == t.len() {
                        assert(!same_pair(t[i], sc, dc));
                    } else {
                        assert(u[i] == t[i] && u[l] == t[l]);
                    }
                }
            }
        }
    }
}

/// A pair listed over the first `k` edges stays listed over `k + 1`, and
/// the pair of edge `k` (if it crosses) is listed there.
proof fn lemma_tally_keeps_pairs(m: Model, k: nat)
    ensures
        forall|c1: Seq<char>, c2: Seq<char>|
            #[trigger] pair_listed(seam_tally(m, k), c1, c2) ==> pair_listed(seam_tally(m, k + 1), c1, c2),
        edge_communities(m, k as int).0 != edge_communities(m, k as int).1 ==> pair_listed(
            seam_tally(m, k + 1),
            edge_communities(m, k as int).0,
            edge_communities(m, k as int).1,
        ),
{
    let t = seam_tally(m, k);
    let u = seam_tally(m, k + 1);
    let (s, d) = m.edges()[k as int];
    let sc = m.nodes()[s as int].community;
    let dc = m.nodes()[d as int].community;
    assert(edge_communities(m, k as int) == (sc, dc));
    lemma_pair_index_found(t, sc, dc);
    assert forall|c1: Seq<char>, c2: Seq<char>| #[trigger] pair_listed(t, c1, c2) implies pair_listed(u, c1, c2) by {
        let j = choose|j: int| 0 <= j < t.len() && #[trigger] same_pair(t[j], c1, c2);
        if sc != dc {
            let p = pair_index(t, sc, dc);
            if p >= 0 {
                assert(u == t.update(p, (t[p].0, t[p].1, t[p].2 + 1)));
                assert(same_pair(u[j], c1, c2));
            } else {
                assert(u == t.push((sc, dc, 1)));
                assert(u[j] == t[j]);
            }
        }
    }
    if sc != dc {
        let p = pair_index(t, sc, dc);
        if p >= 0 {
            assert(same_pair(u[p], sc, dc));
        } else {
            assert(u[t.len() as int] == (sc, dc, 1nat));
            assert(same_pair(u[t.len() as int], sc, dc));
        }
    }
}

/// Where `rank_point` puts an entry with `c` crossings in a ranked list:
/// every entry before has at least `c` crossings, the one there fewer.
proof fn lemma_rank_point_bounds(s: Seq<SeamEntry>, c: nat)
    ensures
        rank_point(s, c) <= s.len(),
        forall|k: int| 0 <= k < rank_point(s, c) ==> (#[trigger] s[k]).2 >= c,
        rank_point(s, c) < s.len() ==> s[rank_point(s, c) as int].2 < c,
    decreases s.len(),
{
    if s.len() > 0 && s[0].2 >= c {
        lemma_rank_point_bounds(s.drop_first(), c);
        assert forall|k: int| 0 < k < rank_point(s, c) implies (#[trigger] s[k]).2 >= c by {
            assert(s[k] == s.drop_first()[k - 1]);
        }
    }
}

/// Ranking keeps exactly the entries it is given.
pub proof fn lemma_ranked_permutes(list: Seq<SeamEntry>)
    ensures
        ranked(list).to_multiset() == list.to_multiset(),
        ranked(list).len() == list.len(),
        total_crossings(ranked(list)) == total_crossings(list),
        forall|k: int| 0 <= k < ranked(list).len() ==> list.contains(#[trigger] ranked(list)[k]),
        forall|k: int| 0 <= k < list.len() ==> ranked(list).contains(#[trigger] list[k]),
    decreases list.len(),
{
    broadcast use vstd::seq_lib::group_to_multiset_ensures;

    if list.len() > 0 {
        let rest = list.drop_last();
        let x = list.last();
        lemma_ranked_permutes(rest);
        let s = ranked(rest);
        lemma_rank_point_bounds(s, x.2);
        let p = rank_point(s, x.2) as int;
        vstd::seq_lib::to_multiset_insert(s, p, x);
        assert(list =~= rest.push(x));
        vstd::seq_lib::to_multiset_build(rest, x);
        lemma_total_insert(s, p, x);
        let r = s.insert(p, x);
        assert forall|k: int| 0 <= k < r.len() implies list.contains(#[trigger] r[k]) by {
            if k < p {
                assert(r[k] == s[k]);
                assert(rest.contains(s[k]));
                let i = choose|i: int| 0 <= i < rest.len() && rest[i] == s[k];
                assert(list[i] == rest[i]);
            } else if k == p {
                assert(list[list.len() - 1] == x);
            } else {
                assert(r[k] == s[k - 1]);
                assert(rest.contains(s[k - 1]));
                let i = choose|i: int| 0 <= i < rest.len() && rest[i] == s[k - 1];
                assert(list[i] == rest[i]);
            }
        }
        assert forall|k: int| 0 <= k < list.len() implies r.contains(#[trigger] list[k]) by {
            if k == list.len() - 1 {
                assert(r[p] == x);
            } else {
                assert(list[k] == rest[k]);
                assert(s.contains(rest[k]));
                let i = choose|i: int| 0 <= i < s.len() && s[i] == rest[k];
                if i < p {
                    assert(r[i] == s[i]);
                } else {
                    assert(r[i + 1] == s[i]);
                }
            }
        }
    }
}

/// Ranking orders entries most crossings first.
pub proof fn lemma_ranked_order(list: Seq<SeamEntry>)
    ensures
        ranked_most_first(ranked(list)),
    decreases list.len(),
{
    if list.len() > 0 {
        let rest = list.drop_last();
        let x = list.last();
        lemma_ranked_order(rest);
        let s = ranked(rest);
        lemma_rank_point_bounds(s, x.2);
        let p = rank_point(s, x.2) as int;
        let r = s.insert(p, x);
        assert forall|i: int, j: int| 0 <= i < j < r.len() implies (#[trigger] r[i]).2 >= (#[trigger] r[j]).2 by {
            if j < p {
                assert(r[i] == s[i] && r[j] == s[j]);
            } else if j == p {
                assert(r[i] == s[i]);
            } else if i < p {
                assert(r[i] == s[i] && r[j] == s[j - 1]);
            } else if i == p {
                assert(r[j] == s[j - 1]);
                if p < s.len() {
                    assert(s[p].2 >= s[j - 1].2 || p == j - 1);
                }
            } else {
                assert(r[i] == s[i - 1] && r[j] == s[j - 1]);
            }
        }
    }
}

/// Ranking keeps the pairs distinct, and every entry a seam between two
/// communities with a crossing, when they were so before.
pub proof fn lemma_ranked_shape(list: Seq<SeamEntry>)
    ensures
        pairs_distinct(list) ==> pairs_distinct(ranked(list)),
        entries_proper(list) ==> entries_proper(ranked(list)),
    decreases list.len(),
{
    if list.len() > 0 {
        let rest = list.drop_last();
        let x = list.last();
        lemma_ranked_shape(rest);
        lemma_ranked_permutes(rest);
        let s = ranked(rest);
        let p = rank_point(s, x.2) as int;
        lemma_rank_point_bounds(s, x.2);
        let r = s.insert(p, x);
        assert forall|k: int| 0 <= k < s.len() implies exists|i: int| 0 <= i < rest.len() && list[i] == #[trigger] s[k] by {
            assert(rest.contains(s[k]));
            let i = choose|i: int| 0 <= i < rest.len() && rest[i] == s[k];
            assert(list[i] == rest[i]);
        }
        if pairs_distinct(list) {
            assert forall|i: int, j: int| 0 <= i < j < rest.len() implies !same_pair(#[trigger] rest[j], (#[trigger] rest[i]).0, rest[i].1) by {
                assert(rest[i] == list[i] && rest[j] == list[j]);
            }
            assert forall|k: int| 0 <= k < s.len() implies !same_pair(#[trigger] s[k], x.0, x.1) && !same_pair(x, s[k].0, s[k].1) by {
                let i = choose|i: int| 0 <= i < rest.len() && list[i] == s[k];
                assert(list[list.len() - 1] == x);
            }
            assert forall|i: int, j: int| 0 <= i < j < r.len() implies !same_pair(#[trigger] r[j], (#[trigger] r[i]).0, r[i].1) by {
                if j < p {
                    assert(r[i] == s[i] && r[j] == s[j]);
                } else if j == p {
                    assert(r[i] == s[i]);
                } else if i < p {
                    assert(r[i] == s[i] && r[j] == s[j - 1]);
                } else if i == p {
                    assert(r[j] == s[j - 1]);
                } else {
                    assert(r[i] == s[i - 1] && r[j] == s[j - 1]);
                }
            }
        }
        if entries_proper(list) {
            assert forall|k: int| 0 <= k < r.len() implies (#[trigger] r[k]).0 != r[k].1 && r[k].2 >= 1 by {
                if k < p {
                    assert(r[k] == s[k]);
                    let i = choose|i: int| 0 <= i < rest.len() && list[i] == s[k];
                } else if k == p {
                    assert(list[list.len() - 1] == x);
                } else {
                    assert(r[k] == s[k - 1]);
                    let i = choose|i: int| 0 <= i < rest.len() && list[i] == s[k - 1];
                }
            }
        }
    }
}

/// The seams of a model (what `detect` returns) are ranked most crossings
/// first, name each pair of communities once, join two different
/// communities with at least one crossing each, their crossings add up to
/// the number of edges between different communities, and every such edge
/// has its pair among them.
pub proof fn lemma_detected_seams(m: Model)
    ensures
        ranked_most_first(ranked(seam_tally(m, m.edges().len()))),
        pairs_distinct(ranked(seam_tally(m, m.edges().len()))),
        entries_proper(ranked(seam_tally(m, m.edges().len()))),
        total_crossings(ranked(seam_tally(m, m.edges().len()))) == cross_edges(m, m.edges().len()),
        forall|e: int|
            0 <= e < m.edges().len() && (#[trigger] edge_communities(m, e)).0 != edge_communities(m, e).1
                ==> pair_listed(
                ranked(seam_tally(m, m.edges().len())),
                edge_communities(m, e).0,
                edge_communities(m, e).1,
            ),
{
    let t = seam_tally(m, m.edges().len());
    lemma_tally_shape(m, m.edges().len());
    lemma_ranked_order(t);
    lemma_ranked_shape(t);
    lemma_ranked_permutes(t);
    let r = ranked(t);
    assert forall|e: int|
        0 <= e < m.edges().len() && (#[trigger] edge_communities(m, e)).0 != edge_communities(m, e).1 implies pair_listed(
        r,
        edge_communities(m, e).0,
        edge_communities(m, e).1,
    ) by {
        let (c1, c2) = edge_communities(m, e);
        let j = choose|j: int| 0 <= j < t.len() && #[trigger] same_pair(t[j], c1, c2);
        assert(r.contains(t[j]));
        let i = choose|i: int| 0 <= i < r.len() && r[i] == t[j];
        assert(same_pair(r[i], c1, c2));
    }
}

/// Looking up the seam of a pair of communities does not depend on the
/// order the pair is named in.
pub proof fn lemma_pair_index_symmetric(list: Seq<SeamEntry>, c1: Seq<char>, c2: Seq<char>)
    ensures
        pair_index(list, c1, c2) == pair_index(list, c2, c1),
    decreases list.len(),
{
    if list.len() > 0 {
        lemma_pair_index_symmetric(list.drop_last(), c1, c2);
    }
}

} // verus!
