//! The language chart does not depend on the order in which GitHub lists
//! the repositories: reordering them keeps the total, and (when no two
//! languages have equally many bytes) the chart's languages and bytes.

use vstd::prelude::*;

use crate::languages::{
    all_edges, edge_bytes, hidden_list, is_chart_of, is_hidden, is_top_of, is_top_selection,
    language_totals, lemma_position_of, position_of, ranks_before, selected, share_views, visible,
};
use crate::model::{LanguageChart, LanguageEdge, LanguageShareView, RepoNode};

verus! {

broadcast use vstd::seq_lib::group_seq_properties;

// ---------------------------------------------------------------------------
// Sums over edges that do not depend on order
// ---------------------------------------------------------------------------

/// The sum of a weight over a list of edges.
pub open spec fn edge_sum(edges: Seq<LanguageEdge>, w: spec_fn(LanguageEdge) -> int) -> int
    decreases edges.len(),
{
    if edges.len() == 0 {
        0
    } else {
        edge_sum(edges.drop_last(), w) + w(edges.last())
    }
}

/// The sum of a weight over the edges of all repositories.
pub open spec fn repo_sum(repos: Seq<RepoNode>, w: spec_fn(LanguageEdge) -> int) -> int
    decreases repos.len(),
{
    if repos.len() == 0 {
        0
    } else {
        repo_sum(repos.drop_last(), w) + edge_sum(repos.last().languages.edges@, w)
    }
}

proof fn lemma_edge_sum_concat(a: Seq<LanguageEdge>, b: Seq<LanguageEdge>, w: spec_fn(LanguageEdge) -> int)
    ensures
        edge_sum(a + b, w) == edge_sum(a, w) + edge_sum(b, w),
    decreases b.len(),
{
    if b.len() == 0 {
        assert(a + b =~= a);
    } else {
        assert((a + b).drop_last() =~= a + b.drop_last());
        lemma_edge_sum_concat(a, b.drop_last(), w);
    }
}

proof fn lemma_all_edges_sum(repos: Seq<RepoNode>, w: spec_fn(LanguageEdge) -> int)
    ensures
        edge_sum(all_edges(repos), w) == repo_sum(repos, w),
    decreases repos.len(),
{
    if repos.len() > 0 {
        lemma_all_edges_sum(repos.drop_last(), w);
        lemma_edge_sum_concat(all_edges(repos.drop_last()), repos.last().languages.edges@, w);
    }
}

proof fn lemma_repo_sum_remove(repos: Seq<RepoNode>, j: int, w: spec_fn(LanguageEdge) -> int)
    requires
        0 <= j < repos.len(),
    ensures
        repo_sum(repos, w) == repo_sum(repos.remove(j), w) + edge_sum(repos[j].languages.edges@, w),
    decreases repos.len(),
{
    if j == repos.len() - 1 {
        assert(repos.remove(j) =~= repos.drop_last());
    } else {
        assert(repos.remove(j).drop_last() =~= repos.drop_last().remove(j));
        assert(repos.remove(j).last() == repos.last());
        lemma_repo_sum_remove(repos.drop_last(), j, w);
    }
}

/// Sums over the repositories' edges do not depend on the repositories'
/// order.
proof fn lemma_repo_sum_permutation(
    r1: Seq<RepoNode>,
    r2: Seq<RepoNode>,
    w: spec_fn(LanguageEdge) -> int,
)
    requires
        r1.to_multiset() == r2.to_multiset(),
    ensures
        repo_sum(r1, w) == repo_sum(r2, w),
    decreases r1.len(),
{
    broadcast use vstd::multiset::group_multiset_axioms;

    if r1.len() == 0 {
        assert(r2.to_multiset().len() == 0);
        assert(r2.len() == 0);
    } else {
        let x = r1.last();
        let d = r1.drop_last();
        assert(d.push(x) =~= r1);
        assert(r1.to_multiset().count(x) > 0);
        assert(r2.contains(x));
        let j = choose|j: int| 0 <= j < r2.len() && r2[j] == x;
        assert(r2.remove(j).to_multiset() =~= d.to_multiset());
        lemma_repo_sum_permutation(d, r2.remove(j), w);
        lemma_repo_sum_remove(r2, j, w);
    }
}

/// A weight that ignores the hidden languages.
pub open spec fn unless_hidden(w: spec_fn(LanguageEdge) -> int, h: Seq<Seq<char>>) -> spec_fn(
    LanguageEdge,
) -> int {
    |e: LanguageEdge| if is_hidden(h, e.node.name@) { 0 } else { w(e) }
}

proof fn lemma_visible_sum(edges: Seq<LanguageEdge>, h: Seq<Seq<char>>, w: spec_fn(LanguageEdge) -> int)
    ensures
        edge_sum(visible(edges, h), w) == edge_sum(edges, unless_hidden(w, h)),
    decreases edges.len(),
{
    if edges.len() > 0 {
        lemma_visible_sum(edges.drop_last(), h, w);
        let v = visible(edges.drop_last(), h);
        if !is_hidden(h, edges.last().node.name@) {
            assert(v.push(edges.last()).drop_last() =~= v);
        }
    }
}

/// A sum over the visible edges of the repositories does not depend on the
/// repositories' order.
proof fn lemma_visible_sum_permutation(
    r1: Seq<RepoNode>,
    r2: Seq<RepoNode>,
    h: Seq<Seq<char>>,
    w: spec_fn(LanguageEdge) -> int,
)
    requires
        r1.to_multiset() == r2.to_multiset(),
    ensures
        edge_sum(visible(all_edges(r1), h), w) == edge_sum(visible(all_edges(r2), h), w),
{
    lemma_visible_sum(all_edges(r1), h, w);
    lemma_visible_sum(all_edges(r2), h, w);
    lemma_all_edges_sum(r1, unless_hidden(w, h));
    lemma_all_edges_sum(r2, unless_hidden(w, h));
    lemma_repo_sum_permutation(r1, r2, unless_hidden(w, h));
}

// ---------------------------------------------------------------------------
// The totals per language, by name
// ---------------------------------------------------------------------------

/// Counts the edges of language `n`.
pub open spec fn count_named(n: Seq<char>) -> spec_fn(LanguageEdge) -> int {
    |e: LanguageEdge| if e.node.name@ == n { 1int } else { 0int }
}

/// Sums the bytes of the edges of language `n`.
pub open spec fn bytes_named(n: Seq<char>) -> spec_fn(LanguageEdge) -> int {
    |e: LanguageEdge| if e.node.name@ == n { e.size as int } else { 0int }
}

/// Sums the bytes of all edges.
pub open spec fn all_bytes() -> spec_fn(LanguageEdge) -> int {
    |e: LanguageEdge| e.size as int
}

proof fn lemma_edge_bytes_is_sum(edges: Seq<LanguageEdge>)
    ensures
        edge_bytes(edges) == edge_sum(edges, all_bytes()),
    decreases edges.len(),
{
    if edges.len() > 0 {
        lemma_edge_bytes_is_sum(edges.drop_last());
    }
}

proof fn lemma_no_edge_no_bytes(edges: Seq<LanguageEdge>, n: Seq<char>)
    ensures
        edge_sum(edges, count_named(n)) >= 0,
        edge_sum(edges, count_named(n)) == 0 ==> edge_sum(edges, bytes_named(n)) == 0,
    decreases edges.len(),
{
    if edges.len() > 0 {
        lemma_no_edge_no_bytes(edges.drop_last(), n);
    }
}

/// A language has an entry in the totals exactly when some edge is of it,
/// and its entry holds the bytes of all its edges.
pub proof fn lemma_totals_by_name(edges: Seq<LanguageEdge>, n: Seq<char>)
    ensures
        (exists|i: int| 0 <= i < language_totals(edges).len() && #[trigger] language_totals(edges)[i].name == n)
            <==> edge_sum(edges, count_named(n)) > 0,
        forall|i: int|
            0 <= i < language_totals(edges).len() && #[trigger] language_totals(edges)[i].name == n
                ==> language_totals(edges)[i].bytes == edge_sum(edges, bytes_named(n)),
    decreases edges.len(),
{
    if edges.len() > 0 {
        let p = edges.drop_last();
        let e = edges.last();
        let prev = language_totals(p);
        let cur = language_totals(edges);
        lemma_totals_by_name(p, n);
        lemma_no_edge_no_bytes(p, n);
        lemma_position_of(prev, e.node.name@);
        crate::languages::lemma_totals_distinct(p);
        let k = position_of(prev, e.node.name@);
        assert(edge_sum(edges, count_named(n)) == edge_sum(p, count_named(n)) + (if e.node.name@
            == n { 1int } else { 0int }));
        assert(edge_sum(edges, bytes_named(n)) == edge_sum(p, bytes_named(n)) + (if e.node.name@
            == n { e.size as int } else { 0int }));
        if k >= 0 {
            assert(cur.len() == prev.len());
            assert forall|i: int| 0 <= i < cur.len() implies #[trigger] cur[i].name == prev[i].name by {}
            if e.node.name@ == n {
                assert(cur[k].name == n);
            } else {
                assert forall|i: int| 0 <= i < cur.len() && #[trigger] cur[i].name == n implies cur[i].bytes
                    == prev[i].bytes by {
                    assert(i != k);
                }
            }
            if exists|i: int| 0 <= i < prev.len() && #[trigger] prev[i].name == n {
                let i = choose|i: int| 0 <= i < prev.len() && #[trigger] prev[i].name == n;
                assert(cur[i].name == n);
            }
            if exists|i: int| 0 <= i < cur.len() && #[trigger] cur[i].name == n {
                let i = choose|i: int| 0 <= i < cur.len() && #[trigger] cur[i].name == n;
                assert(prev[i].name == n);
            }
        } else {
            assert(cur == prev.push(cur.last()));
            assert(cur.last().name == e.node.name@);
            assert forall|i: int| 0 <= i < prev.len() implies #[trigger] cur[i] == prev[i] by {}
            if e.node.name@ == n {
                assert(cur[cur.len() - 1].name == n);
            } else {
                if exists|i: int| 0 <= i < cur.len() && #[trigger] cur[i].name == n {
                    let i = choose|i: int| 0 <= i < cur.len() && #[trigger] cur[i].name == n;
                    assert(i < prev.len());
                    assert(prev[i].name == n);
                }
                if exists|i: int| 0 <= i < prev.len() && #[trigger] prev[i].name == n {
                    let i = choose|i: int| 0 <= i < prev.len() && #[trigger] prev[i].name == n;
                    assert(cur[i].name == n);
                }
            }
        }
    }
}

// ---------------------------------------------------------------------------
// Equal sums per language give equal charts
// ---------------------------------------------------------------------------

/// Two lists of edges have, language by language, as many edges and as
/// many bytes.
pub open spec fn same_by_language(v1: Seq<LanguageEdge>, v2: Seq<LanguageEdge>) -> bool {
    forall|n: Seq<char>|
        #![trigger edge_sum(v1, count_named(n))]
        edge_sum(v1, count_named(n)) == edge_sum(v2, count_named(n)) && edge_sum(
            v1,
            bytes_named(n),
        ) == edge_sum(v2, bytes_named(n))
}

/// The languages of the entries.
pub open spec fn names_of(e: Seq<LanguageShareView>) -> Seq<Seq<char>> {
    e.map_values(|x: LanguageShareView| x.name)
}

/// No two entries have equally many bytes.
pub open spec fn distinct_bytes(e: Seq<LanguageShareView>) -> bool {
    forall|i: int, j: int| 0 <= i < e.len() && 0 <= j < e.len() && i != j ==> e[i].bytes != e[j].bytes
}

/// Some entry of `e` has the language and bytes of `x`.
pub open spec fn has_match(e: Seq<LanguageShareView>, x: LanguageShareView) -> bool {
    exists|j: int| 0 <= j < e.len() && #[trigger] e[j].name == x.name && e[j].bytes == x.bytes
}

proof fn lemma_matching_entries(
    v1: Seq<LanguageEdge>,
    v2: Seq<LanguageEdge>,
    e1: Seq<LanguageShareView>,
    e2: Seq<LanguageShareView>,
)
    requires
        same_by_language(v1, v2),
        e1 == language_totals(v1),
        e2 == language_totals(v2),
    ensures
        forall|i: int| 0 <= i < e1.len() ==> has_match(e2, #[trigger] e1[i]),
{
    assert forall|i: int| 0 <= i < e1.len() implies has_match(e2, #[trigger] e1[i]) by {
        let n = e1[i].name;
        lemma_totals_by_name(v1, n);
        lemma_totals_by_name(v2, n);
        assert(edge_sum(v1, count_named(n)) == edge_sum(v2, count_named(n)));
        let j = choose|j: int| 0 <= j < e2.len() && #[trigger] e2[j].name == n;
        assert(e2[j].bytes == e1[i].bytes);
    }
}

proof fn lemma_same_length(
    v1: Seq<LanguageEdge>,
    v2: Seq<LanguageEdge>,
    e1: Seq<LanguageShareView>,
    e2: Seq<LanguageShareView>,
)
    requires
        same_by_language(v1, v2),
        same_by_language(v2, v1),
        e1 == language_totals(v1),
        e2 == language_totals(v2),
    ensures
        e1.len() == e2.len(),
{
    lemma_matching_entries(v1, v2, e1, e2);
    lemma_matching_entries(v2, v1, e2, e1);
    crate::languages::lemma_totals_distinct(v1);
    crate::languages::lemma_totals_distinct(v2);
    let n1 = names_of(e1);
    let n2 = names_of(e2);
    assert(n1.no_duplicates());
    assert(n2.no_duplicates());
    assert forall|x: Seq<char>| n1.contains(x) implies n2.contains(x) by {
        let i = choose|i: int| 0 <= i < n1.len() && n1[i] == x;
        let j = choose|j: int|
            0 <= j < e2.len() && #[trigger] e2[j].name == e1[i].name && e2[j].bytes == e1[i].bytes;
        assert(n2[j] == x);
    }
    assert forall|x: Seq<char>| n2.contains(x) implies n1.contains(x) by {
        let j = choose|j: int| 0 <= j < n2.len() && n2[j] == x;
        let i = choose|i: int|
            0 <= i < e1.len() && #[trigger] e1[i].name == e2[j].name && e1[i].bytes == e2[j].bytes;
        assert(n1[i] == x);
    }
    assert(n1.to_set() =~= n2.to_set());
    n1.unique_seq_to_set();
    n2.unique_seq_to_set();
}

/// With equal sums per language and no two languages of equally many
/// bytes, two lists of edges have the same top, language by language.
proof fn lemma_same_top(
    v1: Seq<LanguageEdge>,
    v2: Seq<LanguageEdge>,
    e1: Seq<LanguageShareView>,
    e2: Seq<LanguageShareView>,
    top1: Seq<LanguageShareView>,
    top2: Seq<LanguageShareView>,
)
    requires
        same_by_language(v1, v2),
        same_by_language(v2, v1),
        e1 == language_totals(v1),
        e2 == language_totals(v2),
        distinct_bytes(e1),
        is_top_of(e1, top1),
        is_top_of(e2, top2),
    ensures
        top1.len() == top2.len(),
        forall|k: int|
            0 <= k < top1.len() ==> #[trigger] top1[k].name == top2[k].name && top1[k].bytes
                == top2[k].bytes,
{
    lemma_same_length(v1, v2, e1, e2);
    lemma_matching_entries(v1, v2, e1, e2);
    lemma_matching_entries(v2, v1, e2, e1);
    crate::languages::lemma_totals_distinct(v1);
    crate::languages::lemma_totals_distinct(v2);
    let sel1 = crate::languages::lemma_top_selection(e1, top1);
    let sel2 = crate::languages::lemma_top_selection(e2, top2);
    // no two languages of e2 have equally many bytes either
    assert forall|a: int, b: int| 0 <= a < e2.len() && 0 <= b < e2.len() && a != b implies e2[a].bytes
        != e2[b].bytes by {
        let a1 = choose|i: int|
            0 <= i < e1.len() && #[trigger] e1[i].name == e2[a].name && e1[i].bytes == e2[a].bytes;
        let b1 = choose|i: int|
            0 <= i < e1.len() && #[trigger] e1[i].name == e2[b].name && e1[i].bytes == e2[b].bytes;
        if a < b {
            assert(e2[a].name != e2[b].name);
        } else {
            assert(e2[b].name != e2[a].name);
        }
        if a1 < b1 {
            assert(e1[a1].name != e1[b1].name);
        } else if b1 < a1 {
            assert(e1[b1].name != e1[a1].name);
        }
    }
    assert(top1.len() == top2.len());
    lemma_same_top_from(e1, e2, sel1, sel2, top1, top2, 0);
}

proof fn lemma_same_top_from(
    e1: Seq<LanguageShareView>,
    e2: Seq<LanguageShareView>,
    sel1: Seq<int>,
    sel2: Seq<int>,
    top1: Seq<LanguageShareView>,
    top2: Seq<LanguageShareView>,
    k0: int,
)
    requires
        0 <= k0 <= top1.len(),
        top1.len() == top2.len(),
        is_top_selection(e1, sel1),
        is_top_selection(e2, sel2),
        top1 == selected(e1, sel1),
        top2 == selected(e2, sel2),
        distinct_bytes(e1),
        distinct_bytes(e2),
        forall|i: int, j: int| 0 <= i < j < e1.len() ==> e1[i].name != e1[j].name,
        forall|i: int, j: int| 0 <= i < j < e2.len() ==> e2[i].name != e2[j].name,
        forall|i: int| 0 <= i < e1.len() ==> has_match(e2, #[trigger] e1[i]),
        forall|i: int| 0 <= i < e2.len() ==> has_match(e1, #[trigger] e2[i]),
        forall|m: int| 0 <= m < k0 ==> #[trigger] top1[m].name == top2[m].name && top1[m].bytes == top2[m].bytes,
    ensures
        forall|k: int|
            0 <= k < top1.len() ==> #[trigger] top1[k].name == top2[k].name && top1[k].bytes
                == top2[k].bytes,
    decreases top1.len() - k0,
{
    if k0 < top1.len() {
        let k = k0;
        let x = top1[k];
        let y = top2[k];
        assert(x == e1[sel1[k]]);
        assert(y == e2[sel2[k]]);
        // the entry of e2 with x's language
        let j2 = choose|j: int| 0 <= j < e2.len() && #[trigger] e2[j].name == e1[sel1[k]].name && e2[j].bytes == e1[sel1[k]].bytes;
        // the entry of e1 with y's language
        let i1 = choose|j: int| 0 <= j < e1.len() && #[trigger] e1[j].name == e2[sel2[k]].name && e1[j].bytes == e2[sel2[k]].bytes;
        if j2 != sel2[k] {
            // j2 is not among the first k selected of e2
            assert forall|m: int| 0 <= m < k implies sel2[m] != j2 by {
                if sel2[m] == j2 {
                    assert(top2[m] == e2[sel2[m]]);
                    assert(top1[m] == e1[sel1[m]]);
                    assert(ranks_before(e1, sel1[m], sel1[k]));
                    if sel1[m] < sel1[k] {
                        assert(e1[sel1[m]].name != e1[sel1[k]].name);
                    } else {
                        assert(e1[sel1[k]].name != e1[sel1[m]].name);
                    }
                }
            }
            if sel2.contains(j2) {
                let m = choose|m: int| 0 <= m < sel2.len() && sel2[m] == j2;
                assert(m > k);
                assert(ranks_before(e2, sel2[k], sel2[m]));
            } else {
                assert(ranks_before(e2, sel2[k], j2));
            }
            assert(y.bytes > x.bytes);
            // symmetrically for i1
            assert(i1 != sel1[k]);
            assert forall|m: int| 0 <= m < k implies sel1[m] != i1 by {
                if sel1[m] == i1 {
                    assert(top1[m] == e1[sel1[m]]);
                    assert(top2[m] == e2[sel2[m]]);
                    assert(ranks_before(e2, sel2[m], sel2[k]));
                    if sel2[m] < sel2[k] {
                        assert(e2[sel2[m]].name != e2[sel2[k]].name);
                    } else {
                        assert(e2[sel2[k]].name != e2[sel2[m]].name);
                    }
                }
            }
            if sel1.contains(i1) {
                let m = choose|m: int| 0 <= m < sel1.len() && sel1[m] == i1;
                assert(m > k);
                assert(ranks_before(e1, sel1[k], sel1[m]));
            } else {
                assert(ranks_before(e1, sel1[k], i1));
            }
            assert(x.bytes > y.bytes);
        }
        lemma_same_top_from(e1, e2, sel1, sel2, top1, top2, k0 + 1);
    }
}

// ---------------------------------------------------------------------------
// The law
// ---------------------------------------------------------------------------

/// Reordering the repositories (the same repositories in another order,
/// with the same hidden-languages setting) keeps the chart's total; and when
/// no two shown languages have equally many bytes, it keeps the chart's
/// languages and their bytes, in order. Only a colour can change, where the
/// first edge of a language changes.
pub proof fn lemma_chart_ignores_repo_order(
    r1: Seq<RepoNode>,
    r2: Seq<RepoNode>,
    setting: Seq<char>,
    c1: LanguageChart,
    c2: LanguageChart,
)
    requires
        r1.to_multiset() == r2.to_multiset(),
        is_chart_of(c1, r1, setting),
        is_chart_of(c2, r2, setting),
        distinct_bytes(language_totals(visible(all_edges(r1), hidden_list(setting)))),
    ensures
        c1.total_bytes == c2.total_bytes,
        c1.top@.len() == c2.top@.len(),
        forall|k: int|
            0 <= k < c1.top@.len() ==> #[trigger] c1.top@[k].name@ == c2.top@[k].name@
                && c1.top@[k].bytes == c2.top@[k].bytes,
{
    let h = hidden_list(setting);
    let v1 = visible(all_edges(r1), h);
    let v2 = visible(all_edges(r2), h);
    lemma_visible_sum_permutation(r1, r2, h, all_bytes());
    lemma_edge_bytes_is_sum(v1);
    lemma_edge_bytes_is_sum(v2);
    assert forall|n: Seq<char>| #![trigger edge_sum(v1, count_named(n))]
        edge_sum(v1, count_named(n)) == edge_sum(v2, count_named(n)) && edge_sum(v1, bytes_named(n))
            == edge_sum(v2, bytes_named(n)) by {
        lemma_visible_sum_permutation(r1, r2, h, count_named(n));
        lemma_visible_sum_permutation(r1, r2, h, bytes_named(n));
    }
    assert forall|n: Seq<char>| #![trigger edge_sum(v2, count_named(n))]
        edge_sum(v2, count_named(n)) == edge_sum(v1, count_named(n)) && edge_sum(v2, bytes_named(n))
            == edge_sum(v1, bytes_named(n)) by {
        lemma_visible_sum_permutation(r1, r2, h, count_named(n));
        lemma_visible_sum_permutation(r1, r2, h, bytes_named(n));
    }
    let t1 = share_views(c1.top@);
    let t2 = share_views(c2.top@);
    assert(t1.len() == c1.top@.len() && t2.len() == c2.top@.len());
    if c1.total_bytes > 0 {
        lemma_same_top(v1, v2, language_totals(v1), language_totals(v2), t1, t2);
        assert forall|k: int| 0 <= k < c1.top@.len() implies #[trigger] c1.top@[k].name@
            == c2.top@[k].name@ && c1.top@[k].bytes == c2.top@[k].bytes by {
            assert(t1[k] == c1.top@[k]@);
            assert(t2[k] == c2.top@[k]@);
            assert(t1[k].name == t2[k].name && t1[k].bytes == t2[k].bytes);
        }
    }
}

} // verus!
