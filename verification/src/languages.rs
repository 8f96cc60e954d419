//! The top-languages chart: bytes per language summed over all owned
//! repositories, minus the languages the user hides, largest first.

use vstd::prelude::*;

use crate::model::{
    fallback_color, fallback_color_string, Language, LanguageChart, LanguageEdge, LanguageShare,
    LanguageShareView, RepoNode,
};
use crate::text::{
    contains_text, is_white_space, lemma_split_on_nonempty, lowercase, split_on, split_pieces, to_lowercase, trim, trimmed,
};

verus! {

/// How many languages the chart shows at most.
pub const TOP_LANGUAGES: usize = 5;

// ---------------------------------------------------------------------------
// The hidden-languages setting
// ---------------------------------------------------------------------------

/// The hidden language names that a list of comma-separated pieces gives:
/// each piece trimmed and lowercased, empty ones dropped.
pub open spec fn hidden_names(pieces: Seq<Seq<char>>) -> Seq<Seq<char>>
    decreases pieces.len(),
{
    if pieces.len() == 0 {
        Seq::empty()
    } else {
        let rest = hidden_names(pieces.drop_last());
        let piece = trimmed(pieces.last());
        let name = lowercase(piece);
        if piece.len() > 0 && name.len() > 0 {
            rest.push(name)
        } else {
            rest
        }
    }
}

/// The hidden language names of a setting such as `"HTML, CSS"`.
pub open spec fn hidden_list(setting: Seq<char>) -> Seq<Seq<char>> {
    hidden_names(split_on(setting, ','))
}

/// A language is hidden when its lowercased name is in the hidden list.
pub open spec fn is_hidden(hidden: Seq<Seq<char>>, name: Seq<char>) -> bool {
    hidden.contains(lowercase(name))
}

/// The texts of a list of strings.
pub open spec fn texts(v: Seq<String>) -> Seq<Seq<char>> {
    v.map_values(|s: String| s@)
}

/// A setting of nothing but commas and white space (the empty setting
/// among them).
pub open spec fn is_blank_setting(setting: Seq<char>) -> bool {
    forall|i: int| 0 <= i < setting.len() ==> setting[i] == ',' || is_white_space(setting[i])
}

proof fn lemma_white_space_trims_to_empty(s: Seq<char>)
    requires
        forall|i: int| 0 <= i < s.len() ==> is_white_space(s[i]),
    ensures
        trimmed(s).len() == 0,
    decreases s.len(),
{
    if s.len() > 0 {
        assert forall|i: int| 0 <= i < s.drop_first().len() implies is_white_space(
            s.drop_first()[i],
        ) by {
            assert(s.drop_first()[i] == s[i + 1]);
        }
        lemma_white_space_trims_to_empty(s.drop_first());
    }
}

proof fn lemma_blank_pieces(s: Seq<char>)
    requires
        is_blank_setting(s),
    ensures
        forall|k: int, j: int|
            0 <= k < split_on(s, ',').len() && 0 <= j < split_on(s, ',')[k].len()
                ==> is_white_space(#[trigger] split_on(s, ',')[k][j]),
    decreases s.len(),
{
    if s.len() > 0 {
        let p = s.drop_last();
        assert forall|i: int| 0 <= i < p.len() implies p[i] == ',' || is_white_space(p[i]) by {
            assert(p[i] == s[i]);
        }
        lemma_blank_pieces(p);
        lemma_split_on_nonempty(p, ',');
        let prev = split_on(p, ',');
        let cur = split_on(s, ',');
        assert forall|k: int, j: int| 0 <= k < cur.len() && 0 <= j < cur[k].len() implies is_white_space(
            #[trigger] cur[k][j],
        ) by {
            if s.last() == ',' {
                if k < prev.len() {
                    assert(cur[k] == prev[k]);
                }
            } else {
                assert(is_white_space(s[s.len() - 1]));
                if k < prev.len() - 1 {
                    assert(cur[k] == prev[k]);
                } else {
                    assert(cur[k] == prev[k].push(s.last()));
                    if j < prev[k].len() {
                        assert(cur[k][j] == prev[k][j]);
                    }
                }
            }
        }
    }
}

proof fn lemma_blank_hidden_names(pieces: Seq<Seq<char>>)
    requires
        forall|k: int, j: int|
            0 <= k < pieces.len() && 0 <= j < pieces[k].len() ==> is_white_space(
                #[trigger] pieces[k][j],
            ),
    ensures
        hidden_names(pieces).len() == 0,
    decreases pieces.len(),
{
    if pieces.len() > 0 {
        let last = pieces.last();
        assert forall|j: int| 0 <= j < last.len() implies is_white_space(last[j]) by {
            assert(pieces[pieces.len() - 1][j] == last[j]);
        }
        lemma_white_space_trims_to_empty(last);
        let p = pieces.drop_last();
        assert forall|k: int, j: int| 0 <= k < p.len() && 0 <= j < p[k].len() implies is_white_space(
            #[trigger] p[k][j],
        ) by {
            assert(p[k] == pieces[k]);
        }
        lemma_blank_hidden_names(p);
    }
}

/// An empty setting, or one of only commas and white space, hides nothing:
/// every edge stays visible.
pub proof fn lemma_blank_setting_hides_nothing(edges: Seq<LanguageEdge>, setting: Seq<char>)
    requires
        is_blank_setting(setting),
    ensures
        hidden_list(setting).len() == 0,
        visible(edges, hidden_list(setting)) == edges,
    decreases edges.len(),
{
    lemma_blank_pieces(setting);
    lemma_blank_hidden_names(split_on(setting, ','));
    if edges.len() > 0 {
        lemma_blank_setting_hides_nothing(edges.drop_last(), setting);
        assert(edges.drop_last().push(edges.last()) =~= edges);
    }
}

/// Reads the comma-separated list of language names to leave out of the
/// chart; names are trimmed and lowercased, and empty ones are dropped.
pub fn parse_hidden_languages(setting: &str) -> (hidden: Vec<String>)
    ensures
        texts(hidden@) == hidden_list(setting@),
        is_blank_setting(setting@) ==> hidden@.len() == 0,
{
    let pieces = split_pieces(setting, ',');
    let ghost pv = texts(pieces@);
    let mut hidden: Vec<String> = Vec::new();
    let mut i: usize = 0;
    assert(pv.take(0) =~= Seq::<Seq<char>>::empty());
    while i < pieces.len()
        invariant
            i <= pieces.len(),
            pv == texts(pieces@),
            texts(hidden@) == hidden_names(pv.take(i as int)),
        decreases pieces.len() - i,
    {
        let t = trim(pieces[i].as_str());
        proof {
            assert(pv.take(i + 1).drop_last() =~= pv.take(i as int));
            assert(pv.take(i + 1).last() == pieces@[i as int]@);
        }
        if !t.as_str().is_empty() {
            let l = to_lowercase(t.as_str());
            if !l.as_str().is_empty() {
                let ghost before = texts(hidden@);
                hidden.push(l);
                assert(texts(hidden@) =~= before.push(l@));
            }
        }
        i = i + 1;
    }
    assert(pv.take(i as int) =~= pv);
    proof {
        if is_blank_setting(setting@) {
            lemma_blank_pieces(setting@);
            lemma_blank_hidden_names(split_on(setting@, ','));
        }
    }
    hidden
}

/// Whether the language `name` is hidden by the list.
pub fn is_hidden_language(hidden: &Vec<String>, name: &String) -> (b: bool)
    ensures
        b == is_hidden(texts(hidden@), name@),
        b == texts(hidden@).contains(lowercase(name@)),
{
    let l = to_lowercase(name.as_str());
    contains_text(hidden, &l)
}

// ---------------------------------------------------------------------------
// Language edges
// ---------------------------------------------------------------------------

/// The language edges of all repositories, repository by repository.
pub open spec fn all_edges(repos: Seq<RepoNode>) -> Seq<LanguageEdge>
    decreases repos.len(),
{
    if repos.len() == 0 {
        Seq::empty()
    } else {
        all_edges(repos.drop_last()) + repos.last().languages.edges@
    }
}

/// The edges whose language is not hidden, in order.
pub open spec fn visible(edges: Seq<LanguageEdge>, hidden: Seq<Seq<char>>) -> Seq<LanguageEdge>
    decreases edges.len(),
{
    if edges.len() == 0 {
        Seq::empty()
    } else {
        let rest = visible(edges.drop_last(), hidden);
        if is_hidden(hidden, edges.last().node.name@) {
            rest
        } else {
            rest.push(edges.last())
        }
    }
}

/// The number of bytes of all edges.
pub open spec fn edge_bytes(edges: Seq<LanguageEdge>) -> int
    decreases edges.len(),
{
    if edges.len() == 0 {
        0
    } else {
        edge_bytes(edges.drop_last()) + edges.last().size
    }
}

fn copy_language(l: &Language) -> (r: Language)
    ensures
        r == *l,
{
    let color = match &l.color {
        Some(c) => Some(c.clone()),
        None => None,
    };
    Language { name: l.name.clone(), color }
}

fn copy_edge(e: &LanguageEdge) -> (r: LanguageEdge)
    ensures
        r == *e,
{
    LanguageEdge { size: e.size, node: copy_language(&e.node) }
}

/// The language edges of all repositories whose language is not hidden.
pub fn visible_edges(repos: &Vec<RepoNode>, hidden: &Vec<String>) -> (edges: Vec<LanguageEdge>)
    ensures
        edges@ == visible(all_edges(repos@), texts(hidden@)),
{
    let ghost h = texts(hidden@);
    let mut edges: Vec<LanguageEdge> = Vec::new();
    let mut r: usize = 0;
    while r < repos.len()
        invariant
            r <= repos.len(),
            h == texts(hidden@),
            edges@ == visible(all_edges(repos@.take(r as int)), h),
        decreases repos.len() - r,
    {
        let repo_edges = &repos[r].languages.edges;
        let ghost done = all_edges(repos@.take(r as int));
        let mut k: usize = 0;
        while k < repo_edges.len()
            invariant
                r < repos.len(),
                repo_edges == &repos@[r as int].languages.edges,
                h == texts(hidden@),
                done == all_edges(repos@.take(r as int)),
                k <= repo_edges.len(),
                edges@ == visible(done + repo_edges@.take(k as int), h),
            decreases repo_edges.len() - k,
        {
            let e = &repo_edges[k];
            proof {
                let cur = done + repo_edges@.take(k + 1);
                assert(cur.drop_last() =~= done + repo_edges@.take(k as int));
                assert(cur.last() == *e);
            }
            if !is_hidden_language(hidden, &e.node.name) {
                edges.push(copy_edge(e));
            }
            k = k + 1;
        }
        proof {
            assert(repo_edges@.take(k as int) =~= repo_edges@);
            assert(repos@.take(r + 1).drop_last() =~= repos@.take(r as int));
        }
        r = r + 1;
    }
    assert(repos@.take(r as int) =~= repos@);
    edges
}

// ---------------------------------------------------------------------------
// Bytes per language
// ---------------------------------------------------------------------------

/// The views of a list of shares.
pub open spec fn share_views(v: Seq<LanguageShare>) -> Seq<LanguageShareView> {
    v.map_values(|s: LanguageShare| s@)
}

/// The last index of `name` in `entries`, or -1.
pub open spec fn position_of(entries: Seq<LanguageShareView>, name: Seq<char>) -> int
    decreases entries.len(),
{
    if entries.len() == 0 {
        -1
    } else if entries.last().name == name {
        entries.len() - 1
    } else {
        position_of(entries.drop_last(), name)
    }
}

/// The colour of an edge's language, or the fallback colour.
pub open spec fn edge_color(e: LanguageEdge) -> Seq<char> {
    match e.node.color {
        Some(c) => c@,
        None => fallback_color(),
    }
}

/// Counts one more edge: its bytes go to the entry of its language, or to a
/// new last entry (with the edge's colour) when the language is new.
pub open spec fn add_edge(entries: Seq<LanguageShareView>, e: LanguageEdge) -> Seq<
    LanguageShareView,
> {
    let k = position_of(entries, e.node.name@);
    if k >= 0 {
        entries.update(
            k,
            LanguageShareView {
                name: entries[k].name,
                color: entries[k].color,
                bytes: entries[k].bytes + e.size,
            },
        )
    } else {
        entries.push(LanguageShareView { name: e.node.name@, color: edge_color(e), bytes: e.size as int })
    }
}

/// Bytes per language, languages in order of first appearance, each with
/// the colour of its first edge.
pub open spec fn language_totals(edges: Seq<LanguageEdge>) -> Seq<LanguageShareView>
    decreases edges.len(),
{
    if edges.len() == 0 {
        Seq::empty()
    } else {
        add_edge(language_totals(edges.drop_last()), edges.last())
    }
}

/// The sum of the bytes of all entries.
pub open spec fn share_bytes(entries: Seq<LanguageShareView>) -> int
    decreases entries.len(),
{
    if entries.len() == 0 {
        0
    } else {
        share_bytes(entries.drop_last()) + entries.last().bytes
    }
}

pub(crate) proof fn lemma_position_of(entries: Seq<LanguageShareView>, name: Seq<char>)
    ensures
        -1 <= position_of(entries, name) < entries.len(),
        position_of(entries, name) >= 0 ==> entries[position_of(entries, name)].name == name,
        position_of(entries, name) == -1 ==> forall|i: int|
            0 <= i < entries.len() ==> entries[i].name != name,
        forall|i: int|
            position_of(entries, name) < i < entries.len() ==> entries[i].name != name,
    decreases entries.len(),
{
    if entries.len() > 0 && entries.last().name != name {
        let p = entries.drop_last();
        lemma_position_of(p, name);
        assert forall|i: int| 0 <= i < p.len() implies p[i] == entries[i] by {}
    }
}

proof fn lemma_share_bytes_update(entries: Seq<LanguageShareView>, k: int, x: LanguageShareView)
    requires
        0 <= k < entries.len(),
    ensures
        share_bytes(entries.update(k, x)) == share_bytes(entries) - entries[k].bytes + x.bytes,
    decreases entries.len(),
{
    let u = entries.update(k, x);
    if k == entries.len() - 1 {
        assert(u.drop_last() =~= entries.drop_last());
    } else {
        assert(u.drop_last() =~= entries.drop_last().update(k, x));
        lemma_share_bytes_update(entries.drop_last(), k, x);
    }
}

proof fn lemma_share_le_total(entries: Seq<LanguageShareView>, k: int)
    requires
        0 <= k < entries.len(),
        forall|i: int| 0 <= i < entries.len() ==> entries[i].bytes >= 0,
    ensures
        entries[k].bytes <= share_bytes(entries),
    decreases entries.len(),
{
    lemma_share_bytes_nonneg(entries.drop_last());
    if k < entries.len() - 1 {
        lemma_share_le_total(entries.drop_last(), k);
    }
}

proof fn lemma_share_bytes_nonneg(entries: Seq<LanguageShareView>)
    requires
        forall|i: int| 0 <= i < entries.len() ==> entries[i].bytes >= 0,
    ensures
        share_bytes(entries) >= 0,
    decreases entries.len(),
{
    if entries.len() > 0 {
        lemma_share_bytes_nonneg(entries.drop_last());
    }
}

proof fn lemma_edge_bytes_prefix(edges: Seq<LanguageEdge>, i: int)
    requires
        0 <= i <= edges.len(),
    ensures
        0 <= edge_bytes(edges.take(i)) <= edge_bytes(edges),
    decreases edges.len(),
{
    if i < edges.len() {
        assert(edges.take(i) =~= edges.drop_last().take(i));
        lemma_edge_bytes_prefix(edges.drop_last(), i);
    } else {
        assert(edges.take(i) =~= edges);
        lemma_edge_bytes_nonneg(edges);
    }
}

proof fn lemma_edge_bytes_nonneg(edges: Seq<LanguageEdge>)
    ensures
        edge_bytes(edges) >= 0,
    decreases edges.len(),
{
    if edges.len() > 0 {
        lemma_edge_bytes_nonneg(edges.drop_last());
    }
}

/// The totals account for every byte of the edges.
proof fn lemma_totals_bytes(edges: Seq<LanguageEdge>)
    ensures
        share_bytes(language_totals(edges)) == edge_bytes(edges),
        forall|i: int|
            0 <= i < language_totals(edges).len() ==> language_totals(edges)[i].bytes >= 0,
    decreases edges.len(),
{
    if edges.len() > 0 {
        let prev = language_totals(edges.drop_last());
        let e = edges.last();
        lemma_totals_bytes(edges.drop_last());
        lemma_position_of(prev, e.node.name@);
        let k = position_of(prev, e.node.name@);
        if k >= 0 {
            lemma_share_bytes_update(
                prev,
                k,
                LanguageShareView {
                    name: prev[k].name,
                    color: prev[k].color,
                    bytes: prev[k].bytes + e.size,
                },
            );
        } else {
            let next = prev.push(
                LanguageShareView { name: e.node.name@, color: edge_color(e), bytes: e.size as int },
            );
            assert(next.drop_last() =~= prev);
        }
    }
}

/// Every language of the totals is the language of some edge.
proof fn lemma_totals_names(edges: Seq<LanguageEdge>)
    ensures
        forall|i: int|
            0 <= i < language_totals(edges).len() ==> exists|j: int|
                0 <= j < edges.len() && edges[j].node.name@ == #[trigger] language_totals(
                    edges,
                )[i].name,
    decreases edges.len(),
{
    if edges.len() > 0 {
        let p = edges.drop_last();
        let prev = language_totals(p);
        let e = edges.last();
        lemma_totals_names(p);
        lemma_position_of(prev, e.node.name@);
        let t = language_totals(edges);
        assert forall|i: int| 0 <= i < t.len() implies exists|j: int|
            0 <= j < edges.len() && edges[j].node.name@ == #[trigger] t[i].name by {
            if i < prev.len() {
                assert(t[i].name == prev[i].name);
                let j = choose|j: int| 0 <= j < p.len() && p[j].node.name@ == prev[i].name;
                assert(edges[j] == p[j]);
            } else {
                assert(edges[edges.len() - 1] == e);
            }
        }
    }
}

fn copy_share(s: &LanguageShare) -> (r: LanguageShare)
    ensures
        r@ == s@,
{
    LanguageShare { name: s.name.clone(), color: s.color.clone(), bytes: s.bytes }
}

/// Bytes per language over the given edges, in order of first appearance;
/// each language has the colour of its first edge ("#888" when it has none).
pub fn aggregate_languages(edges: &Vec<LanguageEdge>) -> (entries: Vec<LanguageShare>)
    requires
        edge_bytes(edges@) <= u64::MAX,
    ensures
        share_views(entries@) == language_totals(edges@),
{
    let mut entries: Vec<LanguageShare> = Vec::new();
    let mut i: usize = 0;
    assert(edges@.take(0) =~= Seq::<LanguageEdge>::empty());
    assert(share_views(entries@) =~= Seq::<LanguageShareView>::empty());
    while i < edges.len()
        invariant
            i <= edges.len(),
            edge_bytes(edges@) <= u64::MAX,
            share_views(entries@) == language_totals(edges@.take(i as int)),
        decreases edges.len() - i,
    {
        let e = &edges[i];
        let ghost before = share_views(entries@);
        proof {
            assert(edges@.take(i + 1).drop_last() =~= edges@.take(i as int));
            assert(edges@.take(i + 1).last() == *e);
            lemma_position_of(before, e.node.name@);
            lemma_totals_bytes(edges@.take(i as int));
            lemma_totals_bytes(edges@.take(i + 1));
            lemma_edge_bytes_prefix(edges@, i + 1);
        }
        // search from the end, as `position_of` does
        let mut j: usize = entries.len();
        while j > 0 && entries[j - 1].name != e.node.name
            invariant
                j <= entries.len(),
                before == share_views(entries@),
                forall|m: int| j <= m < entries.len() ==> entries@[m].name@ != e.node.name@,
            decreases j,
        {
            j = j - 1;
        }
        proof {
            if j > 0 {
                assert(before[j - 1].name == e.node.name@);
            }
            assert(position_of(before, e.node.name@) == j - 1);
        }
        if j > 0 {
            let k = j - 1;
            proof {
                lemma_share_le_total(before, k as int);
            }
            let old_entry = copy_share(&entries[k]);
            let updated = LanguageShare {
                name: old_entry.name,
                color: old_entry.color,
                bytes: old_entry.bytes + e.size,
            };
            entries.set(k, updated);
            assert(share_views(entries@) =~= add_edge(before, *e));
        } else {
            let color = match &e.node.color {
                Some(c) => c.clone(),
                None => fallback_color_string(),
            };
            entries.push(LanguageShare { name: e.node.name.clone(), color, bytes: e.size });
            assert(share_views(entries@) =~= add_edge(before, *e));
        }
        i = i + 1;
    }
    assert(edges@.take(i as int) =~= edges@);
    entries
}

// ---------------------------------------------------------------------------
// The top of the chart
// ---------------------------------------------------------------------------

/// Entry `i` comes before entry `j` in the chart: it has more bytes, or as
/// many and appeared first.
pub open spec fn ranks_before(e: Seq<LanguageShareView>, i: int, j: int) -> bool {
    e[i].bytes > e[j].bytes || (e[i].bytes == e[j].bytes && i < j)
}

/// The number of entries the chart shows.
pub open spec fn chart_len(n: int) -> int {
    if n < TOP_LANGUAGES {
        n
    } else {
        TOP_LANGUAGES as int
    }
}

/// `sel` picks the indices of the `chart_len` highest-ranked entries of `e`,
/// in rank order.
pub open spec fn is_top_selection(e: Seq<LanguageShareView>, sel: Seq<int>) -> bool {
    &&& sel.len() == chart_len(e.len() as int)
    &&& forall|k: int| 0 <= k < sel.len() ==> 0 <= #[trigger] sel[k] < e.len()
    &&& forall|k1: int, k2: int|
        #![trigger sel[k1], sel[k2]]
        0 <= k1 < k2 < sel.len() ==> ranks_before(e, sel[k1], sel[k2])
    &&& forall|i: int, k: int|
        #![trigger ranks_before(e, sel[k], i)]
        0 <= i < e.len() && !sel.contains(i) && 0 <= k < sel.len() ==> ranks_before(e, sel[k], i)
}

/// The entries at the selected indices.
pub open spec fn selected(e: Seq<LanguageShareView>, sel: Seq<int>) -> Seq<LanguageShareView> {
    sel.map_values(|i: int| e[i])
}

/// `top` is the chart's top of the entries `e`.
pub open spec fn is_top_of(e: Seq<LanguageShareView>, top: Seq<LanguageShareView>) -> bool {
    exists|sel: Seq<int>| is_top_selection(e, sel) && top == selected(e, sel)
}

proof fn lemma_some_index_free(sel: Seq<int>, n: int)
    requires
        sel.no_duplicates(),
        forall|k: int| 0 <= k < sel.len() ==> 0 <= #[trigger] sel[k] < n,
        sel.len() < n,
    ensures
        exists|i: int| 0 <= i < n && !sel.contains(i),
{
    broadcast use vstd::seq_lib::group_seq_properties;
    broadcast use vstd::set::group_set_axioms;
    if forall|i: int| 0 <= i < n ==> sel.contains(i) {
        vstd::set_lib::lemma_int_range(0, n);
        assert(vstd::set_lib::set_int_range(0, n).subset_of(sel.to_set()));
        sel.unique_seq_to_set();
        sel.lemma_cardinality_of_set();
        vstd::seq_lib::seq_to_set_is_finite(sel);
        vstd::set_lib::lemma_len_subset(vstd::set_lib::set_int_range(0, n), sel.to_set());
    }
}

/// The (at most five) entries with the most bytes, most first; entries
/// with equally many bytes keep their order.
pub fn top_languages(entries: &Vec<LanguageShare>) -> (top: Vec<LanguageShare>)
    ensures
        is_top_of(share_views(entries@), share_views(top@)),
{
    let n = entries.len();
    let ghost e = share_views(entries@);
    let limit: usize = if n < TOP_LANGUAGES {
        n
    } else {
        TOP_LANGUAGES
    };
    let mut taken: Vec<bool> = Vec::new();
    while taken.len() < n
        invariant
            taken@.len() <= n,
            forall|i: int| 0 <= i < taken@.len() ==> !taken@[i],
        decreases n - taken@.len(),
    {
        taken.push(false);
    }
    let mut top: Vec<LanguageShare> = Vec::new();
    let ghost mut sel: Seq<int> = Seq::empty();
    assert(share_views(top@) =~= selected(e, sel));
    while top.len() < limit
        invariant
            n == entries@.len(),
            e == share_views(entries@),
            limit == chart_len(n as int),
            taken@.len() == n,
            sel.len() == top@.len(),
            top@.len() <= limit,
            forall|i: int| 0 <= i < n ==> (taken@[i] <==> sel.contains(i)),
            forall|k: int| 0 <= k < sel.len() ==> 0 <= #[trigger] sel[k] < n,
            forall|k1: int, k2: int|
                #![trigger sel[k1], sel[k2]]
                0 <= k1 < k2 < sel.len() ==> ranks_before(e, sel[k1], sel[k2]),
            forall|i: int, k: int|
                #![trigger ranks_before(e, sel[k], i)]
                0 <= i < n && !sel.contains(i) && 0 <= k < sel.len() ==> ranks_before(
                    e,
                    sel[k],
                    i,
                ),
            share_views(top@) == selected(e, sel),
        decreases limit - top@.len(),
    {
        proof {
            assert forall|a: int, b: int| 0 <= a < sel.len() && 0 <= b < sel.len() && a != b implies sel[a]
                != sel[b] by {
                if a < b {
                    assert(ranks_before(e, sel[a], sel[b]));
                } else {
                    assert(ranks_before(e, sel[b], sel[a]));
                }
            }
            lemma_some_index_free(sel, n as int);
        }
        let mut best: usize = n;
        let mut i: usize = 0;
        while i < n
            invariant
                n == entries@.len(),
                e == share_views(entries@),
                taken@.len() == n,
                i <= n,
                best == n || (best < i && !taken@[best as int]),
                forall|j: int|
                    0 <= j < i && !taken@[j] ==> best < n && (j == best || ranks_before(
                        e,
                        best as int,
                        j,
                    )),
            decreases n - i,
        {
            if !taken[i] && (best == n || entries[i].bytes > entries[best].bytes) {
                best = i;
            }
            i = i + 1;
        }
        proof {
            let free = choose|j: int| 0 <= j < n && !sel.contains(j);
            assert(!taken@[free]);
        }
        let ghost old_top = share_views(top@);
        top.push(copy_share(&entries[best]));
        taken.set(best, true);
        proof {
            let old_sel = sel;
            sel = sel.push(best as int);
            assert(share_views(top@) =~= old_top.push(e[best as int]));
            assert(share_views(top@) =~= selected(e, sel));
            assert forall|j: int| 0 <= j < n implies (taken@[j] <==> sel.contains(j)) by {
                if j == best {
                    assert(sel[sel.len() - 1] == j);
                } else {
                    if old_sel.contains(j) {
                        let k = choose|k: int| 0 <= k < old_sel.len() && old_sel[k] == j;
                        assert(sel[k] == j);
                    }
                    if sel.contains(j) {
                        let k = choose|k: int| 0 <= k < sel.len() && sel[k] == j;
                        assert(k < old_sel.len());
                        assert(old_sel[k] == j);
                    }
                }
            }
            assert forall|k1: int, k2: int|
                #![trigger sel[k1], sel[k2]]
                0 <= k1 < k2 < sel.len() implies ranks_before(e, sel[k1], sel[k2]) by {
                if k2 == sel.len() - 1 {
                    assert(!old_sel.contains(best as int));
                    assert(ranks_before(e, old_sel[k1], best as int));
                } else {
                    assert(ranks_before(e, old_sel[k1], old_sel[k2]));
                }
            }
            assert forall|j: int, k: int|
                #![trigger ranks_before(e, sel[k], j)]
                0 <= j < n && !sel.contains(j) && 0 <= k < sel.len() implies ranks_before(
                e,
                sel[k],
                j,
            ) by {
                assert(j != best);
                assert(!taken@[j]);
                if k < old_sel.len() {
                    assert(sel[k] == old_sel[k]);
                    if old_sel.contains(j) {
                        let m = choose|m: int| 0 <= m < old_sel.len() && old_sel[m] == j;
                        assert(sel[m] == j);
                    }
                    assert(ranks_before(e, old_sel[k], j));
                }
            }
        }
    }
    proof {
        assert(is_top_selection(e, sel));
    }
    top
}

/// The bytes of the entries at the indices `idx`.
pub open spec fn sum_at(e: Seq<LanguageShareView>, idx: Seq<int>) -> int
    decreases idx.len(),
{
    if idx.len() == 0 {
        0
    } else {
        sum_at(e, idx.drop_last()) + e[idx.last()].bytes
    }
}

proof fn lemma_sum_at_selected(e: Seq<LanguageShareView>, sel: Seq<int>)
    ensures
        share_bytes(selected(e, sel)) == sum_at(e, sel),
    decreases sel.len(),
{
    if sel.len() > 0 {
        assert(selected(e, sel).drop_last() =~= selected(e, sel.drop_last()));
        lemma_sum_at_selected(e, sel.drop_last());
    }
}

proof fn lemma_sum_at_remove(e: Seq<LanguageShareView>, idx: Seq<int>, p: int)
    requires
        0 <= p < idx.len(),
    ensures
        sum_at(e, idx) == sum_at(e, idx.remove(p)) + e[idx[p]].bytes,
    decreases idx.len(),
{
    if p == idx.len() - 1 {
        assert(idx.remove(p) =~= idx.drop_last());
    } else {
        assert(idx.remove(p).drop_last() =~= idx.drop_last().remove(p));
        assert(idx.remove(p).last() == idx.last());
        lemma_sum_at_remove(e, idx.drop_last(), p);
    }
}

proof fn lemma_sum_at_bound(e: Seq<LanguageShareView>, idx: Seq<int>, m: int)
    requires
        0 <= m <= e.len(),
        idx.no_duplicates(),
        forall|k: int| 0 <= k < idx.len() ==> 0 <= #[trigger] idx[k] < m,
        forall|i: int| 0 <= i < e.len() ==> e[i].bytes >= 0,
    ensures
        sum_at(e, idx) <= share_bytes(e.take(m)),
    decreases m,
{
    if m == 0 {
        if idx.len() > 0 {
            assert(0 <= idx[0] < m);
        }
    } else {
        let t = e.take(m);
        assert(t.drop_last() =~= e.take(m - 1));
        if idx.contains(m - 1) {
            let p = choose|p: int| 0 <= p < idx.len() && idx[p] == m - 1;
            let r = idx.remove(p);
            assert forall|k: int| 0 <= k < r.len() implies 0 <= #[trigger] r[k] < m - 1 by {
                if k < p {
                    assert(r[k] == idx[k]);
                } else {
                    assert(r[k] == idx[k + 1]);
                }
            }
            assert forall|a: int, b: int| 0 <= a < r.len() && 0 <= b < r.len() && a != b implies r[a]
                != r[b] by {
                let a1 = if a < p { a } else { a + 1 };
                let b1 = if b < p { b } else { b + 1 };
                assert(r[a] == idx[a1]);
                assert(r[b] == idx[b1]);
            }
            lemma_sum_at_remove(e, idx, p);
            lemma_sum_at_bound(e, r, m - 1);
        } else {
            assert forall|k: int| 0 <= k < idx.len() implies 0 <= #[trigger] idx[k] < m - 1 by {
                if idx[k] == m - 1 {
                    assert(idx.contains(m - 1));
                }
            }
            lemma_sum_at_bound(e, idx, m - 1);
        }
    }
}

/// The shares shown in the chart together never exceed its total: the
/// bars add up to at most the whole.
pub proof fn lemma_top_within_total(e: Seq<LanguageShareView>, sel: Seq<int>)
    requires
        is_top_selection(e, sel),
        forall|i: int| 0 <= i < e.len() ==> e[i].bytes >= 0,
    ensures
        share_bytes(selected(e, sel)) <= share_bytes(e),
{
    assert forall|a: int, b: int| 0 <= a < sel.len() && 0 <= b < sel.len() && a != b implies sel[a]
        != sel[b] by {
        if a < b {
            assert(ranks_before(e, sel[a], sel[b]));
        } else {
            assert(ranks_before(e, sel[b], sel[a]));
        }
    }
    lemma_sum_at_selected(e, sel);
    lemma_sum_at_bound(e, sel, e.len() as int);
    assert(e.take(e.len() as int) =~= e);
}

/// The language chart of a list of (visible) edges: bytes per language,
/// the top five of them, and the bytes of all of them.
pub fn language_chart(edges: &Vec<LanguageEdge>) -> (chart: LanguageChart)
    requires
        edge_bytes(edges@) <= u64::MAX,
    ensures
        chart.total_bytes == edge_bytes(edges@),
        chart.total_bytes == 0 ==> chart.top@.len() == 0,
        chart.total_bytes > 0 ==> is_top_of(language_totals(edges@), share_views(chart.top@)),
        forall|k: int|
            0 <= k < chart.top@.len() ==> #[trigger] chart.top@[k].bytes <= chart.total_bytes,
        share_bytes(share_views(chart.top@)) <= chart.total_bytes,
{
    let entries = aggregate_languages(edges);
    let ghost e = share_views(entries@);
    proof {
        lemma_totals_bytes(edges@);
        lemma_edge_bytes_nonneg(edges@);
    }
    let mut total: u64 = 0;
    let mut i: usize = 0;
    assert(e.take(0) =~= Seq::<LanguageShareView>::empty());
    while i < entries.len()
        invariant
            i <= entries.len(),
            e == share_views(entries@),
            e == language_totals(edges@),
            share_bytes(e) == edge_bytes(edges@),
            edge_bytes(edges@) <= u64::MAX,
            forall|m: int| 0 <= m < e.len() ==> e[m].bytes >= 0,
            total == share_bytes(e.take(i as int)),
        decreases entries.len() - i,
    {
        proof {
            assert(e.take(i + 1).drop_last() =~= e.take(i as int));
            lemma_share_prefix(e, i + 1);
        }
        total = total + entries[i].bytes;
        i = i + 1;
    }
    assert(e.take(i as int) =~= e);
    if total == 0 {
        let top: Vec<LanguageShare> = Vec::new();
        assert(share_views(top@) =~= Seq::<LanguageShareView>::empty());
        return LanguageChart { top, total_bytes: 0 };
    }
    let top = top_languages(&entries);
    proof {
        let sel = lemma_top_selection(e, share_views(top@));
        assert(share_views(top@).len() == top@.len());
        assert(selected(e, sel).len() == sel.len());
        assert forall|k: int| 0 <= k < top@.len() implies #[trigger] top@[k].bytes <= total by {
            let i = sel[k];
            assert(share_views(top@)[k] == e[i]);
            assert(share_views(top@)[k] == top@[k]@);
            lemma_share_le_total(e, i);
        }
        lemma_top_within_total(e, sel);
    }
    LanguageChart { top, total_bytes: total }
}

proof fn lemma_share_prefix(e: Seq<LanguageShareView>, i: int)
    requires
        0 <= i <= e.len(),
        forall|m: int| 0 <= m < e.len() ==> e[m].bytes >= 0,
    ensures
        0 <= share_bytes(e.take(i)) <= share_bytes(e),
    decreases e.len(),
{
    if i < e.len() {
        assert(e.take(i) =~= e.drop_last().take(i));
        lemma_share_prefix(e.drop_last(), i);
    } else {
        assert(e.take(i) =~= e);
        lemma_share_bytes_nonneg(e);
    }
}

/// The bytes of all edges, or `None` when they do not fit in a `u64`.
pub fn total_edge_bytes(edges: &Vec<LanguageEdge>) -> (total: Option<u64>)
    ensures
        total is None <==> edge_bytes(edges@) > u64::MAX,
        total matches Some(t) ==> t == edge_bytes(edges@),
{
    let mut t: u64 = 0;
    let mut i: usize = 0;
    assert(edges@.take(0) =~= Seq::<LanguageEdge>::empty());
    while i < edges.len()
        invariant
            i <= edges.len(),
            t == edge_bytes(edges@.take(i as int)),
        decreases edges.len() - i,
    {
        proof {
            assert(edges@.take(i + 1).drop_last() =~= edges@.take(i as int));
        }
        match t.checked_add(edges[i].size) {
            Some(s) => {
                t = s;
            },
            None => {
                proof {
                    lemma_edge_bytes_prefix(edges@, i + 1);
                }
                return None;
            },
        }
        i = i + 1;
    }
    assert(edges@.take(i as int) =~= edges@);
    Some(t)
}

pub(crate) proof fn lemma_top_selection(e: Seq<LanguageShareView>, top: Seq<LanguageShareView>) -> (sel: Seq<
    int,
>)
    requires
        is_top_of(e, top),
    ensures
        is_top_selection(e, sel),
        top == selected(e, sel),
{
    choose|sel: Seq<int>| is_top_selection(e, sel) && top == selected(e, sel)
}

proof fn lemma_top_not_hidden(all: Seq<LanguageEdge>, h: Seq<Seq<char>>, top: Seq<LanguageShareView>)
    requires
        is_top_of(language_totals(visible(all, h)), top),
    ensures
        forall|k: int| 0 <= k < top.len() ==> !is_hidden(h, #[trigger] top[k].name),
{
    let sel = lemma_top_selection(language_totals(visible(all, h)), top);
    lemma_totals_names(visible(all, h));
    lemma_visible_not_hidden(all, h);
    assert forall|k: int| 0 <= k < top.len() implies !is_hidden(h, #[trigger] top[k].name) by {
        let i = sel[k];
        assert(top[k] == language_totals(visible(all, h))[i]);
        let j = choose|j: int|
            0 <= j < visible(all, h).len() && visible(all, h)[j].node.name@ == language_totals(
                visible(all, h),
            )[i].name;
        assert(!is_hidden(h, visible(all, h)[j].node.name@));
    }
}

/// No language occurs twice in the totals.
pub(crate) proof fn lemma_totals_distinct(edges: Seq<LanguageEdge>)
    ensures
        forall|i: int, j: int|
            0 <= i < j < language_totals(edges).len() ==> language_totals(edges)[i].name
                != language_totals(edges)[j].name,
    decreases edges.len(),
{
    if edges.len() > 0 {
        let p = edges.drop_last();
        let prev = language_totals(p);
        let e = edges.last();
        lemma_totals_distinct(p);
        lemma_position_of(prev, e.node.name@);
        let t = language_totals(edges);
        assert forall|i: int, j: int| 0 <= i < j < t.len() implies t[i].name != t[j].name by {
            if j < prev.len() {
                assert(t[i].name == prev[i].name);
                assert(t[j].name == prev[j].name);
            } else {
                assert(t[i].name == prev[i].name);
            }
        }
    }
}

/// No language occurs twice in the top of the totals.
proof fn lemma_top_distinct(edges: Seq<LanguageEdge>, top: Seq<LanguageShareView>)
    requires
        is_top_of(language_totals(edges), top),
    ensures
        forall|a: int, b: int| 0 <= a < b < top.len() ==> top[a].name != top[b].name,
{
    let e = language_totals(edges);
    let sel = lemma_top_selection(e, top);
    lemma_totals_distinct(edges);
    assert forall|a: int, b: int| 0 <= a < b < top.len() implies top[a].name != top[b].name by {
        assert(ranks_before(e, sel[a], sel[b]));
        assert(top[a] == e[sel[a]]);
        assert(top[b] == e[sel[b]]);
        if sel[a] < sel[b] {
            assert(e[sel[a]].name != e[sel[b]].name);
        } else {
            assert(e[sel[b]].name != e[sel[a]].name);
        }
    }
}

proof fn lemma_visible_not_hidden(edges: Seq<LanguageEdge>, hidden: Seq<Seq<char>>)
    ensures
        forall|j: int|
            0 <= j < visible(edges, hidden).len() ==> !is_hidden(
                hidden,
                #[trigger] visible(edges, hidden)[j].node.name@,
            ),
    decreases edges.len(),
{
    if edges.len() > 0 {
        lemma_visible_not_hidden(edges.drop_last(), hidden);
    }
}

/// `c` is the language chart of the repositories under the hidden-languages
/// setting: the bytes of the visible edges, and (when there are any) the
/// top of the bytes per language.
pub open spec fn is_chart_of(c: LanguageChart, repos: Seq<RepoNode>, setting: Seq<char>) -> bool {
    let vis = visible(all_edges(repos), hidden_list(setting));
    &&& c.total_bytes == edge_bytes(vis)
    &&& c.total_bytes == 0 ==> c.top@.len() == 0
    &&& c.total_bytes > 0 ==> is_top_of(language_totals(vis), share_views(c.top@))
}

/// The language chart of the user's owned repositories. `hidden_setting` is
/// a comma-separated list of language names to leave out (any letter case;
/// empty hides nothing). `None` when the bytes of the shown languages do
/// not fit in a `u64`.
pub fn compute_languages(repos: &Vec<RepoNode>, hidden_setting: &str) -> (chart: Option<
    LanguageChart,
>)
    ensures
        chart is None <==> edge_bytes(visible(all_edges(repos@), hidden_list(hidden_setting@)))
            > u64::MAX,
        chart matches Some(c) ==> is_chart_of(c, repos@, hidden_setting@),
        chart matches Some(c) ==> forall|k: int|
            0 <= k < c.top@.len() ==> #[trigger] c.top@[k].bytes <= c.total_bytes,
        chart matches Some(c) ==> share_bytes(share_views(c.top@)) <= c.total_bytes,
        chart matches Some(c) ==> forall|a: int, b: int|
            0 <= a < b < c.top@.len() ==> c.top@[a].name@ != c.top@[b].name@,
        chart matches Some(c) ==> forall|k: int|
            0 <= k < c.top@.len() ==> !is_hidden(
                hidden_list(hidden_setting@),
                #[trigger] c.top@[k].name@,
            ),
{
    let hidden = parse_hidden_languages(hidden_setting);
    let edges = visible_edges(repos, &hidden);
    match total_edge_bytes(&edges) {
        None => None,
        Some(_) => {
            let c = language_chart(&edges);
            proof {
                if c.total_bytes > 0 {
                    lemma_top_distinct(edges@, share_views(c.top@));
                    assert forall|a: int, b: int| 0 <= a < b < c.top@.len() implies c.top@[a].name@
                        != c.top@[b].name@ by {
                        assert(share_views(c.top@)[a] == c.top@[a]@);
                        assert(share_views(c.top@)[b] == c.top@[b]@);
                    }
                    lemma_top_not_hidden(all_edges(repos@), hidden_list(hidden_setting@), share_views(c.top@));
                    assert forall|k: int| 0 <= k < c.top@.len() implies !is_hidden(
                        hidden_list(hidden_setting@),
                        #[trigger] c.top@[k].name@,
                    ) by {
                        assert(share_views(c.top@)[k] == c.top@[k]@);
                        assert(!is_hidden(
                            hidden_list(hidden_setting@),
                            share_views(c.top@)[k].name,
                        ));
                    }
                }
            }
            Some(c)
        },
    }
}

// ---------------------------------------------------------------------------
// Laws of the chart's inputs
// ---------------------------------------------------------------------------

/// A language is hidden exactly when its lowercased name equals one of the
/// hidden names (equal, not merely a prefix or part of it).
pub proof fn lemma_hidden_iff_listed(hidden: Seq<Seq<char>>, name: Seq<char>)
    ensures
        is_hidden(hidden, name) <==> exists|k: int|
            0 <= k < hidden.len() && #[trigger] hidden[k] == lowercase(name),
{
}

/// The visible edges are the edges, in order, whose lowercased language
/// name is not in the hidden list.
pub proof fn lemma_visible_is_filter(edges: Seq<LanguageEdge>, hidden: Seq<Seq<char>>)
    ensures
        visible(edges, hidden) == edges.filter(
            |e: LanguageEdge| !hidden.contains(lowercase(e.node.name@)),
        ),
    decreases edges.len(),
{
    reveal_with_fuel(Seq::<_>::filter, 1);
    if edges.len() > 0 {
        lemma_visible_is_filter(edges.drop_last(), hidden);
    }
}

/// The edges of a list of repositories are those of the first part
/// followed by those of the second, and a single repository's edges are its
/// own: so every edge of every repository is counted, in order.
pub proof fn lemma_all_edges_concat(r1: Seq<RepoNode>, r2: Seq<RepoNode>)
    ensures
        all_edges(r1 + r2) == all_edges(r1) + all_edges(r2),
    decreases r2.len(),
{
    if r2.len() == 0 {
        assert(r1 + r2 =~= r1);
        assert(all_edges(r1) + all_edges(r2) =~= all_edges(r1));
    } else {
        assert((r1 + r2).drop_last() =~= r1 + r2.drop_last());
        lemma_all_edges_concat(r1, r2.drop_last());
        assert(all_edges(r1) + all_edges(r2) =~= all_edges(r1) + all_edges(r2.drop_last())
            + r2.last().languages.edges@);
    }
}

/// A single repository contributes its own edges.
pub proof fn lemma_all_edges_single(r: RepoNode)
    ensures
        all_edges(seq![r]) == r.languages.edges@,
{
    let s = seq![r];
    assert(s.drop_last() =~= Seq::<RepoNode>::empty());
    assert(s.last() == r);
    assert(all_edges(s.drop_last()) == Seq::<LanguageEdge>::empty());
    assert(all_edges(s) == all_edges(s.drop_last()) + s.last().languages.edges@);
    assert(Seq::<LanguageEdge>::empty() + r.languages.edges@ =~= r.languages.edges@);
}

/// The bytes of edges add up: one more edge adds its size, and no edges
/// have no bytes.
pub proof fn lemma_edge_bytes_adds(edges: Seq<LanguageEdge>, e: LanguageEdge)
    ensures
        edge_bytes(Seq::<LanguageEdge>::empty()) == 0,
        edge_bytes(edges.push(e)) == edge_bytes(edges) + e.size,
{
    assert(edges.push(e).drop_last() =~= edges);
}

} // verus!
