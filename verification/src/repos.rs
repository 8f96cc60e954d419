//! Repository figures: star and fork totals, private and public counts, the
//! most-starred repository, pinned and contributed-to repositories.

use vstd::prelude::*;

use crate::model::{
    language_color, language_color_or_fallback, language_name, language_name_or_empty,
    text_or_empty, text_or_empty_string, ContributedConnection, ContributedNode, ContributedRepo,
    ContributedRepoView, MostStarredRepo, MostStarredRepoView, PinnedItems, PinnedNode, PinnedRepo,
    PinnedRepoView, RepoNode,
};

verus! {

// ---------------------------------------------------------------------------
// Totals
// ---------------------------------------------------------------------------

/// The stars of all repositories.
pub open spec fn star_sum(repos: Seq<RepoNode>) -> int
    decreases repos.len(),
{
    if repos.len() == 0 {
        0
    } else {
        star_sum(repos.drop_last()) + repos.last().stargazer_count
    }
}

/// The forks of all repositories.
pub open spec fn fork_sum(repos: Seq<RepoNode>) -> int
    decreases repos.len(),
{
    if repos.len() == 0 {
        0
    } else {
        fork_sum(repos.drop_last()) + repos.last().fork_count
    }
}

/// The number of private repositories.
pub open spec fn private_count(repos: Seq<RepoNode>) -> nat
    decreases repos.len(),
{
    if repos.len() == 0 {
        0
    } else {
        private_count(repos.drop_last()) + if repos.last().is_private {
            1nat
        } else {
            0nat
        }
    }
}

proof fn lemma_star_sum_prefix(repos: Seq<RepoNode>, i: int)
    requires
        0 <= i <= repos.len(),
    ensures
        0 <= star_sum(repos.take(i)) <= star_sum(repos),
    decreases repos.len(),
{
    if i < repos.len() {
        assert(repos.take(i) =~= repos.drop_last().take(i));
        lemma_star_sum_prefix(repos.drop_last(), i);
    } else {
        assert(repos.take(i) =~= repos);
        lemma_star_sum_nonneg(repos);
    }
}

proof fn lemma_star_sum_nonneg(repos: Seq<RepoNode>)
    ensures
        star_sum(repos) >= 0,
    decreases repos.len(),
{
    if repos.len() > 0 {
        lemma_star_sum_nonneg(repos.drop_last());
    }
}

proof fn lemma_fork_sum_prefix(repos: Seq<RepoNode>, i: int)
    requires
        0 <= i <= repos.len(),
    ensures
        0 <= fork_sum(repos.take(i)) <= fork_sum(repos),
    decreases repos.len(),
{
    if i < repos.len() {
        assert(repos.take(i) =~= repos.drop_last().take(i));
        lemma_fork_sum_prefix(repos.drop_last(), i);
    } else {
        assert(repos.take(i) =~= repos);
        lemma_fork_sum_nonneg(repos);
    }
}

proof fn lemma_fork_sum_nonneg(repos: Seq<RepoNode>)
    ensures
        fork_sum(repos) >= 0,
    decreases repos.len(),
{
    if repos.len() > 0 {
        lemma_fork_sum_nonneg(repos.drop_last());
    }
}

proof fn lemma_private_count_bound(repos: Seq<RepoNode>)
    ensures
        private_count(repos) <= repos.len(),
    decreases repos.len(),
{
    if repos.len() > 0 {
        lemma_private_count_bound(repos.drop_last());
    }
}

/// The stars of all repositories, or `None` when they do not fit in a `u32`.
pub fn total_stars(repos: &Vec<RepoNode>) -> (total: Option<u32>)
    ensures
        total is None <==> star_sum(repos@) > u32::MAX,
        total matches Some(t) ==> t == star_sum(repos@),
{
    let mut total: u32 = 0;
    let mut i: usize = 0;
    assert(repos@.take(0) =~= Seq::<RepoNode>::empty());
    while i < repos.len()
        invariant
            i <= repos.len(),
            total == star_sum(repos@.take(i as int)),
        decreases repos.len() - i,
    {
        proof {
            assert(repos@.take(i + 1).drop_last() =~= repos@.take(i as int));
        }
        match total.checked_add(repos[i].stargazer_count) {
            Some(t) => {
                total = t;
            },
            None => {
                proof {
                    lemma_star_sum_prefix(repos@, i + 1);
                }
                return None;
            },
        }
        i = i + 1;
    }
    assert(repos@.take(i as int) =~= repos@);
    Some(total)
}

/// The forks of all repositories, or `None` when they do not fit in a `u32`.
pub fn total_forks(repos: &Vec<RepoNode>) -> (total: Option<u32>)
    ensures
        total is None <==> fork_sum(repos@) > u32::MAX,
        total matches Some(t) ==> t == fork_sum(repos@),
{
    let mut total: u32 = 0;
    let mut i: usize = 0;
    assert(repos@.take(0) =~= Seq::<RepoNode>::empty());
    while i < repos.len()
        invariant
            i <= repos.len(),
            total == fork_sum(repos@.take(i as int)),
        decreases repos.len() - i,
    {
        proof {
            assert(repos@.take(i + 1).drop_last() =~= repos@.take(i as int));
        }
        match total.checked_add(repos[i].fork_count) {
            Some(t) => {
                total = t;
            },
            None => {
                proof {
                    lemma_fork_sum_prefix(repos@, i + 1);
                }
                return None;
            },
        }
        i = i + 1;
    }
    assert(repos@.take(i as int) =~= repos@);
    Some(total)
}

/// The number of private repositories, as a `u32` (taken modulo 2^32).
pub fn count_private(repos: &Vec<RepoNode>) -> (count: u32)
    ensures
        count == private_count(repos@) as u32,
{
    let mut n: usize = 0;
    let mut i: usize = 0;
    assert(repos@.take(0) =~= Seq::<RepoNode>::empty());
    while i < repos.len()
        invariant
            i <= repos.len(),
            n == private_count(repos@.take(i as int)),
        decreases repos.len() - i,
    {
        proof {
            assert(repos@.take(i + 1).drop_last() =~= repos@.take(i as int));
            lemma_private_count_bound(repos@.take(i as int));
        }
        if repos[i].is_private {
            n = n + 1;
        }
        i = i + 1;
    }
    assert(repos@.take(i as int) =~= repos@);
    n as u32
}

/// The repositories matched by `total_count` that are not private; zero
/// when the private ones are at least as many.
pub fn public_repo_count(total_count: u32, private_repos: u32) -> (public: u32)
    ensures
        public == if total_count >= private_repos {
            total_count - private_repos
        } else {
            0
        },
{
    total_count.saturating_sub(private_repos)
}

// ---------------------------------------------------------------------------
// The most-starred repository
// ---------------------------------------------------------------------------

/// `i` is the last of the repositories with the most stars.
pub open spec fn is_most_starred_index(repos: Seq<RepoNode>, i: int) -> bool {
    &&& 0 <= i < repos.len()
    &&& forall|j: int|
        0 <= j < repos.len() ==> #[trigger] repos[j].stargazer_count <= repos[i].stargazer_count
    &&& forall|j: int|
        i < j < repos.len() ==> #[trigger] repos[j].stargazer_count < repos[i].stargazer_count
}

/// A repository as the highlight tile shows it.
pub open spec fn most_starred_view(r: RepoNode) -> MostStarredRepoView {
    MostStarredRepoView {
        name: r.name@,
        stars: r.stargazer_count,
        forks: r.fork_count,
        language: language_name_or_empty(r.primary_language),
        lang_color: language_color_or_fallback(r.primary_language),
    }
}

/// `most` is the last of the repositories with the most stars, or `None`
/// when no repository has a star.
pub open spec fn is_most_starred_of(most: Option<MostStarredRepo>, repos: Seq<RepoNode>) -> bool {
    &&& most is None <==> forall|j: int| 0 <= j < repos.len() ==> #[trigger] repos[j].stargazer_count == 0
    &&& most matches Some(m) ==> exists|i: int|
        is_most_starred_index(repos, i) && m@ == most_starred_view(#[trigger] repos[i])
}

/// The user's most-starred repository (the last one among equals), unless
/// no repository has a star.
pub fn most_starred_repo(repos: &Vec<RepoNode>) -> (most: Option<MostStarredRepo>)
    ensures
        is_most_starred_of(most, repos@),
{
    if repos.len() == 0 {
        return None;
    }
    let mut best: usize = 0;
    let mut i: usize = 1;
    while i < repos.len()
        invariant
            1 <= i <= repos.len(),
            best < i,
            forall|j: int|
                0 <= j < i ==> #[trigger] repos@[j].stargazer_count <= repos@[best as int].stargazer_count,
            forall|j: int|
                best < j < i ==> #[trigger] repos@[j].stargazer_count < repos@[best as int].stargazer_count,
        decreases repos.len() - i,
    {
        if repos[i].stargazer_count >= repos[best].stargazer_count {
            best = i;
        }
        i = i + 1;
    }
    let r = &repos[best];
    if r.stargazer_count > 0 {
        let m = MostStarredRepo {
            name: r.name.clone(),
            stars: r.stargazer_count,
            forks: r.fork_count,
            language: language_name(&r.primary_language),
            lang_color: language_color(&r.primary_language),
        };
        assert(is_most_starred_index(repos@, best as int));
        Some(m)
    } else {
        None
    }
}

// ---------------------------------------------------------------------------
// Pinned and contributed-to repositories
// ---------------------------------------------------------------------------

/// A pinned node as the card shows it (for a node with a name).
pub open spec fn pinned_view(n: PinnedNode) -> PinnedRepoView {
    PinnedRepoView {
        name: text_or_empty(n.name),
        description: text_or_empty(n.description),
        stars: match n.stargazer_count {
            Some(s) => s,
            None => 0,
        },
        forks: match n.fork_count {
            Some(f) => f,
            None => 0,
        },
        language: language_name_or_empty(n.primary_language),
        lang_color: language_color_or_fallback(n.primary_language),
    }
}

/// The pinned nodes that have a name, in order, as the card shows them.
pub open spec fn pinned_repos(nodes: Seq<PinnedNode>) -> Seq<PinnedRepoView>
    decreases nodes.len(),
{
    if nodes.len() == 0 {
        Seq::empty()
    } else {
        let rest = pinned_repos(nodes.drop_last());
        if nodes.last().name is Some {
            rest.push(pinned_view(nodes.last()))
        } else {
            rest
        }
    }
}

/// The views of a list of pinned repositories.
pub open spec fn pinned_views(v: Seq<PinnedRepo>) -> Seq<PinnedRepoView> {
    v.map_values(|r: PinnedRepo| r@)
}

/// The pinned items that are repositories (those with a name), in order;
/// a missing description or language is empty, missing counts are zero,
/// and a missing colour is "#888".
pub fn collect_pinned(items: &PinnedItems) -> (pinned: Vec<PinnedRepo>)
    ensures
        pinned_views(pinned@) == pinned_repos(items.nodes@),
{
    let nodes = &items.nodes;
    let mut pinned: Vec<PinnedRepo> = Vec::new();
    let mut i: usize = 0;
    assert(nodes@.take(0) =~= Seq::<PinnedNode>::empty());
    assert(pinned_views(pinned@) =~= Seq::<PinnedRepoView>::empty());
    while i < nodes.len()
        invariant
            i <= nodes.len(),
            pinned_views(pinned@) == pinned_repos(nodes@.take(i as int)),
        decreases nodes.len() - i,
    {
        let p = &nodes[i];
        proof {
            assert(nodes@.take(i + 1).drop_last() =~= nodes@.take(i as int));
            assert(nodes@.take(i + 1).last() == *p);
        }
        match &p.name {
            Some(name) => {
                let repo = PinnedRepo {
                    name: name.clone(),
                    description: text_or_empty_string(&p.description),
                    stars: match p.stargazer_count {
                        Some(s) => s,
                        None => 0,
                    },
                    forks: match p.fork_count {
                        Some(f) => f,
                        None => 0,
                    },
                    language: language_name(&p.primary_language),
                    lang_color: language_color(&p.primary_language),
                };
                let ghost before = pinned_views(pinned@);
                pinned.push(repo);
                assert(pinned_views(pinned@) =~= before.push(pinned_view(*p)));
            },
            None => {},
        }
        i = i + 1;
    }
    assert(nodes@.take(i as int) =~= nodes@);
    pinned
}

/// A contributed-to node as the card shows it.
pub open spec fn contributed_view(n: ContributedNode) -> ContributedRepoView {
    ContributedRepoView {
        name_with_owner: n.name_with_owner@,
        stars: n.stargazer_count,
        language: language_name_or_empty(n.primary_language),
        lang_color: language_color_or_fallback(n.primary_language),
    }
}

/// The views of a list of contributed-to repositories.
pub open spec fn contributed_views(v: Seq<ContributedRepo>) -> Seq<ContributedRepoView> {
    v.map_values(|r: ContributedRepo| r@)
}

/// Every contributed-to repository, in order, as the card shows it.
pub fn collect_contributed(conn: &ContributedConnection) -> (repos: Vec<ContributedRepo>)
    ensures
        contributed_views(repos@) == conn.nodes@.map_values(|n: ContributedNode| contributed_view(n)),
{
    let nodes = &conn.nodes;
    let mut repos: Vec<ContributedRepo> = Vec::new();
    let mut i: usize = 0;
    while i < nodes.len()
        invariant
            i <= nodes.len(),
            repos@.len() == i,
            forall|k: int| 0 <= k < i ==> #[trigger] repos@[k]@ == contributed_view(nodes@[k]),
        decreases nodes.len() - i,
    {
        let c = &nodes[i];
        repos.push(
            ContributedRepo {
                name_with_owner: c.name_with_owner.clone(),
                stars: c.stargazer_count,
                language: language_name(&c.primary_language),
                lang_color: language_color(&c.primary_language),
            },
        );
        i = i + 1;
    }
    assert(contributed_views(repos@) =~= nodes@.map_values(|n: ContributedNode| contributed_view(n)));
    repos
}

// ---------------------------------------------------------------------------
// Laws
// ---------------------------------------------------------------------------

/// The totals add up over the repositories: with no repositories they are
/// zero, and one more repository adds its stars, its forks, and one
/// private repository when it is private, whatever its other fields.
pub proof fn lemma_repo_totals_add_up(repos: Seq<RepoNode>, r: RepoNode)
    ensures
        star_sum(Seq::<RepoNode>::empty()) == 0,
        fork_sum(Seq::<RepoNode>::empty()) == 0,
        private_count(Seq::<RepoNode>::empty()) == 0,
        star_sum(repos.push(r)) == star_sum(repos) + r.stargazer_count,
        fork_sum(repos.push(r)) == fork_sum(repos) + r.fork_count,
        private_count(repos.push(r)) == private_count(repos) + if r.is_private {
            1int
        } else {
            0int
        },
{
    assert(repos.push(r).drop_last() =~= repos);
}

/// A pinned item is kept exactly when it has a name, in order: one more
/// item adds one card entry when it has a name and none otherwise.
pub proof fn lemma_pinned_kept_in_order(nodes: Seq<PinnedNode>, n: PinnedNode)
    ensures
        pinned_repos(Seq::<PinnedNode>::empty()).len() == 0,
        n.name is Some ==> pinned_repos(nodes.push(n)) == pinned_repos(nodes).push(pinned_view(n)),
        n.name is None ==> pinned_repos(nodes.push(n)) == pinned_repos(nodes),
{
    assert(nodes.push(n).drop_last() =~= nodes);
}

/// A pinned entry shows the item's name, its description or nothing, its
/// star and fork counts or zero, and its language name or nothing, and the
/// language's colour or "#888".
pub proof fn lemma_pinned_entry_fields(n: PinnedNode)
    requires
        n.name is Some,
    ensures
        pinned_view(n).name == n.name.unwrap()@,
        n.description is Some ==> pinned_view(n).description == n.description.unwrap()@,
        n.description is None ==> pinned_view(n).description.len() == 0,
        n.stargazer_count is Some ==> pinned_view(n).stars == n.stargazer_count.unwrap(),
        n.stargazer_count is None ==> pinned_view(n).stars == 0,
        n.fork_count is Some ==> pinned_view(n).forks == n.fork_count.unwrap(),
        n.fork_count is None ==> pinned_view(n).forks == 0,
        n.primary_language is Some ==> pinned_view(n).language == n.primary_language.unwrap().name@,
        n.primary_language is None ==> pinned_view(n).language.len() == 0,
        (n.primary_language is Some && n.primary_language.unwrap().color is Some)
            ==> pinned_view(n).lang_color == n.primary_language.unwrap().color.unwrap()@,
        (n.primary_language is None || n.primary_language.unwrap().color is None)
            ==> pinned_view(n).lang_color == seq!['#', '8', '8', '8'],
{
}

/// A contributed-to entry shows the repository's full name, its stars, and
/// its language name (or nothing) and colour (or "#888").
pub proof fn lemma_contributed_entry_fields(n: ContributedNode)
    ensures
        contributed_view(n).name_with_owner == n.name_with_owner@,
        contributed_view(n).stars == n.stargazer_count,
        n.primary_language is Some ==> contributed_view(n).language == n.primary_language.unwrap().name@,
        n.primary_language is None ==> contributed_view(n).language.len() == 0,
        (n.primary_language is Some && n.primary_language.unwrap().color is Some)
            ==> contributed_view(n).lang_color == n.primary_language.unwrap().color.unwrap()@,
        (n.primary_language is None || n.primary_language.unwrap().color is None)
            ==> contributed_view(n).lang_color == seq!['#', '8', '8', '8'],
{
}

/// The highlight shows the repository's name, stars, forks, and language
/// name (or nothing) and colour (or "#888").
pub proof fn lemma_most_starred_entry_fields(r: RepoNode)
    ensures
        most_starred_view(r).name == r.name@,
        most_starred_view(r).stars == r.stargazer_count,
        most_starred_view(r).forks == r.fork_count,
        r.primary_language is Some ==> most_starred_view(r).language == r.primary_language.unwrap().name@,
        r.primary_language is None ==> most_starred_view(r).language.len() == 0,
        (r.primary_language is Some && r.primary_language.unwrap().color is Some)
            ==> most_starred_view(r).lang_color == r.primary_language.unwrap().color.unwrap()@,
        (r.primary_language is None || r.primary_language.unwrap().color is None)
            ==> most_starred_view(r).lang_color == seq!['#', '8', '8', '8'],
{
}

} // verus!
