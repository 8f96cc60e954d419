//! Putting the card together: finding the user in the answer, the avatar
//! address, and all figures of the card from the fetched data.

use vstd::prelude::*;

use crate::grid::{build_grid, is_grid_of};
use crate::languages::{all_edges, compute_languages, edge_bytes, hidden_list, is_chart_of, visible};
use crate::model::{
    text_or_empty, text_or_empty_string, AppError, ContributedNode, FetchOptions, GitHubStats,
    GqlData, GqlUser, YearTotals,
};
use crate::repos::{
    collect_contributed, collect_pinned, contributed_view, contributed_views, count_private, fork_sum,
    is_most_starred_of, most_starred_repo, pinned_repos, pinned_views, private_count,
    public_repo_count, star_sum, total_forks, total_stars,
};
use crate::streaks::{checked_streaks, day_counts, longest_run, trailing_run};
use crate::text::contains_char;

verus! {

/// The user of a GraphQL answer, or `NotFound(login)` when the answer has
/// no data or no user.
pub fn resolve_user(data: Option<GqlData>, login: &str) -> (user: Result<GqlUser, AppError>)
    ensures
        match data {
            Some(d) => match d.user {
                Some(u) => user == Ok::<GqlUser, AppError>(u),
                None => user matches Err(AppError::NotFound(l)) && l@ == login@,
            },
            None => user matches Err(AppError::NotFound(l)) && l@ == login@,
        },
{
    match data {
        Some(d) => match d.user {
            Some(u) => Ok(u),
            None => Err(AppError::NotFound(String::from_str(login))),
        },
        None => Err(AppError::NotFound(String::from_str(login))),
    }
}

/// The address of the avatar image at 160 pixels: `s=160` added as a
/// further query parameter (`&`) when the address has a query, else as
/// the query (`?`).
pub open spec fn sized_avatar(url: Seq<char>) -> Seq<char> {
    if url.contains('?') {
        url + seq!['&', 's', '=', '1', '6', '0']
    } else {
        url + seq!['?', 's', '=', '1', '6', '0']
    }
}

/// The avatar address to fetch the 160-pixel image from.
pub fn sized_avatar_url(url: &str) -> (sized: String)
    ensures
        sized@ == sized_avatar(url@),
{
    let mut s = String::from_str(url);
    if contains_char(url, '?') {
        let suffix = "&s=160";
        proof {
            reveal_strlit("&s=160");
        }
        s.append(suffix);
    } else {
        let suffix = "?s=160";
        proof {
            reveal_strlit("?s=160");
        }
        s.append(suffix);
    }
    assert(s@ =~= sized_avatar(url@));
    s
}

/// The media type of the avatar: the `Content-Type` the server sent, or
/// `image/png` when it sent none (or none that is text).
pub fn avatar_mime(content_type: Option<String>) -> (mime: String)
    ensures
        mime@ == match content_type {
            Some(t) => t@,
            None => seq!['i', 'm', 'a', 'g', 'e', '/', 'p', 'n', 'g'],
        },
{
    match content_type {
        Some(t) => t,
        None => {
            let m = String::from_str("image/png");
            proof {
                reveal_strlit("image/png");
            }
            assert(m@ =~= seq!['i', 'm', 'a', 'g', 'e', '/', 'p', 'n', 'g']);
            m
        },
    }
}

/// The name to show: the user's name, or the login when there is none.
pub open spec fn display_name(user: GqlUser) -> Seq<char> {
    match user.name {
        Some(n) => n@,
        None => user.login@,
    }
}

/// Whether the figures of the card could be computed: every sum the card
/// shows fits its type.
pub open spec fn stats_fit(user: GqlUser, hidden_setting: Seq<char>) -> bool {
    &&& star_sum(user.repositories.nodes@) <= u32::MAX
    &&& fork_sum(user.repositories.nodes@) <= u32::MAX
    &&& longest_run(day_counts(user.contributions_collection.contribution_calendar.weeks@))
        <= u32::MAX
    &&& edge_bytes(visible(all_edges(user.repositories.nodes@), hidden_list(hidden_setting)))
        <= u64::MAX
}

/// The card's figures, from the profile `user`, the options, the creation
/// year, the lifetime totals and the avatar that were fetched (`None` when
/// fetching the avatar failed), and the hidden-languages setting.
pub open spec fn is_stats_of(
    s: GitHubStats,
    user: GqlUser,
    options: FetchOptions,
    created_year: i32,
    lifetime: YearTotals,
    avatar: Option<(Vec<u8>, String)>,
    hidden_setting: Seq<char>,
) -> bool {
    let repos = user.repositories.nodes@;
    let cc = user.contributions_collection;
    let days = day_counts(cc.contribution_calendar.weeks@);
    &&& s.login@ == user.login@
    &&& s.name@ == display_name(user)
    &&& s.bio@ == text_or_empty(user.bio)
    &&& s.location@ == text_or_empty(user.location)
    &&& s.avatar_url@ == user.avatar_url@
    &&& (if options.fetch_avatar && avatar is Some {
        let fetched = avatar.unwrap();
        s.avatar_bytes@ == fetched.0@ && s.avatar_mime@ == fetched.1@
    } else {
        s.avatar_bytes@.len() == 0 && s.avatar_mime@.len() == 0
    })
    &&& s.created_year == created_year
    &&& s.created_iso@ == user.created_at@
    &&& s.followers == user.followers.total_count
    &&& s.following == user.following.total_count
    &&& s.total_contributions == cc.contribution_calendar.total_contributions
    &&& s.total_commits == cc.total_commit_contributions
    &&& s.total_prs == cc.total_pull_request_contributions
    &&& s.total_issues == cc.total_issue_contributions
    &&& s.total_reviews == cc.total_pull_request_review_contributions
    &&& (if options.include_lifetime {
        &&& s.lifetime_contributions == lifetime.contributions
        &&& s.lifetime_commits == lifetime.commits
        &&& s.lifetime_prs == lifetime.prs
        &&& s.lifetime_issues == lifetime.issues
        &&& s.lifetime_reviews == lifetime.reviews
    } else {
        &&& s.lifetime_contributions == 0
        &&& s.lifetime_commits == 0
        &&& s.lifetime_prs == 0
        &&& s.lifetime_issues == 0
        &&& s.lifetime_reviews == 0
    })
    &&& s.current_streak == trailing_run(days)
    &&& s.longest_streak == longest_run(days)
    &&& s.total_stars == star_sum(repos)
    &&& s.total_forks == fork_sum(repos)
    &&& s.private_repos == private_count(repos) as u32
    &&& s.public_repos == (if user.repositories.total_count >= s.private_repos {
        user.repositories.total_count - s.private_repos
    } else {
        0
    })
    &&& is_chart_of(s.top_languages, repos, hidden_setting)
    &&& is_grid_of(s.contribution_grid@, cc.contribution_calendar.weeks@)
    &&& pinned_views(s.pinned@) == pinned_repos(user.pinned_items.nodes@)
    &&& contributed_views(s.contributed_to@) == user.repositories_contributed_to.nodes@.map_values(
        |n: ContributedNode| contributed_view(n),
    )
    &&& is_most_starred_of(s.most_starred, repos)
}

/// The card shows what it was given: the profile's own fields, the
/// last-year totals field by field, the lifetime totals field by field (or
/// zeros without lifetime stats), the star and fork sums, and public plus
/// private repositories making up the total count (unless the private ones
/// alone exceed it, when none are public).
pub proof fn lemma_card_shows_inputs(
    s: GitHubStats,
    user: GqlUser,
    options: FetchOptions,
    created_year: i32,
    lifetime: YearTotals,
    avatar: Option<(Vec<u8>, String)>,
    hidden_setting: Seq<char>,
)
    requires
        is_stats_of(s, user, options, created_year, lifetime, avatar, hidden_setting),
    ensures
        s.login@ == user.login@,
        user.name is Some ==> s.name@ == user.name.unwrap()@,
        user.name is None ==> s.name@ == user.login@,
        s.created_year == created_year,
        s.created_iso@ == user.created_at@,
        s.avatar_url@ == user.avatar_url@,
        s.followers == user.followers.total_count,
        s.following == user.following.total_count,
        s.total_contributions
            == user.contributions_collection.contribution_calendar.total_contributions,
        s.total_commits == user.contributions_collection.total_commit_contributions,
        s.total_prs == user.contributions_collection.total_pull_request_contributions,
        s.total_issues == user.contributions_collection.total_issue_contributions,
        s.total_reviews == user.contributions_collection.total_pull_request_review_contributions,
        options.include_lifetime ==> s.lifetime_contributions == lifetime.contributions
            && s.lifetime_commits == lifetime.commits && s.lifetime_prs == lifetime.prs
            && s.lifetime_issues == lifetime.issues && s.lifetime_reviews == lifetime.reviews,
        !options.include_lifetime ==> s.lifetime_contributions == 0 && s.lifetime_commits == 0
            && s.lifetime_prs == 0 && s.lifetime_issues == 0 && s.lifetime_reviews == 0,
        s.total_stars == star_sum(user.repositories.nodes@),
        s.total_forks == fork_sum(user.repositories.nodes@),
        s.private_repos + s.public_repos == user.repositories.total_count
            || (s.public_repos == 0 && s.private_repos >= user.repositories.total_count),
{
}

/// Computes every figure of the card from what was fetched. `None` exactly
/// when a sum the card shows does not fit its type (the stars, the forks,
/// the longest streak, or the bytes of the shown languages).
pub fn assemble_stats(
    user: GqlUser,
    options: &FetchOptions,
    created_year: i32,
    lifetime: YearTotals,
    avatar: Option<(Vec<u8>, String)>,
    hidden_setting: &str,
) -> (stats: Option<GitHubStats>)
    ensures
        stats is Some <==> stats_fit(user, hidden_setting@),
        stats matches Some(s) ==> is_stats_of(
            s,
            user,
            *options,
            created_year,
            lifetime,
            avatar,
            hidden_setting@,
        ),
        stats matches Some(s) ==> options.include_lifetime ==> s.lifetime_contributions
            == lifetime.contributions && s.lifetime_commits == lifetime.commits && s.lifetime_prs
            == lifetime.prs && s.lifetime_issues == lifetime.issues && s.lifetime_reviews
            == lifetime.reviews,
        stats matches Some(s) ==> s.total_commits
            == user.contributions_collection.total_commit_contributions && s.total_prs
            == user.contributions_collection.total_pull_request_contributions && s.total_issues
            == user.contributions_collection.total_issue_contributions && s.total_reviews
            == user.contributions_collection.total_pull_request_review_contributions,
{
    let repos = &user.repositories.nodes;
    let total_stars = match total_stars(repos) {
        Some(t) => t,
        None => return None,
    };
    let total_forks = match total_forks(repos) {
        Some(t) => t,
        None => return None,
    };
    let private_repos = count_private(repos);
    let public_repos = public_repo_count(user.repositories.total_count, private_repos);
    let top_languages = match compute_languages(repos, hidden_setting) {
        Some(c) => c,
        None => return None,
    };
    let calendar = &user.contributions_collection.contribution_calendar;
    let (current_streak, longest_streak) = match checked_streaks(calendar) {
        Some(p) => p,
        None => return None,
    };
    let contribution_grid = build_grid(calendar);
    let most_starred = most_starred_repo(repos);
    let pinned = collect_pinned(&user.pinned_items);
    let contributed_to = collect_contributed(&user.repositories_contributed_to);

    let (lifetime_contributions, lifetime_commits, lifetime_prs, lifetime_issues, lifetime_reviews) =
        if options.include_lifetime {
        (lifetime.contributions, lifetime.commits, lifetime.prs, lifetime.issues, lifetime.reviews)
    } else {
        (0, 0, 0, 0, 0)
    };
    let (avatar_bytes, avatar_mime) = if options.fetch_avatar {
        match avatar {
            Some(pair) => pair,
            None => (Vec::new(), String::new()),
        }
    } else {
        (Vec::new(), String::new())
    };
    let name = match &user.name {
        Some(n) => n.clone(),
        None => user.login.clone(),
    };
    let cc = &user.contributions_collection;

    Some(
        GitHubStats {
            login: user.login.clone(),
            name,
            bio: text_or_empty_string(&user.bio),
            location: text_or_empty_string(&user.location),
            avatar_url: user.avatar_url.clone(),
            avatar_bytes,
            avatar_mime,
            created_year,
            created_iso: user.created_at.clone(),
            followers: user.followers.total_count,
            following: user.following.total_count,
            total_contributions: cc.contribution_calendar.total_contributions,
            total_commits: cc.total_commit_contributions,
            total_prs: cc.total_pull_request_contributions,
            total_issues: cc.total_issue_contributions,
            total_reviews: cc.total_pull_request_review_contributions,
            lifetime_contributions,
            lifetime_commits,
            lifetime_prs,
            lifetime_issues,
            lifetime_reviews,
            current_streak,
            longest_streak,
            total_stars,
            total_forks,
            public_repos,
            private_repos,
            top_languages,
            contribution_grid,
            pinned,
            contributed_to,
            most_starred,
        },
    )
}

} // verus!
