use statsvg_rs::model::{
    AppError, ContributedConnection, ContributedNode, ContributionCalendar, ContributionDay,
    ContributionWeek, ContributionsCollection, Count, FetchOptions, GqlData, GqlUser, Language,
    LanguageConnection, LanguageEdge, PinnedItems, PinnedNode, RepoConnection, RepoNode,
    YearTotals,
};
use statsvg_rs::repos::{
    collect_contributed, collect_pinned, count_private, most_starred_repo, public_repo_count,
    total_forks, total_stars,
};
use statsvg_rs::stats::{assemble_stats, avatar_mime, resolve_user, sized_avatar_url};

fn lang(name: &str, color: Option<&str>) -> Language {
    Language { name: name.to_string(), color: color.map(|c| c.to_string()) }
}

fn repo(name: &str, stars: u32, forks: u32, private: bool, edges: Vec<(&str, u64)>) -> RepoNode {
    RepoNode {
        name: name.to_string(),
        description: None,
        stargazer_count: stars,
        fork_count: forks,
        is_private: private,
        primary_language: Some(lang("Rust", Some("#dea584"))),
        languages: LanguageConnection {
            edges: edges
                .into_iter()
                .map(|(n, s)| LanguageEdge { size: s, node: lang(n, None) })
                .collect(),
        },
    }
}

#[test]
fn star_and_fork_totals() {
    let repos = vec![repo("a", 3, 1, false, vec![]), repo("b", 4, 2, true, vec![])];
    assert_eq!(total_stars(&repos), Some(7));
    assert_eq!(total_forks(&repos), Some(3));
    assert_eq!(total_stars(&vec![]), Some(0));
}

#[test]
fn star_total_overflow_is_refused() {
    let repos = vec![repo("a", u32::MAX, 0, false, vec![]), repo("b", 1, 0, false, vec![])];
    assert_eq!(total_stars(&repos), None);
    assert_eq!(total_forks(&repos), Some(0));
}

#[test]
fn private_and_public_counts() {
    let repos = vec![
        repo("a", 0, 0, true, vec![]),
        repo("b", 0, 0, false, vec![]),
        repo("c", 0, 0, true, vec![]),
    ];
    assert_eq!(count_private(&repos), 2);
    assert_eq!(public_repo_count(150, 2), 148);
    assert_eq!(public_repo_count(1, 2), 0);
    assert_eq!(public_repo_count(2, 2), 0);
}

#[test]
fn most_starred_is_last_of_the_maximal() {
    let repos = vec![
        repo("a", 5, 1, false, vec![]),
        repo("b", 9, 2, false, vec![]),
        repo("c", 9, 3, false, vec![]),
        repo("d", 1, 0, false, vec![]),
    ];
    let m = most_starred_repo(&repos).unwrap();
    assert_eq!(m.name, "c");
    assert_eq!(m.stars, 9);
    assert_eq!(m.forks, 3);
    assert_eq!(m.language, "Rust");
    assert_eq!(m.lang_color, "#dea584");
}

#[test]
fn no_most_starred_without_stars() {
    assert!(most_starred_repo(&vec![]).is_none());
    assert!(most_starred_repo(&vec![repo("a", 0, 5, false, vec![])]).is_none());
}

#[test]
fn most_starred_language_defaults() {
    let mut r = repo("a", 2, 0, false, vec![]);
    r.primary_language = None;
    let m = most_starred_repo(&vec![r]).unwrap();
    assert_eq!(m.language, "");
    assert_eq!(m.lang_color, "#888");
}

#[test]
fn pinned_keeps_named_items_with_defaults() {
    let items = PinnedItems {
        nodes: vec![
            PinnedNode {
                name: Some("tool".to_string()),
                description: Some("does things".to_string()),
                stargazer_count: Some(12),
                fork_count: Some(3),
                primary_language: Some(lang("Go", Some("#00ADD8"))),
            },
            PinnedNode {
                name: None,
                description: Some("a gist".to_string()),
                stargazer_count: Some(1),
                fork_count: None,
                primary_language: None,
            },
            PinnedNode {
                name: Some("bare".to_string()),
                description: None,
                stargazer_count: None,
                fork_count: None,
                primary_language: Some(lang("C", None)),
            },
        ],
    };
    let pinned = collect_pinned(&items);
    assert_eq!(pinned.len(), 2);
    assert_eq!(pinned[0].name, "tool");
    assert_eq!(pinned[0].description, "does things");
    assert_eq!((pinned[0].stars, pinned[0].forks), (12, 3));
    assert_eq!(pinned[0].lang_color, "#00ADD8");
    assert_eq!(pinned[1].name, "bare");
    assert_eq!(pinned[1].description, "");
    assert_eq!((pinned[1].stars, pinned[1].forks), (0, 0));
    assert_eq!(pinned[1].language, "C");
    assert_eq!(pinned[1].lang_color, "#888");
}

#[test]
fn contributed_keeps_every_node() {
    let conn = ContributedConnection {
        nodes: vec![
            ContributedNode {
                name_with_owner: "rust-lang/rust".to_string(),
                stargazer_count: 100,
                primary_language: Some(lang("Rust", Some("#dea584"))),
            },
            ContributedNode {
                name_with_owner: "x/y".to_string(),
                stargazer_count: 0,
                primary_language: None,
            },
        ],
    };
    let c = collect_contributed(&conn);
    assert_eq!(c.len(), 2);
    assert_eq!(c[0].name_with_owner, "rust-lang/rust");
    assert_eq!(c[0].stars, 100);
    assert_eq!(c[1].language, "");
    assert_eq!(c[1].lang_color, "#888");
}

#[test]
fn avatar_url_gets_size_parameter() {
    assert_eq!(
        sized_avatar_url("https://avatars.githubusercontent.com/u/1"),
        "https://avatars.githubusercontent.com/u/1?s=160"
    );
    assert_eq!(
        sized_avatar_url("https://avatars.githubusercontent.com/u/1?v=4"),
        "https://avatars.githubusercontent.com/u/1?v=4&s=160"
    );
}

#[test]
fn avatar_mime_defaults_to_png() {
    assert_eq!(avatar_mime(None), "image/png");
    assert_eq!(avatar_mime(Some("image/jpeg".to_string())), "image/jpeg");
}

fn user(name: Option<&str>) -> GqlUser {
    let days = |counts: &[u32]| ContributionWeek {
        contribution_days: counts
            .iter()
            .map(|c| ContributionDay { contribution_count: *c, date: format!("day{c}") })
            .collect(),
    };
    GqlUser {
        name: name.map(|n| n.to_string()),
        login: "octo".to_string(),
        bio: Some("hello".to_string()),
        company: None,
        location: None,
        avatar_url: "https://a/u/1?v=4".to_string(),
        created_at: "2014-05-01T00:00:00Z".to_string(),
        followers: Count { total_count: 10 },
        following: Count { total_count: 2 },
        repositories: RepoConnection {
            total_count: 120,
            nodes: vec![
                repo("big", 50, 5, false, vec![("Rust", 700), ("HTML", 300)]),
                repo("secret", 0, 0, true, vec![("Go", 100)]),
            ],
        },
        contributions_collection: ContributionsCollection {
            total_commit_contributions: 300,
            total_pull_request_contributions: 20,
            total_issue_contributions: 7,
            total_pull_request_review_contributions: 4,
            contribution_calendar: ContributionCalendar {
                total_contributions: 331,
                weeks: vec![days(&[1, 2, 0]), days(&[3, 4, 5])],
            },
        },
        pinned_items: PinnedItems { nodes: vec![] },
        repositories_contributed_to: ContributedConnection { nodes: vec![] },
    }
}

#[test]
fn resolve_user_finds_user_or_reports_login() {
    let found = resolve_user(Some(GqlData { user: Some(user(None)) }), "octo");
    assert_eq!(found.unwrap().login, "octo");
    match resolve_user(Some(GqlData { user: None }), "ghost") {
        Err(AppError::NotFound(l)) => assert_eq!(l, "ghost"),
        Ok(_) => panic!("expected NotFound"),
    }
    match resolve_user(None, "nobody") {
        Err(AppError::NotFound(l)) => assert_eq!(l, "nobody"),
        Ok(_) => panic!("expected NotFound"),
    }
}

#[test]
fn assemble_stats_full_card() {
    let options = FetchOptions { include_lifetime: true, fetch_avatar: true };
    let lifetime = YearTotals { contributions: 1000, commits: 800, prs: 50, issues: 9, reviews: 3 };
    let s = assemble_stats(
        user(Some("The Octocat")),
        &options,
        2014,
        lifetime,
        Some((vec![1, 2, 3], "image/png".to_string())),
        "html",
    )
    .unwrap();
    assert_eq!(s.login, "octo");
    assert_eq!(s.name, "The Octocat");
    assert_eq!(s.bio, "hello");
    assert_eq!(s.location, "");
    assert_eq!(s.avatar_url, "https://a/u/1?v=4");
    assert_eq!(s.avatar_bytes, vec![1, 2, 3]);
    assert_eq!(s.avatar_mime, "image/png");
    assert_eq!(s.created_year, 2014);
    assert_eq!(s.created_iso, "2014-05-01T00:00:00Z");
    assert_eq!((s.followers, s.following), (10, 2));
    assert_eq!(s.total_contributions, 331);
    assert_eq!(
        (s.total_commits, s.total_prs, s.total_issues, s.total_reviews),
        (300, 20, 7, 4)
    );
    assert_eq!(s.lifetime_contributions, 1000);
    assert_eq!(s.lifetime_reviews, 3);
    assert_eq!((s.current_streak, s.longest_streak), (3, 3));
    assert_eq!((s.total_stars, s.total_forks), (50, 5));
    assert_eq!((s.public_repos, s.private_repos), (119, 1));
    assert_eq!(s.top_languages.total_bytes, 800);
    assert_eq!(s.top_languages.top[0].name, "Rust");
    assert_eq!(s.top_languages.top[1].name, "Go");
    assert_eq!(s.contribution_grid.len(), 2);
    assert_eq!(s.most_starred.as_ref().unwrap().name, "big");
    assert!(s.pinned.is_empty());
    assert!(s.contributed_to.is_empty());
}

#[test]
fn assemble_stats_without_optional_parts() {
    let options = FetchOptions { include_lifetime: false, fetch_avatar: false };
    let lifetime = YearTotals { contributions: 1000, commits: 800, prs: 50, issues: 9, reviews: 3 };
    let s = assemble_stats(
        user(None),
        &options,
        2014,
        lifetime,
        Some((vec![1], "image/gif".to_string())),
        "",
    )
    .unwrap();
    assert_eq!(s.name, "octo");
    assert!(s.avatar_bytes.is_empty());
    assert_eq!(s.avatar_mime, "");
    assert_eq!(
        (
            s.lifetime_contributions,
            s.lifetime_commits,
            s.lifetime_prs,
            s.lifetime_issues,
            s.lifetime_reviews
        ),
        (0, 0, 0, 0, 0)
    );
    assert_eq!(s.top_languages.total_bytes, 1100);
    assert_eq!(s.top_languages.top[1].name, "HTML");
}

#[test]
fn assemble_stats_failed_avatar_is_empty() {
    let options = FetchOptions { include_lifetime: false, fetch_avatar: true };
    let lifetime = YearTotals { contributions: 0, commits: 0, prs: 0, issues: 0, reviews: 0 };
    let s = assemble_stats(user(None), &options, 2014, lifetime, None, "").unwrap();
    assert!(s.avatar_bytes.is_empty());
    assert_eq!(s.avatar_mime, "");
}

#[test]
fn assemble_stats_refuses_overflowing_stars() {
    let mut u = user(None);
    u.repositories.nodes.push(repo("huge", u32::MAX, 0, false, vec![]));
    let options = FetchOptions { include_lifetime: false, fetch_avatar: false };
    let lifetime = YearTotals { contributions: 0, commits: 0, prs: 0, issues: 0, reviews: 0 };
    assert!(assemble_stats(u, &options, 2014, lifetime, None, "").is_none());
}
