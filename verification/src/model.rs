//! The data the stats cards are computed from, as the GitHub GraphQL API
//! hands it over, and the values computed from it.

use vstd::prelude::*;

verus! {

// ---------------------------------------------------------------------------
// What the GraphQL API answers (plain values; parsing happens at the edge)
// ---------------------------------------------------------------------------

/// A `{ totalCount }` object.
pub struct Count {
    pub total_count: u32,
}

/// A programming language as GitHub reports it.
pub struct Language {
    pub name: String,
    pub color: Option<String>,
}

/// One language of one repository, with the number of bytes written in it.
pub struct LanguageEdge {
    pub size: u64,
    pub node: Language,
}

pub struct LanguageConnection {
    pub edges: Vec<LanguageEdge>,
}

/// An owned repository.
pub struct RepoNode {
    pub name: String,
    pub description: Option<String>,
    pub stargazer_count: u32,
    pub fork_count: u32,
    pub is_private: bool,
    pub primary_language: Option<Language>,
    pub languages: LanguageConnection,
}

pub struct RepoConnection {
    /// Number of all matching repositories, not only those in `nodes`.
    pub total_count: u32,
    pub nodes: Vec<RepoNode>,
}

/// One day of the contribution calendar.
pub struct ContributionDay {
    pub contribution_count: u32,
    pub date: String,
}

pub struct ContributionWeek {
    pub contribution_days: Vec<ContributionDay>,
}

pub struct ContributionCalendar {
    pub total_contributions: u32,
    pub weeks: Vec<ContributionWeek>,
}

pub struct ContributionsCollection {
    pub total_commit_contributions: u32,
    pub total_pull_request_contributions: u32,
    pub total_issue_contributions: u32,
    pub total_pull_request_review_contributions: u32,
    pub contribution_calendar: ContributionCalendar,
}

/// A pinned item; every field may be missing when the item is no repository.
pub struct PinnedNode {
    pub name: Option<String>,
    pub description: Option<String>,
    pub stargazer_count: Option<u32>,
    pub fork_count: Option<u32>,
    pub primary_language: Option<Language>,
}

pub struct PinnedItems {
    pub nodes: Vec<PinnedNode>,
}

/// A repository the user contributed to without owning it.
pub struct ContributedNode {
    pub name_with_owner: String,
    pub stargazer_count: u32,
    pub primary_language: Option<Language>,
}

pub struct ContributedConnection {
    pub nodes: Vec<ContributedNode>,
}

/// The `user` object of the profile query.
pub struct GqlUser {
    pub name: Option<String>,
    pub login: String,
    pub bio: Option<String>,
    pub company: Option<String>,
    pub location: Option<String>,
    pub avatar_url: String,
    pub created_at: String,
    pub followers: Count,
    pub following: Count,
    pub repositories: RepoConnection,
    pub contributions_collection: ContributionsCollection,
    pub pinned_items: PinnedItems,
    pub repositories_contributed_to: ContributedConnection,
}

/// The `data` object of a GraphQL answer.
pub struct GqlData {
    pub user: Option<GqlUser>,
}

/// The `data` object of the answer to a one-year query.
pub struct YearGqlData {
    pub user: Option<YearUser>,
}

pub struct YearUser {
    pub contributions_collection: ContributionsCollection,
}

// ---------------------------------------------------------------------------
// What the library computes
// ---------------------------------------------------------------------------

/// The five contribution totals of one period, in the order
/// contributions, commits, pull requests, issues, reviews.
#[derive(Clone, Copy, PartialEq, Eq, Structural, Debug)]
pub struct YearTotals {
    pub contributions: u32,
    pub commits: u32,
    pub prs: u32,
    pub issues: u32,
    pub reviews: u32,
}

/// Which optional parts of the stats are fetched.
pub struct FetchOptions {
    pub include_lifetime: bool,
    pub fetch_avatar: bool,
}

/// Errors of the stats computation.
#[derive(Debug)]
pub enum AppError {
    /// No user of that login exists.
    NotFound(String),
}

/// A pinned repository as shown on the card.
#[derive(Clone, Debug)]
pub struct PinnedRepo {
    pub name: String,
    pub description: String,
    pub stars: u32,
    pub forks: u32,
    pub language: String,
    pub lang_color: String,
}

/// A repository the user contributed to, as shown on the card.
#[derive(Clone, Debug)]
pub struct ContributedRepo {
    pub name_with_owner: String,
    pub stars: u32,
    pub language: String,
    pub lang_color: String,
}

/// The user's most-starred owned repository.
#[derive(Clone, Debug)]
pub struct MostStarredRepo {
    pub name: String,
    pub stars: u32,
    pub forks: u32,
    pub language: String,
    pub lang_color: String,
}

/// One language of the language chart with its byte count; its share is
/// `bytes` out of the chart's total.
#[derive(Clone, Debug)]
pub struct LanguageShare {
    pub name: String,
    pub color: String,
    pub bytes: u64,
}

/// The languages chart: at most five languages, and the number of bytes
/// of all languages that were counted (the denominator of every share).
pub struct LanguageChart {
    pub top: Vec<LanguageShare>,
    pub total_bytes: u64,
}

/// Everything a card shows.
pub struct GitHubStats {
    pub login: String,
    pub name: String,
    pub bio: String,
    pub location: String,
    pub avatar_url: String,
    pub avatar_bytes: Vec<u8>,
    pub avatar_mime: String,
    pub created_year: i32,
    pub created_iso: String,
    pub followers: u32,
    pub following: u32,
    // last-year totals
    pub total_contributions: u32,
    pub total_commits: u32,
    pub total_prs: u32,
    pub total_issues: u32,
    pub total_reviews: u32,
    // lifetime totals
    pub lifetime_contributions: u32,
    pub lifetime_commits: u32,
    pub lifetime_prs: u32,
    pub lifetime_issues: u32,
    pub lifetime_reviews: u32,
    pub current_streak: u32,
    pub longest_streak: u32,
    pub total_stars: u32,
    pub total_forks: u32,
    pub public_repos: u32,
    pub private_repos: u32,
    pub top_languages: LanguageChart,
    pub contribution_grid: Vec<Vec<(String, u32)>>,
    pub pinned: Vec<PinnedRepo>,
    pub contributed_to: Vec<ContributedRepo>,
    pub most_starred: Option<MostStarredRepo>,
}

// ---------------------------------------------------------------------------
// Mathematical views of the card values
// ---------------------------------------------------------------------------

pub struct PinnedRepoView {
    pub name: Seq<char>,
    pub description: Seq<char>,
    pub stars: u32,
    pub forks: u32,
    pub language: Seq<char>,
    pub lang_color: Seq<char>,
}

pub struct ContributedRepoView {
    pub name_with_owner: Seq<char>,
    pub stars: u32,
    pub language: Seq<char>,
    pub lang_color: Seq<char>,
}

pub struct MostStarredRepoView {
    pub name: Seq<char>,
    pub stars: u32,
    pub forks: u32,
    pub language: Seq<char>,
    pub lang_color: Seq<char>,
}

pub struct LanguageShareView {
    pub name: Seq<char>,
    pub color: Seq<char>,
    pub bytes: int,
}

impl View for PinnedRepo {
    type V = PinnedRepoView;

    open spec fn view(&self) -> PinnedRepoView {
        PinnedRepoView {
            name: self.name@,
            description: self.description@,
            stars: self.stars,
            forks: self.forks,
            language: self.language@,
            lang_color: self.lang_color@,
        }
    }
}

impl View for ContributedRepo {
    type V = ContributedRepoView;

    open spec fn view(&self) -> ContributedRepoView {
        ContributedRepoView {
            name_with_owner: self.name_with_owner@,
            stars: self.stars,
            language: self.language@,
            lang_color: self.lang_color@,
        }
    }
}

impl View for MostStarredRepo {
    type V = MostStarredRepoView;

    open spec fn view(&self) -> MostStarredRepoView {
        MostStarredRepoView {
            name: self.name@,
            stars: self.stars,
            forks: self.forks,
            language: self.language@,
            lang_color: self.lang_color@,
        }
    }
}

impl View for LanguageShare {
    type V = LanguageShareView;

    open spec fn view(&self) -> LanguageShareView {
        LanguageShareView { name: self.name@, color: self.color@, bytes: self.bytes as int }
    }
}

/// The colour shown for a language that GitHub gives no colour.
pub open spec fn fallback_color() -> Seq<char> {
    seq!['#', '8', '8', '8']
}

/// The name of an optional language, or the empty text.
pub open spec fn language_name_or_empty(l: Option<Language>) -> Seq<char> {
    match l {
        Some(lang) => lang.name@,
        None => Seq::empty(),
    }
}

/// The colour of an optional language, or the fallback colour.
pub open spec fn language_color_or_fallback(l: Option<Language>) -> Seq<char> {
    match l {
        Some(lang) => match lang.color {
            Some(c) => c@,
            None => fallback_color(),
        },
        None => fallback_color(),
    }
}

/// An optional text, or the empty text.
pub open spec fn text_or_empty(t: Option<String>) -> Seq<char> {
    match t {
        Some(s) => s@,
        None => Seq::empty(),
    }
}

/// The text "#888" as a `String`.
pub fn fallback_color_string() -> (r: String)
    ensures
        r@ == fallback_color(),
{
    let r = String::from_str("#888");
    proof {
        reveal_strlit("#888");
    }
    assert(r@ =~= fallback_color());
    r
}

/// A copy of an optional text, or the empty text.
pub fn text_or_empty_string(t: &Option<String>) -> (r: String)
    ensures
        r@ == text_or_empty(*t),
{
    match t {
        Some(s) => s.clone(),
        None => String::new(),
    }
}

/// The name of an optional language, or the empty text.
pub fn language_name(l: &Option<Language>) -> (r: String)
    ensures
        r@ == language_name_or_empty(*l),
{
    match l {
        Some(lang) => lang.name.clone(),
        None => String::new(),
    }
}

/// The colour of an optional language, or "#888".
pub fn language_color(l: &Option<Language>) -> (r: String)
    ensures
        r@ == language_color_or_fallback(*l),
{
    match l {
        Some(lang) => match &lang.color {
            Some(c) => c.clone(),
            None => fallback_color_string(),
        },
        None => fallback_color_string(),
    }
}

} // verus!
