use statsvg_rs::languages::{
    aggregate_languages, compute_languages, is_hidden_language, language_chart,
    parse_hidden_languages, top_languages, total_edge_bytes, visible_edges,
};
use statsvg_rs::model::{Language, LanguageConnection, LanguageEdge, LanguageShare, RepoNode};

fn edge(name: &str, color: Option<&str>, size: u64) -> LanguageEdge {
    LanguageEdge {
        size,
        node: Language { name: name.to_string(), color: color.map(|c| c.to_string()) },
    }
}

fn repo(edges: Vec<LanguageEdge>) -> RepoNode {
    RepoNode {
        name: "r".to_string(),
        description: None,
        stargazer_count: 0,
        fork_count: 0,
        is_private: false,
        primary_language: None,
        languages: LanguageConnection { edges },
    }
}

fn share(name: &str, color: &str, bytes: u64) -> LanguageShare {
    LanguageShare { name: name.to_string(), color: color.to_string(), bytes }
}

fn summary(v: &[LanguageShare]) -> Vec<(String, String, u64)> {
    v.iter().map(|s| (s.name.clone(), s.color.clone(), s.bytes)).collect()
}

#[test]
fn hidden_setting_is_trimmed_lowercased_and_filtered() {
    assert_eq!(parse_hidden_languages(" HTML , Css,,  "), vec!["html", "css"]);
    assert!(parse_hidden_languages("").is_empty());
    assert!(parse_hidden_languages(" , ").is_empty());
    assert_eq!(parse_hidden_languages("Jupyter Notebook"), vec!["jupyter notebook"]);
}

#[test]
fn hiding_ignores_letter_case_of_the_name() {
    let hidden = parse_hidden_languages("html");
    assert!(is_hidden_language(&hidden, &"HTML".to_string()));
    assert!(is_hidden_language(&hidden, &"Html".to_string()));
    assert!(!is_hidden_language(&hidden, &"CSS".to_string()));
}

#[test]
fn aggregation_sums_bytes_per_language_in_first_appearance_order() {
    let edges = vec![
        edge("Rust", Some("#dea584"), 100),
        edge("Go", None, 50),
        edge("Rust", Some("#000000"), 25),
    ];
    let entries = aggregate_languages(&edges);
    assert_eq!(
        summary(&entries),
        vec![
            ("Rust".to_string(), "#dea584".to_string(), 125),
            ("Go".to_string(), "#888".to_string(), 50),
        ]
    );
}

#[test]
fn top_five_by_bytes_ties_keep_order() {
    let entries = vec![
        share("A", "#1", 10),
        share("B", "#2", 30),
        share("C", "#3", 20),
        share("D", "#4", 30),
        share("E", "#5", 5),
        share("F", "#6", 40),
        share("G", "#7", 1),
    ];
    let top = top_languages(&entries);
    let names: Vec<String> = top.iter().map(|s| s.name.clone()).collect();
    assert_eq!(names, vec!["F", "B", "D", "C", "A"]);
}

#[test]
fn top_of_fewer_than_five_is_all_sorted() {
    let entries = vec![share("A", "#1", 1), share("B", "#2", 3)];
    let names: Vec<String> = top_languages(&entries).iter().map(|s| s.name.clone()).collect();
    assert_eq!(names, vec!["B", "A"]);
    assert!(top_languages(&vec![]).is_empty());
}

#[test]
fn chart_of_zero_bytes_is_empty() {
    let chart = language_chart(&vec![edge("Rust", None, 0)]);
    assert_eq!(chart.total_bytes, 0);
    assert!(chart.top.is_empty());
}

#[test]
fn chart_total_counts_languages_beyond_the_top() {
    let edges: Vec<LanguageEdge> =
        (1..=7u64).map(|i| edge(&format!("L{i}"), None, i * 10)).collect();
    let chart = language_chart(&edges);
    assert_eq!(chart.total_bytes, 280);
    assert_eq!(chart.top.len(), 5);
    assert_eq!(chart.top[0].name, "L7");
    assert_eq!(chart.top[4].name, "L3");
    let shown: u64 = chart.top.iter().map(|s| s.bytes).sum();
    assert!(shown <= chart.total_bytes);
}

#[test]
fn visible_edges_drop_hidden_languages() {
    let repos = vec![
        repo(vec![edge("HTML", None, 5), edge("Rust", None, 7)]),
        repo(vec![edge("html", None, 1), edge("CSS", None, 2)]),
    ];
    let hidden = parse_hidden_languages("Html");
    let v = visible_edges(&repos, &hidden);
    let names: Vec<String> = v.iter().map(|e| e.node.name.clone()).collect();
    assert_eq!(names, vec!["Rust", "CSS"]);
}

#[test]
fn compute_languages_hides_and_ranks() {
    let repos = vec![
        repo(vec![edge("HTML", Some("#e34c26"), 500), edge("Rust", Some("#dea584"), 300)]),
        repo(vec![edge("Rust", Some("#dea584"), 100), edge("Shell", None, 50)]),
    ];
    let chart = compute_languages(&repos, "html").unwrap();
    assert_eq!(chart.total_bytes, 450);
    assert_eq!(
        summary(&chart.top),
        vec![
            ("Rust".to_string(), "#dea584".to_string(), 400),
            ("Shell".to_string(), "#888".to_string(), 50),
        ]
    );
    let all = compute_languages(&repos, "").unwrap();
    assert_eq!(all.total_bytes, 950);
    assert_eq!(all.top[0].name, "HTML");
    let names: Vec<&str> = all.top.iter().map(|s| s.name.as_str()).collect();
    assert_eq!(names, vec!["HTML", "Rust", "Shell"]);
}

#[test]
fn compute_languages_refuses_overflowing_bytes() {
    let repos = vec![repo(vec![edge("A", None, u64::MAX), edge("B", None, 1)])];
    assert!(compute_languages(&repos, "").is_none());
    assert_eq!(compute_languages(&repos, "b").unwrap().total_bytes, u64::MAX);
    assert_eq!(total_edge_bytes(&vec![edge("A", None, u64::MAX), edge("B", None, 1)]), None);
    assert_eq!(total_edge_bytes(&vec![edge("A", None, 3), edge("B", None, 4)]), Some(7));
}

#[test]
fn reordering_repositories_keeps_the_chart() {
    let repos = vec![
        repo(vec![edge("Rust", Some("#dea584"), 300), edge("Go", Some("#00ADD8"), 20)]),
        repo(vec![edge("Go", Some("#00ADD9"), 10), edge("C", None, 70)]),
        repo(vec![edge("Rust", Some("#dea584"), 1), edge("Shell", None, 5)]),
    ];
    let reversed: Vec<RepoNode> = {
        let mut v = Vec::new();
        for r in repos.iter().rev() {
            v.push(repo(
                r.languages
                    .edges
                    .iter()
                    .map(|e| edge(&e.node.name, e.node.color.as_deref(), e.size))
                    .collect(),
            ));
        }
        v
    };
    let a = compute_languages(&repos, "").unwrap();
    let b = compute_languages(&reversed, "").unwrap();
    assert_eq!(a.total_bytes, b.total_bytes);
    let key = |c: &statsvg_rs::model::LanguageChart| -> Vec<(String, u64)> {
        c.top.iter().map(|s| (s.name.clone(), s.bytes)).collect()
    };
    assert_eq!(key(&a), key(&b));
    assert_eq!(key(&a)[0], ("Rust".to_string(), 301));
    // only the colour of Go changes: its first edge differs
    assert_eq!(a.top.iter().find(|s| s.name == "Go").unwrap().color, "#00ADD8");
    assert_eq!(b.top.iter().find(|s| s.name == "Go").unwrap().color, "#00ADD9");
}

#[test]
fn blank_setting_hides_nothing() {
    assert!(parse_hidden_languages("").is_empty());
    assert!(parse_hidden_languages(" ,\t, ").is_empty());
    let repos = vec![repo(vec![edge("HTML", None, 5), edge("Rust", None, 7)])];
    assert_eq!(compute_languages(&repos, "").unwrap().total_bytes, 12);
    assert_eq!(compute_languages(&repos, " , ").unwrap().total_bytes, 12);
}
