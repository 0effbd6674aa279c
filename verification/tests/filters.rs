use productui::config::{GitHubSettings, PRFilter};
use productui::pull_requests::{pr_filter, RawPullRequest};
use productui::text::{str_cmp, str_contains, u64_to_dec, Cmp};

fn candidate() -> RawPullRequest {
    RawPullRequest {
        number: 42,
        title: Some("improve docs".to_string()),
        repo: "widgets".to_string(),
        url: None,
        body: Some("please look, @alice".to_string()),
        requested_reviewers: Some(vec!["bob".to_string(), "carol".to_string()]),
        assignees: Some(vec!["dave".to_string()]),
        labels: Some(vec!["bug".to_string(), "docs".to_string()]),
        author: "erin".to_string(),
    }
}

fn config_with(filters: Vec<PRFilter>, labels: Vec<String>) -> GitHubSettings {
    GitHubSettings { github_token: None, repos: vec![], labels, filters }
}

#[test]
fn review_requested_matches_reviewer_set() {
    let config = config_with(vec![PRFilter::ReviewRequested], vec![]);
    let pr = candidate();
    assert!(pr_filter(&config, &pr, &Some("bob".to_string())));
    assert!(!pr_filter(&config, &pr, &Some("alice".to_string())));
    assert!(pr_filter(&config, &pr, &None));
}

#[test]
fn mentions_matches_literal_at_login() {
    let config = config_with(vec![PRFilter::Mentions], vec![]);
    let pr = candidate();
    assert!(pr_filter(&config, &pr, &Some("alice".to_string())));
    assert!(!pr_filter(&config, &pr, &Some("bob".to_string())));
    let mut bodyless = candidate();
    bodyless.body = None;
    assert!(!pr_filter(&config, &bodyless, &Some("alice".to_string())));
}

#[test]
fn labels_matches_allow_list_overlap() {
    let pr = candidate();
    let hit = config_with(vec![PRFilter::Labels], vec!["bug".to_string()]);
    assert!(pr_filter(&hit, &pr, &Some("alice".to_string())));
    let miss = config_with(vec![PRFilter::Labels], vec!["urgent".to_string()]);
    assert!(!pr_filter(&miss, &pr, &Some("alice".to_string())));
    // an empty allow-list is permissive
    let empty = config_with(vec![PRFilter::Labels], vec![]);
    assert!(pr_filter(&empty, &pr, &Some("alice".to_string())));
    let mut unlabeled = candidate();
    unlabeled.labels = None;
    assert!(!pr_filter(&miss, &unlabeled, &Some("alice".to_string())));
}

#[test]
fn assigned_matches_assignee_set() {
    let config = config_with(vec![PRFilter::Assigned], vec![]);
    let pr = candidate();
    assert!(pr_filter(&config, &pr, &Some("dave".to_string())));
    assert!(!pr_filter(&config, &pr, &Some("alice".to_string())));
}

#[test]
fn created_matches_author() {
    let config = config_with(vec![PRFilter::Created], vec![]);
    let pr = candidate();
    assert!(pr_filter(&config, &pr, &Some("erin".to_string())));
    assert!(!pr_filter(&config, &pr, &Some("alice".to_string())));
}

#[test]
fn any_single_matching_filter_retains() {
    // the candidate is authored by erin, so only Created matches for erin;
    // disabling it drops the candidate, enabling it alongside misses keeps it
    let pr = candidate();
    let user = Some("erin".to_string());
    let none_match = config_with(vec![PRFilter::ReviewRequested, PRFilter::Assigned], vec![]);
    assert!(!pr_filter(&none_match, &pr, &user));
    let one_match = config_with(
        vec![PRFilter::ReviewRequested, PRFilter::Assigned, PRFilter::Created],
        vec![],
    );
    assert!(pr_filter(&one_match, &pr, &user));
}

#[test]
fn decimal_rendering_matches_expected() {
    assert_eq!(u64_to_dec(0), "0");
    assert_eq!(u64_to_dec(7), "7");
    assert_eq!(u64_to_dec(905), "905");
    assert_eq!(u64_to_dec(18446744073709551615), "18446744073709551615");
}

#[test]
fn substring_search_finds_runs() {
    assert!(str_contains("hello @alice!", "@alice"));
    assert!(!str_contains("hello @alicia", "@alice"));
    assert!(str_contains("anything", ""));
    assert!(!str_contains("", "x"));
}

#[test]
fn string_comparison_is_lexicographic() {
    assert_eq!(str_cmp("1", "10"), Cmp::Lt);
    assert_eq!(str_cmp("10", "2"), Cmp::Lt);
    assert_eq!(str_cmp("abc", "abc"), Cmp::Eq);
    assert_eq!(str_cmp("b", "abc"), Cmp::Gt);
    assert_eq!(str_cmp("", "a"), Cmp::Lt);
}
