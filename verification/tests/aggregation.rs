use productui::config::{GitHubSettings, PRFilter, Settings};
use productui::pull_requests::{
    LoadingState, PullRequest, PullRequestListState, RawPullRequest, Repo,
};

fn raw(number: u64, title: &str, repo: &str, author: &str) -> RawPullRequest {
    RawPullRequest {
        number,
        title: Some(title.to_string()),
        repo: repo.to_string(),
        url: Some(format!("https://example.test/{}/{}", repo, number)),
        body: None,
        requested_reviewers: None,
        assignees: None,
        labels: None,
        author: author.to_string(),
    }
}

fn settings(filters: Vec<PRFilter>) -> GitHubSettings {
    GitHubSettings {
        github_token: None,
        repos: vec![Repo("acme".to_string(), "widgets".to_string())],
        labels: vec![],
        filters,
    }
}

#[test]
fn created_filter_keeps_own_pull_requests() {
    let config = settings(vec![PRFilter::Created]);
    let mut state = PullRequestListState::new();
    let page = vec![
        raw(1, "fix parser", "widgets", "alice"),
        raw(2, "add feature", "widgets", "bob"),
    ];
    state.fetch_pulls(&config, Some("alice".to_string()), &vec![Ok(page)]);
    assert_eq!(state.loading_state, LoadingState::Loaded);
    assert_eq!(state.pull_requests.len(), 1);
    assert_eq!(state.pull_requests[0].title, "fix parser");
    assert_eq!(state.selected, Some(0));
}

#[test]
fn assigned_filter_is_permissive_without_identity() {
    let config = settings(vec![PRFilter::Assigned]);
    let mut state = PullRequestListState::new();
    let page = vec![
        raw(1, "fix parser", "widgets", "alice"),
        raw(2, "add feature", "widgets", "bob"),
    ];
    state.fetch_pulls(&config, None, &vec![Ok(page)]);
    assert_eq!(state.loading_state, LoadingState::Loaded);
    assert_eq!(state.pull_requests.len(), 2);
    assert_eq!(state.authed_login, None);
}

#[test]
fn failed_repo_keeps_other_results_and_error_message() {
    let config = settings(vec![PRFilter::Created]);
    let mut state = PullRequestListState::new();
    let page = vec![raw(7, "late but here", "gears", "alice")];
    state.fetch_pulls(
        &config,
        Some("alice".to_string()),
        &vec![Err("rate limited".to_string()), Ok(page)],
    );
    assert_eq!(state.loading_state, LoadingState::Error("rate limited".to_string()));
    assert_eq!(state.pull_requests.len(), 1);
    assert_eq!(state.pull_requests[0].repo, "gears");
}

#[test]
fn empty_repository_list_still_completes() {
    let config = settings(vec![PRFilter::Created]);
    let mut state = PullRequestListState::new();
    assert_eq!(state.loading_state, LoadingState::Idle);
    state.fetch_pulls(&config, None, &vec![]);
    assert_eq!(state.loading_state, LoadingState::Loaded);
    assert!(state.pull_requests.is_empty());
    assert_eq!(state.selected, None);
    assert_eq!(state.open_pr(), None);
}

#[test]
fn merges_keep_the_list_sorted() {
    let config = settings(vec![PRFilter::Created]);
    let mut state = PullRequestListState::new();
    // ids sort as strings: "1" < "10" < "2"
    state.on_load(&vec![raw(10, "ten", "widgets", "alice")], &config);
    state.on_load(&vec![raw(2, "two", "widgets", "alice")], &config);
    state.on_load(&vec![raw(1, "one", "widgets", "alice")], &config);
    let ids: Vec<&str> = state.pull_requests.iter().map(|p| p.id.as_str()).collect();
    assert_eq!(ids, vec!["1", "10", "2"]);
    let mut resorted = state.pull_requests.clone();
    resorted.sort();
    assert_eq!(resorted, state.pull_requests);
}

#[test]
fn merging_an_empty_page_changes_nothing_once_loaded() {
    let config = settings(vec![PRFilter::Created]);
    let mut state = PullRequestListState::new();
    state.on_load(&vec![raw(3, "three", "widgets", "alice")], &config);
    assert_eq!(state.loading_state, LoadingState::Loaded);
    let before = state.pull_requests.clone();
    let selected = state.selected;
    state.on_load(&vec![], &config);
    assert_eq!(state.loading_state, LoadingState::Loaded);
    assert_eq!(state.pull_requests, before);
    assert_eq!(state.selected, selected);
}

#[test]
fn selection_saturates_at_both_ends() {
    let config = settings(vec![PRFilter::Created]);
    let mut state = PullRequestListState::new();
    state.scroll_up();
    state.scroll_down();
    assert_eq!(state.selected, None);
    state.on_load(
        &vec![raw(1, "one", "widgets", "alice"), raw(2, "two", "widgets", "alice")],
        &config,
    );
    assert_eq!(state.selected, Some(0));
    state.scroll_up();
    assert_eq!(state.selected, Some(0));
    state.scroll_down();
    assert_eq!(state.selected, Some(1));
    state.scroll_down();
    assert_eq!(state.selected, Some(1));
    state.on_load(&vec![raw(3, "three", "widgets", "alice")], &config);
    assert_eq!(state.selected, Some(1));
    assert!(state.selected.unwrap() < state.pull_requests.len());
}

#[test]
fn empty_filter_list_rejects_everything() {
    // The fold over zero enabled predicates yields false: nothing is kept.
    let config = settings(vec![]);
    let mut state = PullRequestListState::new();
    state.fetch_pulls(
        &config,
        Some("alice".to_string()),
        &vec![Ok(vec![raw(1, "fix parser", "widgets", "alice")])],
    );
    assert_eq!(state.loading_state, LoadingState::Loaded);
    assert!(state.pull_requests.is_empty());
    assert_eq!(state.selected, None);
}

#[test]
fn record_without_title_is_skipped() {
    let config = settings(vec![PRFilter::Created]);
    let mut state = PullRequestListState::new();
    let mut untitled = raw(9, "ignored", "widgets", "alice");
    untitled.title = None;
    state.on_load(&vec![untitled, raw(4, "kept", "widgets", "alice")], &config);
    assert_eq!(state.pull_requests.len(), 1);
    assert_eq!(state.pull_requests[0].title, "kept");
}

#[test]
fn from_raw_maps_fields_and_defaults_url() {
    let mut pr = raw(7, "seven", "widgets", "alice");
    pr.url = None;
    let display = PullRequest::from_raw(&pr).unwrap();
    assert_eq!(display.id, "7");
    assert_eq!(display.title, "seven");
    assert_eq!(display.repo, "widgets");
    assert_eq!(display.url, "");
    let mut untitled = raw(8, "x", "widgets", "alice");
    untitled.title = None;
    assert!(PullRequest::from_raw(&untitled).is_none());
}

#[test]
fn open_pr_returns_selected_url() {
    let config = settings(vec![PRFilter::Created]);
    let mut state = PullRequestListState::new();
    assert_eq!(state.open_pr(), None);
    state.on_load(&vec![raw(5, "five", "widgets", "alice")], &config);
    assert_eq!(state.open_pr(), Some("https://example.test/widgets/5".to_string()));
}

#[test]
fn header_labels_reflect_state() {
    let mut state = PullRequestListState::new();
    assert_eq!(state.user_label(), "No Auth Token");
    assert_eq!(state.loading_label(), "Idle");
    state.set_authed_user(Some("alice".to_string()));
    assert_eq!(state.user_label(), "alice");
    state.set_loading_state(LoadingState::Loading);
    assert_eq!(state.loading_label(), "Loading");
    state.on_err("boom".to_string());
    assert_eq!(state.loading_label(), "Error: boom");
}

#[test]
fn an_error_does_not_discard_loaded_rows() {
    let config = settings(vec![PRFilter::Created]);
    let mut state = PullRequestListState::new();
    state.on_load(&vec![raw(1, "one", "widgets", "alice")], &config);
    state.on_err("down".to_string());
    assert_eq!(state.loading_state, LoadingState::Error("down".to_string()));
    assert_eq!(state.pull_requests.len(), 1);
    // a later success merges rows but keeps the error of this cycle
    state.on_load(&vec![raw(2, "two", "widgets", "alice")], &config);
    assert_eq!(state.loading_state, LoadingState::Error("down".to_string()));
    assert_eq!(state.pull_requests.len(), 2);
}

#[test]
fn render_rows_lists_title_and_repo() {
    let config = settings(vec![PRFilter::Created]);
    let mut state = PullRequestListState::new();
    state.on_load(
        &vec![raw(1, "one", "widgets", "alice"), raw(2, "two", "gears", "alice")],
        &config,
    );
    let rows = state.render_rows();
    assert_eq!(rows.len(), 2);
    assert_eq!(rows[0], ("one".to_string(), "widgets".to_string()));
    assert_eq!(rows[1], ("two".to_string(), "gears".to_string()));
}

#[test]
fn settings_new_wraps_host_configuration() {
    let gh = GitHubSettings {
        github_token: None,
        repos: vec![Repo("acme".to_string(), "widgets".to_string())],
        labels: vec!["bug".to_string()],
        filters: vec![PRFilter::Labels],
    };
    let s = Settings::new(gh);
    assert_eq!(s.github.repos.len(), 1);
    assert_eq!(s.github.labels[0], "bug");
    assert_eq!(s.github.repos[0].0, "acme");
}
