//! Typed configuration for the pull-request aggregator: which repositories
//! to query, which filter kinds are enabled, the label allow-list, and the
//! optional credential. Resolving a configuration file or the environment
//! into these values is the embedding application's job; this module only
//! defines the types and their mathematical views.

use vstd::prelude::*;

use crate::pull_requests::Repo;
use crate::text::opt_str_view;
use crate::text::strs_view;

verus! {

/// The kinds of relevance filter a pull request can be tested against.
/// Each kind is a pure predicate over (candidate, authenticated login,
/// label allow-list); see [`crate::pull_requests::filter_matches`].
#[derive(Debug, Clone)]
pub enum PRFilter {
    ReviewRequested,
    Mentions,
    Labels,
    Assigned,
    Created,
}

/// Settings for one repository host: optional personal token, the ordered
/// repository list, the label allow-list, and the enabled filter kinds.
#[derive(Debug, Clone, Default)]
pub struct GitHubSettings {
    pub github_token: Option<String>,
    pub repos: Vec<Repo>,
    pub labels: Vec<String>,
    pub filters: Vec<PRFilter>,
}

/// Mathematical view of [`GitHubSettings`].
pub struct GitHubSettingsView {
    pub github_token: Option<Seq<char>>,
    pub repos: Seq<(Seq<char>, Seq<char>)>,
    pub labels: Seq<Seq<char>>,
    pub filters: Seq<PRFilter>,
}

impl View for GitHubSettings {
    type V = GitHubSettingsView;

    open spec fn view(&self) -> GitHubSettingsView {
        GitHubSettingsView {
            github_token: opt_str_view(self.github_token),
            repos: self.repos@.map_values(|r: Repo| r@),
            labels: strs_view(self.labels@),
            filters: self.filters@,
        }
    }
}

/// Top-level application settings.
#[derive(Debug, Clone, Default)]
pub struct Settings {
    pub github: GitHubSettings,
}

impl Settings {
    /// Builds the settings from an already-resolved host configuration.
    pub fn new(github: GitHubSettings) -> (s: Self)
        ensures
            s.github == github,
    {
        Settings { github }
    }
}

} // verus!
