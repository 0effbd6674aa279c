//! The pull-request aggregation core: the display value type and its total
//! order, the raw host-provided record and the filter predicates over it,
//! the loading-state machine, and the shared list/selection state that the
//! outer render and input loops act on.

use vstd::prelude::*;
use vstd::string::StringExecFns;

use crate::config::GitHubSettings;
use crate::config::GitHubSettingsView;
use crate::config::PRFilter;
use crate::text::contains_seq;
use crate::text::dec_str;
use crate::text::lemma_lex_lt_asymmetric;
use crate::text::lemma_lex_lt_connected;
use crate::text::lemma_lex_lt_transitive;
use crate::text::lex_lt;
use crate::text::opt_str_view;
use crate::text::str_cmp;
use crate::text::str_contains;
use crate::text::strs_view;
use crate::text::u64_to_dec;
use crate::text::Cmp;

verus! {

/// One repository to query, as an (owner, name) pair.
#[derive(Debug, Clone, Default)]
pub struct Repo(pub String, pub String);

impl View for Repo {
    type V = (Seq<char>, Seq<char>);

    open spec fn view(&self) -> (Seq<char>, Seq<char>) {
        (self.0@, self.1@)
    }
}

/// A pull request as displayed: all fields are plain strings; the `id` is
/// the repository-scoped number in decimal. Field order here is the tie
/// order of the display sort: id, then title, then repo, then url.
#[derive(Debug, Clone, PartialEq, Eq, PartialOrd, Ord)]
pub struct PullRequest {
    pub id: String,
    pub title: String,
    pub repo: String,
    pub url: String,
}

/// Mathematical view of [`PullRequest`].
pub struct PullRequestView {
    pub id: Seq<char>,
    pub title: Seq<char>,
    pub repo: Seq<char>,
    pub url: Seq<char>,
}

impl View for PullRequest {
    type V = PullRequestView;

    open spec fn view(&self) -> PullRequestView {
        PullRequestView { id: self.id@, title: self.title@, repo: self.repo@, url: self.url@ }
    }
}

/// Strict part of the display order: fields compare lexicographically, with
/// ties broken in field order id, title, repo, url.
pub open spec fn pr_lt(a: PullRequestView, b: PullRequestView) -> bool {
    if a.id != b.id {
        lex_lt(a.id, b.id)
    } else if a.title != b.title {
        lex_lt(a.title, b.title)
    } else if a.repo != b.repo {
        lex_lt(a.repo, b.repo)
    } else {
        lex_lt(a.url, b.url)
    }
}

/// The total display order: two pull requests are equal only if every field
/// matches.
pub open spec fn pr_le(a: PullRequestView, b: PullRequestView) -> bool {
    a == b || pr_lt(a, b)
}

/// Facts about how two character sequences relate under `lex_lt`.
proof fn lemma_lex_facts(x: Seq<char>, y: Seq<char>)
    ensures
        x != y ==> (lex_lt(x, y) || lex_lt(y, x)),
        lex_lt(x, y) ==> !lex_lt(y, x),
        x == y ==> !lex_lt(x, y),
{
    if x != y {
        lemma_lex_lt_connected(x, y);
    }
    if lex_lt(x, y) {
        lemma_lex_lt_asymmetric(x, y);
    }
}

/// The display order relates any two pull requests one way or the other.
pub proof fn lemma_pr_le_total(a: PullRequestView, b: PullRequestView)
    ensures
        pr_le(a, b) || pr_le(b, a),
{
    lemma_lex_facts(a.id, b.id);
    lemma_lex_facts(a.title, b.title);
    lemma_lex_facts(a.repo, b.repo);
    lemma_lex_facts(a.url, b.url);
}

/// The display order is antisymmetric: mutually ordered pull requests are
/// equal in every field.
pub proof fn lemma_pr_le_antisymmetric(a: PullRequestView, b: PullRequestView)
    requires
        pr_le(a, b),
        pr_le(b, a),
    ensures
        a == b,
{
    lemma_lex_facts(a.id, b.id);
    lemma_lex_facts(a.title, b.title);
    lemma_lex_facts(a.repo, b.repo);
    lemma_lex_facts(a.url, b.url);
}

/// The display order is transitive.
pub proof fn lemma_pr_le_transitive(a: PullRequestView, b: PullRequestView, c: PullRequestView)
    requires
        pr_le(a, b),
        pr_le(b, c),
    ensures
        pr_le(a, c),
{
    lemma_lex_facts(a.id, b.id);
    lemma_lex_facts(b.id, c.id);
    lemma_lex_facts(a.id, c.id);
    lemma_lex_facts(a.title, b.title);
    lemma_lex_facts(b.title, c.title);
    lemma_lex_facts(a.title, c.title);
    lemma_lex_facts(a.repo, b.repo);
    lemma_lex_facts(b.repo, c.repo);
    lemma_lex_facts(a.repo, c.repo);
    lemma_lex_facts(a.url, b.url);
    lemma_lex_facts(b.url, c.url);
    lemma_lex_facts(a.url, c.url);
    if lex_lt(a.id, b.id) && lex_lt(b.id, c.id) {
        lemma_lex_lt_transitive(a.id, b.id, c.id);
    }
    if lex_lt(a.title, b.title) && lex_lt(b.title, c.title) {
        lemma_lex_lt_transitive(a.title, b.title, c.title);
    }
    if lex_lt(a.repo, b.repo) && lex_lt(b.repo, c.repo) {
        lemma_lex_lt_transitive(a.repo, b.repo, c.repo);
    }
    if lex_lt(a.url, b.url) && lex_lt(b.url, c.url) {
        lemma_lex_lt_transitive(a.url, b.url, c.url);
    }
}

/// Three-way comparison of two pull requests in the display order.
fn pr_cmp(a: &PullRequest, b: &PullRequest) -> (r: Cmp)
    ensures
        (r == Cmp::Lt) == pr_lt(a@, b@),
        (r == Cmp::Eq) == (a@ == b@),
        (r == Cmp::Gt) == pr_lt(b@, a@),
{
    let c = str_cmp(a.id.as_str(), b.id.as_str());
    match c {
        Cmp::Lt => Cmp::Lt,
        Cmp::Gt => Cmp::Gt,
        Cmp::Eq => {
            let c = str_cmp(a.title.as_str(), b.title.as_str());
            match c {
                Cmp::Lt => Cmp::Lt,
                Cmp::Gt => Cmp::Gt,
                Cmp::Eq => {
                    let c = str_cmp(a.repo.as_str(), b.repo.as_str());
                    match c {
                        Cmp::Lt => Cmp::Lt,
                        Cmp::Gt => Cmp::Gt,
                        Cmp::Eq => {
                            let c = str_cmp(a.url.as_str(), b.url.as_str());
                            match c {
                                Cmp::Lt => Cmp::Lt,
                                Cmp::Gt => Cmp::Gt,
                                Cmp::Eq => Cmp::Eq,
                            }
                        },
                    }
                },
            }
        },
    }
}

/// A pull request as the host reports it, reduced to the plain values the
/// core reads: the number, the base repository name, the author login, and
/// the optional title, web URL, body text, label names, and the login
/// lists the filter predicates consult.
#[derive(Debug, Clone, Default)]
pub struct RawPullRequest {
    pub number: u64,
    pub title: Option<String>,
    pub repo: String,
    pub url: Option<String>,
    pub body: Option<String>,
    pub requested_reviewers: Option<Vec<String>>,
    pub assignees: Option<Vec<String>>,
    pub labels: Option<Vec<String>>,
    pub author: String,
}

/// Mathematical view of [`RawPullRequest`].
pub struct RawPullRequestView {
    pub number: u64,
    pub title: Option<Seq<char>>,
    pub repo: Seq<char>,
    pub url: Option<Seq<char>>,
    pub body: Option<Seq<char>>,
    pub requested_reviewers: Option<Seq<Seq<char>>>,
    pub assignees: Option<Seq<Seq<char>>>,
    pub labels: Option<Seq<Seq<char>>>,
    pub author: Seq<char>,
}

/// The view of an optional list of strings.
pub open spec fn opt_strs_view(o: Option<Vec<String>>) -> Option<Seq<Seq<char>>> {
    match o {
        Option::Some(v) => Option::Some(strs_view(v@)),
        Option::None => Option::None,
    }
}

impl View for RawPullRequest {
    type V = RawPullRequestView;

    open spec fn view(&self) -> RawPullRequestView {
        RawPullRequestView {
            number: self.number,
            title: opt_str_view(self.title),
            repo: self.repo@,
            url: opt_str_view(self.url),
            body: opt_str_view(self.body),
            requested_reviewers: opt_strs_view(self.requested_reviewers),
            assignees: opt_strs_view(self.assignees),
            labels: opt_strs_view(self.labels),
            author: self.author@,
        }
    }
}

/// An absent list of logins contains nobody.
pub open spec fn logins_contain(list: Option<Seq<Seq<char>>>, login: Seq<char>) -> bool {
    match list {
        Option::Some(l) => l.contains(login),
        Option::None => false,
    }
}

/// An absent body reads as empty text.
pub open spec fn body_text(body: Option<Seq<char>>) -> Seq<char> {
    match body {
        Option::Some(t) => t,
        Option::None => Seq::empty(),
    }
}

/// The literal `@login` substring a Mentions filter looks for.
pub open spec fn mention_needle(login: Seq<char>) -> Seq<char> {
    seq!['@'] + login
}

/// One filter kind's predicate over a raw pull request, the authenticated
/// login (if identity resolution succeeded) and the label allow-list.
/// Filters that need an identity match everything when none is known; the
/// Labels filter matches everything when the allow-list is empty.
pub open spec fn filter_matches(
    f: PRFilter,
    pr: RawPullRequestView,
    authed: Option<Seq<char>>,
    allow: Seq<Seq<char>>,
) -> bool {
    match f {
        PRFilter::ReviewRequested => match authed {
            Option::Some(u) => logins_contain(pr.requested_reviewers, u),
            Option::None => true,
        },
        PRFilter::Mentions => match authed {
            Option::Some(u) => contains_seq(body_text(pr.body), mention_needle(u)),
            Option::None => true,
        },
        PRFilter::Labels => allow.len() == 0 || (match pr.labels {
            Option::Some(ls) => exists|i: int| 0 <= i < ls.len() && allow.contains(ls[i]),
            Option::None => false,
        }),
        PRFilter::Assigned => match authed {
            Option::Some(u) => logins_contain(pr.assignees, u),
            Option::None => true,
        },
        PRFilter::Created => match authed {
            Option::Some(u) => pr.author == u,
            Option::None => true,
        },
    }
}

/// The aggregate predicate: a candidate is retained iff at least one
/// enabled filter's predicate is true. With no enabled filters nothing is
/// retained.
pub open spec fn retained(
    pr: RawPullRequestView,
    authed: Option<Seq<char>>,
    allow: Seq<Seq<char>>,
    filters: Seq<PRFilter>,
) -> bool {
    exists|i: int| 0 <= i < filters.len() && filter_matches(filters[i], pr, authed, allow)
}

/// If no enabled filter matches a candidate, the candidate is dropped.
pub proof fn lemma_not_retained(
    pr: RawPullRequestView,
    authed: Option<Seq<char>>,
    allow: Seq<Seq<char>>,
    filters: Seq<PRFilter>,
)
    requires
        forall|i: int| 0 <= i < filters.len() ==> !filter_matches(filters[i], pr, authed, allow),
    ensures
        !retained(pr, authed, allow, filters),
{
}

/// Enabling any one filter whose predicate is true retains the candidate,
/// whatever the other enabled filters say.
pub proof fn lemma_one_match_retains(
    f: PRFilter,
    pr: RawPullRequestView,
    authed: Option<Seq<char>>,
    allow: Seq<Seq<char>>,
    filters: Seq<PRFilter>,
)
    requires
        filters.contains(f),
        filter_matches(f, pr, authed, allow),
    ensures
        retained(pr, authed, allow, filters),
{
    let i = choose|i: int| 0 <= i < filters.len() && filters[i] == f;
    assert(filter_matches(filters[i], pr, authed, allow));
}

/// Does this login appear in the (possibly absent) list?
fn login_list_contains(list: &Option<Vec<String>>, login: &String) -> (r: bool)
    ensures
        r == logins_contain(opt_strs_view(*list), login@),
{
    match list {
        Option::Some(l) => str_list_contains(l, login),
        Option::None => false,
    }
}

/// Does any of the candidate's labels appear in the allow-list?
fn labels_overlap(labels: &Option<Vec<String>>, allow: &Vec<String>) -> (r: bool)
    ensures
        r == (match opt_strs_view(*labels) {
            Option::Some(ls) => exists|i: int|
                0 <= i < ls.len() && strs_view(allow@).contains(ls[i]),
            Option::None => false,
        }),
{
    match labels {
        Option::Some(ls) => labels_overlap_vec(ls, allow),
        Option::None => false,
    }
}

/// Does any string of the first list appear in the second?
fn labels_overlap_vec(ls: &Vec<String>, allow: &Vec<String>) -> (r: bool)
    ensures
        r == (exists|i: int|
            0 <= i < strs_view(ls@).len() && strs_view(allow@).contains(strs_view(ls@)[i])),
{
    let mut i: usize = 0;
    while i < ls.len()
        invariant
            i <= ls@.len(),
            forall|k: int| 0 <= k < i ==> !strs_view(allow@).contains(strs_view(ls@)[k]),
        decreases ls@.len() - i,
    {
        if str_list_contains(allow, &ls[i]) {
            proof {
                assert(strs_view(ls@)[i as int] == ls@[i as int]@);
                assert(strs_view(allow@).contains(strs_view(ls@)[i as int]));
            }
            return true;
        }
        i += 1;
    }
    proof {
        if exists|k: int| 0 <= k < strs_view(ls@).len() && strs_view(allow@).contains(
            strs_view(ls@)[k],
        ) {
            let k = choose|k: int| 0 <= k < strs_view(ls@).len() && strs_view(allow@).contains(
                strs_view(ls@)[k],
            );
            assert(false);
        }
    }
    false
}

/// Does this string appear in the list?
fn str_list_contains(list: &Vec<String>, s: &String) -> (r: bool)
    ensures
        r == strs_view(list@).contains(s@),
{
    let mut i: usize = 0;
    while i < list.len()
        invariant
            i <= list@.len(),
            forall|k: int| 0 <= k < i ==> strs_view(list@)[k] != s@,
        decreases list@.len() - i,
    {
        if list[i].eq(s) {
            proof {
                assert(strs_view(list@).contains(s@)) by {
                    assert(strs_view(list@)[i as int] == s@);
                }
            }
            return true;
        }
        i += 1;
    }
    proof {
        if strs_view(list@).contains(s@) {
            let k = choose|k: int| 0 <= k < strs_view(list@).len() && strs_view(list@)[k] == s@;
            assert(false);
        }
    }
    false
}

/// Evaluates one filter kind against a raw pull request.
fn filter_matches_exec(
    f: &PRFilter,
    pr: &RawPullRequest,
    authed_user: &Option<String>,
    allow: &Vec<String>,
) -> (r: bool)
    ensures
        r == filter_matches(*f, pr@, opt_str_view(*authed_user), strs_view(allow@)),
{
    match f {
        PRFilter::ReviewRequested => match authed_user {
            Option::Some(u) => login_list_contains(&pr.requested_reviewers, u),
            Option::None => true,
        },
        PRFilter::Mentions => match authed_user {
            Option::Some(u) => {
                let mut needle = String::from_str("@");
                needle.append(u.as_str());
                proof {
                    reveal_strlit("@");
                    assert(needle@ =~= mention_needle(u@));
                }
                let body_ref: &str = match &pr.body {
                    Option::Some(b) => b.as_str(),
                    Option::None => "",
                };
                proof {
                    reveal_strlit("");
                    assert(body_ref@ =~= body_text(pr@.body));
                }
                str_contains(body_ref, needle.as_str())
            },
            Option::None => true,
        },
        PRFilter::Labels => {
            if allow.len() == 0 {
                true
            } else {
                labels_overlap(&pr.labels, allow)
            }
        },
        PRFilter::Assigned => match authed_user {
            Option::Some(u) => login_list_contains(&pr.assignees, u),
            Option::None => true,
        },
        PRFilter::Created => match authed_user {
            Option::Some(u) => pr.author.eq(u),
            Option::None => true,
        },
    }
}

/// The aggregate filter of the configuration: a raw pull request passes iff
/// at least one enabled filter kind matches it.
pub fn pr_filter(config: &GitHubSettings, pr: &RawPullRequest, authed_user: &Option<String>) -> (r:
    bool)
    ensures
        r == retained(pr@, opt_str_view(*authed_user), config@.labels, config@.filters),
{
    let mut i: usize = 0;
    while i < config.filters.len()
        invariant
            i <= config.filters@.len(),
            forall|k: int|
                0 <= k < i ==> !filter_matches(
                    config.filters@[k],
                    pr@,
                    opt_str_view(*authed_user),
                    strs_view(config.labels@),
                ),
        decreases config.filters@.len() - i,
    {
        if filter_matches_exec(&config.filters[i], pr, authed_user, &config.labels) {
            return true;
        }
        i += 1;
    }
    false
}

/// A raw pull request can be displayed when the host supplied a title.
pub open spec fn displayable(pr: RawPullRequestView) -> bool {
    pr.title is Some
}

/// The display value of a displayable raw pull request: the number in
/// decimal, the title, the base repository name, and the URL or the empty
/// string when the host omitted it.
pub open spec fn display_of(pr: RawPullRequestView) -> PullRequestView {
    PullRequestView {
        id: dec_str(pr.number as nat),
        title: match pr.title {
            Option::Some(t) => t,
            Option::None => Seq::empty(),
        },
        repo: pr.repo,
        url: match pr.url {
            Option::Some(u) => u,
            Option::None => Seq::empty(),
        },
    }
}

impl PullRequest {
    /// Maps a raw pull request to its display value; a record without a
    /// title cannot be displayed and is skipped by the merge step.
    pub fn from_raw(pr: &RawPullRequest) -> (r: Option<PullRequest>)
        ensures
            r is Some <==> displayable(pr@),
            displayable(pr@) ==> r.unwrap()@ == display_of(pr@),
    {
        match &pr.title {
            Option::Some(t) => {
                let url = match &pr.url {
                    Option::Some(u) => u.clone(),
                    Option::None => String::new(),
                };
                Option::Some(
                    PullRequest {
                        id: u64_to_dec(pr.number),
                        title: t.clone(),
                        repo: pr.repo.clone(),
                        url,
                    },
                )
            },
            Option::None => Option::None,
        }
    }
}

/// Where the current fetch cycle stands. `Error` keeps the message of the
/// most recent failed repository call; it does not discard loaded rows.
#[derive(Debug, Clone, Default, PartialEq, Eq)]
pub enum LoadingState {
    #[default]
    Idle,
    Loading,
    Loaded,
    Error(String),
}

/// Mathematical view of [`LoadingState`].
pub enum LoadingView {
    Idle,
    Loading,
    Loaded,
    Error(Seq<char>),
}

impl View for LoadingState {
    type V = LoadingView;

    open spec fn view(&self) -> LoadingView {
        match self {
            LoadingState::Idle => LoadingView::Idle,
            LoadingState::Loading => LoadingView::Loading,
            LoadingState::Loaded => LoadingView::Loaded,
            LoadingState::Error(m) => LoadingView::Error(m@),
        }
    }
}

/// The views of a list of pull requests.
pub open spec fn prs_views(s: Seq<PullRequest>) -> Seq<PullRequestView> {
    s.map_values(|p: PullRequest| p@)
}

/// The list is sorted in the display order.
pub open spec fn prs_sorted(s: Seq<PullRequestView>) -> bool {
    forall|i: int, j: int| 0 <= i < j < s.len() ==> pr_le(s[i], s[j])
}

/// The authoritative shared snapshot: the merged, sorted pull-request
/// list, the loading state, the authenticated login once resolved, and the
/// selection cursor.
#[derive(Debug)]
pub struct PullRequestListState {
    pub pull_requests: Vec<PullRequest>,
    pub loading_state: LoadingState,
    pub authed_login: Option<String>,
    pub selected: Option<usize>,
}

/// Mathematical view of [`PullRequestListState`].
pub struct PullRequestListStateView {
    pub pull_requests: Seq<PullRequestView>,
    pub loading_state: LoadingView,
    pub authed_login: Option<Seq<char>>,
    pub selected: Option<int>,
}

impl View for PullRequestListState {
    type V = PullRequestListStateView;

    open spec fn view(&self) -> PullRequestListStateView {
        PullRequestListStateView {
            pull_requests: prs_views(self.pull_requests@),
            loading_state: self.loading_state@,
            authed_login: opt_str_view(self.authed_login),
            selected: match self.selected {
                Option::Some(i) => Option::Some(i as int),
                Option::None => Option::None,
            },
        }
    }
}

impl PullRequestListStateView {
    /// The state invariant: the list is sorted, and the selection is a
    /// valid index, or absent exactly when the list is empty.
    pub open spec fn wf(self) -> bool {
        &&& prs_sorted(self.pull_requests)
        &&& match self.selected {
            Option::Some(i) => 0 <= i < self.pull_requests.len(),
            Option::None => self.pull_requests.len() == 0,
        }
    }
}

/// The selection after one downward step: one past the current index,
/// saturating at the last entry; absent stays absent.
pub open spec fn sel_down(st: PullRequestListStateView) -> Option<int> {
    match st.selected {
        Option::Some(i) => if i + 1 < st.pull_requests.len() {
            Option::Some(i + 1)
        } else {
            Option::Some(i)
        },
        Option::None => Option::None,
    }
}

/// The selection after one upward step: one before the current index,
/// saturating at the first entry; absent stays absent.
pub open spec fn sel_up(st: PullRequestListStateView) -> Option<int> {
    match st.selected {
        Option::Some(i) => if i >= 1 {
            Option::Some(i - 1)
        } else {
            Option::Some(0)
        },
        Option::None => Option::None,
    }
}

impl PullRequestListState {
    /// The initial state: nothing loaded, no identity, no selection.
    pub fn new() -> (s: Self)
        ensures
            s@ == (PullRequestListStateView {
                pull_requests: Seq::empty(),
                loading_state: LoadingView::Idle,
                authed_login: Option::None,
                selected: Option::None,
            }),
            s@.wf(),
    {
        let s = PullRequestListState {
            pull_requests: Vec::new(),
            loading_state: LoadingState::Idle,
            authed_login: Option::None,
            selected: Option::None,
        };
        proof {
            assert(prs_views(s.pull_requests@) =~= Seq::empty());
        }
        s
    }

    /// Overwrites the loading state; everything else is untouched.
    pub fn set_loading_state(&mut self, state: LoadingState)
        ensures
            final(self)@ == (PullRequestListStateView { loading_state: state@, ..old(self)@ }),
    {
        self.loading_state = state;
    }

    /// Records the resolved identity (or its absence); everything else is
    /// untouched.
    pub fn set_authed_user(&mut self, authed_user: Option<String>)
        ensures
            final(self)@ == (PullRequestListStateView {
                authed_login: opt_str_view(authed_user),
                ..old(self)@
            }),
    {
        self.authed_login = authed_user;
    }

    /// Records a failed repository call: the loading state becomes the
    /// error message; already-merged pull requests stay visible.
    pub fn on_err(&mut self, err: String)
        ensures
            final(self)@ == (PullRequestListStateView {
                loading_state: LoadingView::Error(err@),
                ..old(self)@
            }),
    {
        self.loading_state = LoadingState::Error(err);
    }

    /// Moves the selection one row down, saturating at the bottom.
    pub fn scroll_down(&mut self)
        requires
            old(self)@.wf(),
        ensures
            final(self)@ == (PullRequestListStateView {
                selected: sel_down(old(self)@),
                ..old(self)@
            }),
            final(self)@.wf(),
    {
        match self.selected {
            Option::Some(i) => {
                if i < self.pull_requests.len() - 1 {
                    self.selected = Option::Some(i + 1);
                }
            },
            Option::None => {},
        }
    }

    /// Moves the selection one row up, saturating at the top.
    pub fn scroll_up(&mut self)
        requires
            old(self)@.wf(),
        ensures
            final(self)@ == (PullRequestListStateView {
                selected: sel_up(old(self)@),
                ..old(self)@
            }),
            final(self)@.wf(),
    {
        match self.selected {
            Option::Some(i) => {
                if i >= 1 {
                    self.selected = Option::Some(i - 1);
                }
            },
            Option::None => {},
        }
    }

    /// The URL of the selected pull request, to hand to an external
    /// "open in browser" collaborator; `None` when nothing is selected.
    pub fn open_pr(&self) -> (r: Option<String>)
        requires
            self@.wf(),
        ensures
            r is Some <==> self@.selected is Some,
            self@.selected is Some ==> r.unwrap()@ == self@.pull_requests[self@.selected.unwrap()].url,
    {
        match self.selected {
            Option::Some(i) => Option::Some(self.pull_requests[i].url.clone()),
            Option::None => Option::None,
        }
    }
}

/// Inserting an element anywhere in a sequence adds exactly that element
/// to its multiset.
proof fn lemma_insert_to_multiset(s: Seq<PullRequestView>, i: int, a: PullRequestView)
    requires
        0 <= i <= s.len(),
    ensures
        s.insert(i, a).to_multiset() =~= s.to_multiset().insert(a),
{
    broadcast use vstd::seq_lib::group_to_multiset_ensures;

    let t1 = s.subrange(0, i);
    let t2 = s.subrange(i, s.len() as int);
    assert(s =~= t1 + t2);
    vstd::seq_lib::lemma_multiset_commutative(t1, t2);
    vstd::seq_lib::lemma_multiset_commutative(t1.push(a), t2);
    assert(t1.push(a).to_multiset() =~= t1.to_multiset().insert(a));
}

/// Inserts a pull request into a sorted list, keeping it sorted.
fn insert_sorted(v: &mut Vec<PullRequest>, x: PullRequest)
    requires
        prs_sorted(prs_views(old(v)@)),
    ensures
        prs_sorted(prs_views(final(v)@)),
        prs_views(final(v)@).to_multiset() =~= prs_views(old(v)@).to_multiset().insert(x@),
        final(v)@.len() == old(v)@.len() + 1,
{
    let ghost xs = prs_views(v@);
    let mut idx: usize = 0;
    let mut stop = false;
    while !stop && idx < v.len()
        invariant
            idx <= v@.len(),
            v@ == old(v)@,
            forall|k: int| 0 <= k < idx ==> pr_lt(prs_views(v@)[k], x@),
            stop ==> idx < v@.len() && !pr_lt(prs_views(v@)[idx as int], x@),
        decreases v@.len() - idx + (if stop {
            0int
        } else {
            1int
        }),
    {
        let c = pr_cmp(&v[idx], &x);
        if matches!(c, Cmp::Lt) {
            idx += 1;
        } else {
            stop = true;
        }
    }
    proof {
        assert(idx == v@.len() || !pr_lt(prs_views(v@)[idx as int], x@));
    }
    v.insert(idx, x);
    proof {
        let t = xs.insert(idx as int, x@);
        assert(prs_views(v@) =~= t) by {
            xs.insert_ensures(idx as int, x@);
            assert(forall|k: int| 0 <= k < v@.len() ==> prs_views(v@)[k] == v@[k]@);
        }
        lemma_insert_to_multiset(xs, idx as int, x@);
        xs.insert_ensures(idx as int, x@);
        // the new element is at most every element at or after its slot
        if (idx as int) < xs.len() {
            lemma_pr_le_total(x@, xs[idx as int]);
        }
        assert forall|i: int, j: int| 0 <= i < j < t.len() implies pr_le(t[i], t[j]) by {
            if j < idx {
                assert(t[i] == xs[i] && t[j] == xs[j]);
            } else if i < idx && j == idx {
                assert(t[i] == xs[i] && t[j] == x@);
            } else if i < idx && j > idx {
                assert(t[i] == xs[i] && t[j] == xs[j - 1]);
                if i < j - 1 {
                    assert(pr_le(xs[i], xs[j - 1]));
                } else {
                    assert(pr_lt(xs[i], x@));
                    assert(pr_le(x@, xs[idx as int]));
                    lemma_pr_le_transitive(xs[i], x@, xs[idx as int]);
                }
            } else if i == idx && j > idx {
                assert(t[i] == x@ && t[j] == xs[j - 1]);
                assert(pr_le(x@, xs[idx as int]));
                if idx < j - 1 {
                    assert(pr_le(xs[idx as int], xs[j - 1]));
                    lemma_pr_le_transitive(x@, xs[idx as int], xs[j - 1]);
                }
            } else {
                assert(t[i] == xs[i - 1] && t[j] == xs[j - 1]);
            }
        }
    }
}

/// Is a raw pull request kept by the merge: retained by the enabled
/// filters and displayable?
pub open spec fn page_keep(
    pr: RawPullRequestView,
    authed: Option<Seq<char>>,
    cfg: GitHubSettingsView,
) -> bool {
    retained(pr, authed, cfg.labels, cfg.filters) && displayable(pr)
}

/// The display values, in page order, of the raw pull requests of one page
/// that the merge keeps.
pub open spec fn retained_page(
    page: Seq<RawPullRequestView>,
    authed: Option<Seq<char>>,
    cfg: GitHubSettingsView,
) -> Seq<PullRequestView>
    decreases page.len(),
{
    if page.len() == 0 {
        Seq::empty()
    } else {
        let rest = retained_page(page.drop_last(), authed, cfg);
        if page_keep(page.last(), authed, cfg) {
            rest.push(display_of(page.last()))
        } else {
            rest
        }
    }
}

/// Merging an empty page keeps nothing.
pub proof fn lemma_empty_page_keeps_nothing(authed: Option<Seq<char>>, cfg: GitHubSettingsView)
    ensures
        retained_page(Seq::empty(), authed, cfg) == Seq::<PullRequestView>::empty(),
{
}

/// The views of a page of raw pull requests.
pub open spec fn page_views(page: Seq<RawPullRequest>) -> Seq<RawPullRequestView> {
    page.map_values(|p: RawPullRequest| p@)
}

/// The loading state after one successful merge: a recorded error stays;
/// anything else becomes `Loaded`.
pub open spec fn loaded_after(l: LoadingView) -> LoadingView {
    match l {
        LoadingView::Error(m) => LoadingView::Error(m),
        _ => LoadingView::Loaded,
    }
}

/// Clones an optional login.
fn clone_opt_string(o: &Option<String>) -> (r: Option<String>)
    ensures
        opt_str_view(r) == opt_str_view(*o),
{
    match o {
        Option::Some(s) => Option::Some(s.clone()),
        Option::None => Option::None,
    }
}

impl PullRequestListState {
    /// Merges one successful page: every raw pull request that passes the
    /// enabled filters and can be displayed is inserted into the sorted
    /// list; the loading state becomes `Loaded` unless an error is already
    /// recorded; a previously unset selection moves to the first row.
    #[verifier::loop_isolation(false)]
    pub fn on_load(&mut self, page: &Vec<RawPullRequest>, config: &GitHubSettings)
        requires
            old(self)@.wf(),
        ensures
            final(self)@.wf(),
            final(self)@.pull_requests.to_multiset() == old(self)@.pull_requests.to_multiset().add(
                retained_page(page_views(page@), old(self)@.authed_login, config@).to_multiset(),
            ),
            retained_page(page_views(page@), old(self)@.authed_login, config@).len() == 0
                ==> final(self)@.pull_requests == old(self)@.pull_requests,
            final(self)@.loading_state == loaded_after(old(self)@.loading_state),
            final(self)@.authed_login == old(self)@.authed_login,
            final(self)@.selected == (if old(self)@.selected is Some {
                old(self)@.selected
            } else if final(self)@.pull_requests.len() > 0 {
                Option::Some(0int)
            } else {
                Option::<int>::None
            }),
    {
        let ghost cfg = config@;
        let ghost user = old(self)@.authed_login;
        broadcast use vstd::seq_lib::group_to_multiset_ensures;

        match &self.loading_state {
            LoadingState::Error(_) => {},
            _ => {
                self.loading_state = LoadingState::Loaded;
            },
        }
        let authed = clone_opt_string(&self.authed_login);
        let mut k: usize = 0;
        while k < page.len()
            invariant
                k <= page@.len(),
                prs_sorted(prs_views(self.pull_requests@)),
                self.pull_requests@.len() >= old(self).pull_requests@.len(),
                self.loading_state@ == loaded_after(old(self)@.loading_state),
                self.authed_login == old(self).authed_login,
                self.selected == old(self).selected,
                prs_views(self.pull_requests@).to_multiset() =~= prs_views(
                    old(self).pull_requests@,
                ).to_multiset().add(
                    retained_page(page_views(page@).take(k as int), user, cfg).to_multiset(),
                ),
                retained_page(page_views(page@).take(k as int), user, cfg).len() == 0
                    ==> self.pull_requests@ == old(self).pull_requests@,
            decreases page@.len() - k,
        {
            let ghost pre = retained_page(page_views(page@).take(k as int), user, cfg);
            let ghost prv = page_views(page@)[k as int];
            proof {
                assert(page_views(page@).take(k + 1).drop_last() =~= page_views(page@).take(
                    k as int,
                ));
                assert(page_views(page@).take(k + 1).last() == prv);
            }
            let pr = &page[k];
            proof {
                assert(prv == pr@);
            }
            if pr_filter(config, pr, &authed) {
                match PullRequest::from_raw(pr) {
                    Option::Some(d) => {
                        insert_sorted(&mut self.pull_requests, d);
                        proof {
                            assert(page_keep(prv, user, cfg));
                            assert(retained_page(page_views(page@).take(k + 1), user, cfg)
                                =~= pre.push(display_of(prv)));
                        }
                    },
                    Option::None => {
                        proof {
                            assert(!page_keep(prv, user, cfg));
                            assert(retained_page(page_views(page@).take(k + 1), user, cfg)
                                =~= pre);
                        }
                    },
                }
            } else {
                proof {
                    assert(!page_keep(prv, user, cfg));
                    assert(retained_page(page_views(page@).take(k + 1), user, cfg) =~= pre);
                }
            }
            k += 1;
        }
        proof {
            assert(page_views(page@).take(page@.len() as int) =~= page_views(page@));
        }
        if self.selected.is_none() && self.pull_requests.len() > 0 {
            self.selected = Option::Some(0);
        }
    }
}

/// The views of one fetch cycle's repository responses: each is a page of
/// raw pull requests or an error message.
pub open spec fn resp_views(rs: Seq<Result<Vec<RawPullRequest>, String>>) -> Seq<
    Result<Seq<RawPullRequestView>, Seq<char>>,
> {
    rs.map_values(
        |r: Result<Vec<RawPullRequest>, String>|
            match r {
                Result::Ok(p) => Result::<Seq<RawPullRequestView>, Seq<char>>::Ok(page_views(p@)),
                Result::Err(m) => Result::<Seq<RawPullRequestView>, Seq<char>>::Err(m@),
            },
    )
}

/// The loading state after the responses processed so far: each error
/// overwrites it with that message; each success makes it `Loaded` unless
/// an error is already recorded; before any response it is `Loading`.
pub open spec fn loading_after_responses(
    rs: Seq<Result<Seq<RawPullRequestView>, Seq<char>>>,
) -> LoadingView
    decreases rs.len(),
{
    if rs.len() == 0 {
        LoadingView::Loading
    } else {
        match rs.last() {
            Result::Err(m) => LoadingView::Error(m),
            Result::Ok(_) => loaded_after(loading_after_responses(rs.drop_last())),
        }
    }
}

/// The loading state at the end of a fetch cycle: as after the last
/// response, and `Loaded` when there was none (an empty repository list
/// still completes the cycle).
pub open spec fn cycle_loading(rs: Seq<Result<Seq<RawPullRequestView>, Seq<char>>>) -> LoadingView {
    match loading_after_responses(rs) {
        LoadingView::Loading => LoadingView::Loaded,
        l => l,
    }
}

/// Everything one fetch cycle keeps, in response order: the kept display
/// values of each successful page; failed calls contribute nothing.
pub open spec fn cycle_retained(
    rs: Seq<Result<Seq<RawPullRequestView>, Seq<char>>>,
    authed: Option<Seq<char>>,
    cfg: GitHubSettingsView,
) -> Seq<PullRequestView>
    decreases rs.len(),
{
    if rs.len() == 0 {
        Seq::empty()
    } else {
        cycle_retained(rs.drop_last(), authed, cfg) + (match rs.last() {
            Result::Ok(p) => retained_page(p, authed, cfg),
            Result::Err(_) => Seq::empty(),
        })
    }
}

impl PullRequestListState {
    /// One full fetch cycle over already-obtained outside results: marks
    /// the state `Loading`, records the resolved identity (or its absence,
    /// which is not an error), merges each repository response in order —
    /// a failed call records its message without discarding earlier rows
    /// or stopping the cycle — and finally marks the state `Loaded` if
    /// nothing else was recorded.
    #[verifier::loop_isolation(false)]
    pub fn fetch_pulls(
        &mut self,
        config: &GitHubSettings,
        identity: Option<String>,
        responses: &Vec<Result<Vec<RawPullRequest>, String>>,
    )
        requires
            old(self)@.wf(),
        ensures
            final(self)@.wf(),
            final(self)@.authed_login == opt_str_view(identity),
            final(self)@.loading_state == cycle_loading(resp_views(responses@)),
            final(self)@.pull_requests.to_multiset() == old(self)@.pull_requests.to_multiset().add(
                cycle_retained(resp_views(responses@), opt_str_view(identity), config@)
                    .to_multiset(),
            ),
            final(self)@.selected == (if old(self)@.selected is Some {
                old(self)@.selected
            } else if final(self)@.pull_requests.len() > 0 {
                Option::Some(0int)
            } else {
                Option::<int>::None
            }),
    {
        broadcast use vstd::seq_lib::group_to_multiset_ensures;

        let ghost cfg = config@;
        let ghost user = opt_str_view(identity);
        self.set_loading_state(LoadingState::Loading);
        self.set_authed_user(identity);
        let mut k: usize = 0;
        while k < responses.len()
            invariant
                k <= responses@.len(),
                self@.wf(),
                self@.authed_login == user,
                self@.loading_state == loading_after_responses(resp_views(responses@).take(
                    k as int,
                )),
                self@.pull_requests.to_multiset() =~= old(
                    self,
                )@.pull_requests.to_multiset().add(
                    cycle_retained(resp_views(responses@).take(k as int), user, cfg).to_multiset(),
                ),
                self@.selected == (if old(self)@.selected is Some {
                    old(self)@.selected
                } else if self@.pull_requests.len() > 0 {
                    Option::Some(0int)
                } else {
                    Option::<int>::None
                }),
            decreases responses@.len() - k,
        {
            let ghost pre_retained = cycle_retained(
                resp_views(responses@).take(k as int),
                user,
                cfg,
            );
            proof {
                assert(resp_views(responses@).take(k + 1).drop_last() =~= resp_views(
                    responses@,
                ).take(k as int));
                assert(resp_views(responses@).take(k + 1).last() == resp_views(responses@)[
                    k as int]);
            }
            match &responses[k] {
                Result::Ok(p) => {
                    self.on_load(p, config);
                    proof {
                        assert(resp_views(responses@)[k as int] == Result::<
                            Seq<RawPullRequestView>,
                            Seq<char>,
                        >::Ok(page_views(p@)));
                        assert(cycle_retained(resp_views(responses@).take(k + 1), user, cfg)
                            =~= pre_retained + retained_page(page_views(p@), user, cfg));
                        vstd::seq_lib::lemma_multiset_commutative(
                            pre_retained,
                            retained_page(page_views(p@), user, cfg),
                        );
                        assert(self@.pull_requests.to_multiset() =~= old(
                            self,
                        )@.pull_requests.to_multiset().add(
                            cycle_retained(resp_views(responses@).take(k + 1), user, cfg)
                                .to_multiset(),
                        ));
                    }
                },
                Result::Err(m) => {
                    self.on_err(m.clone());
                    proof {
                        assert(resp_views(responses@)[k as int] == Result::<
                            Seq<RawPullRequestView>,
                            Seq<char>,
                        >::Err(m@));
                        assert(cycle_retained(resp_views(responses@).take(k + 1), user, cfg)
                            =~= pre_retained + Seq::<PullRequestView>::empty());
                        assert(pre_retained + Seq::<PullRequestView>::empty() =~= pre_retained);
                    }
                },
            }
            k += 1;
        }
        proof {
            assert(resp_views(responses@).take(responses@.len() as int) =~= resp_views(
                responses@,
            ));
        }
        match &self.loading_state {
            LoadingState::Loading => {
                self.loading_state = LoadingState::Loaded;
            },
            _ => {},
        }
    }

    /// The rows the renderer paints, in display order: (title, repo) for
    /// every pull request in the list. Reads the state without changing it.
    pub fn render_rows(&self) -> (rows: Vec<(String, String)>)
        ensures
            rows@.len() == self@.pull_requests.len(),
            forall|i: int|
                0 <= i < rows@.len() ==> rows@[i].0@ == self@.pull_requests[i].title && rows@[i].1@
                    == self@.pull_requests[i].repo,
    {
        let mut rows: Vec<(String, String)> = Vec::new();
        let mut k: usize = 0;
        while k < self.pull_requests.len()
            invariant
                k <= self.pull_requests@.len(),
                rows@.len() == k,
                forall|i: int|
                    0 <= i < k ==> rows@[i].0@ == prs_views(self.pull_requests@)[i].title
                        && rows@[i].1@ == prs_views(self.pull_requests@)[i].repo,
            decreases self.pull_requests@.len() - k,
        {
            let title = self.pull_requests[k].title.clone();
            let repo = self.pull_requests[k].repo.clone();
            rows.push((title, repo));
            k += 1;
        }
        rows
    }

    /// The loading-state tag for the header slot.
    pub fn loading_label(&self) -> (s: String)
        ensures
            s@ == loading_label_view(self@.loading_state),
    {
        match &self.loading_state {
            LoadingState::Idle => String::from_str("Idle"),
            LoadingState::Loading => String::from_str("Loading"),
            LoadingState::Loaded => String::from_str("Loaded"),
            LoadingState::Error(m) => {
                let mut s = String::from_str("Error: ");
                s.append(m.as_str());
                s
            },
        }
    }

    /// The identity label for the header slot: the authenticated login, or
    /// a fixed tag when none is known.
    pub fn user_label(&self) -> (s: String)
        ensures
            s@ == (match self@.authed_login {
                Option::Some(u) => u,
                Option::None => "No Auth Token"@,
            }),
    {
        match &self.authed_login {
            Option::Some(u) => u.clone(),
            Option::None => String::from_str("No Auth Token"),
        }
    }
}

/// The text shown for a loading state.
pub open spec fn loading_label_view(l: LoadingView) -> Seq<char> {
    match l {
        LoadingView::Idle => "Idle"@,
        LoadingView::Loading => "Loading"@,
        LoadingView::Loaded => "Loaded"@,
        LoadingView::Error(m) => "Error: "@ + m,
    }
}

impl Default for PullRequestListState {
    /// Same as [`PullRequestListState::new`].
    fn default() -> (s: Self)
        ensures
            s@.wf(),
            s@.pull_requests.len() == 0,
            s@.loading_state == LoadingView::Idle,
            s@.authed_login is None,
            s@.selected is None,
    {
        PullRequestListState::new()
    }
}

} // verus!
