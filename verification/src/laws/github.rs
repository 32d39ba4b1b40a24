//! What holds of the talk with GitHub.

use crate::card::PendingView;
use crate::config::RepoView;
use crate::discord;
use crate::discord::StateView;
use crate::github;
use crate::github::{GitHubView, ListingView, Method, RequestView};
use crate::http;
use crate::issue;
use crate::json::{JsonView, MemberView};
use crate::text;
use vstd::prelude::*;

verus! {

/// Labels are fetched once, then cached: from the time `at` they were fetched
/// for ten minutes they come from memory, and not after; what is known of
/// another repository is as before.
pub proof fn law_labels_are_fetched_once_then_cached(
    gh: GitHubView,
    repo: RepoView,
    labels: Seq<Seq<char>>,
    at: u128,
    now: u128,
    other: RepoView,
)
    requires
        at <= now,
        other != repo,
    ensures
        ({
            let after = GitHubView {
                label_cache: gh.label_cache.insert(repo, ListingView { labels, fetched: at }),
                ..gh
            };
            &&& github::fresh_labels(after, repo, now) == if now - at < 600_000_000_000 {
                Some(labels)
            } else {
                None
            }
            &&& github::fresh_labels(after, other, now) == github::fresh_labels(gh, other, now)
        }),
{
}

/// Whether one of `members` is called `key`.
pub open spec fn has_member(members: Seq<MemberView>, key: Seq<char>) -> bool {
    exists|i: int| 0 <= i < members.len() && (#[trigger] members[i]).key == key
}

/// An empty label set is left out of what an issue is filed with, and any other
/// is in it.
pub proof fn law_an_empty_label_set_is_left_out(
    title: Seq<char>,
    body: Seq<char>,
    labels: Seq<Seq<char>>,
)
    ensures
        github::issue_payload(title, body, labels) is Object,
        has_member(github::issue_payload(title, body, labels)->Object_0, "labels"@)
            <==> labels.len() > 0,
{
    reveal_strlit("title");
    reveal_strlit("body");
    reveal_strlit("labels");
    let members = github::issue_payload(title, body, labels)->Object_0;
    assert("labels"@[0] == 'l');
    assert(members[0].key[0] == 't');
    assert(members[1].key[0] == 'b');
    if labels.len() > 0 {
        assert(members[2].key == "labels"@);
    }
}

/// A failure explains itself: what is said of it holds the status, the hint
/// that goes with it, and what GitHub reported or else the beginning of what it
/// replied. A success is not complained of.
pub proof fn law_failures_explain_themselves(
    code: u16,
    status: Seq<char>,
    reported: Option<Seq<char>>,
    body: Seq<char>,
)
    ensures
        ({
            let fault = github::reply_fault(code, status, reported, body);
            &&& fault is None <==> 200 <= code < 300
            &&& fault is Some ==> {
                &&& text::occurs(fault->Some_0, status)
                &&& text::occurs(fault->Some_0, github::hint_of(code))
                &&& http::detail_of(reported, body).is_suffix_of(fault->Some_0)
            }
        }),
{
    let fault = github::reply_fault(code, status, reported, body);
    if fault is Some {
        let said = fault->Some_0;
        let opening = "GitHub returned "@;
        let hint = github::hint_of(code);
        let detail = http::detail_of(reported, body);
        let a = opening.len() as int;
        let b = a + status.len();
        assert(said.subrange(a, b) =~= status);
        assert(text::occurs_at(said, status, a));
        assert(said.subrange(b, b + hint.len()) =~= hint);
        assert(text::occurs_at(said, hint, b));
        assert(said.subrange(said.len() - detail.len(), said.len() as int) =~= detail);
    }
}

// ---------------------------------------------------------------------------
// Labels
// ---------------------------------------------------------------------------
/// What a repository's labels were found to be is what is gone on with, all of
/// them, as they are and in their order, and it is what comes from memory for
/// the next ten minutes. A request that failed brings no labels, and nothing is
/// made of it: what was known before still is.
pub proof fn law_fetched_labels_are_gone_on_with(
    gh: GitHubView,
    repo: RepoView,
    labels: Seq<Seq<char>>,
    at: u128,
    now: u128,
    other: RepoView,
)
    requires
        at <= now,
        other != repo,
    ensures
        ({
            let (used, after) = github::learned(gh, repo, Some(labels), at);
            let (none, still) = github::learned(gh, repo, None, at);
            &&& used == labels
            &&& now - at < 600_000_000_000 ==> github::fresh_labels(after, repo, now) == Some(
                labels,
            )
            &&& now - at >= 600_000_000_000 ==> github::fresh_labels(after, repo, now) is None
            &&& github::fresh_labels(after, other, now) == github::fresh_labels(gh, other, now)
            &&& after.token == gh.token
            &&& after.base == gh.base
            &&& none.len() == 0
            &&& still == gh
        }),
{
}

/// Whether a request goes to GitHub as it wants to be asked: with the token, and
/// with the headers that name the format and the version.
pub open spec fn is_well_addressed(r: RequestView, gh: GitHubView, path: Seq<char>) -> bool {
    &&& r.url == gh.base + "/repos/"@ + path
    &&& r.token == gh.token
    &&& r.headers == seq![
        ("Accept"@, "application/vnd.github+json"@),
        ("X-GitHub-Api-Version"@, "2022-11-28"@),
    ]
}

/// Labels are asked for at the repository's own address, a hundred of them, and
/// nothing is sent along.
pub proof fn law_labels_are_asked_for_at_the_repository(gh: GitHubView, repo: RepoView)
    ensures
        ({
            let r = github::labels_request(gh, repo);
            &&& r.method == Method::Get
            &&& is_well_addressed(
                r,
                gh,
                repo.owner + "/"@ + repo.name + "/labels?per_page=100"@,
            )
            &&& r.payload is None
        }),
{
    let r = github::labels_request(gh, repo);
    assert(r.url =~= gh.base + "/repos/"@ + (repo.owner + "/"@ + repo.name
        + "/labels?per_page=100"@));
}

// ---------------------------------------------------------------------------
// Filing
// ---------------------------------------------------------------------------
/// Whether `value` stands in the object `j` under `key`, and nothing else does.
pub open spec fn holds_under(j: JsonView, key: Seq<char>, value: JsonView) -> bool {
    &&& j is Object
    &&& exists|i: int|
        {
            &&& 0 <= i < j->Object_0.len()
            &&& (#[trigger] j->Object_0[i]).key == key
            &&& j->Object_0[i].value == value
            &&& forall|k: int|
                0 <= k < j->Object_0.len() && k != i ==> (#[trigger] j->Object_0[k]).key != key
        }
}

/// Whether `j` lists just these texts, in this order.
pub open spec fn lists_texts(j: JsonView, texts: Seq<Seq<char>>) -> bool {
    &&& j is List
    &&& j->List_0.len() == texts.len()
    &&& forall|i: int| 0 <= i < texts.len() ==> #[trigger] j->List_0[i] == JsonView::Text(texts[i])
}

/// Whether the request files an issue in `repo` with this title, this body and
/// just these labels, and says no more than that.
pub open spec fn files(
    r: RequestView,
    gh: GitHubView,
    repo: RepoView,
    title: Seq<char>,
    body: Seq<char>,
    labels: Seq<Seq<char>>,
) -> bool {
    &&& r.method == Method::Post
    &&& is_well_addressed(r, gh, repo.owner + "/"@ + repo.name + "/issues"@)
    &&& r.payload is Some
    &&& ({
        let payload = r.payload->Some_0;
        &&& holds_under(payload, "title"@, JsonView::Text(title))
        &&& holds_under(payload, "body"@, JsonView::Text(body))
        &&& labels.len() > 0 ==> exists|list: JsonView| #[trigger]
            holds_under(payload, "labels"@, list) && lists_texts(list, labels)
        &&& labels.len() == 0 ==> !has_member(payload->Object_0, "labels"@)
        &&& payload->Object_0.len() == if labels.len() > 0 {
            3int
        } else {
            2
        }
    })
}

proof fn lemma_keys_differ()
    ensures
        "title"@ != "body"@,
        "title"@ != "labels"@,
        "body"@ != "labels"@,
{
    reveal_strlit("title");
    reveal_strlit("body");
    reveal_strlit("labels");
    assert("title"@[0] == 't');
    assert("body"@[0] == 'b');
    assert("labels"@[0] == 'l');
}

/// A request to file an issue carries the title, the body and the labels it was
/// made with, each as it is, and goes to the repository it is for.
pub proof fn law_requests_file_what_they_are_given(
    gh: GitHubView,
    repo: RepoView,
    title: Seq<char>,
    body: Seq<char>,
    labels: Seq<Seq<char>>,
)
    ensures
        files(
            github::issue_request(gh, repo, title, body, labels),
            gh,
            repo,
            title,
            body,
            labels,
        ),
{
    lemma_keys_differ();
    let r = github::issue_request(gh, repo, title, body, labels);
    assert(r.url =~= gh.base + "/repos/"@ + (repo.owner + "/"@ + repo.name + "/issues"@));
    let payload = r.payload->Some_0;
    let members = payload->Object_0;
    assert(members[0].key == "title"@);
    assert(members[1].key == "body"@);
    assert(holds_under(payload, "title"@, JsonView::Text(title)));
    assert(holds_under(payload, "body"@, JsonView::Text(body)));
    if labels.len() > 0 {
        assert(members[2].key == "labels"@);
        assert(holds_under(payload, "labels"@, members[2].value));
        assert(lists_texts(members[2].value, labels));
    }
}

/// What is filed is the draft that was confirmed: its title, just the labels
/// chosen for it, in order, and its body, in the repository that it is for.
/// Pressing **Create issue** leads to that request and no other.
pub proof fn law_the_confirmed_draft_is_filed(s: StateView, card_id: u64)
    requires
        s.pending.contains_key(card_id),
    ensures
        ({
            let p = s.pending[card_id];
            let (action, after) = discord::pressed(
                s,
                card_id,
                p.requester,
                "issue.create"@,
                None,
            );
            let body = issue::body_of(
                p.draft,
                p.transcript,
                p.thread_url,
                p.reporter,
                s.cfg.limits.max_body_chars as nat,
            );
            &&& after == s
            &&& action is File
            &&& action->File_0 == p
            &&& files(action->File_1, s.github, p.repo, p.draft.title, body, p.draft.labels)
        }),
{
    let p = s.pending[card_id];
    crate::laws::session::law_only_the_requester_files(
        s,
        card_id,
        p.requester,
        "issue.create"@,
        None,
    );
    law_drafts_are_filed_as_they_are(s, p);
}

/// The request that files a draft carries the draft's own title, just the labels
/// chosen for it, in order, and the body made of it, and goes to the repository
/// that it is for.
pub proof fn law_drafts_are_filed_as_they_are(s: StateView, p: PendingView)
    ensures
        files(
            discord::filing_request(s, p),
            s.github,
            p.repo,
            p.draft.title,
            issue::body_of(
                p.draft,
                p.transcript,
                p.thread_url,
                p.reporter,
                s.cfg.limits.max_body_chars as nat,
            ),
            p.draft.labels,
        ),
{
    law_requests_file_what_they_are_given(
        s.github,
        p.repo,
        p.draft.title,
        issue::body_of(
            p.draft,
            p.transcript,
            p.thread_url,
            p.reporter,
            s.cfg.limits.max_body_chars as nat,
        ),
        p.draft.labels,
    );
}

// ---------------------------------------------------------------------------
// Failures in words
// ---------------------------------------------------------------------------
/// A failure is told by its status, what to do about it where that is known, and
/// what GitHub reported; where it reported nothing, up to 300 characters of what
/// it replied stand for that.
pub proof fn law_failures_are_told_in_words(
    code: u16,
    status: Seq<char>,
    reported: Seq<char>,
    body: Seq<char>,
)
    requires
        code < 200 || code >= 300,
    ensures
        ({
            let hint = if code == 401 {
                " (check GITHUB_TOKEN)"@
            } else if code == 403 {
                " (the token is missing repo/issues write access, or you are rate limited)"@
            } else if code == 404 {
                " (repo not found, or the token cannot see it)"@
            } else if code == 410 {
                " (issues are disabled on this repo)"@
            } else {
                Seq::empty()
            };
            let told = "GitHub returned "@ + status + hint + ": "@;
            &&& github::reply_fault(code, status, Some(reported), body) == Some(told + reported)
            &&& body.len() <= 300 ==> github::reply_fault(code, status, None, body) == Some(
                told + body,
            )
            &&& body.len() > 300 ==> github::reply_fault(code, status, None, body) == Some(
                told + body.take(300),
            )
        }),
{
}

} // verus!
