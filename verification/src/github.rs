//! The GitHub half: read the repo's labels, file the issue.

use crate::config::{Repo, RepoView};
use crate::http;
use crate::json;
use crate::json::{Json, JsonView, MemberView};
use crate::number;
use crate::text;
use vstd::prelude::*;

verus! {

/// Where GitHub answers.
pub const API: &'static str = "https://api.github.com";

/// How long a repository's labels are good for, in nanoseconds: ten minutes.
pub const LABEL_TTL: u128 = 600_000_000_000;

// ---------------------------------------------------------------------------
// The client
// ---------------------------------------------------------------------------
/// The labels of one repository, as they were at some time.
#[derive(Debug)]
struct Listing {
    repo: Repo,
    labels: Vec<String>,
    /// When they were fetched, in nanoseconds.
    fetched: u128,
}

/// What is known of a repository's labels.
#[verifier::ext_equal]
pub struct ListingView {
    pub labels: Seq<Seq<char>>,
    pub fetched: u128,
}

/// Talks to GitHub: what it says, and what it remembers of the answers.
#[derive(Debug)]
pub struct GitHub {
    token: String,
    base: String,
    label_cache: Vec<Listing>,
}

/// What a [`GitHub`] holds.
#[verifier::ext_equal]
pub struct GitHubView {
    pub token: Seq<char>,
    pub base: Seq<char>,
    /// The labels that were fetched, by repository.
    pub label_cache: Map<RepoView, ListingView>,
}

spec fn listing_table(v: Seq<Listing>) -> Map<RepoView, ListingView>
    decreases v.len(),
{
    if v.len() == 0 {
        Map::empty()
    } else {
        let l = v.last();
        listing_table(v.drop_last()).insert(
            l.repo@,
            ListingView { labels: text::texts(l.labels@), fetched: l.fetched },
        )
    }
}

/// Whether no repository is listed twice.
spec fn listed_once(v: Seq<Listing>) -> bool {
    forall|i: int, j: int|
        0 <= i < j < v.len() ==> (#[trigger] v[i]).repo@ != (#[trigger] v[j]).repo@
}

proof fn lemma_listing_table(v: Seq<Listing>)
    requires
        listed_once(v),
    ensures
        forall|i: int|
            0 <= i < v.len() ==> listing_table(v).contains_key((#[trigger] v[i]).repo@)
                && listing_table(v)[v[i].repo@] == (ListingView {
                labels: text::texts(v[i].labels@),
                fetched: v[i].fetched,
            }),
        forall|r: RepoView| #[trigger]
            listing_table(v).contains_key(r) ==> exists|i: int|
                0 <= i < v.len() && (#[trigger] v[i]).repo@ == r,
    decreases v.len(),
{
    if v.len() > 0 {
        let w = v.drop_last();
        lemma_listing_table(w);
        assert forall|i: int| 0 <= i < v.len() implies listing_table(v).contains_key(
            (#[trigger] v[i]).repo@,
        ) && listing_table(v)[v[i].repo@] == (ListingView {
            labels: text::texts(v[i].labels@),
            fetched: v[i].fetched,
        }) by {
            if i < w.len() {
                assert(w[i] == v[i]);
                assert(v[i].repo@ != v[v.len() - 1].repo@);
            }
        }
        assert forall|r: RepoView| #[trigger]
            listing_table(v).contains_key(r) implies exists|i: int|
            0 <= i < v.len() && (#[trigger] v[i]).repo@ == r by {
            if r == v.last().repo@ {
                assert(v[v.len() - 1].repo@ == r);
            } else {
                assert(listing_table(w).contains_key(r));
                let i = choose|i: int| 0 <= i < w.len() && (#[trigger] w[i]).repo@ == r;
                assert(v[i].repo@ == r);
            }
        }
    }
}

impl View for GitHub {
    type V = GitHubView;

    closed spec fn view(&self) -> GitHubView {
        GitHubView {
            token: self.token@,
            base: self.base@,
            label_cache: listing_table(self.label_cache@),
        }
    }
}

/// The kind of a request.
#[derive(Clone, Copy, Debug, PartialEq, Eq, Structural)]
pub enum Method {
    Get,
    Post,
}

/// A request to GitHub.
#[derive(Debug)]
pub struct ApiRequest {
    pub method: Method,
    pub url: String,
    /// The bearer token that goes with it.
    pub token: String,
    /// The headers that go with it, beside the token.
    pub headers: Vec<(String, String)>,
    pub payload: Option<Json>,
}

/// What an [`ApiRequest`] holds.
pub struct RequestView {
    pub method: Method,
    pub url: Seq<char>,
    pub token: Seq<char>,
    pub headers: Seq<(Seq<char>, Seq<char>)>,
    pub payload: Option<JsonView>,
}

impl View for ApiRequest {
    type V = RequestView;

    open spec fn view(&self) -> RequestView {
        RequestView {
            method: self.method,
            url: self.url@,
            token: self.token@,
            headers: text::pair_texts(self.headers@),
            payload: match self.payload {
                Some(p) => Some(p@),
                None => None,
            },
        }
    }
}

/// The headers of every request, beside the token.
pub open spec fn api_headers() -> Seq<(Seq<char>, Seq<char>)> {
    seq![
        ("Accept"@, "application/vnd.github+json"@),
        ("X-GitHub-Api-Version"@, "2022-11-28"@),
    ]
}

/// The address of `what` in the repository `repo`.
pub open spec fn repo_url(base: Seq<char>, repo: RepoView, what: Seq<char>) -> Seq<char> {
    base + "/repos/"@ + repo.owner + "/"@ + repo.name + what
}

/// The request for the labels of `repo`.
pub open spec fn labels_request(gh: GitHubView, repo: RepoView) -> RequestView {
    RequestView {
        method: Method::Get,
        url: repo_url(gh.base, repo, "/labels?per_page=100"@),
        token: gh.token,
        headers: api_headers(),
        payload: None,
    }
}

/// What an issue is filed with. Labels are left out where there are none.
pub open spec fn issue_payload(
    title: Seq<char>,
    body: Seq<char>,
    labels: Seq<Seq<char>>,
) -> JsonView {
    let head = seq![
        MemberView { key: "title"@, value: JsonView::Text(title) },
        MemberView { key: "body"@, value: JsonView::Text(body) },
    ];
    JsonView::Object(
        if labels.len() == 0 {
            head
        } else {
            head.push(MemberView { key: "labels"@, value: json::text_list(labels) })
        },
    )
}

/// The request that files an issue.
pub open spec fn issue_request(
    gh: GitHubView,
    repo: RepoView,
    title: Seq<char>,
    body: Seq<char>,
    labels: Seq<Seq<char>>,
) -> RequestView {
    RequestView {
        method: Method::Post,
        url: repo_url(gh.base, repo, "/issues"@),
        token: gh.token,
        headers: api_headers(),
        payload: Some(issue_payload(title, body, labels)),
    }
}

/// An issue that was filed.
#[derive(Debug)]
pub struct CreatedIssue {
    pub number: u64,
    pub html_url: String,
}

/// The time from `then` to `now`; none where `then` is yet to come.
pub open spec fn elapsed(then: u128, now: u128) -> nat {
    if now >= then {
        (now - then) as nat
    } else {
        0
    }
}

/// The time from `then` to `now`.
pub fn time_since(then: u128, now: u128) -> (r: u128)
    ensures
        r == elapsed(then, now),
{
    if now >= then {
        now - then
    } else {
        0
    }
}

/// The labels that are known of `repo` at the time `now` and still good.
pub open spec fn fresh_labels(gh: GitHubView, repo: RepoView, now: u128) -> Option<
    Seq<Seq<char>>,
> {
    if gh.label_cache.contains_key(repo) && elapsed(gh.label_cache[repo].fetched, now)
        < LABEL_TTL {
        Some(gh.label_cache[repo].labels)
    } else {
        None
    }
}

/// The labels to go on with after a request for those of `repo` that brought
/// `fetched` at the time `now`, and what is known from then on.
pub open spec fn learned(
    gh: GitHubView,
    repo: RepoView,
    fetched: Option<Seq<Seq<char>>>,
    now: u128,
) -> (Seq<Seq<char>>, GitHubView) {
    match fetched {
        Some(labels) => (
            labels,
            GitHubView {
                label_cache: gh.label_cache.insert(repo, ListingView { labels, fetched: now }),
                ..gh
            },
        ),
        None => (Seq::empty(), gh),
    }
}

/// The texts of an optional list.
pub open spec fn opt_texts(v: Option<Vec<String>>) -> Option<Seq<Seq<char>>> {
    match v {
        Some(v) => Some(text::texts(v@)),
        None => None,
    }
}

/// Where a repository's labels are to come from.
#[derive(Debug)]
pub enum LabelSource {
    /// These are they.
    Cached(Vec<String>),
    /// GitHub has to be asked.
    Fetch(ApiRequest),
}

impl GitHub {
    /// Whether the client is in order. It always is.
    pub closed spec fn wf(self) -> bool {
        listed_once(self.label_cache@)
    }

    /// A client that uses `token`.
    pub fn new(token: String) -> (r: Self)
        ensures
            r.wf(),
            r@ == (GitHubView { token: token@, base: API@, label_cache: Map::empty() }),
    {
        GitHub::with_base(token, API.to_owned())
    }

    /// A client that uses `token` and asks at `base`.
    pub fn with_base(token: String, base: String) -> (r: Self)
        ensures
            r.wf(),
            r@ == (GitHubView { token: token@, base: base@, label_cache: Map::empty() }),
    {
        GitHub { token, base, label_cache: Vec::new() }
    }

    fn request(&self, method: Method, url: String, payload: Option<Json>) -> (r: ApiRequest)
        ensures
            r@ == (RequestView {
                method,
                url: url@,
                token: self@.token,
                headers: api_headers(),
                payload: match payload {
                    Some(p) => Some(p@),
                    None => None,
                },
            }),
    {
        let mut headers: Vec<(String, String)> = Vec::new();
        headers.push(("Accept".to_owned(), "application/vnd.github+json".to_owned()));
        headers.push(("X-GitHub-Api-Version".to_owned(), "2022-11-28".to_owned()));
        assert(text::pair_texts(headers@) =~= api_headers());
        ApiRequest { method, url, token: self.token.clone(), headers, payload }
    }

    fn address(&self, repo: &Repo, what: &str) -> (r: String)
        ensures
            r@ == repo_url(self@.base, repo@, what@),
    {
        let mut url = self.base.clone();
        url.append("/repos/");
        url.append(repo.owner.as_str());
        url.append("/");
        url.append(repo.name.as_str());
        url.append(what);
        url
    }

    /// The repo's existing labels, so the model picks from what actually
    /// exists instead of inventing new ones. Cached; `now` is the time in
    /// nanoseconds.
    pub fn labels(&self, repo: &Repo, now: u128) -> (r: LabelSource)
        requires
            self.wf(),
        ensures
            match r {
                LabelSource::Cached(labels) => fresh_labels(self@, repo@, now) == Some(
                    text::texts(labels@),
                ),
                LabelSource::Fetch(request) => fresh_labels(self@, repo@, now) is None && request@
                    == labels_request(self@, repo@),
            },
    {
        proof {
            lemma_listing_table(self.label_cache@);
        }
        let mut i: usize = 0;
        while i < self.label_cache.len()
            invariant
                i <= self.label_cache@.len(),
                forall|j: int| 0 <= j < i ==> (#[trigger] self.label_cache@[j]).repo@ != repo@,
                forall|j: int|
                    0 <= j < self.label_cache@.len() ==> self@.label_cache.contains_key(
                        (#[trigger] self.label_cache@[j]).repo@,
                    ) && self@.label_cache[self.label_cache@[j].repo@] == (ListingView {
                        labels: text::texts(self.label_cache@[j].labels@),
                        fetched: self.label_cache@[j].fetched,
                    }),
                forall|r: RepoView| #[trigger]
                    self@.label_cache.contains_key(r) ==> exists|j: int|
                        0 <= j < self.label_cache@.len() && (
                        #[trigger] self.label_cache@[j]).repo@ == r,
            decreases self.label_cache@.len() - i,
        {
            let listing = &self.label_cache[i];
            if listing.repo.same(repo) {
                if time_since(listing.fetched, now) < LABEL_TTL {
                    return LabelSource::Cached(text::copy_list(listing.labels.as_slice()));
                }
                return LabelSource::Fetch(self.fetch_labels(repo));
            }
            i += 1;
        }
        LabelSource::Fetch(self.fetch_labels(repo))
    }

    /// The request for the repo's labels.
    pub fn fetch_labels(&self, repo: &Repo) -> (r: ApiRequest)
        ensures
            r@ == labels_request(self@, repo@),
    {
        let url = self.address(repo, "/labels?per_page=100");
        self.request(Method::Get, url, None)
    }

    /// Takes in the answer to a request for the repo's labels: the labels it
    /// brought, or nothing where it failed. Best-effort: if GitHub is
    /// unreachable we file the issue unlabelled rather than fail. What comes
    /// back is the labels to go on with.
    pub fn settle_labels(&mut self, repo: &Repo, fetched: Option<Vec<String>>, now: u128) -> (r:
        Vec<String>)
        requires
            old(self).wf(),
        ensures
            final(self).wf(),
            match fetched {
                Some(labels) => {
                    &&& text::texts(r@) == text::texts(labels@)
                    &&& final(self)@ == (GitHubView {
                        label_cache: old(self)@.label_cache.insert(
                            repo@,
                            ListingView { labels: text::texts(labels@), fetched: now },
                        ),
                        ..old(self)@
                    })
                },
                None => text::texts(r@) == Seq::<Seq<char>>::empty() && final(self)@
                    == old(self)@,
            },
            (text::texts(r@), final(self)@) == learned(
                old(self)@,
                repo@,
                opt_texts(fetched),
                now,
            ),
    {
        let labels = match fetched {
            Some(labels) => labels,
            None => {
                let none: Vec<String> = Vec::new();
                assert(text::texts(none@) =~= Seq::<Seq<char>>::empty());
                return none;
            },
        };
        let kept = text::copy_list(labels.as_slice());
        let entry = Listing { repo: repo.clone(), labels: kept, fetched: now };
        let ghost before = self.label_cache@;
        let ghost value = ListingView { labels: text::texts(labels@), fetched: now };
        proof {
            lemma_listing_table(before);
        }
        let n = self.label_cache.len();
        let mut i: usize = 0;
        while i < n && !self.label_cache[i].repo.same(repo)
            invariant
                i <= n,
                n == self.label_cache@.len(),
                self.label_cache@ == before,
                self.token == old(self).token,
                self.base == old(self).base,
                forall|j: int| 0 <= j < i ==> (#[trigger] before[j]).repo@ != repo@,
            decreases n - i,
        {
            i += 1;
        }
        if i < n {
            self.label_cache.set(i, entry);
        } else {
            self.label_cache.push(entry);
        }
        proof {
            let after = self.label_cache@;
            assert forall|a: int, b: int| 0 <= a < b < after.len() implies (
            #[trigger] after[a]).repo@ != (#[trigger] after[b]).repo@ by {
                if a < before.len() && b < before.len() {
                    assert(before[a].repo@ != before[b].repo@);
                    if i < n {
                        assert(before[i as int].repo@ == repo@);
                    }
                } else {
                    assert(before[a].repo@ != repo@);
                }
            }
            lemma_listing_table(after);
            let t = listing_table(before).insert(repo@, value);
            let u = listing_table(after);
            assert(after[i as int].repo@ == repo@);
            assert forall|r: RepoView| t.contains_key(r) <==> u.contains_key(r) by {
                if t.contains_key(r) && r != repo@ {
                    let j = choose|j: int| 0 <= j < before.len() && (#[trigger] before[j]).repo@
                        == r;
                    assert(after[j].repo@ == r);
                }
                if u.contains_key(r) && r != repo@ {
                    let j = choose|j: int| 0 <= j < after.len() && (#[trigger] after[j]).repo@
                        == r;
                    assert(before[j].repo@ == r);
                }
            }
            assert forall|r: RepoView| t.contains_key(r) implies t[r] == u[r] by {
                assert(u.contains_key(r));
                let j = choose|j: int| 0 <= j < after.len() && (#[trigger] after[j]).repo@ == r;
                assert(after[j].repo@ == r);
                if r != repo@ {
                    assert(before[j].repo@ == r);
                } else {
                    assert(j == i);
                }
            }
            assert(t =~= u);
        }
        labels
    }

    /// The request that files an issue.
    pub fn create_issue(&self, repo: &Repo, title: &str, body: &str, labels: &[String]) -> (r:
        ApiRequest)
        ensures
            r@ == issue_request(self@, repo@, title@, body@, text::texts(labels@)),
    {
        let url = self.address(repo, "/issues");
        let title = json::member("title", json::string(title));
        let body = json::member("body", json::string(body));
        assert(text::texts(labels@).len() == labels@.len());
        let payload = if labels.len() == 0 {
            json::object2(title, body)
        } else {
            json::object3(title, body, json::member("labels", json::strings(labels)))
        };
        assert(payload@->Object_0 =~= issue_payload(
            title.model().value->Text_0,
            body.model().value->Text_0,
            text::texts(labels@),
        )->Object_0);
        self.request(Method::Post, url, Some(payload))
    }
}

// ---------------------------------------------------------------------------
// Answers
// ---------------------------------------------------------------------------
/// What a status code suggests to do.
pub open spec fn hint_of(code: u16) -> Seq<char> {
    if code == 401 {
        " (check GITHUB_TOKEN)"@
    } else if code == 403 {
        " (the token is missing repo/issues write access, or you are rate limited)"@
    } else if code == 404 {
        " (repo not found, or the token cannot see it)"@
    } else if code == 410 {
        " (issues are disabled on this repo)"@
    } else {
        Seq::empty()
    }
}

/// What a status code suggests to do.
pub fn hint(code: u16) -> (r: String)
    ensures
        r@ == hint_of(code),
{
    if code == 401 {
        " (check GITHUB_TOKEN)".to_owned()
    } else if code == 403 {
        " (the token is missing repo/issues write access, or you are rate limited)".to_owned()
    } else if code == 404 {
        " (repo not found, or the token cannot see it)".to_owned()
    } else if code == 410 {
        " (issues are disabled on this repo)".to_owned()
    } else {
        String::new()
    }
}

/// What is said of a reply of status `code`, if there is anything to complain
/// of; `status` is how the code is written out and `reported` what the reply
/// says went wrong.
pub open spec fn reply_fault(
    code: u16,
    status: Seq<char>,
    reported: Option<Seq<char>>,
    body: Seq<char>,
) -> Option<Seq<char>> {
    if http::is_success(code) {
        None
    } else {
        Some(
            "GitHub returned "@ + status + hint_of(code) + ": "@ + http::detail_of(reported, body),
        )
    }
}

/// Where GitHub says what it complains of.
pub const MESSAGE_POINTER: &'static str = "/message";

/// Judges a reply of status `code`, given how the code is written out and what
/// the reply reports.
pub fn judge_reply(code: u16, status: String, reported: Option<String>, body: &str) -> (r: Option<
    String,
>)
    ensures
        text::opt_text(r) == reply_fault(code, status@, text::opt_text(reported), body@),
{
    if http::success(code) {
        return None;
    }
    let mut out = "GitHub returned ".to_owned();
    out.append(status.as_str());
    out.append(hint(code).as_str());
    out.append(": ");
    out.append(http::detail(reported, body).as_str());
    Some(out)
}

/// Turn a non-2xx into an error that says what GitHub actually complained about.
pub fn check(code: u16, body: &str) -> (r: Option<String>)
    ensures
        text::opt_text(r) == reply_fault(
            code,
            http::status_text(code),
            json::string_under(body@, MESSAGE_POINTER@),
            body@,
        ),
        r is Some && 100 <= code <= 999 ==> text::occurs(
            r->Some_0@,
            number::decimal(code as nat),
        ),
{
    let status = http::describe_status(code);
    let reported = json::read_string_under(body, MESSAGE_POINTER);
    let r = judge_reply(code, status, reported, body);
    proof {
        if r is Some && 100 <= code <= 999 {
            let said = r->Some_0@;
            let digits = number::decimal(code as nat);
            let at = "GitHub returned "@.len() as int;
            assert(status@.take((digits + " "@).len() as int) == digits + " "@);
            assert(said.subrange(at, at + digits.len()) =~= digits) by {
                assert forall|k: int| 0 <= k < digits.len() implies said[at + k] == digits[k] by {
                    assert(said[at + k] == status@[k]);
                    assert(status@.take((digits + " "@).len() as int)[k] == (digits + " "@)[k]);
                }
            }
            assert(text::occurs_at(said, digits, at));
        }
    }
    r
}

} // verus!
