//! The Discord half: spot `@issue` in a thread, propose a draft, and file it
//! once someone confirms.
//!
//! The draft lives between two events, the message that triggers it and the
//! button that confirms it, so the state holds it in between, keyed by the
//! card's message id.

use crate::card;
use crate::card::{Modal, ModalView, PendingDraft, PendingView};
use crate::config;
use crate::config::{Config, ConfigView, Repo, RepoView};
use crate::github;
use crate::github::{
    ApiRequest, CreatedIssue, GitHub, GitHubView, LabelSource, ListingView, RequestView,
};
use crate::issue;
use crate::issue::IssueContext;
use crate::llm;
use crate::llm::{DraftView, IssueDraft};
use crate::number;
use crate::text;
use crate::transcript;
use crate::transcript::{MessageView, ThreadMessage, Transcript, TranscriptView};
use std::collections::{HashMap, HashSet};
use vstd::prelude::*;

verus! {

broadcast use vstd::std_specs::hash::group_hash_axioms;

// ---------------------------------------------------------------------------
// The state
// ---------------------------------------------------------------------------
/// What the bot remembers.
#[derive(Debug)]
pub struct BotState {
    cfg: Config,
    github: GitHub,
    /// When each user last asked for a draft, in nanoseconds.
    cooldowns: HashMap<u64, u128>,
    /// Threads already filed, so a second `@issue` links the issue instead of
    /// opening a duplicate. In memory: a restart forgets them.
    filed: HashMap<u64, String>,
    /// Draft cards waiting on a confirmation, keyed by the card's message id.
    pending: HashMap<u64, PendingDraft>,
    /// Threads that a draft is being made of.
    in_flight: HashSet<u64>,
}

/// What a [`BotState`] holds.
#[verifier::ext_equal]
pub struct StateView {
    pub cfg: ConfigView,
    pub github: GitHubView,
    pub cooldowns: Map<u64, u128>,
    pub filed: Map<u64, Seq<char>>,
    pub pending: Map<u64, PendingView>,
    pub in_flight: Set<u64>,
}

/// What a table of texts holds.
pub open spec fn text_table(m: Map<u64, String>) -> Map<u64, Seq<char>> {
    m.map_values(|s: String| s@)
}

/// What a table of drafts holds.
pub open spec fn draft_table(m: Map<u64, PendingDraft>) -> Map<u64, PendingView> {
    m.map_values(|p: PendingDraft| p@)
}

impl View for BotState {
    type V = StateView;

    closed spec fn view(&self) -> StateView {
        StateView {
            cfg: self.cfg@,
            github: self.github@,
            cooldowns: self.cooldowns@,
            filed: text_table(self.filed@),
            pending: draft_table(self.pending@),
            in_flight: self.in_flight@,
        }
    }
}

/// A bot that has seen nothing yet.
pub open spec fn initial(cfg: ConfigView) -> StateView {
    StateView {
        cfg,
        github: GitHubView {
            token: cfg.github_token,
            base: github::API@,
            label_cache: Map::empty(),
        },
        cooldowns: Map::empty(),
        filed: Map::empty(),
        pending: Map::empty(),
        in_flight: Set::empty(),
    }
}

impl BotState {
    /// Whether the state is in order. It always is.
    pub closed spec fn wf(self) -> bool {
        self.github.wf()
    }

    /// A bot that has seen nothing yet.
    pub fn new(cfg: Config) -> (r: Self)
        ensures
            r@ == initial(cfg@),
            r.wf(),
    {
        let github = GitHub::new(cfg.github_token.clone());
        let r = BotState {
            cfg,
            github,
            cooldowns: HashMap::new(),
            filed: HashMap::new(),
            pending: HashMap::new(),
            in_flight: HashSet::new(),
        };
        assert(r@.filed =~= Map::<u64, Seq<char>>::empty());
        assert(r@.pending =~= Map::<u64, PendingView>::empty());
        r
    }

    /// How the bot is set up.
    pub fn cfg(&self) -> (r: &Config)
        ensures
            r@ == self@.cfg,
    {
        &self.cfg
    }

    /// The repo's labels, where they are known; see [`GitHub::labels`].
    pub fn labels(&self, repo: &Repo, now: u128) -> (r: LabelSource)
        requires
            self.wf(),
        ensures
            match r {
                LabelSource::Cached(labels) => github::fresh_labels(self@.github, repo@, now)
                    == Some(text::texts(labels@)),
                LabelSource::Fetch(request) => github::fresh_labels(self@.github, repo@, now)
                    is None && request@ == github::labels_request(self@.github, repo@),
            },
    {
        self.github.labels(repo, now)
    }

    /// Takes in the answer to a request for the repo's labels; see
    /// [`GitHub::settle_labels`].
    pub fn settle_labels(&mut self, repo: &Repo, fetched: Option<Vec<String>>, now: u128) -> (r:
        Vec<String>)
        requires
            old(self).wf(),
        ensures
            final(self).wf(),
            match fetched {
                Some(labels) => {
                    &&& text::texts(r@) == text::texts(labels@)
                    &&& final(self)@ == (StateView {
                        github: GitHubView {
                            label_cache: old(self)@.github.label_cache.insert(
                                repo@,
                                ListingView { labels: text::texts(labels@), fetched: now },
                            ),
                            ..old(self)@.github
                        },
                        ..old(self)@
                    })
                },
                None => text::texts(r@) == Seq::<Seq<char>>::empty() && final(self)@
                    == old(self)@,
            },
            ({
                let (labels, github) = github::learned(
                    old(self)@.github,
                    repo@,
                    github::opt_texts(fetched),
                    now,
                );
                text::texts(r@) == labels && final(self)@ == (StateView { github, ..old(self)@ })
            }),
    {
        self.github.settle_labels(repo, fetched, now)
    }
}

// ---------------------------------------------------------------------------
// Cooldowns
// ---------------------------------------------------------------------------
/// A second, in nanoseconds.
pub const SECOND: u128 = 1_000_000_000;

/// The table of cooldowns is tidied up when it has more entries than this.
pub const COOLDOWN_ENTRIES: usize = 1_000;

/// The least time between two requests of one user, in nanoseconds.
pub open spec fn window_of(cfg: ConfigView) -> nat {
    (cfg.limits.user_cooldown_secs * SECOND) as nat
}

/// The table of cooldowns, without those that are over where it is large.
pub open spec fn tidied(cooldowns: Map<u64, u128>, window: nat, now: u128) -> Map<u64, u128> {
    if cooldowns.dom().len() > COOLDOWN_ENTRIES {
        cooldowns.restrict(
            cooldowns.dom().filter(|user: u64| github::elapsed(cooldowns[user], now) < window),
        )
    } else {
        cooldowns
    }
}

/// How long `user` has still to wait, if at all.
pub open spec fn wait_of(
    cooldowns: Map<u64, u128>,
    user: u64,
    window: nat,
    now: u128,
) -> Option<nat> {
    if cooldowns.contains_key(user) && github::elapsed(cooldowns[user], now) < window {
        Some((window - github::elapsed(cooldowns[user], now)) as nat)
    } else {
        None
    }
}

/// The table of cooldowns after `user` asked at the time `now`: an entry of its
/// own where it had not to wait.
pub open spec fn stamped(
    cooldowns: Map<u64, u128>,
    user: u64,
    window: nat,
    now: u128,
) -> Map<u64, u128> {
    let table = tidied(cooldowns, window, now);
    if wait_of(cooldowns, user, window, now) is Some {
        table
    } else {
        table.insert(user, now)
    }
}

fn tidy(cooldowns: &HashMap<u64, u128>, window: u128, now: u128) -> (r: HashMap<u64, u128>)
    ensures
        r@ == cooldowns@.restrict(
            cooldowns@.dom().filter(
                |user: u64| github::elapsed(cooldowns@[user], now) < window as nat,
            ),
        ),
{
    let ghost all = cooldowns@;
    let ghost keep = |user: u64| github::elapsed(all[user], now) < window as nat;
    let mut out: HashMap<u64, u128> = HashMap::new();
    for entry in it: cooldowns.iter()
        invariant
            all == cooldowns@,
            keep == (|user: u64| github::elapsed(all[user], now) < window as nat),
            forall|i: int|
                0 <= i < it.seq().len() ==> all.contains_key(*(#[trigger] it.seq()[i]).0)
                    && all[*it.seq()[i].0] == *it.seq()[i].1,
            forall|user: u64| #[trigger]
                all.contains_key(user) ==> it.seq().contains((&user, &all[user])),
            forall|user: u64| #[trigger]
                out@.contains_key(user) ==> all.contains_key(user) && keep(user) && out@[user]
                    == all[user],
            forall|i: int|
                0 <= i < it.index() && keep(*(#[trigger] it.seq()[i]).0) ==> out@.contains_key(
                    *it.seq()[i].0,
                ),
    {
        let (user, last) = entry;
        if github::time_since(*last, now) < window {
            out.insert(*user, *last);
        }
    }
    proof {
        let want = all.restrict(all.dom().filter(keep));
        assert forall|user: u64| want.contains_key(user) <==> out@.contains_key(user) by {
            if want.contains_key(user) {
                assert(all.contains_key(user));
            }
        }
        assert(out@ =~= want);
    }
    out
}

impl BotState {
    /// Returns the wait remaining, or None if the user may proceed.
    fn check_cooldown(&mut self, user: u64, now: u128) -> (r: Option<u128>)
        ensures
            final(self)@ == (StateView {
                cooldowns: stamped(old(self)@.cooldowns, user, window_of(old(self)@.cfg), now),
                ..old(self)@
            }),
            final(self).wf() == old(self).wf(),
            match r {
                Some(wait) => wait_of(
                    old(self)@.cooldowns,
                    user,
                    window_of(old(self)@.cfg),
                    now,
                ) == Some(wait as nat),
                None => wait_of(
                    old(self)@.cooldowns,
                    user,
                    window_of(old(self)@.cfg),
                    now,
                ) is None,
            },
    {
        let window: u128 = self.cfg.limits.user_cooldown_secs as u128 * SECOND;
        if self.cooldowns.len() > COOLDOWN_ENTRIES {
            let table = tidy(&self.cooldowns, window, now);
            self.cooldowns = table;
        }
        if let Some(last) = self.cooldowns.get(&user) {
            let spent = github::time_since(*last, now);
            if spent < window {
                return Some(window - spent);
            }
        }
        self.cooldowns.insert(user, now);
        None
    }
}

// ---------------------------------------------------------------------------
// The trigger
// ---------------------------------------------------------------------------
/// Typed as a plain word so `@issue` also works for people who type it out
/// instead of picking the bot from Discord's autocomplete.
pub const TEXT_TRIGGER: &'static str = "@issue";

/// `s` in small letters, as `str::to_lowercase` has it.
pub uninterp spec fn lowercase(s: Seq<char>) -> Seq<char>;

/// Calls `str::to_lowercase`. The contract says that the outcome depends on the
/// text alone; which letters are small ones of which is left unsaid.
#[verifier::external_body]
fn to_lowercase(s: &str) -> (r: String)
    ensures
        r@ == lowercase(s@),
{
    s.to_lowercase()
}

/// Whether a message is meant for the bot: one of a person, in a server, that
/// mentions the bot or has the trigger in its text.
pub open spec fn is_call(
    author_is_bot: bool,
    in_guild: bool,
    mentioned: bool,
    lowered: Seq<char>,
) -> bool {
    !author_is_bot && in_guild && (mentioned || text::occurs(lowered, TEXT_TRIGGER@))
}

/// Whether a message is meant for the bot, given its text in small letters.
pub fn is_call_in(author_is_bot: bool, in_guild: bool, mentioned: bool, lowered: &str) -> (r: bool)
    ensures
        r == is_call(author_is_bot, in_guild, mentioned, lowered@),
{
    !author_is_bot && in_guild && (mentioned || text::contains(lowered, TEXT_TRIGGER))
}

/// Whether a message is meant for the bot.
pub fn calls_bot(author_is_bot: bool, in_guild: bool, mentioned: bool, content: &str) -> (r: bool)
    ensures
        r == is_call(author_is_bot, in_guild, mentioned, lowercase(content@)),
{
    let lowered = to_lowercase(content);
    is_call_in(author_is_bot, in_guild, mentioned, lowered.as_str())
}

// ---------------------------------------------------------------------------
// Requests for a draft
// ---------------------------------------------------------------------------
/// The kinds of channel that matter.
#[derive(Clone, Copy, Debug, PartialEq, Eq, Structural)]
pub enum ChannelKind {
    PublicThread,
    PrivateThread,
    NewsThread,
    /// A channel of a server that is no thread.
    Other,
    /// No channel of a server.
    Outside,
}

impl ChannelKind {
    /// Whether it is a thread.
    pub open spec fn threads(self) -> bool {
        self is PublicThread || self is PrivateThread || self is NewsThread
    }

    fn is_thread(self) -> (r: bool)
        ensures
            r == self.threads(),
    {
        match self {
            ChannelKind::PublicThread => true,
            ChannelKind::PrivateThread => true,
            ChannelKind::NewsThread => true,
            ChannelKind::Other => false,
            ChannelKind::Outside => false,
        }
    }
}

/// A message that is meant for the bot.
#[derive(Debug)]
pub struct Mention {
    pub guild_id: u64,
    pub channel_id: u64,
    pub channel_kind: ChannelKind,
    pub author: u64,
    /// The roles that the author has, where that is known.
    pub roles: Vec<u64>,
}

/// What comes of a request for a draft.
#[derive(Debug)]
pub enum Admission {
    /// Triggered somewhere it does not apply; stay quiet rather than nag.
    Ignored,
    /// There is no thread to make an issue of.
    NotAThread,
    /// The thread has this issue already.
    AlreadyFiled(String),
    /// The request is refused, for this reason.
    Refused(String),
    /// A draft is to be made, for this repository.
    Run(Repo),
}

/// What an [`Admission`] holds.
#[verifier::ext_equal]
pub enum AdmissionView {
    Ignored,
    NotAThread,
    AlreadyFiled(Seq<char>),
    Refused(Seq<char>),
    Run(RepoView),
}

impl View for Admission {
    type V = AdmissionView;

    open spec fn view(&self) -> AdmissionView {
        match self {
            Admission::Ignored => AdmissionView::Ignored,
            Admission::NotAThread => AdmissionView::NotAThread,
            Admission::AlreadyFiled(url) => AdmissionView::AlreadyFiled(url@),
            Admission::Refused(reason) => AdmissionView::Refused(reason@),
            Admission::Run(repo) => AdmissionView::Run(repo@),
        }
    }
}

/// Said to those who may not file issues.
pub const NO_ROLE: &'static str = "you don't have a role that's allowed to file issues here";

/// Said where there is nowhere to file.
pub const NO_REPO: &'static str = "no GitHub repo is configured for this server";

/// Said where a draft is open.
pub const DRAFT_OPEN: &'static str =
    "there's already a draft waiting in this thread — confirm or cancel it first";

/// Said where a thread holds nothing to go by.
pub const NO_MESSAGES: &'static str = "I couldn't read any messages in this thread";

/// Whether one of `roles` is allowed to file issues. Where none is named, all
/// are.
pub open spec fn may_file(allowed: Seq<u64>, roles: Seq<u64>) -> bool {
    allowed.len() == 0 || exists|i: int| 0 <= i < roles.len() && allowed.contains(#[trigger] roles[i])
}

/// Whether a draft is open in the thread `channel`.
pub open spec fn draft_open(pending: Map<u64, PendingView>, channel: u64) -> bool {
    exists|card: u64| #[trigger] pending.contains_key(card) && pending[card].channel_id == channel
}

/// What a user who has to wait for `wait` nanoseconds is told.
pub open spec fn slow_down(wait: nat) -> Seq<char> {
    "slow down a moment — try again in "@ + number::decimal(wait / (SECOND as nat) + 1) + "s"@
}

/// What comes of a request, and the state after it.
pub open spec fn admitted(s: StateView, m: Mention, now: u128) -> (AdmissionView, StateView) {
    let repo = config::repo_for(s.cfg, m.guild_id);
    let window = window_of(s.cfg);
    let timed = StateView { cooldowns: stamped(s.cooldowns, m.author, window, now), ..s };
    if m.channel_kind is Outside {
        (AdmissionView::Ignored, s)
    } else if !m.channel_kind.threads() {
        (AdmissionView::NotAThread, s)
    } else if !may_file(s.cfg.allowed_role_ids, m.roles@) {
        (AdmissionView::Refused(NO_ROLE@), s)
    } else if repo is None {
        (AdmissionView::Refused(NO_REPO@), s)
    } else if s.filed.contains_key(m.channel_id) {
        (AdmissionView::AlreadyFiled(s.filed[m.channel_id]), s)
    } else if draft_open(s.pending, m.channel_id) {
        (AdmissionView::Refused(DRAFT_OPEN@), s)
    } else if wait_of(s.cooldowns, m.author, window, now) is Some {
        (
            AdmissionView::Refused(
                slow_down(wait_of(s.cooldowns, m.author, window, now)->Some_0),
            ),
            timed,
        )
    } else if s.in_flight.contains(m.channel_id) {
        (AdmissionView::Ignored, timed)
    } else {
        (
            AdmissionView::Run(repo->Some_0),
            StateView { in_flight: timed.in_flight.insert(m.channel_id), ..timed },
        )
    }
}

fn lists_id(list: &[u64], id: u64) -> (r: bool)
    ensures
        r == list@.contains(id),
{
    let mut i: usize = 0;
    while i < list.len()
        invariant
            i <= list@.len(),
            forall|j: int| 0 <= j < i ==> list@[j] != id,
        decreases list@.len() - i,
    {
        if list[i] == id {
            return true;
        }
        i += 1;
    }
    false
}

fn role_allows(allowed: &[u64], roles: &[u64]) -> (r: bool)
    ensures
        r == may_file(allowed@, roles@),
{
    if allowed.len() == 0 {
        return true;
    }
    let mut i: usize = 0;
    while i < roles.len()
        invariant
            i <= roles@.len(),
            forall|j: int| 0 <= j < i ==> !allowed@.contains(#[trigger] roles@[j]),
        decreases roles@.len() - i,
    {
        if lists_id(allowed, roles[i]) {
            return true;
        }
        i += 1;
    }
    false
}

impl BotState {
    /// Whether a draft is open in the thread `channel`.
    pub fn has_open_draft(&self, channel: u64) -> (r: bool)
        ensures
            r == draft_open(self@.pending, channel),
    {
        let ghost all = self.pending@;
        for entry in it: self.pending.iter()
            invariant
                all == self.pending@,
                self@.pending == draft_table(all),
                forall|i: int|
                    0 <= i < it.seq().len() ==> all.contains_key(*(#[trigger] it.seq()[i]).0)
                        && all[*it.seq()[i].0] == *it.seq()[i].1,
                forall|card: u64| #[trigger]
                    all.contains_key(card) ==> it.seq().contains((&card, &all[card])),
                forall|i: int|
                    0 <= i < it.index() ==> (#[trigger] it.seq()[i]).1.channel_id != channel,
        {
            let (card, draft) = entry;
            if draft.channel_id == channel {
                assert(self@.pending.contains_key(*card));
                assert(self@.pending[*card] == draft@);
                return true;
            }
        }
        proof {
            if draft_open(self@.pending, channel) {
                let card = choose|card: u64| #[trigger]
                    self@.pending.contains_key(card) && self@.pending[card].channel_id == channel;
                assert(all.contains_key(card));
                assert(self@.pending[card] == all[card]@);
            }
        }
        false
    }

    /// Decides on a request for a draft. Where it is granted, the thread counts
    /// as being worked on until [`BotState::open_card`] or
    /// [`BotState::release`].
    pub fn consider(&mut self, m: &Mention, now: u128) -> (r: Admission)
        ensures
            (r@, final(self)@) == admitted(old(self)@, *m, now),
            final(self).wf() == old(self).wf(),
    {
        if m.channel_kind == ChannelKind::Outside {
            return Admission::Ignored;
        }
        if !m.channel_kind.is_thread() {
            return Admission::NotAThread;
        }
        if !role_allows(self.cfg.allowed_role_ids.as_slice(), m.roles.as_slice()) {
            return Admission::Refused(NO_ROLE.to_owned());
        }
        let repo = match self.cfg.repo_for_guild(m.guild_id) {
            Some(repo) => repo.clone(),
            None => {
                return Admission::Refused(NO_REPO.to_owned());
            },
        };
        if let Some(url) = self.filed.get(&m.channel_id) {
            return Admission::AlreadyFiled(url.clone());
        }
        if self.has_open_draft(m.channel_id) {
            return Admission::Refused(DRAFT_OPEN.to_owned());
        }
        if let Some(wait) = self.check_cooldown(m.author, now) {
            let mut reason = "slow down a moment — try again in ".to_owned();
            reason.append(number::to_decimal(wait / SECOND + 1).as_str());
            reason.append("s");
            return Admission::Refused(reason);
        }
        if self.in_flight.contains(&m.channel_id) {
            return Admission::Ignored;
        }
        self.in_flight.insert(m.channel_id);
        Admission::Run(repo)
    }

    /// Gives up the work on the thread `channel`, so that a failed run does not
    /// wedge it forever.
    pub fn release(&mut self, channel: u64)
        ensures
            final(self)@ == released(old(self)@, channel),
            final(self).wf() == old(self).wf(),
    {
        self.in_flight.remove(&channel);
    }

    /// Takes in a draft whose card has been posted: it is open from now on, and
    /// the work on its thread is done.
    pub fn open_card(&mut self, card_id: u64, draft: PendingDraft)
        ensures
            final(self)@ == opened(old(self)@, card_id, draft@),
            final(self).wf() == old(self).wf(),
    {
        let channel = draft.channel_id;
        let ghost before = self.pending@;
        self.pending.insert(card_id, draft);
        self.in_flight.remove(&channel);
        assert(draft_table(self.pending@) =~= draft_table(before).insert(card_id, draft@));
    }
}

/// The state once the work on the thread `channel` is given up.
pub open spec fn released(s: StateView, channel: u64) -> StateView {
    StateView { in_flight: s.in_flight.remove(channel), ..s }
}

/// The state once the draft `p` stands on the card `card_id`.
pub open spec fn opened(s: StateView, card_id: u64, p: PendingView) -> StateView {
    StateView {
        pending: s.pending.insert(card_id, p),
        in_flight: s.in_flight.remove(p.channel_id),
        ..s
    }
}

// ---------------------------------------------------------------------------
// Replies
// ---------------------------------------------------------------------------
/// Discord rejects messages over 2000 characters; replies are cut to this many.
pub const MAX_REPLY_CHARS: usize = 1_900;

/// Said to those who call outside of a thread.
pub const USE_A_THREAD: &'static str =
    "Mention me **inside a thread** and I'll turn it into a GitHub issue.";

/// What is said of a draft that could not be made.
pub open spec fn failure_reply(reason: Seq<char>) -> Seq<char> {
    "Could not draft the issue: "@ + reason
}

/// `s`, cut to what Discord takes.
pub fn clip_reply(s: &str) -> (r: String)
    ensures
        r@ == transcript::clipped(s@, MAX_REPLY_CHARS as nat),
{
    transcript::truncate_chars(s, MAX_REPLY_CHARS).0
}

/// Says that a draft could not be made.
pub fn explain_failure(reason: &str) -> (r: String)
    ensures
        r@ == transcript::clipped(failure_reply(reason@), MAX_REPLY_CHARS as nat),
{
    let mut out = "Could not draft the issue: ".to_owned();
    out.append(reason);
    clip_reply(out.as_str())
}

impl AdmissionView {
    /// What is said in reply to a request, if anything.
    pub open spec fn reply(self) -> Option<Seq<char>> {
        match self {
            AdmissionView::Ignored => None,
            AdmissionView::NotAThread => Some(USE_A_THREAD@),
            AdmissionView::AlreadyFiled(url) => Some("This thread already has an issue: "@ + url),
            AdmissionView::Refused(reason) => Some(failure_reply(reason)),
            AdmissionView::Run(_) => None,
        }
    }
}

impl Admission {
    /// What is said in reply to a request, if anything.
    pub fn reply(&self) -> (r: Option<String>)
        ensures
            match r {
                Some(s) => self@.reply() is Some && s@ == transcript::clipped(
                    self@.reply()->Some_0,
                    MAX_REPLY_CHARS as nat,
                ),
                None => self@.reply() is None,
            },
    {
        match self {
            Admission::Ignored => None,
            Admission::NotAThread => Some(clip_reply(USE_A_THREAD)),
            Admission::AlreadyFiled(url) => {
                let mut out = "This thread already has an issue: ".to_owned();
                out.append(url.as_str());
                Some(clip_reply(out.as_str()))
            },
            Admission::Refused(reason) => Some(explain_failure(reason.as_str())),
            Admission::Run(_) => None,
        }
    }
}

// ---------------------------------------------------------------------------
// Making a draft
// ---------------------------------------------------------------------------
/// What a thread begins with, given what was read of it.
pub open spec fn opening(messages: Seq<MessageView>) -> Result<Seq<char>, Seq<char>> {
    if messages.len() == 0 {
        Err(NO_MESSAGES@)
    } else {
        Ok(messages[0].content)
    }
}

/// What a thread begins with, given what was read of it. A thread of which
/// nothing could be read makes no issue.
pub fn opening_of(messages: &[ThreadMessage]) -> (r: Result<String, String>)
    ensures
        match r {
            Ok(first) => opening(transcript::message_views(messages@)) == Ok::<
                Seq<char>,
                Seq<char>,
            >(first@),
            Err(e) => opening(transcript::message_views(messages@)) == Err::<Seq<char>, Seq<char>>(
                e@,
            ),
        },
{
    if messages.len() == 0 {
        return Err(NO_MESSAGES.to_owned());
    }
    assert(transcript::message_views(messages@)[0] == messages@[0]@);
    Ok(messages[0].content.clone())
}

/// The draft to propose: the model's where there is one, else one made of the
/// thread's first message.
pub open spec fn chosen_draft(drafted: Option<DraftView>, first: Seq<char>) -> DraftView {
    match drafted {
        Some(draft) => draft,
        None => llm::raw_draft(first),
    }
}

/// The draft to propose.
pub fn draft_or_fallback(drafted: Option<IssueDraft>, first_content: &str) -> (r: IssueDraft)
    ensures
        r@ == chosen_draft(
            match drafted {
                Some(draft) => Some(draft@),
                None => None,
            },
            first_content@,
        ),
{
    match drafted {
        Some(draft) => draft,
        None => llm::fallback(first_content),
    }
}

/// The address of a thread.
pub open spec fn thread_url(guild_id: u64, channel_id: u64) -> Seq<char> {
    "https://discord.com/channels/"@ + number::decimal(guild_id as nat) + "/"@ + number::decimal(
        channel_id as nat,
    )
}

/// A draft as it waits for someone to confirm it.
pub open spec fn prepared(
    m: Mention,
    reporter: Seq<char>,
    repo: RepoView,
    draft: DraftView,
    available_labels: Seq<Seq<char>>,
    transcript: TranscriptView,
) -> PendingView {
    PendingView {
        channel_id: m.channel_id,
        requester: m.author,
        repo,
        draft,
        available_labels,
        transcript,
        thread_url: thread_url(m.guild_id, m.channel_id),
        reporter,
    }
}

/// A draft as it waits for someone to confirm it.
pub fn prepare(
    m: &Mention,
    reporter: String,
    repo: Repo,
    draft: IssueDraft,
    available_labels: Vec<String>,
    transcript: Transcript,
) -> (r: PendingDraft)
    ensures
        r@ == (PendingView {
            channel_id: m.channel_id,
            requester: m.author,
            repo: repo@,
            draft: draft@,
            available_labels: text::texts(available_labels@),
            transcript: transcript@,
            thread_url: thread_url(m.guild_id, m.channel_id),
            reporter: reporter@,
        }),
        r@ == prepared(
            *m,
            reporter@,
            repo@,
            draft@,
            text::texts(available_labels@),
            transcript@,
        ),
{
    let mut url = "https://discord.com/channels/".to_owned();
    url.append(number::to_decimal(m.guild_id as u128).as_str());
    url.append("/");
    url.append(number::to_decimal(m.channel_id as u128).as_str());
    PendingDraft {
        channel_id: m.channel_id,
        requester: m.author,
        repo,
        draft,
        available_labels,
        transcript,
        thread_url: url,
        reporter,
    }
}

// ---------------------------------------------------------------------------
// Edits
// ---------------------------------------------------------------------------
/// A change to a stored draft.
#[derive(Debug)]
pub enum Edit {
    Title(String),
    Labels(Vec<String>),
}

/// What an [`Edit`] holds.
#[verifier::ext_equal]
pub enum EditView {
    Title(Seq<char>),
    Labels(Seq<Seq<char>>),
}

impl View for Edit {
    type V = EditView;

    open spec fn view(&self) -> EditView {
        match self {
            Edit::Title(title) => EditView::Title(title@),
            Edit::Labels(labels) => EditView::Labels(text::texts(labels@)),
        }
    }
}

/// `p` after the edit `e`: nothing else of it changes.
pub open spec fn edited(p: PendingView, e: EditView) -> PendingView {
    match e {
        EditView::Title(title) => PendingView { draft: DraftView { title, ..p.draft }, ..p },
        EditView::Labels(labels) => PendingView { draft: DraftView { labels, ..p.draft }, ..p },
    }
}

/// The state after the edit `e` of the draft on the card `card_id`.
pub open spec fn mutated(s: StateView, card_id: u64, e: EditView) -> StateView {
    if s.pending.contains_key(card_id) {
        StateView { pending: s.pending.insert(card_id, edited(s.pending[card_id], e)), ..s }
    } else {
        s
    }
}

/// Said of an edit that comes too late.
pub const NO_LONGER_OPEN: &'static str = "this draft is no longer open";

/// The labels of `values` that the repo has, each once, in the order they are
/// in.
pub open spec fn valid(values: Seq<Seq<char>>, available: Seq<Seq<char>>) -> Seq<Seq<char>>
    decreases values.len(),
{
    if values.len() == 0 {
        Seq::empty()
    } else {
        let before = valid(values.drop_last(), available);
        if available.contains(values.last()) && !before.contains(values.last()) {
            before.push(values.last())
        } else {
            before
        }
    }
}

/// Keep only labels the repo still has, deduped and capped.
///
/// The values come from options we built ourselves, but a label can be deleted
/// on GitHub while a card sits open, and Discord's `max_values` is a client
/// hint rather than something to rely on.
pub fn valid_labels(values: &[String], available: &[String]) -> (r: Vec<String>)
    ensures
        text::texts(r@) == llm::capped(valid(text::texts(values@), text::texts(available@))),
{
    let ghost all = text::texts(values@);
    let ghost has = text::texts(available@);
    let mut chosen: Vec<String> = Vec::new();
    let mut i: usize = 0;
    proof {
        assert(all.take(0) =~= Seq::<Seq<char>>::empty());
        assert(text::texts(chosen@) =~= Seq::<Seq<char>>::empty());
    }
    while i < values.len()
        invariant
            i <= values@.len(),
            all == text::texts(values@),
            has == text::texts(available@),
            text::texts(chosen@) == valid(all.take(i as int), has),
        decreases values@.len() - i,
    {
        proof {
            assert(all.take(i + 1).drop_last() =~= all.take(i as int));
            assert(all.take(i + 1).last() == values@[i as int]@);
        }
        if text::lists(available, values[i].as_str()) && !text::lists(
            chosen.as_slice(),
            values[i].as_str(),
        ) {
            let ghost before = chosen@;
            let label = values[i].clone();
            chosen.push(label);
            proof {
                text::lemma_texts_push(before, label);
            }
        }
        i += 1;
    }
    assert(all.take(i as int) =~= all);
    llm::cap_labels(chosen)
}

impl BotState {
    /// The draft on the card `card_id`, where it is open.
    pub fn lookup(&self, card_id: u64) -> (r: Option<PendingDraft>)
        ensures
            match r {
                Some(p) => self@.pending.contains_key(card_id) && p@ == self@.pending[card_id],
                None => !self@.pending.contains_key(card_id),
            },
    {
        match self.pending.get(&card_id) {
            Some(p) => Some(p.clone()),
            None => None,
        }
    }

    /// Apply an edit to a stored draft and hand back the updated copy.
    pub fn mutate(&mut self, card_id: u64, edit: Edit) -> (r: Result<PendingDraft, String>)
        ensures
            final(self)@ == mutated(old(self)@, card_id, edit@),
            final(self).wf() == old(self).wf(),
            match r {
                Ok(p) => old(self)@.pending.contains_key(card_id) && p@ == edited(
                    old(self)@.pending[card_id],
                    edit@,
                ),
                Err(e) => !old(self)@.pending.contains_key(card_id) && e@ == NO_LONGER_OPEN@,
            },
    {
        let ghost before = self.pending@;
        let mut p = match self.lookup(card_id) {
            Some(p) => p,
            None => {
                return Err(NO_LONGER_OPEN.to_owned());
            },
        };
        match edit {
            Edit::Title(title) => {
                p.draft.title = title;
            },
            Edit::Labels(labels) => {
                p.draft.labels = labels;
            },
        }
        let copy = p.clone();
        self.pending.insert(card_id, p);
        assert(draft_table(self.pending@) =~= draft_table(before).insert(card_id, p@));
        Ok(copy)
    }
}

// ---------------------------------------------------------------------------
// Filing
// ---------------------------------------------------------------------------
/// The request that files the draft `p`.
pub open spec fn filing_request(s: StateView, p: PendingView) -> RequestView {
    github::issue_request(
        s.github,
        p.repo,
        p.draft.title,
        issue::body_of(
            p.draft,
            p.transcript,
            p.thread_url,
            p.reporter,
            s.cfg.limits.max_body_chars as nat,
        ),
        p.draft.labels,
    )
}

/// The state once the issue `url` about the thread `channel` is filed from the
/// card `card_id`.
pub open spec fn settled(
    s: StateView,
    card_id: u64,
    channel: u64,
    url: Seq<char>,
) -> StateView {
    StateView {
        pending: s.pending.remove(card_id),
        filed: s.filed.insert(channel, url),
        ..s
    }
}

/// What a card says of a filing that failed.
pub open spec fn filing_failure(reason: Seq<char>) -> Seq<char> {
    "Could not file the issue: "@ + reason
}

/// What a card says of the issue that was filed from it.
pub open spec fn filing_success(url: Seq<char>) -> Seq<char> {
    "Filed: "@ + url
}

/// What a card says of a filing that failed; the card stays usable, so they can
/// just press it again.
pub fn explain_failed_filing(reason: &str) -> (r: String)
    ensures
        r@ == "Could not file the issue: "@ + reason@,
        r@ == filing_failure(reason@),
{
    let mut out = "Could not file the issue: ".to_owned();
    out.append(reason);
    out
}

impl BotState {
    /// The request that files the draft `pending`.
    pub fn file_issue(&self, pending: &PendingDraft) -> (r: ApiRequest)
        ensures
            r@ == filing_request(self@, pending@),
    {
        let cx = IssueContext {
            thread_url: pending.thread_url.as_str(),
            reporter: pending.reporter.as_str(),
        };
        let body = issue::render_body(
            &pending.draft,
            &pending.transcript,
            &cx,
            self.cfg.limits.max_body_chars,
        );
        self.github.create_issue(
            &pending.repo,
            pending.draft.title.as_str(),
            body.as_str(),
            pending.draft.labels.as_slice(),
        )
    }

    /// Takes in that the draft `pending`, on the card `card_id`, was filed as
    /// `issue`, and says what the card reads now.
    pub fn settle_filing(&mut self, card_id: u64, pending: &PendingDraft, issue: &CreatedIssue) -> (r:
        String)
        ensures
            final(self)@ == settled(old(self)@, card_id, pending@.channel_id, issue.html_url@),
            final(self).wf() == old(self).wf(),
            r@ == "Filed: "@ + issue.html_url@,
            r@ == filing_success(issue.html_url@),
    {
        let ghost pending_before = self.pending@;
        let ghost filed_before = self.filed@;
        let url = issue.html_url.clone();
        self.pending.remove(&card_id);
        self.filed.insert(pending.channel_id, url);
        proof {
            assert(draft_table(self.pending@) =~= draft_table(pending_before).remove(card_id));
            assert(text_table(self.filed@) =~= text_table(filed_before).insert(
                pending.channel_id,
                url@,
            ));
        }
        let mut out = "Filed: ".to_owned();
        out.append(issue.html_url.as_str());
        out
    }
}

// ---------------------------------------------------------------------------
// Presses and picks
// ---------------------------------------------------------------------------
/// A press or a pick on a card.
#[derive(Debug)]
pub struct Press {
    /// The card it is on.
    pub card_id: u64,
    pub user: u64,
    /// What was pressed.
    pub custom_id: String,
    /// What was picked, where it was a menu of texts.
    pub values: Option<Vec<String>>,
}

/// What is done about a press.
#[derive(Debug)]
pub enum CardAction {
    Nothing,
    /// Tell this to whoever pressed, and to no one else.
    Tell(String),
    /// Put this in place of the card.
    Close(String),
    /// Open the editor for the title.
    Ask(Modal),
    /// Draw the card anew.
    Redraw(PendingDraft),
    /// File this draft with this request.
    File(PendingDraft, ApiRequest),
}

/// What a [`CardAction`] holds.
pub enum ActionView {
    Nothing,
    Tell(Seq<char>),
    Close(Seq<char>),
    Ask(ModalView),
    Redraw(PendingView),
    File(PendingView, RequestView),
}

impl View for CardAction {
    type V = ActionView;

    open spec fn view(&self) -> ActionView {
        match self {
            CardAction::Nothing => ActionView::Nothing,
            CardAction::Tell(s) => ActionView::Tell(s@),
            CardAction::Close(s) => ActionView::Close(s@),
            CardAction::Ask(modal) => ActionView::Ask(modal@),
            CardAction::Redraw(p) => ActionView::Redraw(p@),
            CardAction::File(p, request) => ActionView::File(p@, request@),
        }
    }
}

/// Drafts do not survive a restart, so say that rather than fail silently.
pub const EXPIRED: &'static str =
    "This draft is no longer open — run `@issue` again to start over.";

/// What is put in place of a card that was cancelled.
pub const CANCELLED: &'static str = "Cancelled — nothing was filed.";

/// Said to whoever presses on a card of someone else.
pub open spec fn refusal(reporter: Seq<char>) -> Seq<char> {
    "Only "@ + reporter + " can confirm this draft. Run `@issue` yourself to make your own."@
}

/// Whether `id` is one of the card's controls.
pub open spec fn is_control(id: Seq<char>) -> bool {
    id == card::CREATE@ || id == card::EDIT@ || id == card::CANCEL@ || id == card::LABELS@
}

/// The texts that were picked, where any were.
pub open spec fn picks(values: Option<Vec<String>>) -> Option<Seq<Seq<char>>> {
    match values {
        Some(v) => Some(text::texts(v@)),
        None => None,
    }
}

/// What is done about the press of `user` on the control `id` of the card
/// `card_id`, and the state after it.
pub open spec fn pressed(
    s: StateView,
    card_id: u64,
    user: u64,
    id: Seq<char>,
    values: Option<Seq<Seq<char>>>,
) -> (ActionView, StateView) {
    let p = s.pending[card_id];
    if !is_control(id) {
        (ActionView::Nothing, s)
    } else if !s.pending.contains_key(card_id) {
        (ActionView::Tell(EXPIRED@), s)
    } else if user != p.requester {
        (ActionView::Tell(refusal(p.reporter)), s)
    } else if id == card::CANCEL@ {
        (
            ActionView::Close(CANCELLED@),
            StateView { pending: s.pending.remove(card_id), ..s },
        )
    } else if id == card::EDIT@ {
        (ActionView::Ask(card::modal_of(p.draft.title)), s)
    } else if id == card::LABELS@ {
        match values {
            None => (ActionView::Nothing, s),
            Some(picked) => {
                let e = EditView::Labels(llm::capped(valid(picked, p.available_labels)));
                (ActionView::Redraw(edited(p, e)), mutated(s, card_id, e))
            },
        }
    } else {
        (ActionView::File(p, filing_request(s, p)), s)
    }
}

fn is_control_id(id: &str) -> (r: bool)
    ensures
        r == is_control(id@),
{
    text::same(id, card::CREATE) || text::same(id, card::EDIT) || text::same(id, card::CANCEL)
        || text::same(id, card::LABELS)
}

impl BotState {
    /// Button presses and label picks on a card.
    pub fn on_component(&mut self, press: &Press) -> (r: CardAction)
        ensures
            (r@, final(self)@) == pressed(
                old(self)@,
                press.card_id,
                press.user,
                press.custom_id@,
                picks(press.values),
            ),
            final(self).wf() == old(self).wf(),
    {
        let id = press.custom_id.as_str();
        if !is_control_id(id) {
            return CardAction::Nothing;
        }
        let pending = match self.lookup(press.card_id) {
            Some(p) => p,
            None => {
                return CardAction::Tell(EXPIRED.to_owned());
            },
        };
        if press.user != pending.requester {
            let mut out = "Only ".to_owned();
            out.append(pending.reporter.as_str());
            out.append(" can confirm this draft. Run `@issue` yourself to make your own.");
            return CardAction::Tell(out);
        }
        if text::same(id, card::CANCEL) {
            let ghost before = self.pending@;
            self.pending.remove(&press.card_id);
            assert(draft_table(self.pending@) =~= draft_table(before).remove(press.card_id));
            return CardAction::Close(CANCELLED.to_owned());
        }
        if text::same(id, card::EDIT) {
            return CardAction::Ask(card::title_modal(pending.draft.title.as_str()));
        }
        if text::same(id, card::LABELS) {
            return match &press.values {
                None => CardAction::Nothing,
                Some(values) => {
                    let chosen = valid_labels(
                        values.as_slice(),
                        pending.available_labels.as_slice(),
                    );
                    match self.mutate(press.card_id, Edit::Labels(chosen)) {
                        Ok(updated) => CardAction::Redraw(updated),
                        Err(_) => CardAction::Nothing,
                    }
                },
            };
        }
        let request = self.file_issue(&pending);
        CardAction::File(pending, request)
    }
}

// ---------------------------------------------------------------------------
// The title editor coming back
// ---------------------------------------------------------------------------
/// The **Edit title** editor coming back.
#[derive(Debug)]
pub struct Submission {
    pub custom_id: String,
    /// The card it was opened from, where that is known.
    pub card_id: Option<u64>,
    pub user: u64,
    /// What the lines of the editor are called and hold.
    pub inputs: Vec<(String, Option<String>)>,
}

/// What the lines of an editor are called and hold.
pub open spec fn input_views(v: Seq<(String, Option<String>)>) -> Seq<
    (Seq<char>, Option<Seq<char>>),
> {
    Seq::new(v.len(), |i: int| (v[i].0@, text::opt_text(v[i].1)))
}

/// What the first line of that name that holds anything holds; nothing, where
/// there is none.
pub open spec fn typed(inputs: Seq<(Seq<char>, Option<Seq<char>>)>, name: Seq<char>) -> Seq<char>
    decreases inputs.len(),
{
    if inputs.len() == 0 {
        Seq::empty()
    } else if inputs[0].0 == name && inputs[0].1 is Some {
        inputs[0].1->Some_0
    } else {
        typed(inputs.skip(1), name)
    }
}

/// What is done about an editor that comes back, and the state after it.
pub open spec fn submitted(
    s: StateView,
    id: Seq<char>,
    card_id: Option<u64>,
    user: u64,
    inputs: Seq<(Seq<char>, Option<Seq<char>>)>,
) -> (ActionView, StateView) {
    let title = text::trimmed(typed(inputs, card::TITLE_INPUT@));
    if id != card::TITLE_MODAL@ {
        (ActionView::Nothing, s)
    } else {
        match card_id {
            None => (ActionView::Nothing, s),
            Some(card) => {
                let p = s.pending[card];
                if !s.pending.contains_key(card) {
                    (ActionView::Tell(EXPIRED@), s)
                } else if user != p.requester || title.len() == 0 {
                    (ActionView::Nothing, s)
                } else {
                    let e = EditView::Title(title);
                    (ActionView::Redraw(edited(p, e)), mutated(s, card, e))
                }
            },
        }
    }
}

fn find_input(inputs: &[(String, Option<String>)], name: &str) -> (r: String)
    ensures
        r@ == typed(input_views(inputs@), name@),
{
    let ghost all = input_views(inputs@);
    let mut i: usize = 0;
    assert(all.skip(0) =~= all);
    while i < inputs.len()
        invariant
            i <= inputs@.len(),
            all == input_views(inputs@),
            typed(all, name@) == typed(all.skip(i as int), name@),
        decreases inputs@.len() - i,
    {
        assert(all.skip(i as int)[0] == (
            inputs@[i as int].0@,
            text::opt_text(inputs@[i as int].1),
        ));
        if text::same(inputs[i].0.as_str(), name) {
            if let Some(value) = &inputs[i].1 {
                return value.clone();
            }
        }
        assert(all.skip(i as int).skip(1) =~= all.skip(i + 1));
        i += 1;
    }
    String::new()
}

impl BotState {
    /// The **Edit title** editor coming back.
    pub fn on_modal(&mut self, modal: &Submission) -> (r: CardAction)
        ensures
            (r@, final(self)@) == submitted(
                old(self)@,
                modal.custom_id@,
                modal.card_id,
                modal.user,
                input_views(modal.inputs@),
            ),
            final(self).wf() == old(self).wf(),
    {
        if !text::same(modal.custom_id.as_str(), card::TITLE_MODAL) {
            return CardAction::Nothing;
        }
        let card_id: u64 = match modal.card_id {
            Some(id) => id,
            None => {
                return CardAction::Nothing;
            },
        };
        let pending = match self.lookup(card_id) {
            Some(p) => p,
            None => {
                return CardAction::Tell(EXPIRED.to_owned());
            },
        };
        if modal.user != pending.requester {
            return CardAction::Nothing;
        }
        let typed = find_input(modal.inputs.as_slice(), card::TITLE_INPUT);
        let title = text::trim(typed.as_str());
        if text::count_chars(title.as_str()) == 0 {
            return CardAction::Nothing;
        }
        match self.mutate(card_id, Edit::Title(title)) {
            Ok(updated) => CardAction::Redraw(updated),
            Err(_) => CardAction::Nothing,
        }
    }
}

} // verus!
