//! What comes of a call: who is let through, who is turned away and why, and
//! what the draft that is made of it goes by.

use crate::config::RepoView;
use crate::discord;
use crate::discord::{AdmissionView, ChannelKind, Mention, StateView};
use crate::llm::DraftView;
use crate::number;
use crate::text;
use crate::transcript::{MessageView, TranscriptView};
use vstd::prelude::*;

verus! {

// ---------------------------------------------------------------------------
// Who may ask, and where
// ---------------------------------------------------------------------------
/// Whether the call comes from a thread.
pub open spec fn in_thread(m: Mention) -> bool {
    ||| m.channel_kind == ChannelKind::PublicThread
    ||| m.channel_kind == ChannelKind::PrivateThread
    ||| m.channel_kind == ChannelKind::NewsThread
}

/// Whether its author may file: roles are not asked for, or one of the
/// author's is on the list.
pub open spec fn may_ask(s: StateView, m: Mention) -> bool {
    ||| s.cfg.allowed_role_ids.len() == 0
    ||| exists|i: int, j: int|
        0 <= i < m.roles@.len() && 0 <= j < s.cfg.allowed_role_ids.len() && #[trigger] m.roles@[i]
            == #[trigger] s.cfg.allowed_role_ids[j]
}

/// Where the server files: into its own repository, or else the default one.
pub open spec fn home(s: StateView, m: Mention) -> Option<RepoView> {
    if s.cfg.guild_repos.contains_key(m.guild_id) {
        Some(s.cfg.guild_repos[m.guild_id])
    } else {
        s.cfg.default_repo
    }
}

/// Whether a draft about this very thread is open.
pub open spec fn draft_waits(s: StateView, channel: u64) -> bool {
    exists|card: u64| #[trigger]
        s.pending.contains_key(card) && s.pending[card].channel_id == channel
}

/// How long ago `then` was at the time `now`, both in nanoseconds.
pub open spec fn since(then: u128, now: u128) -> int {
    if now >= then {
        now - then
    } else {
        0
    }
}

/// Whether `user` has to wait at the time `now`: the last request that was let
/// through is not as long ago as the cooldown says.
pub open spec fn waits(s: StateView, user: u64, now: u128) -> bool {
    &&& s.cooldowns.contains_key(user)
    &&& since(s.cooldowns[user], now) < s.cfg.limits.user_cooldown_secs * 1_000_000_000
}

/// Whether a draft can be thought of at all: the call comes from a thread, its
/// author may file, the server has a repository, and neither is the thread
/// filed nor has it a draft open.
pub open spec fn in_order(s: StateView, m: Mention) -> bool {
    &&& in_thread(m)
    &&& may_ask(s, m)
    &&& home(s, m) is Some
    &&& !s.filed.contains_key(m.channel_id)
    &&& !draft_waits(s, m.channel_id)
}

proof fn lemma_may_ask(s: StateView, m: Mention)
    ensures
        discord::may_file(s.cfg.allowed_role_ids, m.roles@) == may_ask(s, m),
{
    let allowed = s.cfg.allowed_role_ids;
    if discord::may_file(allowed, m.roles@) && allowed.len() > 0 {
        let i = choose|i: int| 0 <= i < m.roles@.len() && allowed.contains(#[trigger] m.roles@[i]);
        let j = choose|j: int| 0 <= j < allowed.len() && allowed[j] == m.roles@[i];
        assert(m.roles@[i] == s.cfg.allowed_role_ids[j]);
    }
    if may_ask(s, m) && allowed.len() > 0 {
        let (i, j) = choose|i: int, j: int|
            0 <= i < m.roles@.len() && 0 <= j < s.cfg.allowed_role_ids.len()
                && #[trigger] m.roles@[i] == #[trigger] s.cfg.allowed_role_ids[j];
        assert(allowed.contains(m.roles@[i]));
    }
}

proof fn lemma_reasons_differ(wait: nat)
    ensures
        discord::NO_ROLE@[0] == 'y',
        discord::NO_REPO@[0] == 'n',
        discord::DRAFT_OPEN@[0] == 't',
        discord::slow_down(wait)[0] == 's',
{
    reveal_strlit("you don't have a role that's allowed to file issues here");
    reveal_strlit("no GitHub repo is configured for this server");
    reveal_strlit("there's already a draft waiting in this thread — confirm or cancel it first");
    reveal_strlit("slow down a moment — try again in ");
}

/// A request is granted whenever nothing stands in its way: it comes from a
/// thread, its author may file, the server has a repository, this very thread
/// neither has its issue nor a draft open nor is being worked on, and its author
/// has no wait left. It is granted then only, for the server's repository; from
/// then on the thread is being worked on, and the author has the whole wait
/// before them.
pub proof fn law_requests_are_granted_when_nothing_stands_in_the_way(
    s: StateView,
    m: Mention,
    now: u128,
)
    ensures
        ({
            let (outcome, after) = discord::admitted(s, m, now);
            &&& outcome is Run <==> in_order(s, m) && !waits(s, m.author, now)
                && !s.in_flight.contains(m.channel_id)
            &&& outcome is Run ==> {
                &&& Some(outcome->Run_0) == home(s, m)
                &&& after.in_flight.contains(m.channel_id)
                &&& after.cooldowns.contains_key(m.author)
                &&& after.cooldowns[m.author] == now
            }
        }),
{
    lemma_may_ask(s, m);
}

/// Each request that is turned away is told why, and why is true: the first of
/// these that holds, in this order. It is no thread; the author may not file;
/// there is nowhere to file; the thread has its issue, which is linked; a draft
/// about this very thread is open; the author has to wait, for so many seconds;
/// and where the thread is being worked on already, nothing is said.
pub proof fn law_refusals_have_their_reasons(s: StateView, m: Mention, now: u128)
    ensures
        ({
            let outcome = discord::admitted(s, m, now).0;
            let ready = in_thread(m) && may_ask(s, m) && home(s, m) is Some;
            let unfiled = ready && !s.filed.contains_key(m.channel_id);
            let left = s.cfg.limits.user_cooldown_secs * 1_000_000_000 - since(
                s.cooldowns[m.author],
                now,
            );
            &&& outcome is NotAThread <==> m.channel_kind == ChannelKind::Other
            &&& outcome == AdmissionView::Refused(
                "you don't have a role that's allowed to file issues here"@,
            ) <==> in_thread(m) && !may_ask(s, m)
            &&& outcome == AdmissionView::Refused(
                "no GitHub repo is configured for this server"@,
            ) <==> in_thread(m) && may_ask(s, m) && home(s, m) is None
            &&& outcome is AlreadyFiled <==> ready && s.filed.contains_key(m.channel_id)
            &&& outcome is AlreadyFiled ==> outcome->AlreadyFiled_0 == s.filed[m.channel_id]
            &&& outcome == AdmissionView::Refused(
                "there's already a draft waiting in this thread — confirm or cancel it first"@,
            ) <==> unfiled && draft_waits(s, m.channel_id)
            &&& in_order(s, m) && waits(s, m.author, now) ==> outcome == AdmissionView::Refused(
                "slow down a moment — try again in "@ + number::decimal(
                    (left / 1_000_000_000 + 1) as nat,
                ) + "s"@,
            )
            &&& outcome is Ignored <==> m.channel_kind == ChannelKind::Outside || in_order(s, m)
                && !waits(s, m.author, now) && s.in_flight.contains(m.channel_id)
        }),
{
    lemma_may_ask(s, m);
    let window = discord::window_of(s.cfg);
    let wait = discord::wait_of(s.cooldowns, m.author, window, now);
    lemma_reasons_differ(
        match wait {
            Some(n) => n,
            None => 0,
        },
    );
}

/// A request touches no more than it has to: what is filed, what is open, how
/// the bot is set up and what it knows of labels stay as they are; so does the
/// work on every other thread, and everyone else's wait. A request that is
/// turned away before the wait is asked for touches nothing at all, and one that
/// has to wait does not have to wait any longer for it.
pub proof fn law_requests_leave_everyone_else_alone(
    s: StateView,
    m: Mention,
    now: u128,
    channel: u64,
    user: u64,
    later: u128,
)
    requires
        channel != m.channel_id,
        user != m.author,
        now <= later,
    ensures
        ({
            let (outcome, after) = discord::admitted(s, m, now);
            &&& after.cfg == s.cfg
            &&& after.github == s.github
            &&& after.filed == s.filed
            &&& after.pending == s.pending
            &&& after.in_flight.contains(channel) == s.in_flight.contains(channel)
            &&& waits(after, user, later) == waits(s, user, later)
            &&& !in_order(s, m) ==> after == s
            &&& in_order(s, m) && waits(s, m.author, now) ==> after.in_flight == s.in_flight
                && waits(after, m.author, later) == waits(s, m.author, later)
        }),
{
    lemma_may_ask(s, m);
    let window = discord::window_of(s.cfg);
    let (outcome, after) = discord::admitted(s, m, now);
    crate::laws::session::law_tidying_forgives_no_one(s.cooldowns, user, window, now, later);
    crate::laws::session::law_tidying_forgives_no_one(s.cooldowns, m.author, window, now, later);
    let table = discord::tidied(s.cooldowns, window, now);
    let w1 = discord::wait_of(s.cooldowns, user, window, later);
    let w2 = discord::wait_of(table, user, window, later);
    assert(w1 == w2);
    assert(waits(s, user, later) == w1 is Some);
    if after.cooldowns != s.cooldowns {
        let w3 = discord::wait_of(after.cooldowns, user, window, later);
        assert(after.cooldowns.contains_key(user) == table.contains_key(user));
        assert(w3 == w2);
        assert(waits(after, user, later) == w3 is Some);
    }
    if in_order(s, m) && waits(s, m.author, now) {
        assert(after.cooldowns == table);
        assert(waits(after, m.author, later) == discord::wait_of(
            table,
            m.author,
            window,
            later,
        ) is Some);
        assert(waits(s, m.author, later) == discord::wait_of(
            s.cooldowns,
            m.author,
            window,
            later,
        ) is Some);
    }
}

/// Who was let through once is not let through again before the cooldown is
/// over, in whatever thread, and is afterwards.
pub proof fn law_a_second_request_has_to_wait(
    s: StateView,
    m: Mention,
    now: u128,
    again: Mention,
    later: u128,
)
    requires
        discord::admitted(s, m, now).0 is Run,
        again.author == m.author,
        now <= later,
    ensures
        ({
            let after = discord::admitted(s, m, now).1;
            let soon = later - now < s.cfg.limits.user_cooldown_secs * 1_000_000_000;
            &&& soon ==> !(discord::admitted(after, again, later).0 is Run)
            &&& !soon && in_order(s, again) && again.channel_id != m.channel_id
                && !s.in_flight.contains(again.channel_id) ==> discord::admitted(
                after,
                again,
                later,
            ).0 is Run
        }),
{
    let after = discord::admitted(s, m, now).1;
    law_requests_are_granted_when_nothing_stands_in_the_way(s, m, now);
    law_requests_are_granted_when_nothing_stands_in_the_way(after, again, later);
    assert(may_ask(after, again) == may_ask(s, again));
    assert(draft_waits(after, again.channel_id) == draft_waits(s, again.channel_id));
}

// ---------------------------------------------------------------------------
// Calls and replies
// ---------------------------------------------------------------------------
/// A message is meant for the bot where a person wrote it in a server, and it
/// mentions the bot or has `@issue` in it, whatever else it says.
pub proof fn law_calls_are_told_from_chatter(
    author_is_bot: bool,
    in_guild: bool,
    mentioned: bool,
    before: Seq<char>,
    after: Seq<char>,
    chatter: Seq<char>,
)
    ensures
        discord::is_call(author_is_bot, in_guild, mentioned, before + "@issue"@ + after)
            <==> !author_is_bot && in_guild,
        !text::occurs(chatter, "@issue"@) ==> (discord::is_call(
            author_is_bot,
            in_guild,
            mentioned,
            chatter,
        ) <==> !author_is_bot && in_guild && mentioned),
{
    let s = before + "@issue"@ + after;
    let i = before.len() as int;
    assert(s.subrange(i, i + "@issue"@.len()) =~= "@issue"@);
    assert(text::occurs_at(s, "@issue"@, i));
}

/// A reply says what there is to say: the address of the issue that is there
/// already, the reason why there is no draft, or where to go with the call. One
/// that is let through, or does not concern the bot, is not answered.
pub proof fn law_replies_say_what_there_is_to_say(url: Seq<char>, reason: Seq<char>, repo: RepoView)
    ensures
        AdmissionView::AlreadyFiled(url).reply() == Some(
            "This thread already has an issue: "@ + url,
        ),
        AdmissionView::Refused(reason).reply() == Some("Could not draft the issue: "@ + reason),
        AdmissionView::NotAThread.reply() == Some(
            "Mention me **inside a thread** and I'll turn it into a GitHub issue."@,
        ),
        AdmissionView::Ignored.reply() is None,
        AdmissionView::Run(repo).reply() is None,
        reason.is_suffix_of(discord::failure_reply(reason)),
        reason.is_suffix_of(discord::filing_failure(reason)),
        url.is_suffix_of(discord::filing_success(url)),
        discord::filing_failure(reason) != discord::filing_success(url),
{
    reveal_strlit("Could not file the issue: ");
    reveal_strlit("Filed: ");
    let a = discord::failure_reply(reason);
    let b = discord::filing_failure(reason);
    let c = discord::filing_success(url);
    assert(a.subrange(a.len() - reason.len(), a.len() as int) =~= reason);
    assert(b.subrange(b.len() - reason.len(), b.len() as int) =~= reason);
    assert(c.subrange(c.len() - url.len(), c.len() as int) =~= url);
    assert(b[0] == 'C');
    assert(c[0] == 'F');
}

// ---------------------------------------------------------------------------
// What a draft goes by
// ---------------------------------------------------------------------------
/// A thread begins with its first message, word for word; one of which nothing
/// could be read is reported.
pub proof fn law_threads_begin_with_their_first_message(first: MessageView, rest: Seq<MessageView>)
    ensures
        discord::opening(seq![first] + rest) == Ok::<Seq<char>, Seq<char>>(first.content),
        discord::opening(Seq::empty()) == Err::<Seq<char>, Seq<char>>(
            "I couldn't read any messages in this thread"@,
        ),
{
}

/// The model's draft is what is proposed where there is one. It is not touched,
/// and the thread makes no difference to it; where there is none, the thread is
/// all there is to go by, and the draft says so.
pub proof fn law_the_models_draft_is_proposed(draft: DraftView, first: Seq<char>)
    ensures
        discord::chosen_draft(Some(draft), first) == draft,
        !discord::chosen_draft(None, first).from_model,
        discord::chosen_draft(None, first).summary.len() == 0,
        discord::chosen_draft(None, first).labels.len() == 0,
{
}

/// A draft waits under the name of the one who called, for the thread it was
/// called from, and with everything that was made of it; its address leads to
/// that thread in that server.
pub proof fn law_drafts_wait_for_the_one_who_called(
    m: Mention,
    reporter: Seq<char>,
    repo: RepoView,
    draft: DraftView,
    labels: Seq<Seq<char>>,
    t: TranscriptView,
)
    ensures
        ({
            let p = discord::prepared(m, reporter, repo, draft, labels, t);
            &&& p.requester == m.author
            &&& p.channel_id == m.channel_id
            &&& p.reporter == reporter
            &&& p.repo == repo
            &&& p.draft == draft
            &&& p.available_labels == labels
            &&& p.transcript == t
            &&& p.thread_url == "https://discord.com/channels/"@ + number::decimal(
                m.guild_id as nat,
            ) + "/"@ + number::decimal(m.channel_id as nat)
        }),
{
}

/// A draft is open in a thread just where one of the cards is about that very
/// thread.
pub proof fn law_open_drafts_are_about_their_threads(s: StateView, channel: u64)
    ensures
        discord::draft_open(s.pending, channel) <==> draft_waits(s, channel),
        discord::MAX_REPLY_CHARS <= 2_000,
{
}

} // verus!
