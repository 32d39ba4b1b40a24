//! What holds of the bot whatever happens: who can do what to a draft, and what
//! the state keeps from one event to the next.

use crate::card;
use crate::card::PendingView;
use crate::config;
use crate::discord;
use crate::discord::{ActionView, AdmissionView, EditView, Mention, StateView};
use crate::github;
use crate::laws::text::law_trimming_keeps_the_core;
use crate::llm;
use crate::text;
use vstd::prelude::*;

verus! {

// ---------------------------------------------------------------------------
// Who can do what
// ---------------------------------------------------------------------------
proof fn lemma_controls_differ()
    ensures
        card::CREATE@ != card::EDIT@,
        card::CREATE@ != card::CANCEL@,
        card::CREATE@ != card::LABELS@,
        card::EDIT@ != card::CANCEL@,
        card::EDIT@ != card::LABELS@,
        card::CANCEL@ != card::LABELS@,
{
    reveal_strlit("issue.create");
    reveal_strlit("issue.edit");
    reveal_strlit("issue.cancel");
    reveal_strlit("issue.labels");
    assert(card::CREATE@[6] == 'c');
    assert(card::EDIT@[6] == 'e');
    assert(card::CANCEL@[6] == 'c');
    assert(card::LABELS@[6] == 'l');
    assert(card::CREATE@[7] == 'r');
    assert(card::CANCEL@[7] == 'a');
}

/// Nothing is filed unattended: a press leads to filing exactly where it is
/// **Create issue**, on a card that is open, by the one who asked for the
/// draft. What is filed is the draft as it stands on the card, and pressing
/// changes nothing by itself, so that a filing that failed can be tried again.
pub proof fn law_only_the_requester_files(
    s: StateView,
    card_id: u64,
    user: u64,
    id: Seq<char>,
    values: Option<Seq<Seq<char>>>,
)
    ensures
        ({
            let (action, after) = discord::pressed(s, card_id, user, id, values);
            let p = s.pending[card_id];
            &&& action is File <==> id == card::CREATE@ && s.pending.contains_key(card_id) && user
                == p.requester
            &&& action is File ==> action == ActionView::File(p, discord::filing_request(s, p))
                && after == s
        }),
{
    lemma_controls_differ();
}

/// An editor that comes back files nothing.
pub proof fn law_editing_files_nothing(
    s: StateView,
    id: Seq<char>,
    card_id: Option<u64>,
    user: u64,
    inputs: Seq<(Seq<char>, Option<Seq<char>>)>,
)
    ensures
        !(discord::submitted(s, id, card_id, user, inputs).0 is File),
        discord::submitted(s, id, card_id, user, inputs).1.filed == s.filed,
{
}

/// Only the person who asked for a draft can do anything to it: what anyone
/// else presses or sends changes nothing, and a press is answered with who may.
pub proof fn law_strangers_change_nothing(
    s: StateView,
    card_id: u64,
    user: u64,
    id: Seq<char>,
    values: Option<Seq<Seq<char>>>,
    inputs: Seq<(Seq<char>, Option<Seq<char>>)>,
)
    requires
        s.pending.contains_key(card_id),
        user != s.pending[card_id].requester,
    ensures
        discord::pressed(s, card_id, user, id, values).1 == s,
        discord::is_control(id) ==> discord::pressed(s, card_id, user, id, values).0
            == ActionView::Tell(discord::refusal(s.pending[card_id].reporter)),
        !discord::is_control(id) ==> discord::pressed(s, card_id, user, id, values).0
            == ActionView::Nothing,
        discord::submitted(s, id, Some(card_id), user, inputs) == (ActionView::Nothing, s),
{
}

/// A draft that was cancelled is gone: nothing was filed, whatever is pressed
/// on its card afterwards is answered with that, and nothing comes of it.
pub proof fn law_cancelled_drafts_are_gone(
    s: StateView,
    card_id: u64,
    later_user: u64,
    later_id: Seq<char>,
    later_values: Option<Seq<Seq<char>>>,
)
    requires
        s.pending.contains_key(card_id),
    ensures
        ({
            let (action, after) = discord::pressed(
                s,
                card_id,
                s.pending[card_id].requester,
                card::CANCEL@,
                None,
            );
            let (later, last) = discord::pressed(
                after,
                card_id,
                later_user,
                later_id,
                later_values,
            );
            &&& action == ActionView::Close(discord::CANCELLED@)
            &&& !after.pending.contains_key(card_id)
            &&& after.filed == s.filed
            &&& discord::is_control(later_id) ==> later == ActionView::Tell(discord::EXPIRED@)
            &&& last == after
        }),
{
    lemma_controls_differ();
}

/// A restart orphans every card: whatever is pressed on one that was posted
/// before is answered with that, and changes nothing.
pub proof fn law_a_restart_orphans_every_card(
    cfg: config::ConfigView,
    card_id: u64,
    user: u64,
    id: Seq<char>,
    values: Option<Seq<Seq<char>>>,
)
    ensures
        discord::is_control(id) ==> discord::pressed(
            discord::initial(cfg),
            card_id,
            user,
            id,
            values,
        ) == (ActionView::Tell(discord::EXPIRED@), discord::initial(cfg)),
{
}

/// An edit reaches the stored draft, and nothing but its title or its labels:
/// neither the rest of it nor any other draft nor anything else.
pub proof fn law_edits_apply_to_the_stored_draft(s: StateView, card_id: u64, e: EditView)
    requires
        s.pending.contains_key(card_id),
    ensures
        ({
            let after = discord::mutated(s, card_id, e);
            let p = s.pending[card_id];
            let q = after.pending[card_id];
            &&& after.pending.dom() == s.pending.dom()
            &&& forall|other: u64|
                other != card_id && s.pending.contains_key(other) ==> #[trigger]
                after.pending[other] == s.pending[other]
            &&& match e {
                EditView::Title(title) => q.draft.title == title && q.draft.labels
                    == p.draft.labels,
                EditView::Labels(labels) => q.draft.labels == labels && q.draft.title
                    == p.draft.title,
            }
            &&& q.draft.summary == p.draft.summary
            &&& q.draft.from_model == p.draft.from_model
            &&& (q.channel_id, q.requester, q.repo, q.reporter) == (
                p.channel_id,
                p.requester,
                p.repo,
                p.reporter,
            )
            &&& (q.available_labels, q.transcript, q.thread_url) == (
                p.available_labels,
                p.transcript,
                p.thread_url,
            )
            &&& after == (StateView { pending: after.pending, ..s })
        }),
{
    assert(discord::mutated(s, card_id, e).pending.dom() =~= s.pending.dom());
}

// ---------------------------------------------------------------------------
// What a press does
// ---------------------------------------------------------------------------
/// Whether `after` is `s` but for the draft on the card `card_id`.
pub open spec fn same_but_card(s: StateView, after: StateView, card_id: u64) -> bool {
    &&& forall|other: u64|
        other != card_id ==> #[trigger] after.pending.contains_key(other)
            == s.pending.contains_key(other)
    &&& forall|other: u64|
        other != card_id && #[trigger] s.pending.contains_key(other) ==> after.pending[other]
            == s.pending[other]
    &&& after.cfg == s.cfg
    &&& after.github == s.github
    &&& after.cooldowns == s.cooldowns
    &&& after.filed == s.filed
    &&& after.in_flight == s.in_flight
}

/// A card is its own: whatever is pressed on it, sent from its editor or changed
/// about it, by whomever, no other draft is touched, and nothing else either.
pub proof fn law_cards_do_not_touch_each_other(
    s: StateView,
    card_id: u64,
    user: u64,
    id: Seq<char>,
    values: Option<Seq<Seq<char>>>,
    inputs: Seq<(Seq<char>, Option<Seq<char>>)>,
    e: EditView,
)
    ensures
        same_but_card(s, discord::pressed(s, card_id, user, id, values).1, card_id),
        same_but_card(s, discord::submitted(s, id, Some(card_id), user, inputs).1, card_id),
        same_but_card(s, discord::mutated(s, card_id, e), card_id),
        discord::submitted(s, id, None, user, inputs) == (ActionView::Nothing, s),
        !s.pending.contains_key(card_id) ==> discord::mutated(s, card_id, e) == s,
{
}

/// Whether `q` is `p` but for its draft's title and labels.
pub open spec fn same_but_edits(p: PendingView, q: PendingView) -> bool {
    &&& q.channel_id == p.channel_id
    &&& q.requester == p.requester
    &&& q.repo == p.repo
    &&& q.available_labels == p.available_labels
    &&& q.transcript == p.transcript
    &&& q.thread_url == p.thread_url
    &&& q.reporter == p.reporter
    &&& q.draft.summary == p.draft.summary
    &&& q.draft.from_model == p.draft.from_model
}

/// Whether `labels` are texts of `values` in the order they come in there, each
/// at the first of the places it has, which are `at`.
pub open spec fn in_order_of(
    labels: Seq<Seq<char>>,
    values: Seq<Seq<char>>,
    at: Seq<int>,
) -> bool {
    &&& at.len() == labels.len()
    &&& forall|i: int| #![trigger at[i]]
        0 <= i < at.len() ==> {
            &&& 0 <= at[i] < values.len()
            &&& values[at[i]] == labels[i]
            &&& forall|j: int| 0 <= j < at[i] ==> #[trigger] values[j] != labels[i]
        }
    &&& forall|i: int, j: int| 0 <= i < j < at.len() ==> #[trigger] at[i] < #[trigger] at[j]
}

proof fn lemma_valid_in_order(values: Seq<Seq<char>>, available: Seq<Seq<char>>) -> (at: Seq<int>)
    ensures
        in_order_of(discord::valid(values, available), values, at),
        forall|i: int|
            0 <= i < discord::valid(values, available).len() ==> available.contains(
                #[trigger] discord::valid(values, available)[i],
            ),
        forall|j: int|
            0 <= j < values.len() && available.contains(#[trigger] values[j]) ==> discord::valid(
                values,
                available,
            ).contains(values[j]),
    decreases values.len(),
{
    if values.len() == 0 {
        Seq::empty()
    } else {
        let shorter = values.drop_last();
        let before = discord::valid(shorter, available);
        let all = discord::valid(values, available);
        let earlier = lemma_valid_in_order(shorter, available);
        let last = values.last();
        assert forall|j: int| 0 <= j < values.len() && available.contains(#[trigger] values[j])
            implies all.contains(values[j]) by {
            if j < shorter.len() {
                assert(shorter[j] == values[j]);
                let k = choose|k: int| 0 <= k < before.len() && before[k] == values[j];
                assert(all[k] == values[j]);
            } else if !before.contains(last) {
                assert(all[all.len() - 1] == last);
            }
        }
        assert forall|i: int| 0 <= i < all.len() implies available.contains(#[trigger] all[i]) by {
            if i < before.len() {
                assert(all[i] == before[i]);
            }
        }
        let at = if all.len() > before.len() {
            earlier.push(values.len() - 1)
        } else {
            earlier
        };
        assert forall|i: int| #![trigger at[i]] 0 <= i < at.len() implies {
            &&& 0 <= at[i] < values.len()
            &&& values[at[i]] == all[i]
            &&& forall|j: int| 0 <= j < at[i] ==> #[trigger] values[j] != all[i]
        } by {
            if i < before.len() {
                assert(at[i] == earlier[i]);
                assert(all[i] == before[i]);
                assert(shorter[earlier[i]] == values[earlier[i]]);
                assert forall|j: int| 0 <= j < at[i] implies #[trigger] values[j] != all[i] by {
                    assert(shorter[j] == values[j]);
                }
            } else {
                assert(all[i] == last);
                assert forall|j: int| 0 <= j < at[i] implies #[trigger] values[j] != all[i] by {
                    assert(shorter[j] == values[j]);
                    if values[j] == last {
                        assert(available.contains(shorter[j]));
                        assert(before.contains(shorter[j]));
                    }
                }
            }
        }
        assert forall|i: int, j: int| 0 <= i < j < at.len() implies #[trigger] at[i]
            < #[trigger] at[j] by {
            assert(at[i] == earlier[i]);
            if j < earlier.len() {
                assert(at[j] == earlier[j]);
            }
        }
        at
    }
}

/// What is picked from the label menu is what the stored draft has from then on,
/// and what the card is drawn anew with: of the picks those that the repository
/// has, each once, in the order they were picked in, the first three of them.
/// Nothing else of the draft changes.
pub proof fn law_label_picks_reach_the_draft(
    s: StateView,
    card_id: u64,
    picks: Seq<Seq<char>>,
)
    requires
        s.pending.contains_key(card_id),
    ensures
        ({
            let p = s.pending[card_id];
            let (action, after) = discord::pressed(
                s,
                card_id,
                p.requester,
                "issue.labels"@,
                Some(picks),
            );
            let q = after.pending[card_id];
            let labels = q.draft.labels;
            &&& after.pending.contains_key(card_id)
            &&& action == ActionView::Redraw(q)
            &&& same_but_edits(p, q)
            &&& q.draft.title == p.draft.title
            &&& labels.len() <= 3
            &&& forall|i: int|
                0 <= i < labels.len() ==> p.available_labels.contains(#[trigger] labels[i])
            &&& exists|at: Seq<int>|
                {
                    &&& #[trigger] in_order_of(labels, picks, at)
                    &&& forall|j: int|
                        0 <= j < picks.len() && p.available_labels.contains(#[trigger] picks[j])
                            ==> labels.contains(picks[j]) || labels.len() == 3 && j > at[2]
                }
        }),
{
    lemma_controls_differ();
    let p = s.pending[card_id];
    let all = discord::valid(picks, p.available_labels);
    let whole = lemma_valid_in_order(picks, p.available_labels);
    let labels = llm::capped(all);
    let at = if all.len() <= 3 {
        whole
    } else {
        whole.take(3)
    };
    assert forall|i: int| 0 <= i < labels.len() implies p.available_labels.contains(
        #[trigger] labels[i],
    ) by {
        assert(labels[i] == all[i]);
    }
    assert forall|i: int| #![trigger at[i]] 0 <= i < at.len() implies {
        &&& 0 <= at[i] < picks.len()
        &&& picks[at[i]] == labels[i]
        &&& forall|j: int| 0 <= j < at[i] ==> #[trigger] picks[j] != labels[i]
    } by {
        assert(at[i] == whole[i]);
        assert(labels[i] == all[i]);
    }
    assert forall|i: int, j: int| 0 <= i < j < at.len() implies #[trigger] at[i]
        < #[trigger] at[j] by {
        assert(at[i] == whole[i]);
        assert(at[j] == whole[j]);
    }
    assert(in_order_of(labels, picks, at));
    assert forall|j: int|
        0 <= j < picks.len() && p.available_labels.contains(#[trigger] picks[j]) implies (
    labels.contains(picks[j]) || labels.len() == 3 && j > at[2]) by {
        let k = choose|k: int| 0 <= k < all.len() && all[k] == picks[j];
        if k < labels.len() {
            assert(labels[k] == picks[j]);
        } else {
            assert(at[2] == whole[2]);
            assert(whole[2] < whole[k]);
            assert(j >= whole[k]);
        }
    }
    let (action, after) = discord::pressed(
        s,
        card_id,
        p.requester,
        "issue.labels"@,
        Some(picks),
    );
    let e = EditView::Labels(labels);
    assert("issue.labels"@ == card::LABELS@);
    assert(after.pending[card_id] == discord::edited(p, e));
    assert(action == ActionView::Redraw(after.pending[card_id]));
    assert(after.pending[card_id].draft.labels == labels);
}

/// The first line of the editor called `name` that holds anything holds
/// `value`.
pub open spec fn first_typed(
    inputs: Seq<(Seq<char>, Option<Seq<char>>)>,
    name: Seq<char>,
    i: int,
    value: Seq<char>,
) -> bool {
    &&& 0 <= i < inputs.len()
    &&& inputs[i].0 == name
    &&& inputs[i].1 == Some(value)
    &&& forall|j: int| 0 <= j < i ==> !((#[trigger] inputs[j]).0 == name && inputs[j].1 is Some)
}

proof fn lemma_typed(
    inputs: Seq<(Seq<char>, Option<Seq<char>>)>,
    name: Seq<char>,
    i: int,
    value: Seq<char>,
)
    requires
        first_typed(inputs, name, i, value),
    ensures
        discord::typed(inputs, name) == value,
    decreases inputs.len(),
{
    if i > 0 {
        let rest = inputs.skip(1);
        assert forall|j: int| 0 <= j < i - 1 implies !((#[trigger] rest[j]).0 == name
            && rest[j].1 is Some) by {
            assert(rest[j] == inputs[j + 1]);
        }
        assert(!(inputs[0].0 == name && inputs[0].1 is Some));
        lemma_typed(rest, name, i - 1, value);
    }
}

/// A title that is typed into the editor, by the one who asked for the draft, is
/// the draft's from then on, and what the card is drawn anew with: as it was
/// typed, but for the white space at its ends. A blank one changes nothing, and
/// nothing else of the draft changes.
pub proof fn law_titles_are_edited_as_typed(
    s: StateView,
    card_id: u64,
    inputs: Seq<(Seq<char>, Option<Seq<char>>)>,
    i: int,
    typed: Seq<char>,
)
    requires
        s.pending.contains_key(card_id),
        first_typed(inputs, "issue.title_input"@, i, typed),
    ensures
        ({
            let p = s.pending[card_id];
            let (action, after) = discord::submitted(
                s,
                "issue.title_modal"@,
                Some(card_id),
                p.requester,
                inputs,
            );
            let q = after.pending[card_id];
            let blank = forall|k: int|
                0 <= k < typed.len() ==> text::is_white_space(#[trigger] typed[k]);
            &&& blank ==> action == ActionView::Nothing && after == s
            &&& !blank ==> {
                &&& after.pending.contains_key(card_id)
                &&& action == ActionView::Redraw(q)
                &&& same_but_edits(p, q)
                &&& q.draft.labels == p.draft.labels
                &&& crate::laws::text::trims_to(typed, q.draft.title)
            }
        }),
{
    lemma_typed(inputs, "issue.title_input"@, i, typed);
    text::lemma_trimmed(typed);
    law_trimming_keeps_the_core(typed);
}

/// The title editor opens on the title as it is, where that has up to 200
/// characters, and opening it changes nothing.
pub proof fn law_the_editor_opens_on_the_title(s: StateView, card_id: u64)
    requires
        s.pending.contains_key(card_id),
    ensures
        ({
            let p = s.pending[card_id];
            let (action, after) = discord::pressed(
                s,
                card_id,
                p.requester,
                "issue.edit"@,
                None,
            );
            &&& after == s
            &&& action is Ask
            &&& p.draft.title.len() <= 200 ==> action->Ask_0.value == p.draft.title
            &&& action->Ask_0.value.len() <= 200
            &&& action->Ask_0.max_length == 200
            &&& action->Ask_0.required
            &&& action->Ask_0.custom_id == "issue.title_modal"@
            &&& action->Ask_0.input_id == "issue.title_input"@
        }),
{
    lemma_controls_differ();
    reveal_strlit(" … [truncated]");
}

/// What is pressed on a card is answered in so many words: who may press where
/// someone else does, that the draft is gone where it is, and that nothing was
/// filed where it was cancelled.
pub proof fn law_presses_are_answered(s: StateView, card_id: u64, user: u64)
    ensures
        ({
            let p = s.pending[card_id];
            let (action, after) = discord::pressed(s, card_id, user, "issue.cancel"@, None);
            &&& !s.pending.contains_key(card_id) ==> action == ActionView::Tell(
                "This draft is no longer open — run `@issue` again to start over."@,
            )
            &&& s.pending.contains_key(card_id) && user != p.requester ==> action
                == ActionView::Tell(
                "Only "@ + p.reporter
                    + " can confirm this draft. Run `@issue` yourself to make your own."@,
            )
            &&& s.pending.contains_key(card_id) && user == p.requester ==> action
                == ActionView::Close("Cancelled — nothing was filed."@)
            &&& after.pending.contains_key(card_id) <==> s.pending.contains_key(card_id) && user
                != p.requester
        }),
{
    lemma_controls_differ();
}

// ---------------------------------------------------------------------------
// Cards that come and go
// ---------------------------------------------------------------------------
/// A draft whose card is posted is open as it was made, its thread is no longer
/// being worked on, and nothing else changes; giving up the work on a thread
/// changes nothing but that.
pub proof fn law_posted_cards_are_open(
    s: StateView,
    card_id: u64,
    p: PendingView,
    channel: u64,
    other: u64,
)
    ensures
        ({
            let after = discord::opened(s, card_id, p);
            let released = discord::released(s, channel);
            &&& after.pending.contains_key(card_id)
            &&& after.pending[card_id] == p
            &&& same_but_card(
                StateView { in_flight: s.in_flight.remove(p.channel_id), ..s },
                after,
                card_id,
            )
            &&& !after.in_flight.contains(p.channel_id)
            &&& other != p.channel_id ==> after.in_flight.contains(other)
                == s.in_flight.contains(other)
            &&& !released.in_flight.contains(channel)
            &&& other != channel ==> released.in_flight.contains(other) == s.in_flight.contains(
                other,
            )
            &&& released == (StateView { in_flight: released.in_flight, ..s })
        }),
{
}

/// An issue that was filed closes the card it was filed from, and is linked to
/// its thread from then on; no other draft, no other thread's issue and nothing
/// else changes.
pub proof fn law_filing_closes_its_card_only(
    s: StateView,
    card_id: u64,
    channel: u64,
    url: Seq<char>,
    other: u64,
)
    ensures
        ({
            let after = discord::settled(s, card_id, channel, url);
            &&& !after.pending.contains_key(card_id)
            &&& same_but_card(StateView { filed: after.filed, ..s }, after, card_id)
            &&& after.filed.contains_key(channel)
            &&& after.filed[channel] == url
            &&& other != channel ==> after.filed.contains_key(other) == s.filed.contains_key(other)
            &&& other != channel && s.filed.contains_key(other) ==> after.filed[other]
                == s.filed[other]
        }),
{
}

/// A bot that has seen nothing knows nothing: no draft, no issue, no one who has
/// to wait and no thread that is being worked on. It talks to GitHub itself, with
/// the token it was set up with.
pub proof fn law_a_new_bot_knows_nothing(cfg: config::ConfigView, n: u64)
    ensures
        ({
            let s = discord::initial(cfg);
            &&& s.cfg == cfg
            &&& !s.pending.contains_key(n)
            &&& !s.filed.contains_key(n)
            &&& !s.cooldowns.contains_key(n)
            &&& !s.in_flight.contains(n)
            &&& s.github.token == cfg.github_token
            &&& s.github.base == "https://api.github.com"@
            &&& forall|repo: config::RepoView| !#[trigger] s.github.label_cache.contains_key(repo)
        }),
{
}

// ---------------------------------------------------------------------------
// One draft per thread
// ---------------------------------------------------------------------------
/// Whether no thread has two drafts open, nor one open while another is being
/// made.
pub open spec fn one_draft_per_thread(s: StateView) -> bool {
    &&& forall|a: u64, b: u64|
        #![trigger s.pending.contains_key(a), s.pending.contains_key(b)]
        s.pending.contains_key(a) && s.pending.contains_key(b) && a != b
            ==> s.pending[a].channel_id != s.pending[b].channel_id
    &&& forall|a: u64| #[trigger]
        s.pending.contains_key(a) ==> !s.in_flight.contains(s.pending[a].channel_id)
}

/// A bot that has seen nothing has no drafts at all.
pub proof fn law_a_new_bot_has_no_drafts(cfg: config::ConfigView)
    ensures
        one_draft_per_thread(discord::initial(cfg)),
{
}

/// There is never more than one draft open per thread, nor one open while
/// another is being made: no request, press or edit, no card that is posted
/// for a thread being worked on, no work given up and no issue filed changes
/// that.
pub proof fn law_one_open_draft_per_thread(
    s: StateView,
    m: Mention,
    now: u128,
    card_id: u64,
    user: u64,
    id: Seq<char>,
    values: Option<Seq<Seq<char>>>,
    inputs: Seq<(Seq<char>, Option<Seq<char>>)>,
    channel: u64,
    p: PendingView,
    url: Seq<char>,
    e: EditView,
)
    requires
        one_draft_per_thread(s),
    ensures
        one_draft_per_thread(discord::admitted(s, m, now).1),
        one_draft_per_thread(discord::pressed(s, card_id, user, id, values).1),
        one_draft_per_thread(discord::submitted(s, id, Some(card_id), user, inputs).1),
        one_draft_per_thread(discord::submitted(s, id, None, user, inputs).1),
        one_draft_per_thread(discord::mutated(s, card_id, e)),
        one_draft_per_thread(discord::released(s, channel)),
        s.in_flight.contains(p.channel_id) ==> one_draft_per_thread(
            discord::opened(s, card_id, p),
        ),
        one_draft_per_thread(discord::settled(s, card_id, channel, url)),
{
    let asked = discord::admitted(s, m, now);
    if asked.0 is Run {
        assert forall|a: u64| #[trigger] asked.1.pending.contains_key(a) implies
            !asked.1.in_flight.contains(asked.1.pending[a].channel_id) by {
            assert(s.pending.contains_key(a));
        }
    }
    assert(one_draft_per_thread(asked.1));
}

/// One run per thread at a time, and none while a draft is open or the thread
/// has its issue: a request is granted only for a thread that none of this is
/// true of, and from then on the thread counts as being worked on.
pub proof fn law_one_run_per_thread(s: StateView, m: Mention, now: u128)
    ensures
        ({
            let (outcome, after) = discord::admitted(s, m, now);
            &&& outcome is Run ==> {
                &&& !s.in_flight.contains(m.channel_id)
                &&& !discord::draft_open(s.pending, m.channel_id)
                &&& !s.filed.contains_key(m.channel_id)
                &&& m.channel_kind.threads()
                &&& after.in_flight == s.in_flight.insert(m.channel_id)
            }
            &&& !(outcome is Run) ==> after.in_flight == s.in_flight
        }),
{
}

/// A run that fails does not wedge its thread: giving up the work undoes what
/// granting the request did, but for the cooldown of whoever asked.
pub proof fn law_a_failed_run_does_not_wedge_the_thread(s: StateView, m: Mention, now: u128)
    requires
        discord::admitted(s, m, now).0 is Run,
    ensures
        ({
            let after = discord::released(discord::admitted(s, m, now).1, m.channel_id);
            after == (StateView { cooldowns: after.cooldowns, ..s })
        }),
{
    let after = discord::released(discord::admitted(s, m, now).1, m.channel_id);
    assert(after.in_flight =~= s.in_flight);
}

/// Only those with a role that is allowed to, where roles are named at all, get
/// a draft, and only in a server that has somewhere to file.
pub proof fn law_only_allowed_roles_get_a_draft(s: StateView, m: Mention, now: u128)
    ensures
        discord::admitted(s, m, now).0 is Run ==> {
            &&& discord::may_file(s.cfg.allowed_role_ids, m.roles@)
            &&& config::repo_for(s.cfg, m.guild_id) == Some(
                discord::admitted(s, m, now).0->Run_0,
            )
        },
{
}

/// A server that is not mapped to a repository, where there is no default
/// either, is told so, and nothing comes of the request.
pub proof fn law_unmapped_servers_are_turned_away(s: StateView, m: Mention, now: u128)
    requires
        m.channel_kind.threads(),
        discord::may_file(s.cfg.allowed_role_ids, m.roles@),
        !s.cfg.guild_repos.contains_key(m.guild_id),
        s.cfg.default_repo is None,
    ensures
        discord::admitted(s, m, now) == (AdmissionView::Refused(discord::NO_REPO@), s),
{
}

// ---------------------------------------------------------------------------
// Filed threads
// ---------------------------------------------------------------------------
/// A thread that has an issue gets the existing link back instead of a
/// duplicate, from whoever may ask for one.
pub proof fn law_filed_threads_get_their_link(
    s: StateView,
    card_id: u64,
    channel: u64,
    url: Seq<char>,
    m: Mention,
    now: u128,
)
    requires
        m.channel_id == channel,
        m.channel_kind.threads(),
        discord::may_file(s.cfg.allowed_role_ids, m.roles@),
        config::repo_for(s.cfg, m.guild_id) is Some,
    ensures
        ({
            let after = discord::settled(s, card_id, channel, url);
            discord::admitted(after, m, now) == (AdmissionView::AlreadyFiled(url), after)
        }),
{
}

/// What was filed is not forgotten: only another filing for the same thread
/// changes what a thread's issue is.
pub proof fn law_filed_issues_are_remembered(
    s: StateView,
    m: Mention,
    now: u128,
    card_id: u64,
    user: u64,
    id: Seq<char>,
    values: Option<Seq<Seq<char>>>,
    inputs: Seq<(Seq<char>, Option<Seq<char>>)>,
    channel: u64,
    p: PendingView,
    url: Seq<char>,
    other: u64,
)
    requires
        other != channel,
    ensures
        discord::admitted(s, m, now).1.filed == s.filed,
        discord::pressed(s, card_id, user, id, values).1.filed == s.filed,
        discord::submitted(s, id, Some(card_id), user, inputs).1.filed == s.filed,
        discord::submitted(s, id, None, user, inputs).1.filed == s.filed,
        discord::released(s, channel).filed == s.filed,
        discord::opened(s, card_id, p).filed == s.filed,
        discord::settled(s, card_id, channel, url).filed.contains_key(other)
            <==> s.filed.contains_key(other),
        s.filed.contains_key(other) ==> discord::settled(s, card_id, channel, url).filed[other]
            == s.filed[other],
{
}

// ---------------------------------------------------------------------------
// Cooldowns
// ---------------------------------------------------------------------------
/// Tidying up does not let anyone in early: at any time from then on, everyone
/// has to wait for as long as before.
pub proof fn law_tidying_forgives_no_one(
    cooldowns: Map<u64, u128>,
    user: u64,
    window: nat,
    now: u128,
    later: u128,
)
    requires
        now <= later,
    ensures
        discord::wait_of(discord::tidied(cooldowns, window, now), user, window, later)
            == discord::wait_of(cooldowns, user, window, later),
{
    let table = discord::tidied(cooldowns, window, now);
    if cooldowns.contains_key(user) && !table.contains_key(user) {
        assert(github::elapsed(cooldowns[user], now) >= window);
        assert(github::elapsed(cooldowns[user], later) >= window);
    }
}

/// One request per user per window: who got through at the time `first` has to
/// wait at the time `later` exactly where less than the window has passed, for
/// the rest of it, and what others ask for in between changes nothing about
/// that.
pub proof fn law_one_request_per_user_per_window(
    cooldowns: Map<u64, u128>,
    user: u64,
    window: nat,
    first: u128,
    other: u64,
    between: u128,
    later: u128,
)
    requires
        discord::wait_of(cooldowns, user, window, first) is None,
        other != user,
        first <= between <= later,
    ensures
        ({
            let after = discord::stamped(cooldowns, user, window, first);
            let afterwards = discord::stamped(after, other, window, between);
            let wait = if later - first < window {
                Some((window - (later - first)) as nat)
            } else {
                None
            };
            &&& discord::wait_of(after, user, window, later) == wait
            &&& discord::wait_of(afterwards, user, window, later) == wait
        }),
{
    let after = discord::stamped(cooldowns, user, window, first);
    let table = discord::tidied(after, window, between);
    law_tidying_forgives_no_one(after, user, window, between, later);
    let afterwards = discord::stamped(after, other, window, between);
    assert(afterwards.contains_key(user) <==> table.contains_key(user));
}

// ---------------------------------------------------------------------------
// What does not concern a card
// ---------------------------------------------------------------------------
/// What is none of the card's controls is left alone, and so is a menu that
/// nothing can be read from, and an editor that is not the card's.
pub proof fn law_other_controls_are_left_alone(
    s: StateView,
    card_id: u64,
    user: u64,
    id: Seq<char>,
    values: Option<Seq<Seq<char>>>,
    inputs: Seq<(Seq<char>, Option<Seq<char>>)>,
)
    ensures
        id != "issue.create"@ && id != "issue.edit"@ && id != "issue.cancel"@ && id
            != "issue.labels"@ ==> discord::pressed(s, card_id, user, id, values) == (
            ActionView::Nothing,
            s,
        ),
        s.pending.contains_key(card_id) && user == s.pending[card_id].requester
            ==> discord::pressed(s, card_id, user, "issue.labels"@, None) == (
            ActionView::Nothing,
            s,
        ),
        id != "issue.title_modal"@ ==> discord::submitted(s, id, Some(card_id), user, inputs) == (
            ActionView::Nothing,
            s,
        ),
        !s.pending.contains_key(card_id) ==> discord::submitted(
            s,
            "issue.title_modal"@,
            Some(card_id),
            user,
            inputs,
        ) == (
            ActionView::Tell("This draft is no longer open — run `@issue` again to start over."@),
            s,
        ),
{
    lemma_controls_differ();
}

} // verus!
