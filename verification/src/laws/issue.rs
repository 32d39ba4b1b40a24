//! What the body of an issue always holds.

use crate::config::Limits;
use crate::issue;
use crate::laws::transcript::{law_clipped_text_is_bounded, law_transcript_is_bounded};
use crate::llm::DraftView;
use crate::number;
use crate::text;
use crate::transcript;
use crate::transcript::{MessageView, TranscriptView};
use vstd::prelude::*;

verus! {

proof fn lemma_note_len()
    ensures
        transcript::TRUNCATION_NOTE@.len() == 14,
{
    reveal_strlit(" … [truncated]");
}

/// The body never exceeds the cap, but for the note that says it was cut.
pub proof fn law_body_never_exceeds_the_cap(
    draft: DraftView,
    t: TranscriptView,
    thread_url: Seq<char>,
    reporter: Seq<char>,
    max: nat,
)
    ensures
        issue::body_of(draft, t, thread_url, reporter, max).len()
            <= crate::laws::transcript::larger(max, 14),
{
    lemma_note_len();
    let foot = issue::footer(thread_url, reporter);
    if foot.len() + 14 <= max {
        let room = (max - foot.len()) as nat;
        let thread = issue::thread_part(draft, t);
        let summary = issue::shortened(
            issue::summary_part(draft.summary),
            transcript::less(room, thread.len()),
        );
        law_clipped_text_is_bounded(summary + thread, room);
    } else {
        law_clipped_text_is_bounded(issue::full_body(draft, t, thread_url, reporter), max);
    }
}

/// A body that fits is not cut.
proof fn lemma_fitting_body_is_whole(
    draft: DraftView,
    t: TranscriptView,
    thread_url: Seq<char>,
    reporter: Seq<char>,
    max: nat,
)
    requires
        issue::full_body(draft, t, thread_url, reporter).len() <= max,
    ensures
        issue::body_of(draft, t, thread_url, reporter, max) == issue::full_body(
            draft,
            t,
            thread_url,
            reporter,
        ),
{
    lemma_note_len();
    reveal_strlit("\n\n---\n\n### Thread\n\n");
    let foot = issue::footer(thread_url, reporter);
    let thread = issue::thread_part(draft, t);
    assert(thread.len() >= 19);
    assert(foot.len() + 14 <= max);
    let room = (max - foot.len()) as nat;
    assert(issue::above_footer(draft, t, room) == issue::summary_part(draft.summary) + thread);
}

/// A body that fits is not cut. It begins with the summary, goes on with the
/// thread under its heading, and ends in the thread's address and the
/// reporter's name, with nothing but the notes between thread and footer.
pub proof fn law_sections_come_in_order(
    draft: DraftView,
    t: TranscriptView,
    thread_url: Seq<char>,
    reporter: Seq<char>,
    max: nat,
)
    requires
        issue::full_body(draft, t, thread_url, reporter).len() <= max,
    ensures
        ({
            let body = issue::body_of(draft, t, thread_url, reporter, max);
            let summary = issue::summary_part(draft.summary);
            let thread_at = (summary.len() + issue::THREAD_HEADING@.len()) as int;
            let footer = issue::footer(thread_url, reporter);
            let footer_at = body.len() - footer.len();
            &&& body == issue::full_body(draft, t, thread_url, reporter)
            &&& text::occurs_at(body, summary, 0)
            &&& text::occurs_at(body, issue::THREAD_HEADING@, summary.len() as int)
            &&& text::occurs_at(body, t.body_text, thread_at)
            &&& text::occurs_at(
                body,
                issue::notes_part(draft, t),
                thread_at + t.body_text.len(),
            )
            &&& text::occurs_at(body, footer, footer_at)
            &&& footer_at == thread_at + t.body_text.len() + issue::notes_part(draft, t).len()
        }),
{
    lemma_fitting_body_is_whole(draft, t, thread_url, reporter, max);
    let body = issue::body_of(draft, t, thread_url, reporter, max);
    let summary = issue::summary_part(draft.summary);
    let heading = issue::THREAD_HEADING@;
    let notes = issue::notes_part(draft, t);
    let footer = issue::footer(thread_url, reporter);
    let a = summary.len() as int;
    let b = a + heading.len();
    let c = b + t.body_text.len();
    let d = c + notes.len();
    assert(body =~= summary + heading + t.body_text + notes + footer);
    assert(body.subrange(0, a) =~= summary);
    assert(body.subrange(a, b) =~= heading);
    assert(body.subrange(b, c) =~= t.body_text);
    assert(body.subrange(c, d) =~= notes);
    assert(body.subrange(d, d + footer.len()) =~= footer);
}

/// However long the summary, and however small the cap, it crowds out neither
/// the footer nor the thread. Wherever the cap holds the footer and the note
/// that something was cut, the body stays within it and ends in the whole
/// footer, the thread's address and all. Where it holds the thread and one more
/// such note besides, the thread is whole too, with its heading and its notes;
/// and where it does not, the summary is down to the length of the note. A
/// summary is never cut to something longer.
pub proof fn law_summary_cannot_crowd_out_the_footer(
    draft: DraftView,
    t: TranscriptView,
    thread_url: Seq<char>,
    reporter: Seq<char>,
    max: nat,
)
    requires
        issue::footer(thread_url, reporter).len() + 14 <= max,
    ensures
        ({
            let body = issue::body_of(draft, t, thread_url, reporter, max);
            let footer = issue::footer(thread_url, reporter);
            let thread = issue::thread_part(draft, t);
            let room = (max - footer.len()) as nat;
            let summary = issue::shortened(
                issue::summary_part(draft.summary),
                transcript::less(room, thread.len()),
            );
            &&& body.len() <= max
            &&& footer.is_suffix_of(body)
            &&& text::occurs(body, thread_url)
            &&& body == transcript::clipped(summary + thread, room) + footer
            &&& thread.len() + 14 <= room ==> body == summary + thread + footer && text::occurs(
                body,
                t.body_text,
            )
            &&& thread.len() + 14 > room ==> summary.len() <= 14
            &&& summary.len() <= issue::summary_part(draft.summary).len()
            &&& issue::summary_part(draft.summary).len() <= 14 ==> summary
                == issue::summary_part(draft.summary)
        }),
{
    lemma_note_len();
    let body = issue::body_of(draft, t, thread_url, reporter, max);
    let footer = issue::footer(thread_url, reporter);
    let thread = issue::thread_part(draft, t);
    let room = (max - footer.len()) as nat;
    let whole = issue::summary_part(draft.summary);
    let summary = issue::shortened(whole, transcript::less(room, thread.len()));
    law_clipped_text_is_bounded(whole, transcript::less(room, thread.len()));
    law_clipped_text_is_bounded(summary + thread, room);
    let k = body.len() - footer.len();
    assert(body.subrange(k, body.len() as int) =~= footer);
    let at = k + issue::LINK_OPENING@.len();
    assert(body.subrange(at, at + thread_url.len()) =~= thread_url);
    assert(text::occurs_at(body, thread_url, at));
    if thread.len() + 14 <= room {
        let b = (summary.len() + issue::THREAD_HEADING@.len()) as int;
        assert(body.subrange(b, b + t.body_text.len()) =~= t.body_text);
        assert(text::occurs_at(body, t.body_text, b));
    }
}

/// The notes that say why a body is not all one could wish for are at most this
/// long, however many messages the thread has.
pub open spec fn longest_notes() -> nat {
    221
}

proof fn lemma_notes_are_short(draft: DraftView, t: TranscriptView)
    requires
        t.total_messages <= usize::MAX,
    ensures
        issue::notes_part(draft, t).len() <= longest_notes(),
{
    reveal_strlit("\n\n> [!NOTE]\n> ");
    reveal_strlit("This thread has ");
    reveal_strlit(" messages and was too long to reproduce in full; some of it was omitted.");
    reveal_strlit("Some attachments were left out.");
    reveal_strlit("The summary step was unavailable, so this issue is the raw thread.");
    reveal_strlit(" ");
    number::lemma_usize_len(t.total_messages as usize);
    let all = issue::notes(draft, t);
    reveal_with_fuel(text::joined, 4);
    assert(all.len() <= 3);
    let cut = issue::CUT_OPENING@ + number::decimal(t.total_messages) + issue::CUT_CLOSING@;
    assert(cut.len() <= 16 + 20 + 72);
    assert(forall|i: int| 0 <= i < all.len() ==> (#[trigger] all[i]) == cut || all[i]
        == issue::ASSETS_NOTE@ || all[i] == issue::RAW_NOTE@);
    if all.len() == 3 {
        assert(all =~= seq![cut, issue::ASSETS_NOTE@, issue::RAW_NOTE@]);
        assert(all.drop_last() =~= seq![cut, issue::ASSETS_NOTE@]);
        assert(all.drop_last().drop_last() =~= seq![cut]);
    } else if all.len() == 2 {
        assert(all.drop_last() =~= seq![all[0]]);
    } else if all.len() == 1 {
        assert(all =~= seq![all[0]]);
    }
}

/// Nothing is cut but an overlong summary where the limits are of a usual size:
/// the body of an issue about a thread rendered under the same limits is whole
/// where the thread's address and the reporter's name have up to 1093
/// characters together.
pub proof fn law_bodies_of_a_usual_size_are_whole(
    draft: DraftView,
    messages: Seq<MessageView>,
    missing: nat,
    limits: Limits,
    bits: u64,
    thread_url: Seq<char>,
    reporter: Seq<char>,
)
    requires
        messages.len() + missing <= usize::MAX,
        limits.max_body_chars >= transcript::BODY_RESERVE,
        thread_url.len() + reporter.len() <= 1_093,
    ensures
        ({
            let t = transcript::transcribed(messages, missing, limits, transcript::nonce_of(bits));
            let max = limits.max_body_chars as nat;
            issue::body_of(draft, t, thread_url, reporter, max) == issue::full_body(
                draft,
                t,
                thread_url,
                reporter,
            )
        }),
{
    let t = transcript::transcribed(messages, missing, limits, transcript::nonce_of(bits));
    let max = limits.max_body_chars as nat;
    let summary = issue::summary_part(draft.summary);
    let footer = issue::footer(thread_url, reporter);
    law_transcript_is_bounded(messages, missing, limits, bits);
    law_clipped_text_is_bounded(draft.summary, issue::SUMMARY_CAP as nat);
    lemma_notes_are_short(draft, t);
    reveal_strlit("_No summary available — the thread is reproduced in full below._");
    reveal_strlit("\n\n---\n\n### Thread\n\n");
    reveal_strlit("\n\n---\n\n[View the original Discord thread](");
    reveal_strlit(")\n\n<sub>Filed from Discord by ");
    reveal_strlit(".</sub>");
    assert(summary.len() <= 6_000);
    assert(t.body_text.len() <= max - 7_500 + 88);
    assert(issue::THREAD_HEADING@.len() == 19);
    assert(footer.len() == 79 + thread_url.len() + reporter.len());
    lemma_fitting_body_is_whole(draft, t, thread_url, reporter, max);
}

// ---------------------------------------------------------------------------
// What an issue reads like
// ---------------------------------------------------------------------------
/// What stands at the head of an issue: the summary as it is, where it has up to
/// 6000 characters, or words that say there is none.
pub open spec fn opens_with(head: Seq<char>, summary: Seq<char>) -> bool {
    &&& summary.len() == 0 ==> head
        == "_No summary available — the thread is reproduced in full below._"@
    &&& 0 < summary.len() <= 6_000 ==> head == summary
    &&& summary.len() > 6_000 ==> head == summary.take(5_986) + " … [truncated]"@
}

/// The notes on an issue: that the thread was cut and how many messages it has,
/// that attachments are missing, that the model had no part in it, each where it
/// is so, one after the other; and nothing where nothing is to be said.
pub open spec fn owns_up(notes: Seq<char>, draft: DraftView, t: TranscriptView) -> bool {
    let cut = "This thread has "@ + number::decimal(t.total_messages)
        + " messages and was too long to reproduce in full; some of it was omitted."@;
    let assets = "Some attachments were left out."@;
    let raw = "The summary step was unavailable, so this issue is the raw thread."@;
    let opening = "\n\n> [!NOTE]\n> "@;
    notes == match (t.body_truncated, t.assets_truncated, !draft.from_model) {
        (false, false, false) => Seq::empty(),
        (true, false, false) => opening + cut,
        (false, true, false) => opening + assets,
        (false, false, true) => opening + raw,
        (true, true, false) => opening + cut + " "@ + assets,
        (true, false, true) => opening + cut + " "@ + raw,
        (false, true, true) => opening + assets + " "@ + raw,
        (true, true, true) => opening + cut + " "@ + assets + " "@ + raw,
    }
}

proof fn lemma_notes(draft: DraftView, t: TranscriptView)
    ensures
        owns_up(issue::notes_part(draft, t), draft, t),
{
    reveal_with_fuel(text::joined, 4);
    let cut = issue::CUT_OPENING@ + number::decimal(t.total_messages) + issue::CUT_CLOSING@;
    let assets = issue::ASSETS_NOTE@;
    let raw = issue::RAW_NOTE@;
    let opening = issue::NOTE_OPENING@;
    let all = issue::notes(draft, t);
    match (t.body_truncated, t.assets_truncated, !draft.from_model) {
        (false, false, false) => {
            assert(all.len() == 0);
        },
        (true, false, false) => {
            assert(all =~= seq![cut]);
        },
        (false, true, false) => {
            assert(all =~= seq![assets]);
        },
        (false, false, true) => {
            assert(all =~= seq![raw]);
        },
        (true, true, false) => {
            assert(all =~= seq![cut, assets]);
            assert(all.drop_last() =~= seq![cut]);
            assert(opening + (cut + " "@ + assets) =~= opening + cut + " "@ + assets);
        },
        (true, false, true) => {
            assert(all =~= seq![cut, raw]);
            assert(all.drop_last() =~= seq![cut]);
            assert(opening + (cut + " "@ + raw) =~= opening + cut + " "@ + raw);
        },
        (false, true, true) => {
            assert(all =~= seq![assets, raw]);
            assert(all.drop_last() =~= seq![assets]);
            assert(opening + (assets + " "@ + raw) =~= opening + assets + " "@ + raw);
        },
        (true, true, true) => {
            assert(all =~= seq![cut, assets, raw]);
            assert(all.drop_last() =~= seq![cut, assets]);
            assert(all.drop_last().drop_last() =~= seq![cut]);
            assert(opening + (cut + " "@ + assets + " "@ + raw) =~= opening + cut + " "@ + assets
                + " "@ + raw);
        },
    }
}

/// An issue reads as promised, wherever it fits: the summary; a rule, a heading
/// and the thread as it was rendered; the notes; a rule, the link to the thread,
/// and who filed it.
pub proof fn law_issues_read_as_promised(
    draft: DraftView,
    t: TranscriptView,
    thread_url: Seq<char>,
    reporter: Seq<char>,
    max: nat,
)
    ensures
        exists|head: Seq<char>, notes: Seq<char>|
            {
                let body = head + "\n\n---\n\n### Thread\n\n"@ + t.body_text + notes
                    + "\n\n---\n\n[View the original Discord thread]("@ + thread_url
                    + ")\n\n<sub>Filed from Discord by "@ + reporter + ".</sub>"@;
                &&& #[trigger] opens_with(head, draft.summary)
                &&& #[trigger] owns_up(notes, draft, t)
                &&& body.len() <= max ==> issue::body_of(draft, t, thread_url, reporter, max)
                    == body
            },
{
    reveal_strlit(" … [truncated]");
    let head = issue::summary_part(draft.summary);
    let notes = issue::notes_part(draft, t);
    lemma_notes(draft, t);
    assert(opens_with(head, draft.summary));
    let body = head + "\n\n---\n\n### Thread\n\n"@ + t.body_text + notes
        + "\n\n---\n\n[View the original Discord thread]("@ + thread_url
        + ")\n\n<sub>Filed from Discord by "@ + reporter + ".</sub>"@;
    assert(body =~= issue::full_body(draft, t, thread_url, reporter));
    if body.len() <= max {
        lemma_fitting_body_is_whole(draft, t, thread_url, reporter, max);
    }
}

/// Where an issue is too long, the summary gives way before anything else does:
/// it is cut to what the others leave, and the thread, the notes, the link and
/// the reporter stay as they are.
pub proof fn law_summaries_give_way_first(
    draft: DraftView,
    t: TranscriptView,
    thread_url: Seq<char>,
    reporter: Seq<char>,
    max: nat,
)
    ensures
        exists|head: Seq<char>, notes: Seq<char>|
            {
                let rest = "\n\n---\n\n### Thread\n\n"@ + t.body_text + notes
                    + "\n\n---\n\n[View the original Discord thread]("@ + thread_url
                    + ")\n\n<sub>Filed from Discord by "@ + reporter + ".</sub>"@;
                &&& #[trigger] opens_with(head, draft.summary)
                &&& #[trigger] owns_up(notes, draft, t)
                &&& rest.len() + 14 <= max < rest.len() + head.len() ==> issue::body_of(
                    draft,
                    t,
                    thread_url,
                    reporter,
                    max,
                ) == head.take(max - rest.len() - 14) + " … [truncated]"@ + rest
            },
{
    reveal_strlit(" … [truncated]");
    let head = issue::summary_part(draft.summary);
    let notes = issue::notes_part(draft, t);
    lemma_notes(draft, t);
    assert(opens_with(head, draft.summary));
    let rest = "\n\n---\n\n### Thread\n\n"@ + t.body_text + notes
        + "\n\n---\n\n[View the original Discord thread]("@ + thread_url
        + ")\n\n<sub>Filed from Discord by "@ + reporter + ".</sub>"@;
    let thread = issue::thread_part(draft, t);
    let foot = issue::footer(thread_url, reporter);
    assert(rest =~= thread + foot);
    if rest.len() + 14 <= max < rest.len() + head.len() {
        let room = (max - foot.len()) as nat;
        let cut = issue::shortened(head, transcript::less(room, thread.len()));
        assert(cut == head.take(max - rest.len() - 14) + " … [truncated]"@);
        assert(issue::body_of(draft, t, thread_url, reporter, max) == cut + thread + foot);
        assert(cut + thread + foot =~= cut + rest);
    }
}

/// Where not even the thread goes into the cap, it is the thread that is cut,
/// and the link and the reporter stay. Where there is no room for those either,
/// the whole is cut at its end.
pub proof fn law_tight_bodies_keep_the_link(
    draft: DraftView,
    t: TranscriptView,
    thread_url: Seq<char>,
    reporter: Seq<char>,
    max: nat,
)
    ensures
        exists|head: Seq<char>, notes: Seq<char>|
            {
                let thread = "\n\n---\n\n### Thread\n\n"@ + t.body_text + notes;
                let foot = "\n\n---\n\n[View the original Discord thread]("@ + thread_url
                    + ")\n\n<sub>Filed from Discord by "@ + reporter + ".</sub>"@;
                let body = issue::body_of(draft, t, thread_url, reporter, max);
                let note = " … [truncated]"@;
                let kept = if head.len() > 14 {
                    note
                } else {
                    head
                };
                let over = (head + thread + foot).len() > max;
                &&& #[trigger] opens_with(head, draft.summary)
                &&& #[trigger] owns_up(notes, draft, t)
                &&& over && foot.len() + 14 <= max < thread.len() + foot.len() + 14 ==> body == (
                kept + thread).take(max - foot.len() - 14) + note + foot
                &&& over && 14 <= max < foot.len() + 14 ==> body == (head + thread + foot).take(
                    max - 14,
                ) + note
                &&& over && max < 14 ==> body == note
            },
{
    reveal_strlit(" … [truncated]");
    let head = issue::summary_part(draft.summary);
    let notes = issue::notes_part(draft, t);
    lemma_notes(draft, t);
    assert(opens_with(head, draft.summary));
    let thread = "\n\n---\n\n### Thread\n\n"@ + t.body_text + notes;
    let foot = "\n\n---\n\n[View the original Discord thread]("@ + thread_url
        + ")\n\n<sub>Filed from Discord by "@ + reporter + ".</sub>"@;
    assert(thread =~= issue::thread_part(draft, t));
    assert(foot =~= issue::footer(thread_url, reporter));
    let body = issue::body_of(draft, t, thread_url, reporter, max);
    let note = " … [truncated]"@;
    let kept = if head.len() > 14 {
        note
    } else {
        head
    };
    let all = head + thread + foot;
    assert(all == issue::full_body(draft, t, thread_url, reporter));
    if all.len() > max {
        if foot.len() + 14 <= max {
            if max < thread.len() + foot.len() + 14 {
                let room = (max - foot.len()) as nat;
                let less = transcript::less(room, thread.len());
                assert(less < 14);
                assert(transcript::clipped(head, less) == (if head.len() <= less {
                    head
                } else {
                    note
                })) by {
                    assert(head.take(0) + note =~= note);
                }
                assert(issue::shortened(head, less) == kept);
                assert(body == (kept + thread).take(room - 14) + note + foot);
            }
        } else if max < 14 {
            assert(all.take(0) + note =~= note);
        }
    }
}

} // verus!
