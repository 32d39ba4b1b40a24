//! Assembling the final GitHub issue body.

use crate::llm::{DraftView, IssueDraft};
use crate::number;
use crate::text;
use crate::transcript;
use crate::transcript::{Transcript, TranscriptView, BODY_RESERVE};
use vstd::prelude::*;

verus! {

/// The model is asked for a short summary, but nothing stops it returning an
/// essay. It is cut to this much even where there is room for more: what is
/// reserved of the body, less what the footer and the notes may take. Where
/// there is room for less it is cut further, so that it cannot crowd out the
/// thread or the footer.
pub const SUMMARY_CAP: usize = BODY_RESERVE - 1_500;

/// Where the issue comes from.
pub struct IssueContext<'a> {
    pub thread_url: &'a str,
    pub reporter: &'a str,
}

/// What stands where there is no summary.
pub const MISSING_SUMMARY: &'static str =
    "_No summary available — the thread is reproduced in full below._";

/// The rule and the heading between the summary and the thread.
pub const THREAD_HEADING: &'static str = "\n\n---\n\n### Thread\n\n";

/// What stands before the notes.
pub const NOTE_OPENING: &'static str = "\n\n> [!NOTE]\n> ";

/// The rule and the words before the thread's address.
pub const LINK_OPENING: &'static str = "\n\n---\n\n[View the original Discord thread](";

/// What stands between the thread's address and the reporter.
pub const LINK_CLOSING: &'static str = ")\n\n<sub>Filed from Discord by ";

/// The last words of the body.
pub const FOOTER_CLOSING: &'static str = ".</sub>";

/// What is said of a thread that was cut, before the count of its messages.
pub const CUT_OPENING: &'static str = "This thread has ";

/// What is said of a thread that was cut, after the count of its messages.
pub const CUT_CLOSING: &'static str =
    " messages and was too long to reproduce in full; some of it was omitted.";

/// What is said where attachments were left out.
pub const ASSETS_NOTE: &'static str = "Some attachments were left out.";

/// What is said of a draft that the model had no part in.
pub const RAW_NOTE: &'static str =
    "The summary step was unavailable, so this issue is the raw thread.";

/// The summary, cut to size, or what stands in its place.
pub open spec fn summary_part(summary: Seq<char>) -> Seq<char> {
    if summary.len() == 0 {
        MISSING_SUMMARY@
    } else {
        transcript::clipped(summary, SUMMARY_CAP as nat)
    }
}

/// `note`, where `holds`.
pub open spec fn note_if(holds: bool, note: Seq<char>) -> Seq<Seq<char>> {
    if holds {
        seq![note]
    } else {
        Seq::empty()
    }
}

/// What the reader of the issue should know.
pub open spec fn notes(draft: DraftView, t: TranscriptView) -> Seq<Seq<char>> {
    note_if(t.body_truncated, CUT_OPENING@ + number::decimal(t.total_messages) + CUT_CLOSING@)
        + note_if(t.assets_truncated, ASSETS_NOTE@) + note_if(!draft.from_model, RAW_NOTE@)
}

/// The notes, where there are any.
pub open spec fn notes_part(draft: DraftView, t: TranscriptView) -> Seq<char> {
    if notes(draft, t).len() == 0 {
        Seq::empty()
    } else {
        NOTE_OPENING@ + text::joined(notes(draft, t), " "@)
    }
}

/// The thread's address and who reported.
pub open spec fn footer(thread_url: Seq<char>, reporter: Seq<char>) -> Seq<char> {
    LINK_OPENING@ + thread_url + LINK_CLOSING@ + reporter + FOOTER_CLOSING@
}

/// What stands between the summary and the footer: rule, thread, notes.
pub open spec fn thread_part(draft: DraftView, t: TranscriptView) -> Seq<char> {
    THREAD_HEADING@ + t.body_text + notes_part(draft, t)
}

/// The whole body: summary, rule, thread, notes, rule, footer.
pub open spec fn full_body(
    draft: DraftView,
    t: TranscriptView,
    thread_url: Seq<char>,
    reporter: Seq<char>,
) -> Seq<char> {
    summary_part(draft.summary) + thread_part(draft, t) + footer(thread_url, reporter)
}

/// `summary` cut to `room` characters, or whole where that makes it no shorter.
pub open spec fn shortened(summary: Seq<char>, room: nat) -> Seq<char> {
    let cut = transcript::clipped(summary, room);
    if cut.len() < summary.len() {
        cut
    } else {
        summary
    }
}

/// What stands before the footer, cut to `room` characters: the summary is cut
/// first, to what the thread leaves of the room, and only then the thread.
pub open spec fn above_footer(draft: DraftView, t: TranscriptView, room: nat) -> Seq<char> {
    let thread = thread_part(draft, t);
    let summary = shortened(
        summary_part(draft.summary),
        transcript::less(room, thread.len()),
    );
    transcript::clipped(summary + thread, room)
}

/// The body, cut to `max` characters. The footer is whole, and what stands
/// before it gives way to it, wherever `max` holds it and the note that
/// something was cut.
pub open spec fn body_of(
    draft: DraftView,
    t: TranscriptView,
    thread_url: Seq<char>,
    reporter: Seq<char>,
    max: nat,
) -> Seq<char> {
    let foot = footer(thread_url, reporter);
    if foot.len() + transcript::TRUNCATION_NOTE@.len() <= max {
        above_footer(draft, t, (max - foot.len()) as nat) + foot
    } else {
        transcript::clipped(full_body(draft, t, thread_url, reporter), max)
    }
}

fn collect_notes(draft: &IssueDraft, transcript: &Transcript) -> (r: Vec<String>)
    ensures
        text::texts(r@) == notes(draft@, transcript@),
{
    let mut out: Vec<String> = Vec::new();
    if transcript.body_truncated {
        let mut note = CUT_OPENING.to_owned();
        note.append(number::to_decimal(transcript.total_messages as u128).as_str());
        note.append(CUT_CLOSING);
        out.push(note);
    }
    assert(text::texts(out@) =~= note_if(
        transcript@.body_truncated,
        CUT_OPENING@ + number::decimal(transcript@.total_messages) + CUT_CLOSING@,
    ));
    let ghost first = out@;
    if transcript.assets_truncated {
        out.push(ASSETS_NOTE.to_owned());
    }
    assert(text::texts(out@) =~= text::texts(first) + note_if(
        transcript@.assets_truncated,
        ASSETS_NOTE@,
    ));
    let ghost second = out@;
    if !draft.from_model {
        out.push(RAW_NOTE.to_owned());
    }
    assert(text::texts(out@) =~= text::texts(second) + note_if(!draft@.from_model, RAW_NOTE@));
    out
}

/// Summary · rule · thread content · rule · thread URL.
pub fn render_body(
    draft: &IssueDraft,
    transcript: &Transcript,
    cx: &IssueContext,
    max_chars: usize,
) -> (r: String)
    ensures
        r@ == body_of(
            draft@,
            transcript@,
            cx.thread_url@,
            cx.reporter@,
            max_chars as nat,
        ),
{
    let summary = if text::count_chars(draft.summary.as_str()) == 0 {
        MISSING_SUMMARY.to_owned()
    } else {
        transcript::truncate_chars(draft.summary.as_str(), SUMMARY_CAP).0
    };
    let mut thread = THREAD_HEADING.to_owned();
    thread.append(transcript.body_text.as_str());
    let notes = collect_notes(draft, transcript);
    let mut note_block = String::new();
    assert(text::texts(notes@).len() == notes@.len());
    if notes.len() > 0 {
        note_block.append(NOTE_OPENING);
        note_block.append(text::join(notes.as_slice(), " ").as_str());
    }
    assert(note_block@ =~= notes_part(draft@, transcript@));
    thread.append(note_block.as_str());
    let mut footer = LINK_OPENING.to_owned();
    footer.append(cx.thread_url);
    footer.append(LINK_CLOSING);
    footer.append(cx.reporter);
    footer.append(FOOTER_CLOSING);
    let footer_len = text::count_chars(footer.as_str());
    let note_len = text::count_chars(transcript::TRUNCATION_NOTE);
    if footer_len <= max_chars && note_len <= max_chars - footer_len {
        let room: usize = max_chars - footer_len;
        let thread_len = text::count_chars(thread.as_str());
        let summary_room: usize = if room >= thread_len {
            room - thread_len
        } else {
            0
        };
        let cut = transcript::truncate_chars(summary.as_str(), summary_room).0;
        let mut above = if text::count_chars(cut.as_str()) < text::count_chars(summary.as_str()) {
            cut
        } else {
            summary
        };
        above.append(thread.as_str());
        let mut out = transcript::truncate_chars(above.as_str(), room).0;
        out.append(footer.as_str());
        out
    } else {
        let mut out = summary;
        out.append(thread.as_str());
        out.append(footer.as_str());
        transcript::truncate_chars(out.as_str(), max_chars).0
    }
}

} // verus!
