//! What holds of every thread that is transcribed.

use crate::config::Limits;
use crate::number;
use crate::text;
use crate::transcript;
use crate::transcript::{AssetView, Gap, MessageView};
use vstd::prelude::*;

verus! {

// ---------------------------------------------------------------------------
// Hidden text
// ---------------------------------------------------------------------------
pub proof fn lemma_visible_part(s: Seq<char>)
    ensures
        forall|i: int|
            0 <= i < transcript::visible_part(s).len() ==> transcript::is_visible(
                #[trigger] transcript::visible_part(s)[i],
            ),
        (forall|i: int| 0 <= i < s.len() ==> transcript::is_visible(#[trigger] s[i]))
            ==> transcript::visible_part(s) == s,
    decreases s.len(),
{
    reveal(Seq::filter);
    if s.len() > 0 {
        lemma_visible_part(s.drop_last());
        if forall|i: int| 0 <= i < s.len() ==> transcript::is_visible(#[trigger] s[i]) {
            assert forall|i: int| 0 <= i < s.drop_last().len() implies transcript::is_visible(
                #[trigger] s.drop_last()[i],
            ) by {
                assert(s.drop_last()[i] == s[i]);
            }
            assert(transcript::is_visible(s[s.len() - 1]));
            assert(s.drop_last().push(s.last()) =~= s);
        }
    }
}

/// Whether three line feeds stand in `s` at `i`.
pub open spec fn three_line_feeds(s: Seq<char>, i: int) -> bool {
    0 <= i && i + 3 <= s.len() && s[i] == '\n' && s[i + 1] == '\n' && s[i + 2] == '\n'
}

pub proof fn lemma_collapsed(s: Seq<char>)
    ensures
        forall|i: int| !three_line_feeds(transcript::collapsed(s), i),
        forall|c: char| #[trigger] transcript::collapsed(s).contains(c) ==> s.contains(c),
        (forall|i: int| !three_line_feeds(s, i)) ==> transcript::collapsed(s) == s,
    decreases s.len(),
{
    if s.len() > 0 {
        let shorter = s.drop_last();
        let before = transcript::collapsed(shorter);
        lemma_collapsed(shorter);
        let after = transcript::collapsed(s);
        assert forall|i: int| !three_line_feeds(after, i) by {
            if three_line_feeds(after, i) && i + 3 < after.len() {
                assert(three_line_feeds(before, i));
            }
            if three_line_feeds(after, i) && after == before {
                assert(three_line_feeds(before, i));
            }
        }
        assert forall|c: char| #[trigger] after.contains(c) implies s.contains(c) by {
            let k = choose|k: int| 0 <= k < after.len() && after[k] == c;
            if k < before.len() {
                assert(before[k] == c);
                assert(before.contains(c));
                let j = choose|j: int| 0 <= j < shorter.len() && shorter[j] == c;
                assert(s[j] == c);
            } else {
                assert(s[s.len() - 1] == c);
            }
        }
        if forall|i: int| !three_line_feeds(s, i) {
            assert forall|i: int| !three_line_feeds(shorter, i) by {
                assert(!three_line_feeds(s, i));
            }
            assert(!three_line_feeds(s, s.len() - 3));
            assert(shorter.push(s.last()) =~= s);
        }
    }
}

/// Nothing hidden gets past sanitizing: what is left is visible characters
/// only, with no two blank lines in a row and no white space at either end.
/// Sanitizing it again changes nothing.
pub proof fn law_sanitized_text_hides_nothing(s: Seq<char>)
    ensures
        forall|i: int|
            0 <= i < transcript::sanitized(s).len() ==> transcript::is_visible(
                #[trigger] transcript::sanitized(s)[i],
            ),
        forall|i: int| !three_line_feeds(transcript::sanitized(s), i),
        transcript::sanitized(s).len() > 0 ==> !text::is_white_space(transcript::sanitized(s)[0])
            && !text::is_white_space(transcript::sanitized(s).last()),
        transcript::sanitized(transcript::sanitized(s)) == transcript::sanitized(s),
{
    let v = transcript::visible_part(s);
    let c = transcript::collapsed(v);
    let t = transcript::sanitized(s);
    lemma_visible_part(s);
    lemma_collapsed(v);
    let (a, b) = text::lemma_trimmed(c);
    assert forall|i: int| 0 <= i < t.len() implies transcript::is_visible(#[trigger] t[i]) by {
        assert(t[i] == c[a + i]);
        assert(c.contains(c[a + i]));
        let k = choose|k: int| 0 <= k < v.len() && v[k] == c[a + i];
        assert(transcript::is_visible(v[k]));
    }
    assert forall|i: int| !three_line_feeds(t, i) by {
        if three_line_feeds(t, i) {
            assert(three_line_feeds(c, a + i));
        }
    }
    lemma_visible_part(t);
    lemma_collapsed(t);
}

/// Cutting a text brings in nothing hidden.
pub proof fn lemma_clipped_is_visible(s: Seq<char>, max: nat)
    requires
        transcript::all_visible(s),
    ensures
        transcript::all_visible(transcript::clipped(s, max)),
{
    reveal_strlit(" … [truncated]");
    let c = transcript::clipped(s, max);
    let note = transcript::TRUNCATION_NOTE@;
    assert(note.len() == 14);
    assert(transcript::all_visible(note));
    if s.len() > max {
        let cut = c.len() - note.len();
        assert forall|i: int| 0 <= i < c.len() implies transcript::is_visible(#[trigger] c[i]) by {
            if i < cut {
                assert(c[i] == s[i]);
            } else {
                assert(c[i] == note[i - cut]);
            }
        }
    }
}

// ---------------------------------------------------------------------------
// Size
// ---------------------------------------------------------------------------
/// The larger of the two.
pub open spec fn larger(a: nat, b: nat) -> nat {
    if a >= b {
        a
    } else {
        b
    }
}

/// A cut text is no longer than asked for, but for the note that says so; a
/// text that fits is left alone.
pub proof fn law_clipped_text_is_bounded(s: Seq<char>, max: nat)
    ensures
        transcript::clipped(s, max).len() <= larger(max, 14),
        s.len() <= max ==> transcript::clipped(s, max) == s,
        s.len() > max ==> transcript::TRUNCATION_NOTE@.is_suffix_of(transcript::clipped(s, max)),
{
    reveal_strlit(" … [truncated]");
    if s.len() > max {
        let c = transcript::clipped(s, max);
        let note = transcript::TRUNCATION_NOTE@;
        assert(note.len() == 14);
        assert(c.subrange(c.len() - note.len(), c.len() as int) =~= note);
    }
}

pub proof fn lemma_weight_concat(a: Seq<Seq<char>>, b: Seq<Seq<char>>, sep: nat)
    ensures
        transcript::weight(a + b, sep) == transcript::weight(a, sep) + transcript::weight(b, sep),
    decreases b.len(),
{
    if b.len() == 0 {
        assert(a + b =~= a);
    } else {
        assert((a + b).drop_last() =~= a + b.drop_last());
        lemma_weight_concat(a, b.drop_last(), sep);
    }
}

pub proof fn lemma_weight_single(b: Seq<char>, sep: nat)
    ensures
        transcript::weight(seq![b], sep) == b.len() + sep,
{
    reveal_with_fuel(transcript::weight, 2);
    assert(seq![b].drop_last() =~= Seq::<Seq<char>>::empty());
}

pub proof fn lemma_joined_len(parts: Seq<Seq<char>>, sep: Seq<char>)
    requires
        parts.len() > 0,
    ensures
        text::joined(parts, sep).len() + sep.len() == transcript::weight(parts, sep.len()),
    decreases parts.len(),
{
    if parts.len() == 1 {
        assert(parts =~= seq![parts[0]]);
        lemma_weight_single(parts[0], sep.len());
    } else {
        lemma_joined_len(parts.drop_last(), sep);
    }
}

pub proof fn lemma_head_weight(
    blocks: Seq<Seq<char>>,
    gap: Gap,
    budget: nat,
    sep: nat,
    next: nat,
    used: nat,
)
    requires
        next <= blocks.len(),
    ensures
        ({
            let end = transcript::head_end(blocks, gap, budget, sep, next, used);
            let grown = used + transcript::weight(
                blocks.subrange(next as int, end as int),
                sep,
            );
            &&& next <= end <= blocks.len()
            &&& end == next || end <= transcript::head_stop(blocks, gap)
            &&& end == next ==> grown == used
            &&& end > next ==> grown + sep <= budget * 6 / 10
            &&& end > next ==> grown + transcript::head_reserve(blocks, gap, budget, sep, end)
                <= budget
        }),
    decreases blocks.len() - next,
{
    let end = transcript::head_end(blocks, gap, budget, sep, next, used);
    if end == next {
        assert(blocks.subrange(next as int, end as int) =~= Seq::<Seq<char>>::empty());
    } else {
        let grown = used + blocks[next as int].len() + sep;
        lemma_head_weight(blocks, gap, budget, sep, next + 1, grown);
        assert(blocks.subrange(next as int, end as int) =~= seq![blocks[next as int]]
            + blocks.subrange((next + 1) as int, end as int));
        lemma_weight_concat(
            seq![blocks[next as int]],
            blocks.subrange((next + 1) as int, end as int),
            sep,
        );
        lemma_weight_single(blocks[next as int], sep);
    }
}

proof fn lemma_tail_weight(
    blocks: Seq<Seq<char>>,
    gap: Gap,
    budget: nat,
    sep: nat,
    next: nat,
    last: nat,
    used: nat,
)
    requires
        next <= transcript::tail_low(gap, next) <= last <= blocks.len(),
    ensures
        ({
            let start = transcript::tail_start(blocks, gap, budget, sep, next, last, used);
            let grown = used + transcript::weight(
                blocks.subrange(start as int, last as int),
                sep,
            );
            let left = (start - next) as nat + gap.count;
            &&& transcript::tail_low(gap, next) <= start <= last
            &&& start == last ==> grown == used
            &&& start < last ==> grown + transcript::tail_reserve(
                blocks,
                gap,
                budget,
                sep,
                left,
            ) <= budget
        }),
    decreases last,
{
    let start = transcript::tail_start(blocks, gap, budget, sep, next, last, used);
    let grown = used + blocks[last - 1].len() + sep;
    let left = (last - 1 - next) as nat + gap.count;
    if transcript::tail_low(gap, next) < last && grown + transcript::tail_reserve(
        blocks,
        gap,
        budget,
        sep,
        left,
    ) <= budget {
        lemma_tail_weight(blocks, gap, budget, sep, next, (last - 1) as nat, grown);
        assert(blocks.subrange(start as int, last as int).drop_last() =~= blocks.subrange(
            start as int,
            last - 1,
        ));
    } else {
        assert(blocks.subrange(start as int, last as int) =~= Seq::<Seq<char>>::empty());
    }
}

proof fn lemma_omission_len(n: usize)
    ensures
        transcript::omission(n as nat).len() <= 72,
{
    reveal_strlit("_… ");
    reveal_strlit(" message(s) omitted to stay within size limits …_");
    number::lemma_usize_len(n);
}

/// Whether `gap` lies among `blocks`: after the first, and there are no more
/// messages in all than can be counted.
pub open spec fn sound_gap(blocks: Seq<Seq<char>>, gap: Gap) -> bool {
    &&& gap.at <= blocks.len()
    &&& gap.count > 0 && blocks.len() > 0 ==> gap.at > 0
    &&& blocks.len() + gap.count <= usize::MAX
}

/// What the two ends that are kept take up.
pub proof fn lemma_kept_ends(blocks: Seq<Seq<char>>, gap: Gap, budget: nat, w: nat)
    requires
        blocks.len() > 0,
        sound_gap(blocks, gap),
    ensures
        ({
            let (next, last) = transcript::kept_ends(blocks, gap, budget, w);
            let first = transcript::clipped(blocks[0], budget / 2).len();
            let head = first + transcript::weight(blocks.subrange(1, next as int), w);
            let tail = transcript::weight(
                blocks.subrange(last as int, blocks.len() as int),
                w,
            );
            let note = transcript::note_room((last - next) as nat + gap.count, w);
            let ends = transcript::holds_ends(blocks, gap, budget, w);
            let start = transcript::holds_start(blocks, gap, budget, w);
            &&& 1 <= next <= last <= blocks.len()
            &&& gap.count > 0 ==> next <= gap.at <= last
            &&& ends || start ==> head + tail + note <= budget
            &&& head + tail <= larger(first, budget)
            &&& ends ==> last < blocks.len()
            &&& !ends && !start && transcript::has_tail(blocks, gap) && first + w <= budget * 6 / 10
                && blocks.last().len() + w <= budget - budget * 6 / 10 ==> last < blocks.len()
        }),
{
    let n = blocks.len();
    let first = transcript::clipped(blocks[0], budget / 2).len();
    lemma_head_weight(blocks, gap, budget, w, 1, first);
    let next = transcript::kept_ends(blocks, gap, budget, w).0;
    let used = first + transcript::weight(blocks.subrange(1, next as int), w);
    lemma_tail_weight(blocks, gap, budget, w, next, n, used);
    assert(blocks[n - 1] == blocks.last());
    if transcript::has_tail(blocks, gap) {
        assert(transcript::tail_low(gap, next) < n);
        let grown = used + blocks[n - 1].len() + w;
        lemma_tail_weight(blocks, gap, budget, w, next, (n - 1) as nat, grown);
    }
}

/// The most that a thread can come to under a budget: the budget, or where
/// that is too small for the starter message's share of it and the note on what
/// is left out, the note on top of it.
pub open spec fn fitted_bound(budget: nat, sep: nat) -> nat {
    if larger(budget / 2, 14) + 72 + sep <= budget {
        budget
    } else {
        larger(budget, 14) + 72 + sep
    }
}

/// However long the thread, what is made of it stays within the budget,
/// wherever the budget holds the starter message's share of it and the note on
/// what is left out. A thread that fits is not cut.
pub proof fn law_fitted_text_is_bounded(
    blocks: Seq<Seq<char>>,
    gap: Gap,
    budget: nat,
    sep: Seq<char>,
)
    requires
        sound_gap(blocks, gap),
    ensures
        ({
            let t = transcript::fitted_around(blocks, gap, budget, sep);
            let all = text::joined(transcript::whole(blocks, gap), sep);
            &&& t.len() <= fitted_bound(budget, sep.len())
            &&& blocks.len() > 0 && (transcript::holds_ends(blocks, gap, budget, sep.len())
                || transcript::holds_start(blocks, gap, budget, sep.len())) ==> t.len() <= budget
            &&& larger(budget / 2, 14) + 72 + sep.len() <= budget ==> t.len() <= budget
            &&& all.len() <= budget ==> t == all
        }),
{
    let w = sep.len();
    let n = blocks.len();
    if transcript::must_drop(blocks, gap, budget, sep) {
        lemma_omission_len((n + gap.count) as usize);
        if n == 0 {
            let all = transcript::whole(blocks, gap);
            if gap.count > 0 {
                assert(all =~= seq![transcript::omission(gap.count)]);
            }
        } else {
            lemma_cut_len(blocks, gap, budget, sep);
        }
    }
}

proof fn lemma_cut_len(blocks: Seq<Seq<char>>, gap: Gap, budget: nat, sep: Seq<char>)
    requires
        blocks.len() > 0,
        sound_gap(blocks, gap),
    ensures
        text::joined(transcript::cut_blocks(blocks, gap, budget, sep.len()), sep).len()
            <= fitted_bound(budget, sep.len()),
        transcript::holds_ends(blocks, gap, budget, sep.len()) || transcript::holds_start(
            blocks,
            gap,
            budget,
            sep.len(),
        ) ==> text::joined(transcript::cut_blocks(blocks, gap, budget, sep.len()), sep).len()
            <= budget,
{
    let w = sep.len();
    let first = transcript::clipped(blocks[0], budget / 2);
    law_clipped_text_is_bounded(blocks[0], budget / 2);
    lemma_kept_ends(blocks, gap, budget, w);
    let (next, last) = transcript::kept_ends(blocks, gap, budget, w);
    let head = blocks.subrange(1, next as int);
    let left = (last - next) as nat + gap.count;
    let note = transcript::omission_if(left);
    let tail = blocks.subrange(last as int, blocks.len() as int);
    let parts = transcript::cut_blocks(blocks, gap, budget, w);
    assert(parts == seq![first] + head + note + tail);
    lemma_weight_concat(seq![first] + head + note, tail, w);
    lemma_weight_concat(seq![first] + head, note, w);
    lemma_weight_concat(seq![first], head, w);
    lemma_weight_single(first, w);
    if left > 0 {
        lemma_omission_len(left as usize);
        lemma_weight_single(transcript::omission(left), w);
    }
    lemma_omission_len((blocks.len() - 1 + gap.count) as usize);
    lemma_joined_len(parts, sep);
}

proof fn lemma_replaced_len(s: Seq<char>, from: Seq<char>, to: Seq<char>)
    requires
        to.len() <= from.len(),
    ensures
        text::replaced(s, from, to).len() <= s.len(),
    decreases s.len(),
{
    if from.len() == 0 || s.len() < from.len() {
    } else if from.is_prefix_of(s) {
        lemma_replaced_len(s.skip(from.len() as int), from, to);
    } else {
        lemma_replaced_len(s.skip(1), from, to);
    }
}

proof fn lemma_enclosed_len(content: Seq<char>, nonce: Seq<char>)
    requires
        nonce.len() == 16,
    ensures
        transcript::enclosed(content, nonce).len() == 64 + text::replaced(
            content,
            nonce,
            transcript::REDACTION@,
        ).len(),
        transcript::enclosed(content, nonce).len() <= content.len() + 64,
{
    reveal_strlit("<<<THREAD ");
    reveal_strlit(">>>\n");
    reveal_strlit("\n<<<END THREAD ");
    reveal_strlit(">>>");
    reveal_strlit("[redacted]");
    lemma_replaced_len(content, nonce, transcript::REDACTION@);
}

pub proof fn lemma_clean_thread_len(messages: Seq<MessageView>, limits: Limits)
    ensures
        transcript::clean_thread(messages, limits).messages.len() == messages.len(),
        forall|i: int|
            0 <= i < messages.len() ==> cleaned_from(
                #[trigger] transcript::clean_thread(messages, limits).messages[i],
                messages[i],
                limits,
            ),
    decreases messages.len(),
{
    if messages.len() > 0 {
        lemma_clean_thread_len(messages.drop_last(), limits);
    }
}

/// Whatever is posted in a thread, what comes of it stays within the limits:
/// so many messages are looked at, so much of each, and the texts for the
/// model and for the issue are bounded, whatever the limits are set to.
pub proof fn law_transcript_is_bounded(
    messages: Seq<MessageView>,
    missing: nat,
    limits: Limits,
    bits: u64,
)
    requires
        messages.len() + missing <= usize::MAX,
    ensures
        ({
            let t = transcript::transcribed(messages, missing, limits, transcript::nonce_of(bits));
            let clean = transcript::clean_thread(
                transcript::within_cap(messages, missing, limits),
                limits,
            ).messages;
            &&& clean.len() <= limits.max_messages
            &&& forall|i: int|
                0 <= i < clean.len() ==> (#[trigger] clean[i]).content.len() <= larger(
                    limits.max_message_chars as nat,
                    14,
                ) && clean[i].author.len() <= 80
            &&& t.llm_text.len() <= limits.max_llm_chars + 200
            &&& t.body_text.len() <= larger(limits.max_body_chars as nat, 88)
            &&& t.body_text.len() <= fitted_bound(transcript::thread_budget(limits), 2)
        }),
{
    let nonce = transcript::nonce_of(bits);
    number::lemma_hex(bits as nat, 16);
    let used = transcript::within_cap(messages, missing, limits);
    let clean = transcript::clean_thread(used, limits).messages;
    lemma_clean_thread_len(used, limits);
    assert forall|i: int| 0 <= i < clean.len() implies (#[trigger] clean[i]).content.len()
        <= larger(limits.max_message_chars as nat, 14) && clean[i].author.len() <= 80 by {
        law_clipped_text_is_bounded(
            transcript::sanitized(used[i].content),
            limits.max_message_chars as nat,
        );
        law_clipped_text_is_bounded(transcript::sanitized(used[i].author), 80);
    }
    reveal_strlit("\n\n---\n\n");
    reveal_strlit("\n\n");
    let llm = transcript::llm_blocks(clean);
    let body = transcript::body_blocks(clean);
    let gap = transcript::cap_gap(messages.len(), missing, limits);
    let llm_budget = limits.max_llm_chars as nat;
    law_the_cap_keeps_both_ends(messages, missing, limits);
    law_fitted_text_is_bounded(llm, gap, llm_budget, transcript::LLM_SEP@);
    law_fitted_text_is_bounded(
        body,
        gap,
        transcript::thread_budget(limits),
        transcript::BODY_SEP@,
    );
    lemma_enclosed_len(
        transcript::fitted_around(llm, gap, llm_budget, transcript::LLM_SEP@),
        nonce,
    );
}

// ---------------------------------------------------------------------------
// What survives
// ---------------------------------------------------------------------------
proof fn lemma_joined_ends(parts: Seq<Seq<char>>, sep: Seq<char>)
    requires
        parts.len() > 0,
    ensures
        parts[0].is_prefix_of(text::joined(parts, sep)),
        parts.last().is_suffix_of(text::joined(parts, sep)),
    decreases parts.len(),
{
    let j = text::joined(parts, sep);
    if parts.len() == 1 {
        assert(j.take(j.len() as int) =~= j);
        assert(j.subrange(0, j.len() as int) =~= j);
    } else {
        let before = text::joined(parts.drop_last(), sep);
        lemma_joined_ends(parts.drop_last(), sep);
        assert(j.take(parts[0].len() as int) =~= before.take(parts[0].len() as int));
        assert(j.subrange(j.len() - parts.last().len(), j.len() as int) =~= parts.last());
    }
}

pub proof fn lemma_joined_holds(parts: Seq<Seq<char>>, sep: Seq<char>, i: int)
    requires
        0 <= i < parts.len(),
    ensures
        text::occurs(text::joined(parts, sep), parts[i]),
    decreases parts.len(),
{
    let j = text::joined(parts, sep);
    if parts.len() == 1 {
        assert(j.subrange(0, parts[0].len() as int) =~= parts[0]);
        assert(text::occurs_at(j, parts[0], 0));
    } else if i == parts.len() - 1 {
        let at = j.len() - parts.last().len();
        assert(j.subrange(at, at + parts.last().len()) =~= parts.last());
        assert(text::occurs_at(j, parts[i], at));
    } else {
        let before = text::joined(parts.drop_last(), sep);
        lemma_joined_holds(parts.drop_last(), sep, i);
        let at = choose|at: int| text::occurs_at(before, parts[i], at);
        assert(j.subrange(at, at + parts[i].len()) =~= before.subrange(at, at + parts[i].len()));
        assert(text::occurs_at(j, parts[i], at));
    }
}

/// A thread within its budget is reproduced in full, every message of it.
pub proof fn law_short_threads_survive_intact(
    blocks: Seq<Seq<char>>,
    budget: nat,
    sep: Seq<char>,
    i: int,
)
    requires
        text::joined(blocks, sep).len() <= budget,
        0 <= i < blocks.len(),
    ensures
        transcript::fitted(blocks, budget, sep) == text::joined(blocks, sep),
        text::occurs(transcript::fitted(blocks, budget, sep), blocks[i]),
{
    lemma_joined_holds(blocks, sep, i);
}

/// How many notes on what was left out there are.
spec fn notes_len(left: nat) -> nat {
    if left > 0 {
        1
    } else {
        0
    }
}

proof fn lemma_cut_parts(blocks: Seq<Seq<char>>, gap: Gap, budget: nat, w: nat)
    requires
        blocks.len() > 0,
        sound_gap(blocks, gap),
    ensures
        ({
            let (next, last) = transcript::kept_ends(blocks, gap, budget, w);
            let left = (last - next) as nat + gap.count;
            let parts = transcript::cut_blocks(blocks, gap, budget, w);
            &&& parts.len() == next + notes_len(left) + (blocks.len() - last)
            &&& parts[0] == transcript::clipped(blocks[0], budget / 2)
            &&& forall|i: int| 1 <= i < next ==> parts[i] == #[trigger] blocks[i]
            &&& left > 0 ==> parts[next as int] == transcript::omission(left)
            &&& forall|i: int|
                last <= i < blocks.len() ==> parts[next + notes_len(left) + (i - last)]
                    == #[trigger] blocks[i]
        }),
{
    lemma_kept_ends(blocks, gap, budget, w);
}

/// How many messages are left out of what is made of `blocks`.
pub open spec fn left_out(
    blocks: Seq<Seq<char>>,
    gap: Gap,
    budget: nat,
    sep: Seq<char>,
) -> nat {
    if transcript::must_drop(blocks, gap, budget, sep) {
        let (next, last) = transcript::kept_ends(blocks, gap, budget, sep.len());
        (last - next) as nat + gap.count
    } else {
        gap.count
    }
}

/// Whether a budget that is too small for the first block and the note on the
/// others still has a share for the last one: what six tenths of it leave.
pub open spec fn shares_with_last(
    blocks: Seq<Seq<char>>,
    gap: Gap,
    budget: nat,
    sep: nat,
) -> bool {
    &&& transcript::has_tail(blocks, gap)
    &&& !transcript::holds_start(blocks, gap, budget, sep)
    &&& transcript::clipped(blocks[0], budget / 2).len() + sep <= budget * 6 / 10
    &&& blocks.last().len() + sep <= budget - budget * 6 / 10
}

/// Whether `content` keeps both ends of `blocks`: it begins with the first
/// block, in full or cut to half the budget; it ends with the last one, where
/// the budget holds the first, the note on all between, and the last, or is too
/// small for a note anyway and has a share for the last; and a note says how
/// many messages are left out, where any are.
pub open spec fn keeps_both_ends(
    content: Seq<char>,
    blocks: Seq<Seq<char>>,
    gap: Gap,
    budget: nat,
    sep: Seq<char>,
) -> bool {
    &&& blocks[0].is_prefix_of(content) || transcript::clipped(
        blocks[0],
        budget / 2,
    ).is_prefix_of(content)
    &&& transcript::holds_ends(blocks, gap, budget, sep.len()) || shares_with_last(
        blocks,
        gap,
        budget,
        sep.len(),
    ) ==> blocks.last().is_suffix_of(content)
    &&& left_out(blocks, gap, budget, sep) > 0 ==> text::occurs(
        content,
        transcript::omission(left_out(blocks, gap, budget, sep)),
    )
}

/// A thread over its budget, where it is not enough to cut the starter message,
/// keeps its start and its end and drops the middle. The starter message comes
/// first, in full where half the budget holds it. The head that follows it and
/// the tail are kept whole, a note between them says how many messages went,
/// those that were missing from the start among them, and a last message that
/// the budget holds is what the text ends with.
pub proof fn law_long_threads_keep_both_ends(
    blocks: Seq<Seq<char>>,
    gap: Gap,
    budget: nat,
    sep: Seq<char>,
)
    requires
        blocks.len() > 0,
        sound_gap(blocks, gap),
        gap.count > 0 ==> gap.at < blocks.len(),
        transcript::must_drop(blocks, gap, budget, sep),
    ensures
        ({
            let t = transcript::fitted_around(blocks, gap, budget, sep);
            let (next, last) = transcript::kept_ends(blocks, gap, budget, sep.len());
            &&& 1 <= next <= last <= blocks.len()
            &&& keeps_both_ends(t, blocks, gap, budget, sep)
            &&& transcript::clipped(blocks[0], budget / 2).is_prefix_of(t)
            &&& forall|i: int| 1 <= i < next ==> text::occurs(t, #[trigger] blocks[i])
            &&& forall|i: int| last <= i < blocks.len() ==> text::occurs(t, #[trigger] blocks[i])
        }),
{
    let w = sep.len();
    let t = transcript::fitted_around(blocks, gap, budget, sep);
    let (next, last) = transcript::kept_ends(blocks, gap, budget, w);
    let left = (last - next) as nat + gap.count;
    let parts = transcript::cut_blocks(blocks, gap, budget, w);
    let n = blocks.len() as int;
    lemma_kept_ends(blocks, gap, budget, w);
    lemma_cut_parts(blocks, gap, budget, w);
    lemma_joined_ends(parts, sep);
    assert forall|i: int| 1 <= i < next implies text::occurs(t, #[trigger] blocks[i]) by {
        lemma_joined_holds(parts, sep, i);
    }
    assert forall|i: int| last <= i < n implies text::occurs(t, #[trigger] blocks[i]) by {
        lemma_joined_holds(parts, sep, next + notes_len(left) + (i - last));
    }
    if left > 0 {
        lemma_joined_holds(parts, sep, next as int);
    }
    if transcript::holds_ends(blocks, gap, budget, w) || shares_with_last(
        blocks,
        gap,
        budget,
        w,
    ) {
        assert(blocks[n - 1] == blocks.last());
        assert(parts.last() == blocks.last());
    }
}

/// A thread of which no message has to go keeps both ends too, and everything
/// between them that is not missing from the start.
pub proof fn law_other_threads_keep_every_message(
    blocks: Seq<Seq<char>>,
    gap: Gap,
    budget: nat,
    sep: Seq<char>,
)
    requires
        blocks.len() > 0,
        sound_gap(blocks, gap),
        gap.count > 0 ==> gap.at < blocks.len(),
        !transcript::must_drop(blocks, gap, budget, sep),
    ensures
        ({
            let t = transcript::fitted_around(blocks, gap, budget, sep);
            &&& keeps_both_ends(t, blocks, gap, budget, sep)
            &&& blocks.len() > 1 ==> blocks.last().is_suffix_of(t)
            &&& forall|i: int| 1 <= i < blocks.len() ==> text::occurs(t, #[trigger] blocks[i])
        }),
{
    let t = transcript::fitted_around(blocks, gap, budget, sep);
    let from = if transcript::over_budget_around(blocks, gap, budget, sep) {
        transcript::short_start(blocks, budget)
    } else {
        blocks
    };
    let all = transcript::whole(from, gap);
    assert(all[0] == from[0]);
    assert(all.last() == from.last());
    lemma_joined_ends(all, sep);
    if gap.count > 0 {
        assert(all[gap.at as int] == transcript::omission(gap.count));
        lemma_joined_holds(all, sep, gap.at as int);
    }
    assert forall|i: int| 1 <= i < blocks.len() implies text::occurs(t, #[trigger] blocks[i]) by {
        if gap.count == 0 || i < gap.at {
            assert(all[i] == from[i]);
            lemma_joined_holds(all, sep, i);
        } else {
            assert(all[i + 1] == from[i]);
            lemma_joined_holds(all, sep, i + 1);
        }
    }
}

/// Head and tail both survive, whatever lies between them, where the first block
/// takes no more than half the budget and the last no more than the four tenths
/// that the head leaves. A budget that holds the first block and a note on the
/// others, but not the last one besides, is the exception; none that is ten
/// times as long as the longest note is.
pub proof fn law_ordinary_ends_survive(
    blocks: Seq<Seq<char>>,
    gap: Gap,
    budget: nat,
    sep: Seq<char>,
)
    requires
        sound_gap(blocks, gap),
        transcript::has_tail(blocks, gap),
        blocks[0].len() <= budget / 2,
        blocks[0].len() + sep.len() <= budget * 6 / 10,
        blocks.last().len() + sep.len() <= budget - budget * 6 / 10,
        budget >= 10 * (73 + sep.len()) || transcript::holds_ends(blocks, gap, budget, sep.len())
            || !transcript::holds_start(blocks, gap, budget, sep.len()),
    ensures
        ({
            let t = transcript::fitted_around(blocks, gap, budget, sep);
            &&& blocks[0].is_prefix_of(t)
            &&& blocks.last().is_suffix_of(t)
        }),
{
    let w = sep.len();
    lemma_omission_len((blocks.len() - 2 + gap.count) as usize);
    if budget >= 10 * (73 + w) {
        assert(transcript::holds_ends(blocks, gap, budget, w));
    }
    lemma_fitted_keeps_both_ends(blocks, gap, budget, sep);
}

/// Of a thread that has more messages than are looked at, a run from its start
/// and a run from its end are, the first message and the last among them, as
/// many as may be, and the rest is counted as missing, together with what was
/// missing already.
pub proof fn law_the_cap_keeps_both_ends(
    messages: Seq<MessageView>,
    missing: nat,
    limits: Limits,
)
    ensures
        ({
            let used = transcript::within_cap(messages, missing, limits);
            let gap = transcript::cap_gap(messages.len(), missing, limits);
            let max = limits.max_messages as int;
            &&& used.len() + gap.count == messages.len() + missing
            &&& used.len() <= max
            &&& messages.len() <= max ==> used == messages
            &&& messages.len() > max ==> used.len() == max
            &&& messages.len() > max && missing == 0 ==> gap.at == max - max / 2
            &&& messages.len() > 0 && max > 0 && missing > 0 ==> gap.at == 1
            &&& forall|i: int| 0 <= i < gap.at ==> #[trigger] used[i] == messages[i]
            &&& forall|i: int|
                gap.at <= i < used.len() ==> #[trigger] used[i] == messages[i + gap.count - missing]
            &&& messages.len() > 0 && max > 0 ==> used[0] == messages[0]
            &&& messages.len() > 0 && (max > 1 || messages.len() <= max) ==> used.last()
                == messages.last()
        }),
{
}

/// However long a thread, and however many messages it has, both texts made of
/// it keep its first message, keep its last wherever the budget holds that too,
/// and say how many are left out. There is no last message to keep where only
/// one message is looked at, or was handed in with others missing behind it.
pub proof fn law_transcripts_keep_both_ends(
    messages: Seq<MessageView>,
    missing: nat,
    limits: Limits,
    nonce: Seq<char>,
)
    requires
        0 < messages.len(),
        messages.len() + missing <= usize::MAX,
        missing > 0 ==> messages.len() > 1,
        limits.max_messages > 1 || messages.len() <= limits.max_messages,
    ensures
        ({
            let t = transcript::transcribed(messages, missing, limits, nonce);
            let clean = transcript::clean_thread(
                transcript::within_cap(messages, missing, limits),
                limits,
            ).messages;
            let gap = transcript::cap_gap(messages.len(), missing, limits);
            let llm = transcript::llm_blocks(clean);
            let body = transcript::body_blocks(clean);
            let llm_budget = limits.max_llm_chars as nat;
            let body_budget = transcript::thread_budget(limits);
            let llm_content = transcript::fitted_around(
                llm,
                gap,
                llm_budget,
                transcript::LLM_SEP@,
            );
            &&& clean.len() > 0
            &&& clean.len() + gap.count == messages.len() + missing
            &&& cleaned_from(clean[0], messages[0], limits)
            &&& cleaned_from(clean.last(), messages.last(), limits)
            &&& keeps_both_ends(t.body_text, body, gap, body_budget, transcript::BODY_SEP@)
            &&& keeps_both_ends(llm_content, llm, gap, llm_budget, transcript::LLM_SEP@)
            &&& t.llm_text == transcript::enclosed(llm_content, nonce)
        }),
{
    let used = transcript::within_cap(messages, missing, limits);
    let clean = transcript::clean_thread(used, limits).messages;
    let gap = transcript::cap_gap(messages.len(), missing, limits);
    law_the_cap_keeps_both_ends(messages, missing, limits);
    lemma_clean_thread_len(used, limits);
    assert(cleaned_from(clean[0], used[0], limits));
    assert(cleaned_from(clean[clean.len() - 1], used[used.len() - 1], limits));
    lemma_fitted_keeps_both_ends(
        transcript::llm_blocks(clean),
        gap,
        limits.max_llm_chars as nat,
        transcript::LLM_SEP@,
    );
    lemma_fitted_keeps_both_ends(
        transcript::body_blocks(clean),
        gap,
        transcript::thread_budget(limits),
        transcript::BODY_SEP@,
    );
}

/// Whether `m` is what cleaning leaves of the author, the time and the text of
/// `from`.
pub open spec fn cleaned_from(m: MessageView, from: MessageView, limits: Limits) -> bool {
    &&& m.author == transcript::clipped(
        transcript::sanitized(from.author),
        transcript::MAX_AUTHOR_CHARS as nat,
    )
    &&& m.timestamp == from.timestamp
    &&& m.content == transcript::clipped(
        transcript::sanitized(from.content),
        limits.max_message_chars as nat,
    )
}

proof fn lemma_fitted_keeps_both_ends(
    blocks: Seq<Seq<char>>,
    gap: Gap,
    budget: nat,
    sep: Seq<char>,
)
    requires
        blocks.len() > 0,
        sound_gap(blocks, gap),
        gap.count > 0 ==> gap.at < blocks.len(),
    ensures
        keeps_both_ends(
            transcript::fitted_around(blocks, gap, budget, sep),
            blocks,
            gap,
            budget,
            sep,
        ),
{
    if transcript::must_drop(blocks, gap, budget, sep) {
        law_long_threads_keep_both_ends(blocks, gap, budget, sep);
    } else {
        law_other_threads_keep_every_message(blocks, gap, budget, sep);
    }
}

// ---------------------------------------------------------------------------
// The delimiter
// ---------------------------------------------------------------------------
/// As far as a text with replacements shows no opening character of one, it is
/// the text as it was.
proof fn lemma_replaced_prefix(s: Seq<char>, from: Seq<char>, to: Seq<char>, k: int)
    requires
        from.len() > 0,
        to.len() > 0,
        0 <= k <= text::replaced(s, from, to).len(),
        forall|i: int| 0 <= i < k ==> #[trigger] text::replaced(s, from, to)[i] != to[0],
    ensures
        k <= s.len(),
        forall|i: int| 0 <= i < k ==> s[i] == #[trigger] text::replaced(s, from, to)[i],
    decreases s.len(),
{
    let out = text::replaced(s, from, to);
    if s.len() < from.len() {
    } else if from.is_prefix_of(s) {
        if k > 0 {
            assert(out[0] == to[0]);
        }
    } else if k > 0 {
        let rest = text::replaced(s.skip(1), from, to);
        assert forall|i: int| 0 <= i < k - 1 implies #[trigger] rest[i] != to[0] by {
            assert(out[i + 1] == rest[i]);
        }
        lemma_replaced_prefix(s.skip(1), from, to, k - 1);
        assert forall|i: int| 0 <= i < k implies s[i] == #[trigger] out[i] by {
            if i > 0 {
                assert(out[i] == rest[i - 1]);
                assert(s.skip(1)[i - 1] == s[i]);
            }
        }
    }
}

/// Nothing is left to replace where the replacement begins and ends with
/// characters that what it replaces does not have, and is the shorter one.
proof fn lemma_replaced_is_gone(s: Seq<char>, from: Seq<char>, to: Seq<char>)
    requires
        from.len() > 0,
        0 < to.len() <= from.len(),
        !from.contains(to[0]),
        !from.contains(to.last()),
    ensures
        !text::occurs(text::replaced(s, from, to), from),
    decreases s.len(),
{
    let out = text::replaced(s, from, to);
    let n = from.len() as int;
    if s.len() < from.len() {
        assert forall|i: int| !text::occurs_at(out, from, i) by {}
    } else if from.is_prefix_of(s) {
        let rest = text::replaced(s.skip(n), from, to);
        lemma_replaced_is_gone(s.skip(n), from, to);
        assert forall|i: int| !text::occurs_at(out, from, i) by {
            if text::occurs_at(out, from, i) {
                let m = to.len() as int;
                if i >= m {
                    assert(rest.subrange(i - m, i - m + n) =~= out.subrange(i, i + n));
                    assert(text::occurs_at(rest, from, i - m));
                } else {
                    assert(out.subrange(i, i + n)[m - 1 - i] == to[m - 1]);
                    assert(from[m - 1 - i] == to.last());
                }
            }
        }
    } else {
        let rest = text::replaced(s.skip(1), from, to);
        lemma_replaced_is_gone(s.skip(1), from, to);
        assert forall|i: int| !text::occurs_at(out, from, i) by {
            if text::occurs_at(out, from, i) {
                if i >= 1 {
                    assert(rest.subrange(i - 1, i - 1 + n) =~= out.subrange(i, i + n));
                    assert(text::occurs_at(rest, from, i - 1));
                } else {
                    assert forall|k: int| 0 <= k < n implies #[trigger] out[k] != to[0] by {
                        assert(out.subrange(0, n)[k] == out[k]);
                        assert(from.contains(from[k]));
                    }
                    lemma_replaced_prefix(s, from, to, n);
                    assert(s.take(n) =~= out.subrange(0, n));
                }
            }
        }
    }
}

/// Thread content cannot forge the delimiter: the nonce stands in the text for
/// the model in the two delimiters that the library puts there, and nowhere
/// else, whatever the thread says.
pub proof fn law_content_cannot_forge_the_delimiter(
    messages: Seq<MessageView>,
    missing: nat,
    limits: Limits,
    bits: u64,
)
    ensures
        ({
            let t = transcript::transcribed(messages, missing, limits, transcript::nonce_of(bits));
            forall|j: int|
                #[trigger] text::occurs_at(t.llm_text, t.nonce, j) <==> j == 10 || j
                    == t.llm_text.len() - 19
        }),
{
    let nonce = transcript::nonce_of(bits);
    let t = transcript::transcribed(messages, missing, limits, nonce);
    let all = t.llm_text;
    number::lemma_hex(bits as nat, 16);
    let clean = transcript::clean_thread(transcript::within_cap(messages, missing, limits), limits);
    let content = transcript::fitted_around(
        transcript::llm_blocks(clean.messages),
        transcript::cap_gap(messages.len(), missing, limits),
        limits.max_llm_chars as nat,
        transcript::LLM_SEP@,
    );
    let inner = text::replaced(content, nonce, transcript::REDACTION@);
    let n = inner.len() as int;
    reveal_strlit("<<<THREAD ");
    reveal_strlit(">>>\n");
    reveal_strlit("\n<<<END THREAD ");
    reveal_strlit(">>>");
    reveal_strlit("[redacted]");
    assert(forall|c: char| nonce.contains(c) ==> number::is_hex(c));
    lemma_replaced_is_gone(content, nonce, transcript::REDACTION@);
    assert(all.len() == n + 64);
    assert(all[9] == ' ');
    assert(all[26] == '>' && all[27] == '>' && all[28] == '>' && all[29] == '\n');
    assert(all[30 + n] == '\n');
    assert(all[30 + n + 14] == ' ');
    assert(all[n + 61] == '>');
    assert(all.subrange(10, 26) =~= nonce);
    assert(all.subrange(n + 45, n + 61) =~= nonce);
    assert forall|j: int| #[trigger] text::occurs_at(all, nonce, j) <==> j == 10 || j == all.len()
        - 19 by {
        if text::occurs_at(all, nonce, j) {
            let window = all.subrange(j, j + 16);
            assert forall|k: int| j <= k < j + 16 implies number::is_hex(#[trigger] all[k]) by {
                assert(window[k - j] == all[k]);
                assert(number::is_hex(nonce[k - j]));
            }
            if j <= 9 {
                assert(number::is_hex(all[9]));
            } else if 10 < j <= 26 {
                assert(number::is_hex(all[26]));
            } else if 26 < j <= 29 {
                assert(number::is_hex(all[29]));
            } else if 30 <= j && j + 16 <= 30 + n {
                assert(inner.subrange(j - 30, j - 30 + 16) =~= window);
                assert(text::occurs_at(inner, nonce, j - 30));
            } else if 30 <= j <= 30 + n {
                assert(number::is_hex(all[30 + n]));
            } else if 30 + n < j <= 30 + n + 14 {
                assert(number::is_hex(all[30 + n + 14]));
            } else if j > n + 45 {
                assert(number::is_hex(all[n + 61]));
            }
        }
    }
}

// ---------------------------------------------------------------------------
// GitHub references
// ---------------------------------------------------------------------------
/// Whether there is a sigil in `s` at `i`, not right after a word character,
/// with something to refer to right behind it.
pub open spec fn live_at(s: Seq<char>, i: int) -> bool {
    &&& 0 <= i
    &&& i + 1 < s.len()
    &&& transcript::is_sigil(s[i])
    &&& transcript::at_boundary(s, i)
    &&& s[i + 1] != '<'
    &&& !text::is_white_space(s[i + 1])
}

/// Whether `s` ends in a sigil that what follows could bring to life.
pub open spec fn ends_open(s: Seq<char>) -> bool {
    &&& s.len() > 0
    &&& transcript::is_sigil(s.last())
    &&& transcript::at_boundary(s, s.len() - 1)
}

/// Whether no sigil in `s`, but for those right after a word character, has
/// anything to refer to, nor gets it by what follows.
pub open spec fn is_inert(s: Seq<char>) -> bool {
    &&& forall|i: int| !#[trigger] live_at(s, i)
    &&& !ends_open(s)
}

/// Every sigil of a defused text has the empty comment right behind it, but for
/// those right after a word character, so none of them has anything to refer
/// to.
pub proof fn law_defused_text_is_inert(s: Seq<char>)
    ensures
        forall|i: int|
            0 <= i < transcript::defused(s).len() && transcript::is_sigil(
                transcript::defused(s)[i],
            ) && transcript::at_boundary(transcript::defused(s), i) ==> #[trigger] text::occurs_at(
                transcript::defused(s),
                transcript::DEFUSER@,
                i + 1,
            ),
        is_inert(transcript::defused(s)),
    decreases s.len(),
{
    reveal_strlit("<!---->");
    let d = transcript::defused(s);
    let mark = transcript::DEFUSER@;
    if s.len() > 0 {
        let shorter = s.drop_last();
        let before = transcript::defused(shorter);
        law_defused_text_is_inert(shorter);
        lemma_defused_last(shorter);
        assert forall|i: int|
            0 <= i < d.len() && transcript::is_sigil(d[i]) && transcript::at_boundary(
                d,
                i,
            ) implies #[trigger] text::occurs_at(d, mark, i + 1) by {
            if i < before.len() {
                assert(d[i] == before[i]);
                if i > 0 {
                    assert(d[i - 1] == before[i - 1]);
                }
                assert(text::occurs_at(before, mark, i + 1));
                assert(d.subrange(i + 1, i + 1 + mark.len()) =~= before.subrange(
                    i + 1,
                    i + 1 + mark.len(),
                ));
            } else if i == before.len() {
                assert(d[i] == s.last());
                if i > 0 {
                    assert(d[i - 1] == before.last());
                }
                assert(d.subrange(i + 1, i + 1 + mark.len()) =~= mark);
            } else {
                assert(d[i] == mark[i - before.len() - 1]);
            }
        }
    }
    assert forall|i: int| !#[trigger] live_at(d, i) by {
        if live_at(d, i) {
            assert(text::occurs_at(d, mark, i + 1));
            assert(d.subrange(i + 1, i + 1 + mark.len())[0] == d[i + 1]);
        }
    }
    if ends_open(d) {
        assert(text::occurs_at(d, mark, d.len() - 1 + 1));
    }
}

/// A defused text ends in a boundary just where the text itself does.
proof fn lemma_defused_last(s: Seq<char>)
    ensures
        s.len() == 0 <==> transcript::defused(s).len() == 0,
        s.len() > 0 ==> transcript::is_boundary(transcript::defused(s).last())
            == transcript::is_boundary(s.last()),
{
    reveal_strlit("<!---->");
    if s.len() > 0 {
        let d = transcript::defused(s);
        if transcript::is_sigil(s.last()) && transcript::at_boundary(s, s.len() - 1) {
            assert(d.last() == '>');
        } else {
            assert(d.last() == s.last());
        }
    }
}

/// Two texts that no copy of `p` stands across have their copies replaced each
/// on its own.
pub proof fn lemma_replaced_concat(x: Seq<char>, y: Seq<char>, p: Seq<char>, to: Seq<char>)
    requires
        p.len() > 0,
        forall|i: int|
            0 <= i < x.len() < i + p.len() ==> !#[trigger] text::occurs_at(x + y, p, i),
    ensures
        text::replaced(x + y, p, to) == text::replaced(x, p, to) + text::replaced(y, p, to),
    decreases x.len(),
{
    let s = x + y;
    let m = p.len() as int;
    if x.len() == 0 {
        assert(s =~= y);
        assert(text::replaced(x, p, to) =~= Seq::<char>::empty());
        assert(Seq::<char>::empty() + text::replaced(y, p, to) =~= text::replaced(y, p, to));
    } else if s.len() < m {
        assert(text::replaced(s, p, to) == s);
    } else {
        let step: int = if p.is_prefix_of(s) {
            m
        } else {
            1
        };
        if p.is_prefix_of(s) {
            assert(s.subrange(0, m) =~= s.take(m));
            assert(text::occurs_at(s, p, 0));
            assert(m <= x.len());
            assert(s.take(m) =~= x.take(m));
        } else if m <= x.len() {
            assert(s.take(m) =~= x.take(m));
        }
        let x2 = x.skip(step);
        assert(s.skip(step) =~= x2 + y);
        assert forall|i: int| 0 <= i < x2.len() < i + m implies !#[trigger] text::occurs_at(
            x2 + y,
            p,
            i,
        ) by {
            if text::occurs_at(x2 + y, p, i) {
                assert(s.subrange(i + step, i + step + m) =~= (x2 + y).subrange(i, i + m));
                assert(text::occurs_at(s, p, i + step));
            }
        }
        lemma_replaced_concat(x2, y, p, to);
        let rx = text::replaced(x2, p, to);
        let ry = text::replaced(y, p, to);
        if p.is_prefix_of(s) {
            assert(to + (rx + ry) =~= to + rx + ry);
        } else {
            assert(seq![s[0]] + (rx + ry) =~= seq![s[0]] + rx + ry);
            if x.len() < m {
                assert(seq![x[0]] + x2 =~= x);
            }
        }
    }
}

/// The end of a defused text, as far back as there is no `>`, is the end of the
/// text itself.
proof fn lemma_defused_end(s: Seq<char>, j: int)
    requires
        0 <= j <= transcript::defused(s).len(),
        forall|i: int|
            transcript::defused(s).len() - j <= i < transcript::defused(s).len()
                ==> #[trigger] transcript::defused(s)[i] != '>',
    ensures
        j <= s.len(),
        s.subrange(s.len() - j, s.len() as int) == transcript::defused(s).subrange(
            transcript::defused(s).len() - j,
            transcript::defused(s).len() as int,
        ),
    decreases s.len(),
{
    reveal_strlit("<!---->");
    let d = transcript::defused(s);
    if j > 0 {
        let shorter = s.drop_last();
        let before = transcript::defused(shorter);
        if transcript::is_sigil(s.last()) && transcript::at_boundary(s, s.len() - 1) {
            assert(d[d.len() - 1] == '>');
        } else {
            assert forall|i: int| before.len() - (j - 1) <= i < before.len() implies (
            #[trigger] before[i]) != '>' by {
                assert(d[i] == before[i]);
            }
            lemma_defused_end(shorter, j - 1);
            let end = shorter.subrange(shorter.len() - (j - 1), shorter.len() as int);
            assert(s.subrange(s.len() - j, s.len() as int) =~= end.push(s.last()));
            assert(d.subrange(d.len() - j, d.len() as int) =~= end.push(s.last()));
        }
    }
}

proof fn lemma_defuser()
    ensures
        transcript::DEFUSER@.len() == 7,
        transcript::DEFUSER@[0] == '<',
        transcript::DEFUSER@[6] == '>',
        forall|k: int| 0 < k < 7 ==> #[trigger] transcript::DEFUSER@[k] != '<',
        forall|k: int| 0 <= k < 6 ==> #[trigger] transcript::DEFUSER@[k] != '>',
{
    reveal_strlit("<!---->");
}

/// No comment comes about where a character is added to what was defused
/// before it.
proof fn lemma_no_comment_across(s: Seq<char>, i: int)
    requires
        s.len() > 0,
        !text::occurs(s, transcript::DEFUSER@),
        0 <= i < transcript::defused(s.drop_last()).len() < i + 7,
    ensures
        !text::occurs_at(
            transcript::defused(s.drop_last()) + seq![s.last()],
            transcript::DEFUSER@,
            i,
        ),
{
    lemma_defuser();
    let p = transcript::DEFUSER@;
    let shorter = s.drop_last();
    let c = s.last();
    let d = transcript::defused(shorter);
    let x = d + seq![c];
    if text::occurs_at(x, p, i) {
        assert(i + 7 == x.len());
        let end = x.subrange(i, i + 7);
        assert(end == p);
        assert forall|k: int| d.len() - 6 <= k < d.len() implies (#[trigger] d[k]) != '>' by {
            assert(d[k] == end[k - i]);
        }
        lemma_defused_end(shorter, 6);
        let tail = shorter.subrange(shorter.len() - 6, shorter.len() as int);
        assert(end =~= tail.push(c));
        assert(s.subrange(s.len() - 7, s.len() as int) =~= tail.push(c));
        assert(text::occurs_at(s, p, s.len() - 7));
    }
}

/// Taking the comment out behind a text that holds none across its end.
proof fn lemma_last_comment_comes_out(x: Seq<char>)
    ensures
        text::replaced(x + transcript::DEFUSER@, transcript::DEFUSER@, Seq::empty())
            == text::replaced(x, transcript::DEFUSER@, Seq::empty()),
{
    lemma_defuser();
    let p = transcript::DEFUSER@;
    let none = Seq::<char>::empty();
    assert forall|i: int| 0 <= i < x.len() < i + p.len() implies !#[trigger] text::occurs_at(
        x + p,
        p,
        i,
    ) by {
        if text::occurs_at(x + p, p, i) {
            let k = x.len() - i;
            assert((x + p).subrange(i, i + 7)[k] == p[0]);
            assert(p[k] != '<');
        }
    }
    lemma_replaced_concat(x, p, p, none);
    assert(p.take(7) =~= p);
    assert(p.skip(7) =~= none);
    assert(text::replaced(none, p, none) == none);
    assert(text::replaced(p, p, none) =~= none);
    assert(text::replaced(x, p, none) + none =~= text::replaced(x, p, none));
}

/// Defusing can be undone: taking the comments out of a defused text gives the
/// text back, where it held none itself.
pub proof fn law_defusing_can_be_undone(s: Seq<char>)
    requires
        !text::occurs(s, transcript::DEFUSER@),
    ensures
        text::replaced(transcript::defused(s), transcript::DEFUSER@, Seq::empty()) == s,
    decreases s.len(),
{
    lemma_defuser();
    let p = transcript::DEFUSER@;
    let none = Seq::<char>::empty();
    if s.len() > 0 {
        let shorter = s.drop_last();
        let c = s.last();
        let d = transcript::defused(shorter);
        if text::occurs(shorter, p) {
            let i = choose|i: int| text::occurs_at(shorter, p, i);
            assert(s.subrange(i, i + 7) =~= shorter.subrange(i, i + 7));
            assert(text::occurs_at(s, p, i));
        }
        law_defusing_can_be_undone(shorter);
        let x = d + seq![c];
        assert forall|i: int| 0 <= i < d.len() < i + p.len() implies !#[trigger] text::occurs_at(
            x,
            p,
            i,
        ) by {
            lemma_no_comment_across(s, i);
        }
        lemma_replaced_concat(d, seq![c], p, none);
        assert(text::replaced(seq![c], p, none) == seq![c]);
        assert(shorter + seq![c] =~= s);
        assert(d.push(c) =~= x);
        lemma_last_comment_comes_out(x);
    }
}

/// A text without `@` and `#` is left alone.
pub proof fn law_text_without_sigils_is_left_alone(s: Seq<char>)
    requires
        forall|i: int| 0 <= i < s.len() ==> !transcript::is_sigil(#[trigger] s[i]),
    ensures
        transcript::defused(s) == s,
    decreases s.len(),
{
    if s.len() > 0 {
        assert forall|i: int| 0 <= i < s.drop_last().len() implies !transcript::is_sigil(
            #[trigger] s.drop_last()[i],
        ) by {
            assert(s.drop_last()[i] == s[i]);
        }
        law_text_without_sigils_is_left_alone(s.drop_last());
        assert(!transcript::is_sigil(s[s.len() - 1]));
        assert(s.drop_last().push(s.last()) =~= s);
    }
}

proof fn lemma_no_sigil_is_inert(s: Seq<char>)
    requires
        forall|i: int| 0 <= i < s.len() ==> !transcript::is_sigil(#[trigger] s[i]),
    ensures
        is_inert(s),
{
}

proof fn lemma_inert_concat(a: Seq<char>, b: Seq<char>)
    requires
        is_inert(a),
        is_inert(b),
    ensures
        is_inert(a + b),
{
    let t = a + b;
    assert forall|i: int| !#[trigger] live_at(t, i) by {
        if live_at(t, i) {
            if i + 1 < a.len() {
                assert(live_at(a, i));
            } else if i + 1 == a.len() {
                assert(ends_open(a));
            } else {
                assert(live_at(b, i - a.len()));
            }
        }
    }
    if ends_open(t) {
        if b.len() == 0 {
            assert(t =~= a);
        } else {
            assert(ends_open(b));
        }
    }
}

proof fn lemma_inert_clipped(s: Seq<char>, max: nat)
    requires
        is_inert(s),
    ensures
        is_inert(transcript::clipped(s, max)),
{
    reveal_strlit(" … [truncated]");
    if s.len() > max {
        let note = transcript::TRUNCATION_NOTE@;
        let c = transcript::clipped(s, max);
        let k = c.len() - note.len();
        assert forall|i: int| !#[trigger] live_at(c, i) by {
            if live_at(c, i) {
                if i + 1 < k {
                    assert(live_at(s, i));
                } else if i + 1 == k {
                    assert(c[i + 1] == note[0]);
                } else {
                    assert(c[i] == note[i - k]);
                }
            }
        }
        assert(c.last() == note[13]);
    }
}

proof fn lemma_inert_joined(parts: Seq<Seq<char>>, sep: Seq<char>)
    requires
        is_inert(sep),
        forall|i: int| 0 <= i < parts.len() ==> is_inert(#[trigger] parts[i]),
    ensures
        is_inert(text::joined(parts, sep)),
    decreases parts.len(),
{
    if parts.len() > 1 {
        assert forall|i: int| 0 <= i < parts.drop_last().len() implies is_inert(
            #[trigger] parts.drop_last()[i],
        ) by {
            assert(parts.drop_last()[i] == parts[i]);
        }
        lemma_inert_joined(parts.drop_last(), sep);
        lemma_inert_concat(text::joined(parts.drop_last(), sep), sep);
        lemma_inert_concat(text::joined(parts.drop_last(), sep) + sep, parts.last());
    }
}

proof fn lemma_decimal_digits(n: nat)
    ensures
        forall|i: int|
            0 <= i < number::decimal(n).len() ==> '0' <= #[trigger] number::decimal(n)[i] <= '9',
    decreases n,
{
    let d = number::decimal(n);
    if n >= 10 {
        lemma_decimal_digits(n / 10);
        let before = number::decimal(n / 10);
        assert forall|i: int| 0 <= i < d.len() implies '0' <= #[trigger] d[i] <= '9' by {
            if i < before.len() {
                assert(d[i] == before[i]);
            } else {
                assert(d[i] == number::digit(n % 10));
            }
        }
    } else {
        assert(d[0] == number::digit(n));
    }
}

proof fn lemma_inert_omission(n: nat)
    ensures
        is_inert(transcript::omission(n)),
{
    reveal_strlit("_… ");
    reveal_strlit(" message(s) omitted to stay within size limits …_");
    lemma_decimal_digits(n);
    let a = "_… "@;
    let c = " message(s) omitted to stay within size limits …_"@;
    lemma_no_sigil_is_inert(a);
    lemma_no_sigil_is_inert(number::decimal(n));
    lemma_no_sigil_is_inert(c);
    lemma_inert_concat(a, number::decimal(n));
    lemma_inert_concat(a + number::decimal(n), c);
}

proof fn lemma_inert_links(assets: Seq<AssetView>)
    requires
        forall|i: int| 0 <= i < assets.len() ==> is_inert((#[trigger] assets[i]).url),
    ensures
        is_inert(transcript::asset_links(assets)),
    decreases assets.len(),
{
    if assets.len() > 0 {
        let a = assets.last();
        assert forall|i: int| 0 <= i < assets.drop_last().len() implies is_inert(
            (#[trigger] assets.drop_last()[i]).url,
        ) by {
            assert(assets.drop_last()[i] == assets[i]);
        }
        lemma_inert_links(assets.drop_last());
        reveal_strlit("\n\n![");
        reveal_strlit("\n\n[");
        reveal_strlit("](");
        reveal_strlit(")");
        let open = if a.is_image {
            "\n\n!["@
        } else {
            "\n\n["@
        };
        lemma_no_sigil_is_inert(open);
        lemma_no_sigil_is_inert("]("@);
        lemma_no_sigil_is_inert(")"@);
        law_defused_text_is_inert(a.name);
        let name = transcript::defused(a.name);
        assert(is_inert(a.url));
        lemma_inert_concat(open, name);
        lemma_inert_concat(open + name, "]("@);
        lemma_inert_concat(open + name + "]("@, a.url);
        lemma_inert_concat(open + name + "]("@ + a.url, ")"@);
        lemma_inert_concat(
            transcript::asset_links(assets.drop_last()),
            transcript::asset_link(a),
        );
    }
}

proof fn lemma_inert_block(m: MessageView)
    requires
        is_inert(m.timestamp),
        forall|i: int| 0 <= i < m.assets.len() ==> is_inert((#[trigger] m.assets[i]).url),
    ensures
        is_inert(transcript::body_block(m)),
{
    reveal_strlit("**");
    reveal_strlit("** · ");
    reveal_strlit("\n\n");
    let a = "**"@;
    let author = transcript::defused(m.author);
    let b = "** · "@;
    let c = "\n\n"@;
    let content = transcript::defused(transcript::shown(m.content));
    lemma_no_sigil_is_inert(a);
    lemma_no_sigil_is_inert(b);
    lemma_no_sigil_is_inert(c);
    law_defused_text_is_inert(m.author);
    law_defused_text_is_inert(transcript::shown(m.content));
    lemma_inert_links(m.assets);
    lemma_inert_concat(a, author);
    lemma_inert_concat(a + author, b);
    lemma_inert_concat(a + author + b, m.timestamp);
    lemma_inert_concat(a + author + b + m.timestamp, c);
    lemma_inert_concat(a + author + b + m.timestamp + c, content);
    lemma_inert_concat(
        a + author + b + m.timestamp + c + content,
        transcript::asset_links(m.assets),
    );
}

proof fn lemma_tally_keeps_offered(seen: Seq<Seq<char>>, offered: Seq<AssetView>, cap: nat)
    ensures
        forall|i: int|
            0 <= i < transcript::tally(seen, offered, cap).kept.len() ==> offered.contains(
                #[trigger] transcript::tally(seen, offered, cap).kept[i],
            ),
    decreases offered.len(),
{
    if offered.len() > 0 {
        let t = transcript::tally(seen, offered, cap);
        let before = transcript::tally(seen, offered.drop_last(), cap);
        lemma_tally_keeps_offered(seen, offered.drop_last(), cap);
        assert forall|i: int| 0 <= i < t.kept.len() implies offered.contains(
            #[trigger] t.kept[i],
        ) by {
            if i < before.kept.len() {
                assert(offered.drop_last().contains(before.kept[i]));
                let k = choose|k: int|
                    0 <= k < offered.drop_last().len() && offered.drop_last()[k] == before.kept[i];
                assert(offered[k] == t.kept[i]);
            } else {
                assert(offered[offered.len() - 1] == t.kept[i]);
            }
        }
    }
}

/// Whether what Discord itself says of a message holds no reference: its
/// timestamp and the addresses of its attachments.
pub open spec fn has_inert_metadata(m: MessageView) -> bool {
    &&& is_inert(m.timestamp)
    &&& forall|i: int| 0 <= i < m.assets.len() ==> is_inert((#[trigger] m.assets[i]).url)
}

proof fn lemma_clean_thread_metadata(messages: Seq<MessageView>, limits: Limits)
    requires
        forall|i: int| 0 <= i < messages.len() ==> has_inert_metadata(#[trigger] messages[i]),
    ensures
        forall|i: int|
            0 <= i < transcript::clean_thread(messages, limits).messages.len()
                ==> has_inert_metadata(
                #[trigger] transcript::clean_thread(messages, limits).messages[i],
            ),
    decreases messages.len(),
{
    if messages.len() > 0 {
        let shorter = messages.drop_last();
        assert forall|i: int| 0 <= i < shorter.len() implies has_inert_metadata(
            #[trigger] shorter[i],
        ) by {
            assert(shorter[i] == messages[i]);
        }
        lemma_clean_thread_metadata(shorter, limits);
        let before = transcript::clean_thread(shorter, limits);
        let m = messages.last();
        assert(has_inert_metadata(messages[messages.len() - 1]));
        let cap = limits.max_attachments as nat;
        let kept = transcript::tally(before.seen, m.assets, cap).kept;
        lemma_tally_keeps_offered(before.seen, m.assets, cap);
        assert forall|i: int| 0 <= i < kept.len() implies is_inert((#[trigger] kept[i]).url) by {
            let k = choose|k: int| 0 <= k < m.assets.len() && m.assets[k] == kept[i];
            assert(is_inert(m.assets[k].url));
        }
        let clean = transcript::clean_message(m, kept, limits);
        assert forall|i: int| 0 <= i < clean.assets.len() implies is_inert(
            (#[trigger] clean.assets[i]).url,
        ) by {
            assert(is_inert(kept[i].url));
        }
    }
}

proof fn lemma_inert_fitted(blocks: Seq<Seq<char>>, gap: Gap, budget: nat, sep: Seq<char>)
    requires
        sound_gap(blocks, gap),
        is_inert(sep),
        forall|i: int| 0 <= i < blocks.len() ==> is_inert(#[trigger] blocks[i]),
    ensures
        is_inert(transcript::fitted_around(blocks, gap, budget, sep)),
{
    let n = blocks.len();
    if n > 0 {
        lemma_inert_clipped(blocks[0], budget / 2);
    }
    if transcript::must_drop(blocks, gap, budget, sep) && n > 0 {
        let w = sep.len();
        let (next, last) = transcript::kept_ends(blocks, gap, budget, w);
        let left = (last - next) as nat + gap.count;
        let parts = transcript::cut_blocks(blocks, gap, budget, w);
        lemma_kept_ends(blocks, gap, budget, w);
        lemma_cut_parts(blocks, gap, budget, w);
        lemma_inert_omission(left);
        assert forall|i: int| 0 <= i < parts.len() implies is_inert(#[trigger] parts[i]) by {
            if 1 <= i < next {
                assert(is_inert(blocks[i]));
            } else if i >= next + notes_len(left) {
                assert(is_inert(blocks[i - next - notes_len(left) + last]));
            }
        }
        lemma_inert_joined(parts, sep);
    } else {
        let from = if transcript::over_budget_around(blocks, gap, budget, sep) {
            transcript::short_start(blocks, budget)
        } else {
            blocks
        };
        let all = transcript::whole(from, gap);
        lemma_inert_omission(gap.count);
        assert forall|i: int| 0 <= i < from.len() implies is_inert(#[trigger] from[i]) by {
            assert(is_inert(blocks[i]));
        }
        assert forall|i: int| 0 <= i < all.len() implies is_inert(#[trigger] all[i]) by {
            if gap.count == 0 || i < gap.at {
                assert(all[i] == from[i]);
            } else if i > gap.at {
                assert(all[i] == from[i - 1]);
            }
        }
        lemma_inert_joined(all, sep);
    }
}

/// Whatever the messages of a thread say, whoever their authors call themselves
/// and whatever the attachments are named, no `@` and no `#` in the transcript
/// in the issue body has anything to refer to right behind it, but for those
/// that stand right after a word character; nor does the transcript end in one.
pub proof fn law_thread_content_refers_to_nothing(
    messages: Seq<MessageView>,
    missing: nat,
    limits: Limits,
    nonce: Seq<char>,
)
    requires
        messages.len() + missing <= usize::MAX,
        forall|i: int| 0 <= i < messages.len() ==> has_inert_metadata(#[trigger] messages[i]),
    ensures
        is_inert(transcript::transcribed(messages, missing, limits, nonce).body_text),
{
    let used = transcript::within_cap(messages, missing, limits);
    let gap = transcript::cap_gap(messages.len(), missing, limits);
    law_the_cap_keeps_both_ends(messages, missing, limits);
    assert forall|i: int| 0 <= i < used.len() implies has_inert_metadata(#[trigger] used[i]) by {
        if i < gap.at {
            assert(used[i] == messages[i]);
        } else {
            assert(used[i] == messages[i + gap.count - missing]);
        }
    }
    lemma_clean_thread_metadata(used, limits);
    lemma_clean_thread_len(used, limits);
    let clean = transcript::clean_thread(used, limits).messages;
    let blocks = transcript::body_blocks(clean);
    assert forall|i: int| 0 <= i < blocks.len() implies is_inert(#[trigger] blocks[i]) by {
        assert(has_inert_metadata(clean[i]));
        lemma_inert_block(clean[i]);
    }
    reveal_strlit("\n\n");
    let sep = transcript::BODY_SEP@;
    lemma_no_sigil_is_inert(sep);
    lemma_inert_fitted(blocks, gap, transcript::thread_budget(limits), sep);
}

// ---------------------------------------------------------------------------
// Nothing hidden in a transcript
// ---------------------------------------------------------------------------
proof fn lemma_visible_concat(a: Seq<char>, b: Seq<char>)
    requires
        transcript::all_visible(a),
        transcript::all_visible(b),
    ensures
        transcript::all_visible(a + b),
{
    let t = a + b;
    assert forall|i: int| 0 <= i < t.len() implies transcript::is_visible(#[trigger] t[i]) by {
        if i < a.len() {
            assert(t[i] == a[i]);
        } else {
            assert(t[i] == b[i - a.len()]);
        }
    }
}

proof fn lemma_visible_joined(parts: Seq<Seq<char>>, sep: Seq<char>)
    requires
        transcript::all_visible(sep),
        forall|i: int| 0 <= i < parts.len() ==> transcript::all_visible(#[trigger] parts[i]),
    ensures
        transcript::all_visible(text::joined(parts, sep)),
    decreases parts.len(),
{
    if parts.len() > 1 {
        let shorter = parts.drop_last();
        assert forall|i: int| 0 <= i < shorter.len() implies transcript::all_visible(
            #[trigger] shorter[i],
        ) by {
            assert(shorter[i] == parts[i]);
        }
        assert(transcript::all_visible(parts[parts.len() - 1]));
        lemma_visible_joined(shorter, sep);
        lemma_visible_concat(text::joined(shorter, sep), sep);
        lemma_visible_concat(text::joined(shorter, sep) + sep, parts.last());
    } else if parts.len() == 1 {
        assert(transcript::all_visible(parts[0]));
    }
}

proof fn lemma_visible_defused(s: Seq<char>)
    requires
        transcript::all_visible(s),
    ensures
        transcript::all_visible(transcript::defused(s)),
    decreases s.len(),
{
    if s.len() > 0 {
        let shorter = s.drop_last();
        assert forall|i: int| 0 <= i < shorter.len() implies transcript::is_visible(
            #[trigger] shorter[i],
        ) by {
            assert(shorter[i] == s[i]);
        }
        lemma_visible_defused(shorter);
        assert(transcript::is_visible(s[s.len() - 1]));
        let before = transcript::defused(shorter);
        lemma_visible_concat(before, seq![s.last()]);
        assert(before.push(s.last()) =~= before + seq![s.last()]);
        reveal_strlit("<!---->");
        assert(transcript::all_visible(transcript::DEFUSER@));
        lemma_visible_concat(before.push(s.last()), transcript::DEFUSER@);
    }
}

proof fn lemma_visible_replaced(s: Seq<char>, from: Seq<char>, to: Seq<char>)
    requires
        transcript::all_visible(s),
        transcript::all_visible(to),
    ensures
        transcript::all_visible(text::replaced(s, from, to)),
    decreases s.len(),
{
    if from.len() == 0 || s.len() < from.len() {
    } else {
        let step: int = if from.is_prefix_of(s) {
            from.len() as int
        } else {
            1
        };
        let rest = s.skip(step);
        assert forall|i: int| 0 <= i < rest.len() implies transcript::is_visible(
            #[trigger] rest[i],
        ) by {
            assert(rest[i] == s[i + step]);
        }
        lemma_visible_replaced(rest, from, to);
        if from.is_prefix_of(s) {
            lemma_visible_concat(to, text::replaced(rest, from, to));
        } else {
            assert(transcript::all_visible(seq![s[0]]));
            lemma_visible_concat(seq![s[0]], text::replaced(rest, from, to));
        }
    }
}

proof fn lemma_visible_omission(n: nat)
    ensures
        transcript::all_visible(transcript::omission(n)),
{
    reveal_strlit("_… ");
    lemma_decimal_digits(n);
    lemma_omission_words();
    let a = "_… "@;
    assert(transcript::all_visible(a));
    assert(transcript::all_visible(number::decimal(n)));
    lemma_visible_concat(a, number::decimal(n));
    lemma_visible_concat(
        a + number::decimal(n),
        " message(s) omitted to stay within size limits …_"@,
    );
}

proof fn lemma_omission_words()
    ensures
        transcript::all_visible(" message(s) omitted to stay within size limits …_"@),
{
    reveal_strlit(" message(s) omitted to stay within size limits …_");
    let s = " message(s) omitted to stay within size limits …_"@;
    assert forall|i: int| 0 <= i < s.len() implies (' ' <= #[trigger] s[i] <= '~' || s[i]
        == '…') by {}
}

proof fn lemma_visible_fitted(blocks: Seq<Seq<char>>, gap: Gap, budget: nat, sep: Seq<char>)
    requires
        sound_gap(blocks, gap),
        transcript::all_visible(sep),
        forall|i: int| 0 <= i < blocks.len() ==> transcript::all_visible(#[trigger] blocks[i]),
    ensures
        transcript::all_visible(transcript::fitted_around(blocks, gap, budget, sep)),
{
    let n = blocks.len();
    if n > 0 {
        lemma_clipped_is_visible(blocks[0], budget / 2);
    }
    if transcript::must_drop(blocks, gap, budget, sep) && n > 0 {
        let w = sep.len();
        let (next, last) = transcript::kept_ends(blocks, gap, budget, w);
        let left = (last - next) as nat + gap.count;
        let parts = transcript::cut_blocks(blocks, gap, budget, w);
        lemma_kept_ends(blocks, gap, budget, w);
        lemma_cut_parts(blocks, gap, budget, w);
        lemma_visible_omission(left);
        assert forall|i: int| 0 <= i < parts.len() implies transcript::all_visible(
            #[trigger] parts[i],
        ) by {
            if 1 <= i < next {
                assert(transcript::all_visible(blocks[i]));
            } else if i >= next + notes_len(left) {
                assert(transcript::all_visible(blocks[i - next - notes_len(left) + last]));
            }
        }
        lemma_visible_joined(parts, sep);
    } else {
        let from = if transcript::over_budget_around(blocks, gap, budget, sep) {
            transcript::short_start(blocks, budget)
        } else {
            blocks
        };
        let all = transcript::whole(from, gap);
        lemma_visible_omission(gap.count);
        assert forall|i: int| 0 <= i < from.len() implies transcript::all_visible(
            #[trigger] from[i],
        ) by {
            assert(transcript::all_visible(blocks[i]));
        }
        assert forall|i: int| 0 <= i < all.len() implies transcript::all_visible(
            #[trigger] all[i],
        ) by {
            if gap.count == 0 || i < gap.at {
                assert(all[i] == from[i]);
            } else if i > gap.at {
                assert(all[i] == from[i - 1]);
            }
        }
        lemma_visible_joined(all, sep);
    }
}

/// Whether what people wrote in a message hides nothing: its author's name, its
/// text, and the names of its attachments.
pub open spec fn hides_nothing(m: MessageView) -> bool {
    &&& transcript::all_visible(m.author)
    &&& transcript::all_visible(m.content)
    &&& forall|i: int|
        0 <= i < m.assets.len() ==> transcript::all_visible((#[trigger] m.assets[i]).name)
}

/// Every author's name, every text and every attachment's name that is rendered
/// hides nothing, whatever was posted.
pub proof fn law_rendered_messages_hide_nothing(messages: Seq<MessageView>, limits: Limits)
    ensures
        forall|i: int|
            0 <= i < transcript::clean_thread(messages, limits).messages.len() ==> hides_nothing(
                #[trigger] transcript::clean_thread(messages, limits).messages[i],
            ),
    decreases messages.len(),
{
    if messages.len() > 0 {
        let shorter = messages.drop_last();
        law_rendered_messages_hide_nothing(shorter, limits);
        let before = transcript::clean_thread(shorter, limits);
        let m = messages.last();
        let cap = limits.max_attachments as nat;
        let kept = transcript::tally(before.seen, m.assets, cap).kept;
        let clean = transcript::clean_message(m, kept, limits);
        law_sanitized_text_hides_nothing(m.author);
        law_sanitized_text_hides_nothing(m.content);
        lemma_clipped_is_visible(
            transcript::sanitized(m.author),
            transcript::MAX_AUTHOR_CHARS as nat,
        );
        lemma_clipped_is_visible(
            transcript::sanitized(m.content),
            limits.max_message_chars as nat,
        );
        assert forall|i: int| 0 <= i < clean.assets.len() implies transcript::all_visible(
            (#[trigger] clean.assets[i]).name,
        ) by {
            law_sanitized_text_hides_nothing(kept[i].name);
        }
        assert(hides_nothing(clean));
    }
}

/// Whether what Discord itself says of a message hides nothing: its timestamp
/// and the addresses of its attachments.
pub open spec fn has_visible_metadata(m: MessageView) -> bool {
    &&& transcript::all_visible(m.timestamp)
    &&& forall|i: int|
        0 <= i < m.assets.len() ==> transcript::all_visible((#[trigger] m.assets[i]).url)
}

proof fn lemma_clean_thread_visible_metadata(messages: Seq<MessageView>, limits: Limits)
    requires
        forall|i: int| 0 <= i < messages.len() ==> has_visible_metadata(#[trigger] messages[i]),
    ensures
        forall|i: int|
            0 <= i < transcript::clean_thread(messages, limits).messages.len()
                ==> has_visible_metadata(
                #[trigger] transcript::clean_thread(messages, limits).messages[i],
            ),
    decreases messages.len(),
{
    if messages.len() > 0 {
        let shorter = messages.drop_last();
        assert forall|i: int| 0 <= i < shorter.len() implies has_visible_metadata(
            #[trigger] shorter[i],
        ) by {
            assert(shorter[i] == messages[i]);
        }
        lemma_clean_thread_visible_metadata(shorter, limits);
        let before = transcript::clean_thread(shorter, limits);
        let m = messages.last();
        assert(has_visible_metadata(messages[messages.len() - 1]));
        let cap = limits.max_attachments as nat;
        let kept = transcript::tally(before.seen, m.assets, cap).kept;
        lemma_tally_keeps_offered(before.seen, m.assets, cap);
        let clean = transcript::clean_message(m, kept, limits);
        assert forall|i: int| 0 <= i < clean.assets.len() implies transcript::all_visible(
            (#[trigger] clean.assets[i]).url,
        ) by {
            assert(m.assets.contains(kept[i]));
            let k = choose|k: int| 0 <= k < m.assets.len() && m.assets[k] == kept[i];
            assert(transcript::all_visible(m.assets[k].url));
        }
        assert(has_visible_metadata(clean));
    }
}

proof fn lemma_visible_links(assets: Seq<AssetView>)
    requires
        forall|i: int|
            0 <= i < assets.len() ==> transcript::all_visible((#[trigger] assets[i]).url)
                && transcript::all_visible(assets[i].name),
    ensures
        transcript::all_visible(transcript::asset_links(assets)),
    decreases assets.len(),
{
    if assets.len() > 0 {
        let shorter = assets.drop_last();
        let a = assets.last();
        assert forall|i: int| 0 <= i < shorter.len() implies transcript::all_visible(
            (#[trigger] shorter[i]).url,
        ) && transcript::all_visible(shorter[i].name) by {
            assert(shorter[i] == assets[i]);
        }
        lemma_visible_links(shorter);
        assert(transcript::all_visible(assets[assets.len() - 1].url));
        reveal_strlit("\n\n![");
        reveal_strlit("\n\n[");
        reveal_strlit("](");
        reveal_strlit(")");
        let open = if a.is_image {
            "\n\n!["@
        } else {
            "\n\n["@
        };
        lemma_visible_defused(a.name);
        let name = transcript::defused(a.name);
        lemma_visible_concat(open, name);
        lemma_visible_concat(open + name, "]("@);
        lemma_visible_concat(open + name + "]("@, a.url);
        lemma_visible_concat(open + name + "]("@ + a.url, ")"@);
        lemma_visible_concat(transcript::asset_links(shorter), transcript::asset_link(a));
    }
}

proof fn lemma_visible_shown(content: Seq<char>)
    requires
        transcript::all_visible(content),
    ensures
        transcript::all_visible(transcript::shown(content)),
{
    reveal_strlit("_(no text)_");
}

proof fn lemma_visible_body_block(m: MessageView)
    requires
        hides_nothing(m),
        has_visible_metadata(m),
    ensures
        transcript::all_visible(transcript::body_block(m)),
{
    reveal_strlit("**");
    reveal_strlit("** · ");
    reveal_strlit("\n\n");
    let a = "**"@;
    let author = transcript::defused(m.author);
    let b = "** · "@;
    let c = "\n\n"@;
    let content = transcript::defused(transcript::shown(m.content));
    assert forall|i: int| 0 <= i < m.assets.len() implies transcript::all_visible(
        (#[trigger] m.assets[i]).url,
    ) && transcript::all_visible(m.assets[i].name) by {}
    lemma_visible_defused(m.author);
    lemma_visible_shown(m.content);
    lemma_visible_defused(transcript::shown(m.content));
    lemma_visible_links(m.assets);
    lemma_visible_concat(a, author);
    lemma_visible_concat(a + author, b);
    lemma_visible_concat(a + author + b, m.timestamp);
    lemma_visible_concat(a + author + b + m.timestamp, c);
    lemma_visible_concat(a + author + b + m.timestamp + c, content);
    lemma_visible_concat(
        a + author + b + m.timestamp + c + content,
        transcript::asset_links(m.assets),
    );
}

proof fn lemma_visible_llm_block(m: MessageView)
    requires
        hides_nothing(m),
        has_visible_metadata(m),
    ensures
        transcript::all_visible(transcript::llm_block(m)),
{
    reveal_strlit("[");
    reveal_strlit("] ");
    reveal_strlit(":\n");
    reveal_strlit(", ");
    reveal_strlit(")");
    let content = transcript::shown(m.content);
    lemma_visible_shown(m.content);
    lemma_visible_concat("["@, m.timestamp);
    lemma_visible_concat("["@ + m.timestamp, "] "@);
    lemma_visible_concat("["@ + m.timestamp + "] "@, m.author);
    lemma_visible_concat("["@ + m.timestamp + "] "@ + m.author, ":\n"@);
    let head = "["@ + m.timestamp + "] "@ + m.author + ":\n"@ + content;
    lemma_visible_concat("["@ + m.timestamp + "] "@ + m.author + ":\n"@, content);
    if m.assets.len() > 0 {
        let names = transcript::asset_names(m.assets);
        assert forall|i: int| 0 <= i < names.len() implies transcript::all_visible(
            #[trigger] names[i],
        ) by {
            assert(transcript::all_visible(m.assets[i].name));
        }
        lemma_visible_joined(names, ", "@);
        reveal_strlit("\n(attachments: ");
        let words = "\n(attachments: "@;
        lemma_visible_concat(head, words);
        lemma_visible_concat(head + words, text::joined(names, ", "@));
        lemma_visible_concat(head + words + text::joined(names, ", "@), ")"@);
    }
}

proof fn lemma_visible_enclosed(content: Seq<char>, bits: u64)
    requires
        transcript::all_visible(content),
    ensures
        transcript::all_visible(transcript::enclosed(content, transcript::nonce_of(bits))),
{
    let nonce = transcript::nonce_of(bits);
    number::lemma_hex(bits as nat, 16);
    assert(transcript::all_visible(nonce));
    reveal_strlit("<<<THREAD ");
    reveal_strlit(">>>\n");
    reveal_strlit("\n<<<END THREAD ");
    reveal_strlit(">>>");
    reveal_strlit("[redacted]");
    let a = "<<<THREAD "@;
    let b = ">>>\n"@;
    let c = "\n<<<END THREAD "@;
    let d = ">>>"@;
    let inner = text::replaced(content, nonce, transcript::REDACTION@);
    lemma_visible_replaced(content, nonce, transcript::REDACTION@);
    lemma_visible_concat(a, nonce);
    lemma_visible_concat(a + nonce, b);
    lemma_visible_concat(a + nonce + b, inner);
    lemma_visible_concat(a + nonce + b + inner, c);
    lemma_visible_concat(a + nonce + b + inner + c, nonce);
    lemma_visible_concat(a + nonce + b + inner + c + nonce, d);
}

/// Nothing can read one way to a human and another to the model: whatever is
/// posted, neither text made of a thread holds a zero-width character, a
/// bidirectional override or a control code but line feeds and tabs. What
/// Discord itself says of a message, its timestamp and the addresses of its
/// attachments, goes in as it is, and is taken to hold none.
pub proof fn law_transcripts_hide_nothing(
    messages: Seq<MessageView>,
    missing: nat,
    limits: Limits,
    bits: u64,
)
    requires
        messages.len() + missing <= usize::MAX,
        forall|i: int| 0 <= i < messages.len() ==> has_visible_metadata(#[trigger] messages[i]),
    ensures
        ({
            let t = transcript::transcribed(messages, missing, limits, transcript::nonce_of(bits));
            &&& transcript::all_visible(t.llm_text)
            &&& transcript::all_visible(t.body_text)
        }),
{
    let used = transcript::within_cap(messages, missing, limits);
    let gap = transcript::cap_gap(messages.len(), missing, limits);
    law_the_cap_keeps_both_ends(messages, missing, limits);
    assert forall|i: int| 0 <= i < used.len() implies has_visible_metadata(
        #[trigger] used[i],
    ) by {
        if i < gap.at {
            assert(used[i] == messages[i]);
        } else {
            assert(used[i] == messages[i + gap.count - missing]);
        }
    }
    lemma_clean_thread_visible_metadata(used, limits);
    lemma_clean_thread_len(used, limits);
    law_rendered_messages_hide_nothing(used, limits);
    let clean = transcript::clean_thread(used, limits).messages;
    let llm = transcript::llm_blocks(clean);
    let body = transcript::body_blocks(clean);
    assert forall|i: int| 0 <= i < llm.len() implies transcript::all_visible(
        #[trigger] llm[i],
    ) by {
        assert(hides_nothing(clean[i]) && has_visible_metadata(clean[i]));
        lemma_visible_llm_block(clean[i]);
    }
    assert forall|i: int| 0 <= i < body.len() implies transcript::all_visible(
        #[trigger] body[i],
    ) by {
        assert(hides_nothing(clean[i]) && has_visible_metadata(clean[i]));
        lemma_visible_body_block(clean[i]);
    }
    reveal_strlit("\n\n---\n\n");
    reveal_strlit("\n\n");
    let llm_budget = limits.max_llm_chars as nat;
    lemma_visible_fitted(llm, gap, llm_budget, transcript::LLM_SEP@);
    lemma_visible_fitted(body, gap, transcript::thread_budget(limits), transcript::BODY_SEP@);
    lemma_visible_enclosed(
        transcript::fitted_around(llm, gap, llm_budget, transcript::LLM_SEP@),
        bits,
    );
}

// ---------------------------------------------------------------------------
// Attachments
// ---------------------------------------------------------------------------
/// The addresses of attachments.
pub open spec fn addresses(assets: Seq<AssetView>) -> Seq<Seq<char>> {
    Seq::new(assets.len(), |i: int| assets[i].url)
}

/// The addresses of all attachments of a thread, in order.
pub open spec fn all_addresses(messages: Seq<MessageView>) -> Seq<Seq<char>>
    decreases messages.len(),
{
    if messages.len() == 0 {
        Seq::empty()
    } else {
        all_addresses(messages.drop_last()) + addresses(messages.last().assets)
    }
}

pub proof fn lemma_tally(seen: Seq<Seq<char>>, offered: Seq<AssetView>, cap: nat)
    requires
        seen.no_duplicates(),
        seen.len() <= cap,
    ensures
        ({
            let t = transcript::tally(seen, offered, cap);
            &&& t.seen == seen + addresses(t.kept)
            &&& t.seen.no_duplicates()
            &&& t.seen.len() <= cap
            &&& !t.full ==> forall|i: int|
                0 <= i < offered.len() ==> t.seen.contains((#[trigger] offered[i]).url)
        }),
    decreases offered.len(),
{
    let t = transcript::tally(seen, offered, cap);
    if offered.len() == 0 {
        assert(seen + addresses(t.kept) =~= seen);
    } else {
        let before = transcript::tally(seen, offered.drop_last(), cap);
        let a = offered.last();
        lemma_tally(seen, offered.drop_last(), cap);
        if !before.full && !before.seen.contains(a.url) && before.seen.len() < cap {
            assert(t.seen =~= seen + addresses(t.kept));
            assert(t.seen[t.seen.len() - 1] == a.url);
        }
        if !t.full {
            assert forall|i: int| 0 <= i < offered.len() implies t.seen.contains(
                (#[trigger] offered[i]).url,
            ) by {
                if i < offered.len() - 1 {
                    assert(offered.drop_last()[i] == offered[i]);
                    assert(before.seen.contains(offered[i].url));
                    let k = choose|k: int|
                        0 <= k < before.seen.len() && before.seen[k] == offered[i].url;
                    assert(t.seen[k] == offered[i].url);
                }
            }
        }
    }
}

pub proof fn lemma_clean_assets(messages: Seq<MessageView>, limits: Limits)
    ensures
        ({
            let c = transcript::clean_thread(messages, limits);
            &&& c.seen == all_addresses(c.messages)
            &&& c.seen.no_duplicates()
            &&& c.seen.len() <= limits.max_attachments
            &&& !c.assets_truncated ==> forall|i: int, j: int|
                0 <= i < messages.len() && 0 <= j < messages[i].assets.len() ==> c.seen.contains(
                    (#[trigger] messages[i].assets[j]).url,
                )
        }),
    decreases messages.len(),
{
    if messages.len() > 0 {
        let shorter = messages.drop_last();
        let c = transcript::clean_thread(messages, limits);
        let before = transcript::clean_thread(shorter, limits);
        lemma_clean_assets(shorter, limits);
        let m = messages.last();
        lemma_tally(before.seen, m.assets, limits.max_attachments as nat);
        let t = transcript::tally(before.seen, m.assets, limits.max_attachments as nat);
        assert(c.messages.drop_last() =~= before.messages);
        assert(addresses(c.messages.last().assets) =~= addresses(t.kept));
        if !c.assets_truncated {
            assert forall|i: int, j: int|
                0 <= i < messages.len() && 0 <= j < messages[i].assets.len() implies c.seen.contains(
                (#[trigger] messages[i].assets[j]).url,
            ) by {
                let url = messages[i].assets[j].url;
                if i < shorter.len() {
                    assert(shorter[i] == messages[i]);
                    assert(before.seen.contains(shorter[i].assets[j].url));
                    let k = choose|k: int| 0 <= k < before.seen.len() && before.seen[k] == url;
                    assert(c.seen[k] == url);
                } else {
                    assert(t.seen.contains(m.assets[j].url));
                }
            }
        }
    }
}

/// Attachments are deduplicated and capped in what is rendered, not just in a
/// tally: no address comes twice in the whole thread, there are no more than
/// the cap, and where none is reported as left out none is.
pub proof fn law_attachments_are_deduped_and_capped(messages: Seq<MessageView>, limits: Limits)
    ensures
        ({
            let c = transcript::clean_thread(messages, limits);
            &&& all_addresses(c.messages).no_duplicates()
            &&& all_addresses(c.messages).len() <= limits.max_attachments
            &&& !c.assets_truncated ==> forall|i: int, j: int|
                0 <= i < messages.len() && 0 <= j < messages[i].assets.len() ==> all_addresses(
                    c.messages,
                ).contains((#[trigger] messages[i].assets[j]).url)
        }),
{
    lemma_clean_assets(messages, limits);
}

} // verus!
