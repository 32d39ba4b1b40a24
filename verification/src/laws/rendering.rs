//! What a thread looks like once it is rendered: what is quoted stays as it was
//! written.

use crate::config::Limits;
use crate::laws::text::law_trimming_keeps_the_core;
use crate::laws::transcript::{
    law_defusing_can_be_undone, law_text_without_sigils_is_left_alone, lemma_clean_assets,
    lemma_clean_thread_len, lemma_collapsed, lemma_head_weight, lemma_joined_holds,
    lemma_joined_len, lemma_kept_ends, lemma_replaced_concat, lemma_tally, lemma_visible_part,
    lemma_weight_concat, lemma_weight_single,
};
use crate::number;
use crate::text;
use crate::transcript;
use crate::transcript::{AssetView, Gap, MessageView};
use vstd::prelude::*;

verus! {

// ---------------------------------------------------------------------------
// Cutting
// ---------------------------------------------------------------------------
/// A text that is cut keeps its beginning, as much of it as there is room for
/// beside the words that say so, and those words are what it ends in.
pub proof fn law_cut_text_keeps_its_beginning(s: Seq<char>, max: nat)
    ensures
        ({
            let cut = transcript::clipped(s, max);
            let note = " … [truncated]"@;
            let kept = cut.len() - note.len();
            &&& s.len() <= max ==> cut == s
            &&& s.len() > max ==> {
                &&& kept == if max >= 14 {
                    max - 14
                } else {
                    0
                }
                &&& forall|i: int| 0 <= i < kept ==> #[trigger] cut[i] == s[i]
                &&& forall|i: int| 0 <= i < note.len() ==> #[trigger] note[i] == cut[kept + i]
            }
        }),
{
    reveal_strlit(" … [truncated]");
}

// ---------------------------------------------------------------------------
// Sanitizing
// ---------------------------------------------------------------------------
/// Whether `c` carries no meaning but can hide text: a zero-width character, a
/// bidirectional override or isolate, a soft hyphen, or a control code other
/// than a line feed and a tab.
pub open spec fn hides(c: char) -> bool {
    let n = c as u32;
    ||| 0x200B <= n <= 0x200F
    ||| 0x202A <= n <= 0x202E
    ||| 0x2060 <= n <= 0x2064
    ||| 0x2066 <= n <= 0x2069
    ||| n == 0xFEFF
    ||| n == 0xAD
    ||| n <= 0x1F && n != 0xA && n != 0x9
    ||| 0x7F <= n <= 0x9F
}

proof fn lemma_hides(c: char)
    ensures
        transcript::is_visible(c) == !hides(c),
{
}

/// A hidden character counts for nothing: a text sanitizes to the same with it
/// and without it.
pub proof fn law_hidden_characters_count_for_nothing(a: Seq<char>, c: char, b: Seq<char>)
    requires
        hides(c),
    ensures
        transcript::sanitized(a + seq![c] + b) == transcript::sanitized(a + b),
{
    lemma_hides(c);
    let f = |c: char| transcript::is_visible(c);
    Seq::filter_distributes_over_add(a + seq![c], b, f);
    Seq::filter_distributes_over_add(a, seq![c], f);
    Seq::filter_distributes_over_add(a, b, f);
    reveal_with_fuel(Seq::filter, 2);
    assert(seq![c].drop_last() =~= Seq::<char>::empty());
    assert(seq![c].filter(f) =~= Seq::<char>::empty());
    assert(a.filter(f) + Seq::<char>::empty() =~= a.filter(f));
}

proof fn lemma_collapsed_push(s: Seq<char>, c: char)
    ensures
        transcript::collapsed(s.push(c)) == if c == '\n' && transcript::ends_in_blank_line(
            transcript::collapsed(s),
        ) {
            transcript::collapsed(s)
        } else {
            transcript::collapsed(s).push(c)
        },
{
    assert(s.push(c).drop_last() =~= s);
}

proof fn lemma_three_line_feeds(a: Seq<char>, b: Seq<char>)
    ensures
        transcript::collapsed(a + seq!['\n', '\n', '\n'] + b) == transcript::collapsed(
            a + seq!['\n', '\n'] + b,
        ),
    decreases b.len(),
{
    let two = a + seq!['\n', '\n'];
    let three = a + seq!['\n', '\n', '\n'];
    if b.len() == 0 {
        assert(two =~= a.push('\n').push('\n'));
        assert(three =~= two.push('\n'));
        lemma_collapsed_push(a, '\n');
        lemma_collapsed_push(a.push('\n'), '\n');
        lemma_collapsed_push(two, '\n');
        assert(three + b =~= three);
        assert(two + b =~= two);
    } else {
        lemma_three_line_feeds(a, b.drop_last());
        assert((three + b).drop_last() =~= three + b.drop_last());
        assert((two + b).drop_last() =~= two + b.drop_last());
    }
}

/// Blank lines that pad a message out count for nothing: three line feeds in a
/// row are as good as two.
pub proof fn law_blank_lines_are_brought_down_to_one(a: Seq<char>, b: Seq<char>)
    ensures
        transcript::sanitized(a + seq!['\n', '\n', '\n'] + b) == transcript::sanitized(
            a + seq!['\n', '\n'] + b,
        ),
{
    let f = |c: char| transcript::is_visible(c);
    let two = seq!['\n', '\n'];
    let three = seq!['\n', '\n', '\n'];
    Seq::filter_distributes_over_add(a + three, b, f);
    Seq::filter_distributes_over_add(a, three, f);
    Seq::filter_distributes_over_add(a + two, b, f);
    Seq::filter_distributes_over_add(a, two, f);
    lemma_visible_part(two);
    lemma_visible_part(three);
    lemma_three_line_feeds(a.filter(f), b.filter(f));
}

/// Nothing else is lost or changed: a text that hides nothing and has no two
/// blank lines in a row is only trimmed, and keeps every character between its
/// ends.
pub proof fn law_plain_text_is_only_trimmed(s: Seq<char>)
    requires
        forall|i: int| 0 <= i < s.len() ==> !hides(#[trigger] s[i]),
        forall|i: int|
            0 <= i && i + 3 <= s.len() ==> (#[trigger] s[i]) != '\n' || s[i + 1] != '\n' || s[i
                + 2] != '\n',
    ensures
        crate::laws::text::trims_to(s, transcript::sanitized(s)),
        s.len() > 0 && !text::is_white_space(s[0]) && !text::is_white_space(s[s.len() - 1])
            ==> transcript::sanitized(s) == s,
{
    assert forall|i: int| 0 <= i < s.len() implies transcript::is_visible(#[trigger] s[i]) by {
        lemma_hides(s[i]);
    }
    lemma_visible_part(s);
    assert forall|i: int| !crate::laws::transcript::three_line_feeds(s, i) by {
        if 0 <= i && i + 3 <= s.len() {
            assert(s[i] != '\n' || s[i + 1] != '\n' || s[i + 2] != '\n');
        }
    }
    lemma_collapsed(s);
    law_trimming_keeps_the_core(s);
}

// ---------------------------------------------------------------------------
// Defusing
// ---------------------------------------------------------------------------
/// Whether `c` is an ASCII letter or digit.
pub open spec fn in_word(c: char) -> bool {
    'a' <= c <= 'z' || 'A' <= c <= 'Z' || '0' <= c <= '9'
}

/// Whether `c` begins a mention or a reference.
pub open spec fn begins_reference(c: char) -> bool {
    c == '@' || c == '#'
}

/// Each mention and each reference is defused where it stands, whatever is
/// around it: a text falls into parts that are defused each on its own, as long
/// as no word runs into a sigil where they meet. One sigil alone gets an empty
/// comment behind it, any other character stays as it is, and so does a sigil
/// that a word runs into.
pub proof fn law_defusing_goes_part_by_part(a: Seq<char>, b: Seq<char>, c: char)
    ensures
        !(a.len() > 0 && b.len() > 0 && in_word(a[a.len() - 1]) && begins_reference(b[0]))
            ==> transcript::defused(a + b) == transcript::defused(a) + transcript::defused(b),
        transcript::defused(seq![c]) == if begins_reference(c) {
            seq![c] + "<!---->"@
        } else {
            seq![c]
        },
        a.len() > 0 && in_word(a[a.len() - 1]) ==> transcript::defused(a.push(c))
            == transcript::defused(a).push(c),
    decreases b.len(),
{
    assert(seq![c].drop_last() =~= Seq::<char>::empty());
    assert(transcript::defused(Seq::<char>::empty()) == Seq::<char>::empty());
    assert(Seq::<char>::empty().push(c) =~= seq![c]);
    assert(a.push(c).drop_last() =~= a);
    if b.len() == 0 {
        assert(a + b =~= a);
        assert(transcript::defused(a) + transcript::defused(b) =~= transcript::defused(a));
    } else {
        let shorter = b.drop_last();
        assert((a + b).drop_last() =~= a + shorter);
        if !(a.len() > 0 && in_word(a[a.len() - 1]) && begins_reference(b[0])) {
            law_defusing_goes_part_by_part(a, shorter, c);
            if shorter.len() > 0 {
                assert((a + b)[(a + b).len() - 2] == b[b.len() - 2]);
            } else if a.len() > 0 {
                assert((a + b)[(a + b).len() - 2] == a[a.len() - 1]);
            }
            let da = transcript::defused(a);
            let db = transcript::defused(shorter);
            assert((da + db).push(b.last()) =~= da + db.push(b.last()));
            assert((da + db).push(b.last()) + transcript::DEFUSER@ =~= da + (db.push(b.last())
                + transcript::DEFUSER@));
        }
    }
}

/// What taking the empty comments out of `s` leaves.
pub open spec fn uncommented(s: Seq<char>) -> Seq<char> {
    text::replaced(s, "<!---->"@, Seq::empty())
}

/// No comment stands across a line feed.
proof fn lemma_uncommented_at_line(x: Seq<char>, y: Seq<char>)
    requires
        x.len() > 0 && x.last() == '\n' || y.len() > 0 && y[0] == '\n',
    ensures
        uncommented(x + y) == uncommented(x) + uncommented(y),
{
    reveal_strlit("<!---->");
    let p = "<!---->"@;
    assert forall|i: int| 0 <= i < x.len() < i + p.len() implies !#[trigger] text::occurs_at(
        x + y,
        p,
        i,
    ) by {
        if text::occurs_at(x + y, p, i) {
            let there = (x + y).subrange(i, i + p.len());
            let k = x.len() - i;
            if x.last() == '\n' {
                assert(there[k - 1] == '\n');
            } else {
                assert(there[k] == '\n');
            }
        }
    }
    lemma_replaced_concat(x, y, p, Seq::empty());
}

// ---------------------------------------------------------------------------
// Single messages
// ---------------------------------------------------------------------------
/// Whether there is something to read in `s`.
pub open spec fn says_something(s: Seq<char>) -> bool {
    exists|i: int| 0 <= i < s.len() && !text::is_white_space(#[trigger] s[i])
}

/// What stands for the text of a message: the text itself, or the words that
/// say there is none.
pub open spec fn words_of(content: Seq<char>) -> Seq<char> {
    if says_something(content) {
        content
    } else {
        "_(no text)_"@
    }
}

proof fn lemma_words(content: Seq<char>)
    ensures
        transcript::shown(content) == words_of(content),
{
}

/// Whether `block` quotes the message `m` in the issue: its author in bold as
/// `name`, the time, and its text below as `words`; taking the comments out of
/// those gives the name and the text as they were, line by line.
pub open spec fn quotes(
    block: Seq<char>,
    m: MessageView,
    name: Seq<char>,
    words: Seq<char>,
) -> bool {
    &&& block == "**"@ + name + "** · "@ + m.timestamp + "\n\n"@ + words
    &&& !text::occurs(m.author, "<!---->"@) ==> uncommented(name) == m.author
    &&& !text::occurs(words_of(m.content), "<!---->"@) ==> uncommented(words) == words_of(
        m.content,
    )
}

/// Whether `link` shows the attachment `a` in the issue under the name `name`,
/// which is its own once the comments are taken out.
pub open spec fn links(link: Seq<char>, a: AssetView, name: Seq<char>) -> bool {
    &&& link == (if a.is_image {
        "\n\n!["@
    } else {
        "\n\n["@
    }) + name + "]("@ + a.url + ")"@
    &&& !text::occurs(a.name, "<!---->"@) ==> uncommented(name) == a.name
}

/// The issue quotes a message under its author and time, and links each of its
/// attachments below the text and those before it.
pub proof fn law_messages_are_quoted_with_their_attachments(m: MessageView, a: AssetView)
    ensures
        m.assets.len() == 0 ==> exists|name: Seq<char>, words: Seq<char>|
            quotes(transcript::body_block(m), m, name, words),
        exists|link: Seq<char>, name: Seq<char>|
            transcript::body_block(MessageView { assets: m.assets.push(a), ..m })
                == transcript::body_block(m) + link && #[trigger] links(link, a, name),
{
    let name = transcript::defused(m.author);
    let words = transcript::defused(transcript::shown(m.content));
    lemma_words(m.content);
    if !text::occurs(m.author, "<!---->"@) {
        law_defusing_can_be_undone(m.author);
    }
    if !text::occurs(words_of(m.content), "<!---->"@) {
        law_defusing_can_be_undone(words_of(m.content));
    }
    if m.assets.len() == 0 {
        assert(transcript::body_block(m) =~= "**"@ + name + "** · "@ + m.timestamp + "\n\n"@
            + words);
        assert(quotes(transcript::body_block(m), m, name, words));
    }
    let more = MessageView { assets: m.assets.push(a), ..m };
    let link = transcript::asset_link(a);
    assert(more.assets.drop_last() =~= m.assets);
    assert(transcript::body_block(more) =~= transcript::body_block(m) + link);
    if !text::occurs(a.name, "<!---->"@) {
        law_defusing_can_be_undone(a.name);
    }
    assert(links(link, a, transcript::defused(a.name)));
}

proof fn lemma_links_begin_a_line(assets: Seq<AssetView>)
    ensures
        assets.len() > 0 ==> transcript::asset_links(assets).len() > 0
            && transcript::asset_links(assets)[0] == '\n',
    decreases assets.len(),
{
    reveal_strlit("\n\n![");
    reveal_strlit("\n\n[");
    if assets.len() > 0 {
        lemma_links_begin_a_line(assets.drop_last());
        let link = transcript::asset_link(assets.last());
        assert(link[0] == '\n');
        if assets.len() == 1 {
            assert(transcript::asset_links(assets.drop_last()) =~= Seq::<char>::empty());
            assert(transcript::asset_links(assets) =~= link);
        }
    }
}

proof fn lemma_occurs_between(a: Seq<char>, p: Seq<char>, b: Seq<char>)
    ensures
        text::occurs(a + p + b, p),
{
    let s = a + p + b;
    let i = a.len() as int;
    assert(s.subrange(i, i + p.len()) =~= p);
    assert(text::occurs_at(s, p, i));
}

/// The issue quotes a message verbatim: whatever it says stands in its block
/// character for character, line feeds and all, once the empty comments are
/// taken out; and even with them where it has no `@` and no `#`.
pub proof fn law_messages_are_quoted_verbatim(m: MessageView)
    requires
        says_something(m.content),
    ensures
        !text::occurs(m.content, "<!---->"@) ==> text::occurs(
            uncommented(transcript::body_block(m)),
            m.content,
        ),
        (forall|i: int| 0 <= i < m.content.len() ==> !begins_reference(#[trigger] m.content[i]))
            ==> text::occurs(transcript::body_block(m), m.content),
        text::occurs(transcript::llm_block(m), m.content),
{
    reveal_strlit("\n\n");
    lemma_words(m.content);
    let head = "**"@ + transcript::defused(m.author) + "** · "@ + m.timestamp + "\n\n"@;
    let words = transcript::defused(m.content);
    let rest = transcript::asset_links(m.assets);
    let block = transcript::body_block(m);
    assert(block == head + words + rest);
    if !text::occurs(m.content, "<!---->"@) {
        law_defusing_can_be_undone(m.content);
        assert(head.last() == '\n');
        lemma_uncommented_at_line(head, words + rest);
        assert(head + (words + rest) =~= block);
        lemma_links_begin_a_line(m.assets);
        if m.assets.len() > 0 {
            lemma_uncommented_at_line(words, rest);
        } else {
            assert(words + rest =~= words);
            assert(uncommented(rest) =~= Seq::<char>::empty());
            assert(m.content + uncommented(rest) =~= m.content);
        }
        lemma_occurs_between(uncommented(head), m.content, uncommented(rest));
        assert(uncommented(head) + (m.content + uncommented(rest)) =~= uncommented(head)
            + m.content + uncommented(rest));
    }
    if forall|i: int| 0 <= i < m.content.len() ==> !begins_reference(#[trigger] m.content[i]) {
        assert forall|i: int| 0 <= i < m.content.len() implies !transcript::is_sigil(
            #[trigger] m.content[i],
        ) by {
            assert(!begins_reference(m.content[i]));
        }
        law_text_without_sigils_is_left_alone(m.content);
        lemma_occurs_between(head, words, rest);
    }
    let front = "["@ + m.timestamp + "] "@ + m.author + ":\n"@;
    let names = "\n(attachments: "@ + text::joined(transcript::asset_names(m.assets), ", "@)
        + ")"@;
    if m.assets.len() == 0 {
        lemma_occurs_between(front, m.content, Seq::empty());
        assert(front + m.content + Seq::<char>::empty() =~= front + m.content);
    } else {
        lemma_occurs_between(front, m.content, names);
        assert(transcript::llm_block(m) =~= front + m.content + names);
    }
}

/// The model sees a message as it is: the time, the author, the text below, and
/// the names of the attachments at the end, one after the other.
pub proof fn law_the_model_sees_messages_as_they_are(m: MessageView, a: AssetView)
    ensures
        ({
            let said = "["@ + m.timestamp + "] "@ + m.author + ":\n"@ + words_of(m.content);
            let more = MessageView { assets: m.assets.push(a), ..m };
            let block = transcript::llm_block(m);
            &&& m.assets.len() == 0 ==> block == said && transcript::llm_block(more) == said
                + "\n(attachments: "@ + a.name + ")"@
            &&& m.assets.len() > 0 ==> block.len() > 0 && transcript::llm_block(more)
                == block.drop_last() + ", "@ + a.name + ")"@
        }),
{
    reveal_strlit(")");
    lemma_words(m.content);
    let more = MessageView { assets: m.assets.push(a), ..m };
    let names = transcript::asset_names(m.assets);
    let longer = transcript::asset_names(more.assets);
    assert(longer =~= names.push(a.name));
    assert(longer.drop_last() =~= names);
    let head = "["@ + m.timestamp + "] "@ + m.author + ":\n"@ + transcript::shown(m.content)
        + "\n(attachments: "@;
    if m.assets.len() == 0 {
        assert(longer =~= seq![a.name]);
    } else {
        let list = text::joined(names, ", "@);
        assert(transcript::llm_block(m).drop_last() =~= head + list);
        assert(transcript::llm_block(more) =~= head + list + ", "@ + a.name + ")"@);
    }
}

// ---------------------------------------------------------------------------
// Whole threads
// ---------------------------------------------------------------------------
/// Every message of a thread is cleaned by itself and stays in its place: the
/// author's name and the text are sanitized and cut to size, the time is as it
/// was.
pub proof fn law_messages_are_cleaned_in_their_places(
    messages: Seq<MessageView>,
    limits: Limits,
    i: int,
)
    ensures
        ({
            let clean = transcript::clean_thread(messages, limits).messages;
            let m = messages[i];
            &&& clean.len() == messages.len()
            &&& 0 <= i < messages.len() ==> {
                &&& clean[i].author == transcript::clipped(transcript::sanitized(m.author), 80)
                &&& clean[i].timestamp == m.timestamp
                &&& clean[i].content == transcript::clipped(
                    transcript::sanitized(m.content),
                    limits.max_message_chars as nat,
                )
            }
        }),
{
    lemma_clean_thread_len(messages, limits);
}

/// Whether `kept` are the attachments of `offered` at the indices `at`, in their
/// order, as they are but for cleaner names.
pub open spec fn keeps(kept: Seq<AssetView>, offered: Seq<AssetView>, at: Seq<int>) -> bool {
    &&& at.len() == kept.len()
    &&& forall|k: int| #![trigger at[k]]
        0 <= k < at.len() ==> {
            &&& 0 <= at[k] < offered.len()
            &&& kept[k].url == offered[at[k]].url
            &&& kept[k].is_image == offered[at[k]].is_image
            &&& kept[k].name == transcript::sanitized(offered[at[k]].name)
        }
    &&& forall|j: int, k: int| 0 <= j < k < at.len() ==> #[trigger] at[j] < #[trigger] at[k]
}

/// Whether one of `assets` has the address `url`.
pub open spec fn has_address(assets: Seq<AssetView>, url: Seq<char>) -> bool {
    exists|j: int| 0 <= j < assets.len() && (#[trigger] assets[j]).url == url
}

proof fn lemma_tally_keeps(seen: Seq<Seq<char>>, offered: Seq<AssetView>, cap: nat) -> (at: Seq<
    int,
>)
    requires
        seen.no_duplicates(),
        seen.len() <= cap,
    ensures
        ({
            let t = transcript::tally(seen, offered, cap);
            &&& keeps(transcript::clean_assets(t.kept), offered, at)
            &&& forall|k: int|
                0 <= k < t.kept.len() ==> !seen.contains((#[trigger] t.kept[k]).url)
            &&& t.kept.len() > 0 ==> seen.len() < cap
            &&& forall|j: int|
                0 <= j < offered.len() ==> t.seen.contains((#[trigger] offered[j]).url)
                    || t.seen.len() == cap
            &&& t.full ==> t.seen.len() == cap && exists|j: int|
                0 <= j < offered.len() && !t.seen.contains((#[trigger] offered[j]).url)
        }),
    decreases offered.len(),
{
    let t = transcript::tally(seen, offered, cap);
    lemma_tally(seen, offered, cap);
    if offered.len() == 0 {
        Seq::empty()
    } else {
        let fewer = offered.drop_last();
        let before = transcript::tally(seen, fewer, cap);
        let a = offered.last();
        lemma_tally(seen, fewer, cap);
        let earlier = lemma_tally_keeps(seen, fewer, cap);
        assert forall|j: int| 0 <= j < offered.len() implies t.seen.contains(
            (#[trigger] offered[j]).url,
        ) || t.seen.len() == cap by {
            if j < fewer.len() {
                assert(fewer[j] == offered[j]);
                if before.seen.contains(fewer[j].url) {
                    let k = choose|k: int|
                        0 <= k < before.seen.len() && before.seen[k] == fewer[j].url;
                    assert(t.seen[k] == fewer[j].url);
                }
            } else if !before.full && !before.seen.contains(a.url) && before.seen.len() < cap {
                assert(t.seen[t.seen.len() - 1] == a.url);
            }
        }
        if t.full {
            if before.full {
                let j = choose|j: int|
                    0 <= j < fewer.len() && !before.seen.contains((#[trigger] fewer[j]).url);
                assert(offered[j] == fewer[j]);
            } else {
                assert(offered[offered.len() - 1].url == a.url);
            }
        }
        if !before.full && !before.seen.contains(a.url) && before.seen.len() < cap {
            let at = earlier.push(offered.len() - 1);
            assert forall|k: int| 0 <= k < t.kept.len() implies !seen.contains(
                (#[trigger] t.kept[k]).url,
            ) by {
                if k < before.kept.len() {
                    assert(t.kept[k] == before.kept[k]);
                } else if seen.contains(a.url) {
                    let j = choose|j: int| 0 <= j < seen.len() && seen[j] == a.url;
                    assert(before.seen[j] == a.url);
                }
            }
            let kept = transcript::clean_assets(t.kept);
            assert forall|k: int| #![trigger at[k]] 0 <= k < at.len() implies {
                &&& 0 <= at[k] < offered.len()
                &&& kept[k].url == offered[at[k]].url
                &&& kept[k].is_image == offered[at[k]].is_image
                &&& kept[k].name == transcript::sanitized(offered[at[k]].name)
            } by {
                if k < earlier.len() {
                    assert(at[k] == earlier[k]);
                    assert(transcript::clean_assets(before.kept)[k] == kept[k]);
                    assert(fewer[earlier[k]] == offered[earlier[k]]);
                }
            }
            assert forall|j: int, k: int| 0 <= j < k < at.len() implies #[trigger] at[j]
                < #[trigger] at[k] by {
                assert(at[j] == earlier[j]);
                if k < earlier.len() {
                    assert(at[k] == earlier[k]);
                }
            }
            at
        } else {
            assert(t.kept == before.kept);
            let kept = transcript::clean_assets(t.kept);
            assert forall|k: int| #![trigger earlier[k]] 0 <= k < earlier.len() implies {
                &&& 0 <= earlier[k] < offered.len()
                &&& kept[k].url == offered[earlier[k]].url
                &&& kept[k].is_image == offered[earlier[k]].is_image
                &&& kept[k].name == transcript::sanitized(offered[earlier[k]].name)
            } by {
                assert(fewer[earlier[k]] == offered[earlier[k]]);
            }
            earlier
        }
    }
}

proof fn lemma_offered(messages: Seq<MessageView>, limits: Limits)
    ensures
        ({
            let c = transcript::clean_thread(messages, limits);
            &&& forall|i: int, j: int|
                0 <= i < messages.len() && 0 <= j < messages[i].assets.len() ==> c.seen.contains(
                    (#[trigger] messages[i].assets[j]).url,
                ) || c.seen.len() == limits.max_attachments
            &&& c.assets_truncated ==> c.seen.len() == limits.max_attachments && exists|
                i: int,
                j: int,
            |
                0 <= i < messages.len() && 0 <= j < messages[i].assets.len() && !c.seen.contains(
                    (#[trigger] messages[i].assets[j]).url,
                )
        }),
    decreases messages.len(),
{
    if messages.len() > 0 {
        let shorter = messages.drop_last();
        let before = transcript::clean_thread(shorter, limits);
        let c = transcript::clean_thread(messages, limits);
        let m = messages.last();
        let cap = limits.max_attachments as nat;
        lemma_offered(shorter, limits);
        lemma_clean_assets(shorter, limits);
        lemma_tally(before.seen, m.assets, cap);
        lemma_tally_keeps(before.seen, m.assets, cap);
        let t = transcript::tally(before.seen, m.assets, cap);
        assert forall|i: int, j: int|
            0 <= i < messages.len() && 0 <= j < messages[i].assets.len() implies c.seen.contains(
            (#[trigger] messages[i].assets[j]).url,
        ) || c.seen.len() == cap by {
            let url = messages[i].assets[j].url;
            if i < shorter.len() {
                assert(shorter[i] == messages[i]);
                assert(before.seen.contains(shorter[i].assets[j].url) || before.seen.len() == cap);
                if before.seen.contains(url) {
                    let k = choose|k: int| 0 <= k < before.seen.len() && before.seen[k] == url;
                    assert(c.seen[k] == url);
                }
            } else {
                assert(m.assets[j].url == url);
            }
        }
        if c.assets_truncated {
            if t.full {
                let j = choose|j: int|
                    0 <= j < m.assets.len() && !t.seen.contains((#[trigger] m.assets[j]).url);
                assert(!c.seen.contains(messages[messages.len() - 1].assets[j].url));
            } else {
                assert(before.seen.len() == cap);
                assert(t.seen =~= before.seen);
                let (i, j) = choose|i: int, j: int|
                    0 <= i < shorter.len() && 0 <= j < shorter[i].assets.len()
                        && !before.seen.contains((#[trigger] shorter[i].assets[j]).url);
                assert(messages[i] == shorter[i]);
                assert(!c.seen.contains(messages[i].assets[j].url));
            }
        }
    }
}

/// Attachments stay with the message that brought them first, in order, as they
/// are but for cleaner names. None is left out while there is room, and it is
/// said that some are just where some are.
pub proof fn law_attachments_stay_with_their_messages(
    messages: Seq<MessageView>,
    limits: Limits,
    i: int,
)
    requires
        0 <= i < messages.len(),
    ensures
        ({
            let c = transcript::clean_thread(messages, limits);
            let kept = c.messages[i].assets;
            let carried = crate::laws::transcript::all_addresses(c.messages);
            &&& exists|at: Seq<int>| keeps(kept, messages[i].assets, at)
            &&& forall|j: int, k: int|
                0 <= j < i && 0 <= k < kept.len() ==> !has_address(
                    #[trigger] messages[j].assets,
                    (#[trigger] kept[k]).url,
                )
            &&& c.assets_truncated <==> exists|j: int, k: int|
                0 <= j < messages.len() && 0 <= k < messages[j].assets.len() && !carried.contains(
                    (#[trigger] messages[j].assets[k]).url,
                )
            &&& c.assets_truncated ==> carried.len() == limits.max_attachments
        }),
    decreases messages.len(),
{
    let shorter = messages.drop_last();
    let before = transcript::clean_thread(shorter, limits);
    let c = transcript::clean_thread(messages, limits);
    let m = messages.last();
    let cap = limits.max_attachments as nat;
    lemma_clean_assets(messages, limits);
    lemma_clean_assets(shorter, limits);
    lemma_clean_thread_len(shorter, limits);
    lemma_offered(messages, limits);
    lemma_offered(shorter, limits);
    if i < shorter.len() {
        law_attachments_stay_with_their_messages(shorter, limits, i);
        assert(shorter[i] == messages[i]);
        assert(c.messages[i] == before.messages[i]);
        let kept = c.messages[i].assets;
        assert forall|j: int, k: int| 0 <= j < i && 0 <= k < kept.len() implies !has_address(
            #[trigger] messages[j].assets,
            (#[trigger] kept[k]).url,
        ) by {
            assert(shorter[j] == messages[j]);
            assert(!has_address(shorter[j].assets, before.messages[i].assets[k].url));
        }
    } else {
        let at = lemma_tally_keeps(before.seen, m.assets, cap);
        let t = transcript::tally(before.seen, m.assets, cap);
        let kept = c.messages[i].assets;
        assert(kept == transcript::clean_assets(t.kept));
        assert(keeps(kept, messages[i].assets, at));
        assert forall|j: int, k: int| 0 <= j < i && 0 <= k < kept.len() implies !has_address(
            #[trigger] messages[j].assets,
            (#[trigger] kept[k]).url,
        ) by {
            assert(!before.seen.contains(t.kept[k].url));
            if has_address(messages[j].assets, kept[k].url) {
                let x = choose|x: int|
                    0 <= x < messages[j].assets.len() && (#[trigger] messages[j].assets[x]).url
                        == kept[k].url;
                assert(shorter[j] == messages[j]);
                assert(before.seen.contains(shorter[j].assets[x].url) || before.seen.len() == cap);
            }
        }
    }
}

proof fn lemma_occurs_in_longer(a: Seq<char>, s: Seq<char>, b: Seq<char>, p: Seq<char>)
    requires
        text::occurs(s, p),
    ensures
        text::occurs(a + s + b, p),
{
    let i = choose|i: int| text::occurs_at(s, p, i);
    let t = a + s + b;
    let at = a.len() + i;
    assert(t.subrange(at, at + p.len()) =~= s.subrange(i, i + p.len()));
    assert(text::occurs_at(t, p, at));
}

proof fn lemma_uncommented_join(blocks: Seq<Seq<char>>, i: int, words: Seq<char>)
    requires
        0 <= i < blocks.len(),
        text::occurs(uncommented(blocks[i]), words),
    ensures
        text::occurs(uncommented(text::joined(blocks, "\n\n"@)), words),
    decreases blocks.len(),
{
    reveal_strlit("\n\n");
    reveal_strlit("<!---->");
    let sep = "\n\n"@;
    let none = Seq::<char>::empty();
    if blocks.len() > 1 {
        let front = text::joined(blocks.drop_last(), sep);
        let last = blocks.last();
        lemma_uncommented_at_line(front, sep + last);
        lemma_uncommented_at_line(sep, last);
        assert(front + (sep + last) =~= front + sep + last);
        assert(uncommented(sep) == sep);
        let all = uncommented(text::joined(blocks, sep));
        assert(all == uncommented(front) + (sep + uncommented(last)));
        if i < blocks.len() - 1 {
            assert(blocks.drop_last()[i] == blocks[i]);
            lemma_uncommented_join(blocks.drop_last(), i, words);
            lemma_occurs_in_longer(none, uncommented(front), sep + uncommented(last), words);
            assert(none + uncommented(front) + (sep + uncommented(last)) =~= all);
        } else {
            lemma_occurs_in_longer(uncommented(front) + sep, uncommented(last), none, words);
            assert(uncommented(front) + sep + uncommented(last) + none =~= all);
        }
    }
}

/// A thread that is not cut is quoted in full, message by message, a blank line
/// between each two, and nothing else: every text that hides nothing stands in
/// it verbatim once the empty comments are taken out.
pub proof fn law_threads_are_quoted_verbatim(
    messages: Seq<MessageView>,
    missing: nat,
    limits: Limits,
    nonce: Seq<char>,
    i: int,
)
    requires
        0 <= i < messages.len(),
        !transcript::transcribed(messages, missing, limits, nonce).body_truncated,
    ensures
        ({
            let t = transcript::transcribed(messages, missing, limits, nonce);
            let clean = transcript::clean_thread(messages, limits).messages;
            let said = clean[i].content;
            &&& missing == 0
            &&& t.body_text == text::joined(
                Seq::new(clean.len(), |k: int| transcript::body_block(clean[k])),
                "\n\n"@,
            )
            &&& says_something(said) && !text::occurs(said, "<!---->"@) ==> text::occurs(
                uncommented(t.body_text),
                said,
            )
        }),
{
    let t = transcript::transcribed(messages, missing, limits, nonce);
    let clean = transcript::clean_thread(messages, limits).messages;
    lemma_clean_thread_len(messages, limits);
    let blocks = transcript::body_blocks(clean);
    assert(blocks =~= Seq::new(clean.len(), |k: int| transcript::body_block(clean[k])));
    let said = clean[i].content;
    if says_something(said) && !text::occurs(said, "<!---->"@) {
        law_messages_are_quoted_verbatim(clean[i]);
        lemma_uncommented_join(blocks, i, said);
    }
}

/// A thread that is not cut reaches the model in full, message by message, a
/// rule between each two, between the delimiters that carry the nonce; nothing
/// in it changes but copies of the nonce.
pub proof fn law_threads_reach_the_model_in_full(
    messages: Seq<MessageView>,
    missing: nat,
    limits: Limits,
    nonce: Seq<char>,
    i: int,
)
    requires
        0 <= i < messages.len(),
        nonce.len() > 0,
        !transcript::transcribed(messages, missing, limits, nonce).llm_truncated,
    ensures
        ({
            let t = transcript::transcribed(messages, missing, limits, nonce);
            let clean = transcript::clean_thread(messages, limits).messages;
            let blocks = Seq::new(clean.len(), |k: int| transcript::llm_block(clean[k]));
            let thread = text::joined(blocks, "\n\n---\n\n"@);
            &&& missing == 0
            &&& t.nonce == nonce
            &&& t.llm_text == "<<<THREAD "@ + nonce + ">>>\n"@ + text::replaced(
                thread,
                nonce,
                "[redacted]"@,
            ) + "\n<<<END THREAD "@ + nonce + ">>>"@
            &&& !text::occurs(thread, nonce) ==> text::occurs(t.llm_text, blocks[i])
        }),
{
    let t = transcript::transcribed(messages, missing, limits, nonce);
    let clean = transcript::clean_thread(messages, limits).messages;
    lemma_clean_thread_len(messages, limits);
    let blocks = transcript::llm_blocks(clean);
    assert(blocks =~= Seq::new(clean.len(), |k: int| transcript::llm_block(clean[k])));
    let thread = text::joined(blocks, "\n\n---\n\n"@);
    if !text::occurs(thread, nonce) {
        crate::laws::text::law_replacing_goes_from_left_to_right(
            thread,
            nonce,
            "[redacted]"@,
            0,
        );
        lemma_joined_holds(blocks, "\n\n---\n\n"@, i);
        let a = "<<<THREAD "@ + nonce + ">>>\n"@;
        let b = "\n<<<END THREAD "@ + nonce + ">>>"@;
        lemma_occurs_in_longer(a, thread, b, blocks[i]);
        assert(t.llm_text =~= a + thread + b);
    }
}

/// What is said of a transcript is true: how many messages the thread has, and
/// whether it was cut, which it is just where messages are missing, there are
/// more than are looked at, or what they come to is over budget.
pub proof fn law_transcripts_own_up_to_what_is_cut(
    messages: Seq<MessageView>,
    missing: nat,
    limits: Limits,
    nonce: Seq<char>,
)
    ensures
        ({
            let t = transcript::transcribed(messages, missing, limits, nonce);
            let c = transcript::clean_thread(messages, limits);
            let clean = c.messages;
            let cut = missing > 0 || messages.len() > limits.max_messages;
            let body = Seq::new(clean.len(), |k: int| transcript::body_block(clean[k]));
            let llm = Seq::new(clean.len(), |k: int| transcript::llm_block(clean[k]));
            &&& t.total_messages == messages.len() + missing
            &&& t.nonce == nonce
            &&& cut ==> t.body_truncated && t.llm_truncated
            &&& !cut ==> {
                &&& t.body_truncated <==> text::joined(body, "\n\n"@).len() + 7_500
                    > limits.max_body_chars && (text::joined(body, "\n\n"@).len() > 0
                    || limits.max_body_chars >= 7_500)
                &&& t.llm_truncated <==> text::joined(llm, "\n\n---\n\n"@).len()
                    > limits.max_llm_chars
                &&& t.assets_truncated == c.assets_truncated
            }
        }),
{
    let c = transcript::clean_thread(messages, limits);
    let clean = c.messages;
    assert(transcript::body_blocks(clean) =~= Seq::new(
        clean.len(),
        |k: int| transcript::body_block(clean[k]),
    ));
    assert(transcript::llm_blocks(clean) =~= Seq::new(
        clean.len(),
        |k: int| transcript::llm_block(clean[k]),
    ));
}

proof fn lemma_hex_digits_differ(a: nat, b: nat)
    requires
        a < 16,
        b < 16,
        number::hex_digit(a) == number::hex_digit(b),
    ensures
        a == b,
{
}

/// Sixteen to the power of `n`.
spec fn pow16(n: nat) -> nat
    decreases n,
{
    if n == 0 {
        1
    } else {
        16 * pow16((n - 1) as nat)
    }
}

proof fn lemma_hex_differs(a: nat, b: nat, width: nat)
    requires
        number::hex(a, width) == number::hex(b, width),
        a < pow16(width),
        b < pow16(width),
    ensures
        a == b,
    decreases width,
{
    if width > 0 {
        let x = number::hex(a, width);
        let y = number::hex(b, width);
        assert(x.drop_last() =~= number::hex(a / 16, (width - 1) as nat));
        assert(y.drop_last() =~= number::hex(b / 16, (width - 1) as nat));
        assert(x.last() == number::hex_digit(a % 16));
        assert(y.last() == number::hex_digit(b % 16));
        lemma_hex_digits_differ(a % 16, b % 16);
        lemma_hex_differs(a / 16, b / 16, (width - 1) as nat);
    }
}

/// Every draw of bits makes a nonce of its own, of sixteen hexadecimal digits.
pub proof fn law_no_two_draws_share_a_nonce(one: u64, other: u64)
    requires
        one != other,
    ensures
        transcript::nonce_of(one) != transcript::nonce_of(other),
        transcript::nonce_of(one).len() == 16,
{
    number::lemma_hex(one as nat, 16);
    assert(pow16(16) == 0x1_0000_0000_0000_0000) by {
        reveal_with_fuel(pow16, 17);
    }
    if transcript::nonce_of(one) == transcript::nonce_of(other) {
        lemma_hex_differs(one as nat, other as nat, 16);
    }
}

// ---------------------------------------------------------------------------
// Threads that are cut
// ---------------------------------------------------------------------------
/// The words that stand for `n` messages that are left out.
pub open spec fn left_out_words(n: nat) -> Seq<char> {
    "_… "@ + number::decimal(n) + " message(s) omitted to stay within size limits …_"@
}

/// What is left of `blocks`, in their order: the first one as `first`, the others
/// short of index `next`, words on how many messages are left out, where any are,
/// and the blocks from index `last` on. Besides those between, `missing` messages
/// are left out.
pub open spec fn both_runs(
    first: Seq<char>,
    blocks: Seq<Seq<char>>,
    missing: nat,
    next: int,
    last: int,
) -> Seq<Seq<char>> {
    let left = (last - next) as nat + missing;
    seq![first] + blocks.subrange(1, next) + (if left > 0 {
        seq![left_out_words(left)]
    } else {
        Seq::empty()
    }) + blocks.subrange(last, blocks.len() as int)
}

/// Whether `t` is what is left of `blocks`, from a run at the start that ends
/// before index `next` and one at the end from index `last` on.
pub open spec fn runs_from_both_ends(
    t: Seq<char>,
    first: Seq<char>,
    blocks: Seq<Seq<char>>,
    missing: nat,
    sep: Seq<char>,
    next: int,
    last: int,
) -> bool {
    &&& 1 <= next <= last <= blocks.len()
    &&& t == text::joined(both_runs(first, blocks, missing, next, last), sep)
}

/// Whatever is left out of a thread, the rest of it stays in order and as it is:
/// a run from its start, words on how many messages are left out and not more
/// than are, and a run up to its end. Only the first block may be cut, to half
/// the budget.
pub proof fn law_cut_threads_stay_in_order(
    blocks: Seq<Seq<char>>,
    gap: Gap,
    budget: nat,
    sep: Seq<char>,
)
    requires
        blocks.len() > 0,
        crate::laws::transcript::sound_gap(blocks, gap),
    ensures
        ({
            let t = transcript::fitted_around(blocks, gap, budget, sep);
            exists|first: Seq<char>, next: int, last: int|
                {
                    &&& first == blocks[0] || first == transcript::clipped(blocks[0], budget / 2)
                    &&& #[trigger] runs_from_both_ends(
                        t,
                        first,
                        blocks,
                        gap.count,
                        sep,
                        next,
                        last,
                    )
                    &&& gap.count > 0 ==> next <= gap.at <= last
                }
        }),
{
    let t = transcript::fitted_around(blocks, gap, budget, sep);
    let n = blocks.len() as int;
    let cut = transcript::clipped(blocks[0], budget / 2);
    if transcript::must_drop(blocks, gap, budget, sep) {
        lemma_kept_ends(blocks, gap, budget, sep.len());
        let (next, last) = transcript::kept_ends(blocks, gap, budget, sep.len());
        assert(runs_from_both_ends(
            t,
            cut,
            blocks,
            gap.count,
            sep,
            next as int,
            last as int,
        ));
    } else {
        let from = if transcript::over_budget_around(blocks, gap, budget, sep) {
            transcript::short_start(blocks, budget)
        } else {
            blocks
        };
        let at: int = if gap.count > 0 {
            gap.at as int
        } else {
            n
        };
        assert(transcript::whole(from, gap) =~= both_runs(from[0], blocks, gap.count, at, at));
        assert(runs_from_both_ends(t, from[0], blocks, gap.count, sep, at, at));
    }
}

/// A list of blocks is cut just where joined as it is it would be over budget.
pub proof fn law_blocks_are_cut_only_over_budget(
    blocks: Seq<Seq<char>>,
    budget: nat,
    sep: Seq<char>,
)
    ensures
        transcript::over_budget(blocks, budget, sep) <==> text::joined(blocks, sep).len() > budget,
        text::joined(blocks, sep).len() <= budget ==> transcript::fitted(blocks, budget, sep)
            == text::joined(blocks, sep),
{
}

proof fn lemma_both_runs_len(
    first: Seq<char>,
    blocks: Seq<Seq<char>>,
    missing: nat,
    next: int,
    last: int,
    sep: Seq<char>,
)
    requires
        1 <= next <= last <= blocks.len(),
    ensures
        text::joined(both_runs(first, blocks, missing, next, last), sep).len() == first.len()
            + transcript::weight(blocks.subrange(1, next), sep.len()) + transcript::note_room(
            (last - next) as nat + missing,
            sep.len(),
        ) + transcript::weight(blocks.subrange(last, blocks.len() as int), sep.len()),
        text::joined(seq![first] + blocks.subrange(1, next), sep).len() == first.len()
            + transcript::weight(blocks.subrange(1, next), sep.len()),
{
    let w = sep.len();
    let left = (last - next) as nat + missing;
    let head = blocks.subrange(1, next);
    let tail = blocks.subrange(last, blocks.len() as int);
    let note = if left > 0 {
        seq![left_out_words(left)]
    } else {
        Seq::empty()
    };
    lemma_weight_concat(seq![first] + head + note, tail, w);
    lemma_weight_concat(seq![first] + head, note, w);
    lemma_weight_concat(seq![first], head, w);
    lemma_weight_single(first, w);
    lemma_weight_single(left_out_words(left), w);
    assert(left_out_words(left) == transcript::omission(left));
    lemma_joined_len(both_runs(first, blocks, missing, next, last), sep);
    lemma_joined_len(seq![first] + head, sep);
}

proof fn lemma_head_is_full(
    blocks: Seq<Seq<char>>,
    gap: Gap,
    budget: nat,
    sep: nat,
    next: nat,
    used: nat,
)
    requires
        next <= blocks.len(),
    ensures
        ({
            let end = transcript::head_end(blocks, gap, budget, sep, next, used);
            let grown = used + transcript::weight(blocks.subrange(next as int, end as int), sep)
                + blocks[end as int].len() + sep;
            end < transcript::head_stop(blocks, gap) && end < blocks.len() ==> grown + sep > budget
                * 6 / 10 || grown + transcript::head_reserve(blocks, gap, budget, sep, end + 1)
                > budget
        }),
    decreases blocks.len() - next,
{
    let end = transcript::head_end(blocks, gap, budget, sep, next, used);
    let grown = used + blocks[next as int].len() + sep;
    if next < transcript::head_stop(blocks, gap) && next < blocks.len() && grown + sep <= budget * 6
        / 10 && grown + transcript::head_reserve(blocks, gap, budget, sep, next + 1) <= budget {
        lemma_head_is_full(blocks, gap, budget, sep, next + 1, grown);
        lemma_head_weight(blocks, gap, budget, sep, next + 1, grown);
        let rest = blocks.subrange((next + 1) as int, end as int);
        assert(blocks.subrange(next as int, end as int) =~= seq![blocks[next as int]] + rest);
        lemma_weight_concat(seq![blocks[next as int]], rest, sep);
        lemma_weight_single(blocks[next as int], sep);
    } else {
        assert(blocks.subrange(next as int, end as int) =~= Seq::<Seq<char>>::empty());
    }
}

proof fn lemma_tail_is_full(
    blocks: Seq<Seq<char>>,
    gap: Gap,
    budget: nat,
    sep: nat,
    next: nat,
    last: nat,
    used: nat,
)
    requires
        next <= last <= blocks.len(),
        gap.count > 0 ==> next <= gap.at <= last,
    ensures
        ({
            let start = transcript::tail_start(blocks, gap, budget, sep, next, last, used);
            let left = (start - 1 - next) as nat + gap.count;
            &&& next <= start <= last
            &&& transcript::tail_low(gap, next) < start ==> used + transcript::weight(
                blocks.subrange(start as int, last as int),
                sep,
            ) + blocks[start - 1].len() + sep + transcript::tail_reserve(
                blocks,
                gap,
                budget,
                sep,
                left,
            ) > budget
        }),
    decreases last,
{
    let start = transcript::tail_start(blocks, gap, budget, sep, next, last, used);
    let grown = used + blocks[last - 1].len() + sep;
    let left = (last - 1 - next) as nat + gap.count;
    if transcript::tail_low(gap, next) < last && grown + transcript::tail_reserve(
        blocks,
        gap,
        budget,
        sep,
        left,
    ) <= budget {
        lemma_tail_is_full(blocks, gap, budget, sep, next, (last - 1) as nat, grown);
        let rest = blocks.subrange(start as int, last - 1);
        assert(blocks.subrange(start as int, last as int) =~= rest + seq![blocks[last - 1]]);
        lemma_weight_concat(rest, seq![blocks[last - 1]], sep);
        lemma_weight_single(blocks[last - 1], sep);
    } else {
        assert(blocks.subrange(start as int, last as int) =~= Seq::<Seq<char>>::empty());
    }
}

/// Whether the run at the start of what is left of `blocks` is as long as it may
/// be: it takes up to six tenths of the budget, and no message fewer than go into
/// that and leave room for the last one or the words on what is left out.
pub open spec fn starts_in_full(
    first: Seq<char>,
    blocks: Seq<Seq<char>>,
    gap: Gap,
    budget: nat,
    sep: Seq<char>,
    next: int,
    last: int,
) -> bool {
    let n = blocks.len() as int;
    let start = seq![first] + blocks.subrange(1, next);
    let more = seq![first] + blocks.subrange(1, next + 1);
    let with_last = both_runs(first, blocks, gap.count, next + 1, n - 1);
    let without = both_runs(first, blocks, gap.count, next + 1, n);
    let stop = if gap.count > 0 {
        gap.at as int
    } else {
        n - 1
    };
    &&& 1 < next < last ==> text::joined(start, sep).len() + sep.len() <= budget * 6 / 10
    &&& next < last && next < stop ==> {
        ||| text::joined(more, sep).len() + sep.len() > budget * 6 / 10
        ||| text::joined(with_last, sep).len() > budget
        ||| text::joined(without, sep).len() > budget
    }
}

/// Whether the run at the end of what is left of `blocks` is as long as it may
/// be: where the start and the words on what is left out go into the budget, one
/// more message at the end would not.
pub open spec fn ends_in_full(
    first: Seq<char>,
    blocks: Seq<Seq<char>>,
    gap: Gap,
    budget: nat,
    sep: Seq<char>,
    next: int,
    last: int,
) -> bool {
    let least = seq![first, left_out_words((blocks.len() - 1) as nat + gap.count)];
    let more = both_runs(first, blocks, gap.count, next, last - 1);
    next < last && (gap.count > 0 ==> gap.at < last) && text::joined(least, sep).len() <= budget
        ==> text::joined(more, sep).len() > budget
}

proof fn lemma_starts_in_full(blocks: Seq<Seq<char>>, gap: Gap, budget: nat, sep: Seq<char>)
    requires
        blocks.len() > 0,
        crate::laws::transcript::sound_gap(blocks, gap),
    ensures
        ({
            let (next, last) = transcript::kept_ends(blocks, gap, budget, sep.len());
            starts_in_full(
                transcript::clipped(blocks[0], budget / 2),
                blocks,
                gap,
                budget,
                sep,
                next as int,
                last as int,
            )
        }),
{
    let n = blocks.len() as int;
    let w = sep.len();
    let cut = transcript::clipped(blocks[0], budget / 2);
    let (next, last) = transcript::kept_ends(blocks, gap, budget, w);
    let to = next as int;
    lemma_kept_ends(blocks, gap, budget, w);
    lemma_both_runs_len(cut, blocks, gap.count, to, last as int, sep);
    lemma_head_weight(blocks, gap, budget, w, 1, cut.len());
    lemma_head_is_full(blocks, gap, budget, w, 1, cut.len());
    if to < n {
        let start = blocks.subrange(1, to);
        assert(blocks.subrange(1, to + 1) =~= start + seq![blocks[to]]);
        lemma_weight_concat(start, seq![blocks[to]], w);
        lemma_weight_single(blocks[to], w);
        lemma_both_runs_len(cut, blocks, gap.count, to + 1, n, sep);
        assert(blocks.subrange(n, n) =~= Seq::<Seq<char>>::empty());
        if to + 1 <= n - 1 {
            lemma_both_runs_len(cut, blocks, gap.count, to + 1, n - 1, sep);
            assert(blocks.subrange(n - 1, n) =~= seq![blocks.last()]);
            lemma_weight_single(blocks.last(), w);
        }
    }
}

proof fn lemma_ends_in_full(blocks: Seq<Seq<char>>, gap: Gap, budget: nat, sep: Seq<char>)
    requires
        blocks.len() > 0,
        crate::laws::transcript::sound_gap(blocks, gap),
    ensures
        ({
            let (next, last) = transcript::kept_ends(blocks, gap, budget, sep.len());
            ends_in_full(
                transcript::clipped(blocks[0], budget / 2),
                blocks,
                gap,
                budget,
                sep,
                next as int,
                last as int,
            )
        }),
{
    let n = blocks.len() as int;
    let w = sep.len();
    let cut = transcript::clipped(blocks[0], budget / 2);
    let (next, last) = transcript::kept_ends(blocks, gap, budget, w);
    lemma_kept_ends(blocks, gap, budget, w);
    if next < last {
        let used = cut.len() + transcript::weight(blocks.subrange(1, next as int), w);
        lemma_tail_is_full(blocks, gap, budget, w, next, blocks.len(), used);
        let rest = blocks.subrange(last as int, n);
        assert(blocks.subrange(last - 1, n) =~= seq![blocks[last - 1]] + rest);
        lemma_weight_concat(seq![blocks[last - 1]], rest, w);
        lemma_weight_single(blocks[last - 1], w);
        lemma_both_runs_len(cut, blocks, gap.count, next as int, last - 1, sep);
        let words = left_out_words((n - 1) as nat + gap.count);
        assert(words == transcript::omission((n - 1) as nat + gap.count));
        let least = seq![cut, words];
        lemma_joined_len(least, sep);
        assert(least =~= seq![cut] + seq![words]);
        lemma_weight_concat(seq![cut], seq![words], w);
        lemma_weight_single(cut, w);
        lemma_weight_single(words, w);
    }
}

/// A thread loses no more than it has to: the runs at its start and at its end
/// that are left of it are as long as they may be.
pub proof fn law_cut_threads_keep_what_fits(
    blocks: Seq<Seq<char>>,
    gap: Gap,
    budget: nat,
    sep: Seq<char>,
)
    requires
        blocks.len() > 0,
        crate::laws::transcript::sound_gap(blocks, gap),
    ensures
        ({
            let t = transcript::fitted_around(blocks, gap, budget, sep);
            exists|first: Seq<char>, next: int, last: int|
                {
                    &&& #[trigger] runs_from_both_ends(
                        t,
                        first,
                        blocks,
                        gap.count,
                        sep,
                        next,
                        last,
                    )
                    &&& starts_in_full(first, blocks, gap, budget, sep, next, last)
                    &&& ends_in_full(first, blocks, gap, budget, sep, next, last)
                }
        }),
{
    let t = transcript::fitted_around(blocks, gap, budget, sep);
    let n = blocks.len() as int;
    let cut = transcript::clipped(blocks[0], budget / 2);
    if transcript::must_drop(blocks, gap, budget, sep) {
        lemma_kept_ends(blocks, gap, budget, sep.len());
        lemma_starts_in_full(blocks, gap, budget, sep);
        lemma_ends_in_full(blocks, gap, budget, sep);
        let (next, last) = transcript::kept_ends(blocks, gap, budget, sep.len());
        assert(runs_from_both_ends(t, cut, blocks, gap.count, sep, next as int, last as int));
    } else {
        let from = if transcript::over_budget_around(blocks, gap, budget, sep) {
            transcript::short_start(blocks, budget)
        } else {
            blocks
        };
        let at: int = if gap.count > 0 {
            gap.at as int
        } else {
            n
        };
        assert(transcript::whole(from, gap) =~= both_runs(from[0], blocks, gap.count, at, at));
        assert(runs_from_both_ends(t, from[0], blocks, gap.count, sep, at, at));
    }
}

} // verus!
