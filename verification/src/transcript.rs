//! Turning a Discord thread into bounded, defanged text.
//!
//! Two very different consumers read this output, so we build two strings:
//!
//! * `llm_text` — what the model sees. Budgeted hard, because tokens cost
//!   money and an enormous thread is either an accident or an attack.
//! * `body_text` — what lands in the GitHub issue. Budgeted against GitHub's
//!   65536-character body limit, and with every `@mention` / `#123` that begins
//!   a word defused, so that quoting them pings nobody and closes no issue on
//!   GitHub.

use crate::config::Limits;
use crate::number;
use crate::text;
use std::hash::{BuildHasher, DefaultHasher, Hasher, RandomState};
use vstd::prelude::*;

verus! {

// ---------------------------------------------------------------------------
// The thread and its renderings
// ---------------------------------------------------------------------------
/// An attachment of a thread message.
#[derive(Debug)]
pub struct Asset {
    pub name: String,
    pub url: String,
    pub is_image: bool,
}

/// What an [`Asset`] holds.
#[verifier::ext_equal]
pub struct AssetView {
    pub name: Seq<char>,
    pub url: Seq<char>,
    pub is_image: bool,
}

impl View for Asset {
    type V = AssetView;

    open spec fn view(&self) -> AssetView {
        AssetView { name: self.name@, url: self.url@, is_image: self.is_image }
    }
}

impl Clone for Asset {
    fn clone(&self) -> (r: Self)
        ensures
            r@ == self@,
    {
        Asset { name: self.name.clone(), url: self.url.clone(), is_image: self.is_image }
    }
}

/// What a list of attachments holds.
pub open spec fn asset_views(v: Seq<Asset>) -> Seq<AssetView> {
    Seq::new(v.len(), |i: int| v[i]@)
}

/// One message of a thread.
#[derive(Debug)]
pub struct ThreadMessage {
    pub author: String,
    pub timestamp: String,
    pub content: String,
    pub assets: Vec<Asset>,
}

/// What a [`ThreadMessage`] holds.
#[verifier::ext_equal]
pub struct MessageView {
    pub author: Seq<char>,
    pub timestamp: Seq<char>,
    pub content: Seq<char>,
    pub assets: Seq<AssetView>,
}

impl View for ThreadMessage {
    type V = MessageView;

    open spec fn view(&self) -> MessageView {
        MessageView {
            author: self.author@,
            timestamp: self.timestamp@,
            content: self.content@,
            assets: asset_views(self.assets@),
        }
    }
}

impl Clone for ThreadMessage {
    fn clone(&self) -> (r: Self)
        ensures
            r@ == self@,
    {
        let mut assets: Vec<Asset> = Vec::new();
        let mut i: usize = 0;
        while i < self.assets.len()
            invariant
                i <= self.assets@.len(),
                asset_views(assets@) == asset_views(self.assets@).take(i as int),
            decreases self.assets@.len() - i,
        {
            let ghost before = assets@;
            let asset = self.assets[i].clone();
            assets.push(asset);
            proof {
                lemma_assets_push(before, asset);
            }
            i += 1;
        }
        assert(asset_views(self.assets@).take(i as int) == asset_views(self.assets@));
        ThreadMessage {
            author: self.author.clone(),
            timestamp: self.timestamp.clone(),
            content: self.content.clone(),
            assets,
        }
    }
}

proof fn lemma_assets_push(v: Seq<Asset>, a: Asset)
    ensures
        asset_views(v.push(a)) == asset_views(v).push(a@),
{
    assert(asset_views(v.push(a)) =~= asset_views(v).push(a@));
}

/// What a thread holds.
pub open spec fn message_views(v: Seq<ThreadMessage>) -> Seq<MessageView> {
    Seq::new(v.len(), |i: int| v[i]@)
}

/// Adding a message adds what it holds.
pub proof fn lemma_messages_push(v: Seq<ThreadMessage>, m: ThreadMessage)
    ensures
        message_views(v.push(m)) == message_views(v).push(m@),
{
    assert(message_views(v.push(m)) =~= message_views(v).push(m@));
}

/// Both renderings of a thread.
#[derive(Debug)]
pub struct Transcript {
    /// Bounded, delimiter-wrapped text for the model.
    pub llm_text: String,
    /// Bounded markdown transcript for the issue body.
    pub body_text: String,
    /// Random per-request delimiter token the model is told to trust.
    pub nonce: String,
    pub total_messages: usize,
    pub llm_truncated: bool,
    pub body_truncated: bool,
    pub assets_truncated: bool,
}

/// What a [`Transcript`] holds.
#[verifier::ext_equal]
pub struct TranscriptView {
    pub llm_text: Seq<char>,
    pub body_text: Seq<char>,
    pub nonce: Seq<char>,
    pub total_messages: nat,
    pub llm_truncated: bool,
    pub body_truncated: bool,
    pub assets_truncated: bool,
}

impl View for Transcript {
    type V = TranscriptView;

    open spec fn view(&self) -> TranscriptView {
        TranscriptView {
            llm_text: self.llm_text@,
            body_text: self.body_text@,
            nonce: self.nonce@,
            total_messages: self.total_messages as nat,
            llm_truncated: self.llm_truncated,
            body_truncated: self.body_truncated,
            assets_truncated: self.assets_truncated,
        }
    }
}

impl Clone for Transcript {
    fn clone(&self) -> (r: Self)
        ensures
            r@ == self@,
    {
        Transcript {
            llm_text: self.llm_text.clone(),
            body_text: self.body_text.clone(),
            nonce: self.nonce.clone(),
            total_messages: self.total_messages,
            llm_truncated: self.llm_truncated,
            body_truncated: self.body_truncated,
            assets_truncated: self.assets_truncated,
        }
    }
}

// ---------------------------------------------------------------------------
// Cutting a text short
// ---------------------------------------------------------------------------
/// What stands where the rest of a text was cut off.
pub const TRUNCATION_NOTE: &'static str = " … [truncated]";

/// `s`, cut to `max` characters where it is longer. The note that says so is
/// part of the count, but is never itself cut.
pub open spec fn clipped(s: Seq<char>, max: nat) -> Seq<char> {
    if s.len() <= max {
        s
    } else {
        let note = TRUNCATION_NOTE@;
        s.take(
            if max >= note.len() {
                max - note.len()
            } else {
                0
            },
        ) + note
    }
}

/// Cuts `s` to `max` characters, and says whether anything was cut.
pub fn truncate_chars(s: &str, max: usize) -> (r: (String, bool))
    ensures
        r.0@ == clipped(s@, max as nat),
        r.1 == (s@.len() > max),
{
    let v = text::chars_of(s);
    if v.len() <= max {
        return (s.to_owned(), false);
    }
    let note = text::count_chars(TRUNCATION_NOTE);
    let keep: usize = if max >= note {
        max - note
    } else {
        0
    };
    let mut out = text::string_of(&v, 0, keep);
    out.append(TRUNCATION_NOTE);
    (out, true)
}

// ---------------------------------------------------------------------------
// Hidden text
// ---------------------------------------------------------------------------
/// Zero-width characters, bidirectional overrides and soft hyphens.
pub open spec fn is_hidden(c: char) -> bool {
    ||| '\u{200B}' <= c <= '\u{200F}'
    ||| '\u{202A}' <= c <= '\u{202E}'
    ||| '\u{2060}' <= c <= '\u{2064}'
    ||| '\u{2066}' <= c <= '\u{2069}'
    ||| c == '\u{FEFF}'
    ||| c == '\u{AD}'
}

/// The characters that sanitizing lets through.
pub open spec fn is_visible(c: char) -> bool {
    &&& !is_hidden(c)
    &&& !text::is_control(c) || c == '\n' || c == '\t'
}

/// Whether every character of `s` is one that sanitizing lets through.
pub open spec fn all_visible(s: Seq<char>) -> bool {
    forall|i: int| 0 <= i < s.len() ==> is_visible(#[trigger] s[i])
}

fn visible(c: char) -> (r: bool)
    ensures
        r == is_visible(c),
{
    let hidden = ('\u{200B}' <= c && c <= '\u{200F}') || ('\u{202A}' <= c && c <= '\u{202E}') || (
    '\u{2060}' <= c && c <= '\u{2064}') || ('\u{2066}' <= c && c <= '\u{2069}') || c == '\u{FEFF}'
        || c == '\u{AD}';
    !hidden && (!text::control(c) || c == '\n' || c == '\t')
}

/// The visible characters of `s`.
pub open spec fn visible_part(s: Seq<char>) -> Seq<char> {
    s.filter(|c: char| is_visible(c))
}

/// Whether `s` ends in an empty line.
pub open spec fn ends_in_blank_line(s: Seq<char>) -> bool {
    s.len() >= 2 && s[s.len() - 1] == '\n' && s[s.len() - 2] == '\n'
}

/// `s` with every run of three or more line feeds brought down to two.
pub open spec fn collapsed(s: Seq<char>) -> Seq<char>
    decreases s.len(),
{
    if s.len() == 0 {
        s
    } else {
        let before = collapsed(s.drop_last());
        if s.last() == '\n' && ends_in_blank_line(before) {
            before
        } else {
            before.push(s.last())
        }
    }
}

/// `s` without anything that carries no meaning but can hide text.
pub open spec fn sanitized(s: Seq<char>) -> Seq<char> {
    text::trimmed(collapsed(visible_part(s)))
}

/// Drop characters that carry no meaning but can hide text: control codes,
/// zero-width spaces, and bidirectional overrides (all classic ways to smuggle
/// instructions past a human reader while the model still sees them). Runs
/// of blank lines used to pad a message out collapse to one.
pub fn sanitize(s: &str) -> (r: String)
    ensures
        r@ == sanitized(s@),
{
    let v = text::chars_of(s);
    let mut out: Vec<char> = Vec::new();
    let mut i: usize = 0;
    proof {
        reveal(Seq::filter);
        assert(v@.take(0) =~= Seq::<char>::empty());
        assert(visible_part(v@.take(0)) =~= Seq::<char>::empty());
    }
    while i < v.len()
        invariant
            i <= v@.len(),
            out@ == collapsed(visible_part(v@.take(i as int))),
        decreases v@.len() - i,
    {
        let c = v[i];
        proof {
            reveal(Seq::filter);
            let t = v@.take(i + 1);
            assert(t.drop_last() =~= v@.take(i as int));
            assert(t.last() == c);
            if is_visible(c) {
                assert(visible_part(t).drop_last() =~= visible_part(v@.take(i as int)));
                assert(visible_part(t).last() == c);
            }
        }
        if visible(c) {
            let n = out.len();
            if !(c == '\n' && n >= 2 && out[n - 1] == '\n' && out[n - 2] == '\n') {
                out.push(c);
            }
        }
        i += 1;
    }
    assert(v@.take(i as int) =~= s@);
    let n = out.len();
    let joined = text::string_of(&out, 0, n);
    assert(joined@ =~= out@);
    text::trim(joined.as_str())
}

// ---------------------------------------------------------------------------
// GitHub references
// ---------------------------------------------------------------------------
/// The characters that words are made of: ASCII letters and digits. The
/// underscore is none of them, since emphasis may begin with one.
pub open spec fn is_word_char(c: char) -> bool {
    'a' <= c <= 'z' || 'A' <= c <= 'Z' || '0' <= c <= '9'
}

/// The characters right after which a sigil is taken to begin a reference: all
/// but those that words are made of.
pub open spec fn is_boundary(c: char) -> bool {
    !is_word_char(c)
}

fn word_char(c: char) -> (r: bool)
    ensures
        r == is_word_char(c),
{
    ('a' <= c && c <= 'z') || ('A' <= c && c <= 'Z') || ('0' <= c && c <= '9')
}

/// The characters that begin a reference.
pub open spec fn is_sigil(c: char) -> bool {
    c == '@' || c == '#'
}

/// Whether the character of `s` at `i` stands where a reference can begin.
pub open spec fn at_boundary(s: Seq<char>, i: int) -> bool {
    i == 0 || is_boundary(s[i - 1])
}

/// What a sigil is followed by once it is defused.
pub const DEFUSER: &'static str = "<!---->";

/// `s` with an empty comment behind every sigil but those right after a word
/// character.
pub open spec fn defused(s: Seq<char>) -> Seq<char>
    decreases s.len(),
{
    if s.len() == 0 {
        s
    } else {
        let before = defused(s.drop_last()).push(s.last());
        if is_sigil(s.last()) && at_boundary(s, s.len() - 1) {
            before + DEFUSER@
        } else {
            before
        }
    }
}

/// Break `@mention` and `#123` wherever they begin a word, so that quoting them
/// neither notifies GitHub users nor links issues. `@<!---->name` renders as
/// plain `@name`. A sigil right after a word character, as in `me@example.org`
/// or `owner/repo#1`, is left alone.
pub fn neutralize_github_refs(s: &str) -> (r: String)
    ensures
        r@ == defused(s@),
{
    let v = text::chars_of(s);
    let mut out = String::new();
    let mut at_boundary = true;
    let mut i: usize = 0;
    assert(v@.take(0) =~= Seq::<char>::empty());
    while i < v.len()
        invariant
            i <= v@.len(),
            at_boundary == crate::transcript::at_boundary(v@, i as int),
            out@ == defused(v@.take(i as int)),
        decreases v@.len() - i,
    {
        let c = v[i];
        proof {
            let t = v@.take(i + 1);
            assert(t.drop_last() =~= v@.take(i as int));
            assert(t.last() == c);
            if i > 0 {
                assert(t[i - 1] == v@[i - 1]);
            }
        }
        out.push(c);
        if at_boundary && (c == '@' || c == '#') {
            out.append(DEFUSER);
        }
        at_boundary = !word_char(c);
        i += 1;
    }
    assert(v@.take(i as int) =~= s@);
    out
}

// ---------------------------------------------------------------------------
// Rendering one message
// ---------------------------------------------------------------------------
/// `content`, or what stands in for it where there is nothing to see.
pub open spec fn shown(content: Seq<char>) -> Seq<char> {
    if text::is_blank(content) {
        "_(no text)_"@
    } else {
        content
    }
}

/// `content`, or what stands in for it where there is nothing to see.
pub fn blank_to_placeholder(content: &str) -> (r: String)
    ensures
        r@ == shown(content@),
{
    if text::blank(content) {
        "_(no text)_".to_owned()
    } else {
        content.to_owned()
    }
}

/// The names of attachments.
pub open spec fn asset_names(assets: Seq<AssetView>) -> Seq<Seq<char>> {
    Seq::new(assets.len(), |i: int| assets[i].name)
}

/// A message as the model sees it.
pub open spec fn llm_block(m: MessageView) -> Seq<char> {
    let head = "["@ + m.timestamp + "] "@ + m.author + ":\n"@ + shown(m.content);
    if m.assets.len() == 0 {
        head
    } else {
        head + "\n(attachments: "@ + text::joined(asset_names(m.assets), ", "@) + ")"@
    }
}

/// Renders a message for the model.
pub fn render_for_llm(m: &ThreadMessage) -> (r: String)
    ensures
        r@ == llm_block(m@),
{
    let mut out = "[".to_owned();
    out.append(m.timestamp.as_str());
    out.append("] ");
    out.append(m.author.as_str());
    out.append(":\n");
    let content = blank_to_placeholder(m.content.as_str());
    out.append(content.as_str());
    if m.assets.len() > 0 {
        let mut names: Vec<String> = Vec::new();
        let mut i: usize = 0;
        while i < m.assets.len()
            invariant
                i <= m.assets@.len(),
                text::texts(names@) == asset_names(m@.assets).take(i as int),
            decreases m.assets@.len() - i,
        {
            let ghost before = names@;
            let name = m.assets[i].name.clone();
            names.push(name);
            proof {
                text::lemma_texts_push(before, name);
            }
            i += 1;
        }
        assert(asset_names(m@.assets).take(i as int) =~= asset_names(m@.assets));
        out.append("\n(attachments: ");
        let list = text::join(names.as_slice(), ", ");
        out.append(list.as_str());
        out.append(")");
    }
    out
}

/// An attachment as the issue shows it.
pub open spec fn asset_link(a: AssetView) -> Seq<char> {
    (if a.is_image {
        "\n\n!["@
    } else {
        "\n\n["@
    }) + defused(a.name) + "]("@ + a.url + ")"@
}

/// Attachments as the issue shows them.
pub open spec fn asset_links(assets: Seq<AssetView>) -> Seq<char>
    decreases assets.len(),
{
    if assets.len() == 0 {
        Seq::empty()
    } else {
        asset_links(assets.drop_last()) + asset_link(assets.last())
    }
}

/// A message as the issue shows it.
pub open spec fn body_block(m: MessageView) -> Seq<char> {
    "**"@ + defused(m.author) + "** · "@ + m.timestamp + "\n\n"@ + defused(shown(m.content))
        + asset_links(m.assets)
}

/// Renders a message for the issue body.
pub fn render_for_body(m: &ThreadMessage) -> (r: String)
    ensures
        r@ == body_block(m@),
{
    let mut out = "**".to_owned();
    let author = neutralize_github_refs(m.author.as_str());
    out.append(author.as_str());
    out.append("** · ");
    out.append(m.timestamp.as_str());
    out.append("\n\n");
    let content = blank_to_placeholder(m.content.as_str());
    let content = neutralize_github_refs(content.as_str());
    out.append(content.as_str());
    let ghost head = out@;
    let mut i: usize = 0;
    assert(m@.assets.take(0) =~= Seq::<AssetView>::empty());
    assert(head + asset_links(m@.assets.take(0)) =~= head);
    while i < m.assets.len()
        invariant
            i <= m.assets@.len(),
            out@ == head + asset_links(m@.assets.take(i as int)),
        decreases m.assets@.len() - i,
    {
        let a = &m.assets[i];
        let ghost before = out@;
        if a.is_image {
            out.append("\n\n![");
        } else {
            out.append("\n\n[");
        }
        let name = neutralize_github_refs(a.name.as_str());
        out.append(name.as_str());
        out.append("](");
        out.append(a.url.as_str());
        out.append(")");
        proof {
            let t = m@.assets.take(i + 1);
            assert(t.drop_last() =~= m@.assets.take(i as int));
            assert(t.last() == a@);
            assert(out@ =~= before + asset_link(a@));
            assert(out@ =~= head + (asset_links(t.drop_last()) + asset_link(t.last())));
        }
        i += 1;
    }
    assert(m@.assets.take(i as int) =~= m@.assets);
    out
}

// ---------------------------------------------------------------------------
// Fitting messages into a budget
// ---------------------------------------------------------------------------
/// A rule reads as a section break to the model. In the issue body the only
/// rules are the ones separating summary / thread / URL, so messages there are
/// separated by a blank line and told apart by their bold author line.
pub const LLM_SEP: &'static str = "\n\n---\n\n";

/// What stands between the messages in the issue body.
pub const BODY_SEP: &'static str = "\n\n";

/// Characters of the body budget held back for the summary, the notes and the
/// footer that `crate::issue` wraps around the transcript.
pub const BODY_RESERVE: usize = 7_500;

/// What `blocks` take up behind others: each with a separator of `sep`
/// characters before it.
pub open spec fn weight(blocks: Seq<Seq<char>>, sep: nat) -> nat
    decreases blocks.len(),
{
    if blocks.len() == 0 {
        0
    } else {
        weight(blocks.drop_last(), sep) + blocks.last().len() + sep
    }
}

/// Messages that are missing from a list of blocks: `count` of them, right
/// before the block at index `at`.
#[verifier::ext_equal]
pub struct Gap {
    pub at: nat,
    pub count: nat,
}

/// Nothing is missing.
pub open spec fn no_gap() -> Gap {
    Gap { at: 0, count: 0 }
}

/// What stands where `n` messages were left out.
pub open spec fn omission(n: nat) -> Seq<char> {
    "_… "@ + number::decimal(n) + " message(s) omitted to stay within size limits …_"@
}

/// The note on `n` messages that were left out, where there are any.
pub open spec fn omission_if(n: nat) -> Seq<Seq<char>> {
    if n > 0 {
        seq![omission(n)]
    } else {
        Seq::empty()
    }
}

/// All of `blocks`, with a note where messages are missing.
pub open spec fn whole(blocks: Seq<Seq<char>>, gap: Gap) -> Seq<Seq<char>> {
    if gap.count == 0 {
        blocks
    } else {
        blocks.take(gap.at as int) + omission_if(gap.count) + blocks.skip(gap.at as int)
    }
}

/// `a` less `b`, or nothing where `b` is more.
pub open spec fn less(a: nat, b: nat) -> nat {
    if a >= b {
        (a - b) as nat
    } else {
        0
    }
}

/// What the note on `n` messages that are left out takes up, with its
/// separator.
pub open spec fn note_room(n: nat, sep: nat) -> nat {
    if n == 0 {
        0
    } else {
        omission(n).len() + sep
    }
}

/// Whether there are blocks behind the first one, and behind what is missing.
pub open spec fn has_tail(blocks: Seq<Seq<char>>, gap: Gap) -> bool {
    if gap.count > 0 {
        gap.at < blocks.len()
    } else {
        blocks.len() > 1
    }
}

/// Whether the budget holds the first block, cut to half of it, the last one,
/// and the note on everything between them.
pub open spec fn holds_ends(blocks: Seq<Seq<char>>, gap: Gap, budget: nat, sep: nat) -> bool {
    &&& has_tail(blocks, gap)
    &&& clipped(blocks[0], budget / 2).len() + blocks.last().len() + sep + note_room(
        (blocks.len() - 2) as nat + gap.count,
        sep,
    ) <= budget
}

/// Whether the budget holds the first block, cut to half of it, and the note on
/// everything behind it.
pub open spec fn holds_start(blocks: Seq<Seq<char>>, gap: Gap, budget: nat, sep: nat) -> bool {
    clipped(blocks[0], budget / 2).len() + note_room(
        (blocks.len() - 1) as nat + gap.count,
        sep,
    ) <= budget
}

/// What has to stay free behind a head of `next` blocks: room for the last
/// block and the note on what is between, where the budget holds those, or else
/// for the note on all that follows. A budget that does not even hold that is
/// shared between the two ends, and the note comes on top.
pub open spec fn head_reserve(
    blocks: Seq<Seq<char>>,
    gap: Gap,
    budget: nat,
    sep: nat,
    next: nat,
) -> nat {
    if holds_ends(blocks, gap, budget, sep) {
        blocks.last().len() + sep + note_room((blocks.len() - 1 - next) as nat + gap.count, sep)
    } else if holds_start(blocks, gap, budget, sep) {
        note_room((blocks.len() - next) as nat + gap.count, sep)
    } else {
        0
    }
}

/// What has to stay free with the tail in place, once `left` messages are left
/// out.
pub open spec fn tail_reserve(
    blocks: Seq<Seq<char>>,
    gap: Gap,
    budget: nat,
    sep: nat,
    left: nat,
) -> nat {
    if holds_ends(blocks, gap, budget, sep) || holds_start(blocks, gap, budget, sep) {
        note_room(left, sep)
    } else {
        sep
    }
}

/// The index that the head stays short of: what is missing begins there, or the
/// last block.
pub open spec fn head_stop(blocks: Seq<Seq<char>>, gap: Gap) -> int {
    if gap.count > 0 {
        gap.at as int
    } else {
        blocks.len() - 1
    }
}

/// How far the head reaches: from `next` on blocks are taken, each with a
/// separator behind it, while six tenths of the budget hold what is used and
/// enough stays free.
pub open spec fn head_end(
    blocks: Seq<Seq<char>>,
    gap: Gap,
    budget: nat,
    sep: nat,
    next: nat,
    used: nat,
) -> nat
    decreases blocks.len() - next,
{
    let grown = used + blocks[next as int].len() + sep;
    if next < head_stop(blocks, gap) && next < blocks.len() && grown + sep <= budget * 6 / 10
        && grown + head_reserve(blocks, gap, budget, sep, next + 1) <= budget {
        head_end(blocks, gap, budget, sep, next + 1, grown)
    } else {
        next
    }
}

/// Where the tail may begin, behind a head of `next` blocks.
pub open spec fn tail_low(gap: Gap, next: nat) -> nat {
    if gap.count > 0 {
        gap.at
    } else {
        next
    }
}

/// Where the tail begins: from the end back blocks are taken while the budget
/// holds what is used and what has to stay free.
pub open spec fn tail_start(
    blocks: Seq<Seq<char>>,
    gap: Gap,
    budget: nat,
    sep: nat,
    next: nat,
    last: nat,
    used: nat,
) -> nat
    decreases last,
{
    let grown = used + blocks[last - 1].len() + sep;
    let left = (last - 1 - next) as nat + gap.count;
    if tail_low(gap, next) < last && grown + tail_reserve(blocks, gap, budget, sep, left)
        <= budget {
        tail_start(blocks, gap, budget, sep, next, (last - 1) as nat, grown)
    } else {
        last
    }
}

/// Where the two ends of `blocks` that are kept meet: the head stops short of
/// the first index and the tail begins at the second. What is missing lies
/// between them.
pub open spec fn kept_ends(
    blocks: Seq<Seq<char>>,
    gap: Gap,
    budget: nat,
    sep: nat,
) -> (nat, nat) {
    let first = clipped(blocks[0], budget / 2).len();
    let next = head_end(blocks, gap, budget, sep, 1, first);
    let used = first + weight(blocks.subrange(1, next as int), sep);
    (next, tail_start(blocks, gap, budget, sep, next, blocks.len(), used))
}

/// The blocks of a thread that has to lose some: the first, cut to half the
/// budget; as many after it as the head may have; a note on how many messages
/// are left out; and as many from the end as there is room for.
pub open spec fn cut_blocks(
    blocks: Seq<Seq<char>>,
    gap: Gap,
    budget: nat,
    sep: nat,
) -> Seq<Seq<char>> {
    if blocks.len() == 0 {
        whole(blocks, gap)
    } else {
        let (next, last) = kept_ends(blocks, gap, budget, sep);
        seq![clipped(blocks[0], budget / 2)] + blocks.subrange(1, next as int) + omission_if(
            (last - next) as nat + gap.count,
        ) + blocks.subrange(last as int, blocks.len() as int)
    }
}

/// Whether `blocks`, with the note on what is missing, are over budget.
pub open spec fn over_budget_around(
    blocks: Seq<Seq<char>>,
    gap: Gap,
    budget: nat,
    sep: Seq<char>,
) -> bool {
    text::joined(whole(blocks, gap), sep).len() > budget
}

/// `blocks` with the first cut to half the budget.
pub open spec fn short_start(blocks: Seq<Seq<char>>, budget: nat) -> Seq<Seq<char>> {
    if blocks.len() == 0 {
        blocks
    } else {
        blocks.update(0, clipped(blocks[0], budget / 2))
    }
}

/// Whether `blocks` are over budget, and would be with the first one cut.
pub open spec fn must_drop(
    blocks: Seq<Seq<char>>,
    gap: Gap,
    budget: nat,
    sep: Seq<char>,
) -> bool {
    &&& over_budget_around(blocks, gap, budget, sep)
    &&& over_budget_around(short_start(blocks, budget), gap, budget, sep)
}

/// `blocks`, from which messages are missing, as one text within a budget:
/// whole where they fit, with the first one cut where that is enough, and
/// otherwise without the middle.
pub open spec fn fitted_around(
    blocks: Seq<Seq<char>>,
    gap: Gap,
    budget: nat,
    sep: Seq<char>,
) -> Seq<char> {
    if must_drop(blocks, gap, budget, sep) {
        text::joined(cut_blocks(blocks, gap, budget, sep.len()), sep)
    } else if over_budget_around(blocks, gap, budget, sep) {
        text::joined(whole(short_start(blocks, budget), gap), sep)
    } else {
        text::joined(whole(blocks, gap), sep)
    }
}

/// Whether `blocks` are over budget.
pub open spec fn over_budget(blocks: Seq<Seq<char>>, budget: nat, sep: Seq<char>) -> bool {
    text::joined(blocks, sep).len() > budget
}

/// `blocks` as one text within a budget.
pub open spec fn fitted(blocks: Seq<Seq<char>>, budget: nat, sep: Seq<char>) -> Seq<char> {
    fitted_around(blocks, no_gap(), budget, sep)
}

proof fn lemma_weight_push(blocks: Seq<Seq<char>>, block: Seq<char>, sep: nat)
    ensures
        weight(blocks.push(block), sep) == weight(blocks, sep) + block.len() + sep,
{
    assert(blocks.push(block).drop_last() =~= blocks);
}

/// Adds the blocks of `from` to `to` that are between two indices.
fn copy_blocks(to: &mut Vec<String>, from: &Vec<String>, start: usize, end: usize)
    requires
        start <= end <= from@.len(),
    ensures
        text::texts(final(to)@) == text::texts(old(to)@) + text::texts(from@).subrange(
            start as int,
            end as int,
        ),
{
    let ghost front = text::texts(to@);
    let ghost t = text::texts(from@);
    let mut i: usize = start;
    assert(front + t.subrange(start as int, i as int) =~= front);
    while i < end
        invariant
            t == text::texts(from@),
            start <= i <= end <= from@.len(),
            text::texts(to@) == front + t.subrange(start as int, i as int),
        decreases end - i,
    {
        let ghost before = to@;
        let block = from[i].clone();
        to.push(block);
        proof {
            text::lemma_texts_push(before, block);
            assert(text::texts(to@) =~= front + t.subrange(start as int, i + 1));
        }
        i += 1;
    }
}

/// Writes the note on `n` messages that were left out.
fn note_omission(n: u128) -> (r: String)
    ensures
        r@ == omission(n as nat),
{
    let mut note = "_… ".to_owned();
    let count = number::to_decimal(n);
    note.append(count.as_str());
    note.append(" message(s) omitted to stay within size limits …_");
    note
}

/// Adds the note on `n` messages that were left out, where there are any.
fn push_omission(to: &mut Vec<String>, n: u128)
    ensures
        text::texts(final(to)@) == text::texts(old(to)@) + omission_if(n as nat),
{
    let ghost front = text::texts(to@);
    if n > 0 {
        let ghost before = to@;
        let note = note_omission(n);
        to.push(note);
        proof {
            text::lemma_texts_push(before, note);
        }
    }
    assert(text::texts(to@) =~= front + omission_if(n as nat));
}

/// Puts the note on what is missing among `blocks`.
fn with_note(blocks: &Vec<String>, at: usize, count: usize) -> (r: Vec<String>)
    requires
        at <= blocks@.len(),
    ensures
        text::texts(r@) == whole(
            text::texts(blocks@),
            (Gap { at: at as nat, count: count as nat }),
        ),
{
    let ghost t = text::texts(blocks@);
    let mut out: Vec<String> = Vec::new();
    assert(text::texts(out@) =~= Seq::<Seq<char>>::empty());
    copy_blocks(&mut out, blocks, 0, at);
    push_omission(&mut out, count as u128);
    copy_blocks(&mut out, blocks, at, blocks.len());
    assert(t.subrange(0, at as int) =~= t.take(at as int));
    assert(t.subrange(at as int, t.len() as int) =~= t.skip(at as int));
    assert(text::texts(out@) =~= whole(t, (Gap { at: at as nat, count: count as nat })));
    out
}

/// What the note on `n` messages that are left out takes up.
fn room_for_note(n: u128, sep: u128) -> (r: u128)
    requires
        sep <= usize::MAX,
    ensures
        r == note_room(n as nat, sep as nat),
        r <= 2 * usize::MAX,
{
    if n == 0 {
        0
    } else {
        let note = note_omission(n);
        text::count_chars(note.as_str()) as u128 + sep
    }
}

/// Fit blocks into `budget` characters, keeping the head and the tail.
///
/// The start of a thread says what broke and the end usually says what was
/// concluded; the repetitive middle is what we can afford to lose. A note says
/// how much of it went, and counts toward the budget: one that holds the first
/// block and the note but not the last block loses that too, and one too small
/// for the first block and the note goes to the two ends, with the note on top.
pub fn fit(blocks: &Vec<String>, budget: usize, sep: &str) -> (r: (String, bool))
    ensures
        r.0@ == fitted(text::texts(blocks@), budget as nat, sep@),
        r.1 == over_budget(text::texts(blocks@), budget as nat, sep@),
        !r.1 ==> r.0@ == text::joined(text::texts(blocks@), sep@),
{
    fit_around(blocks, 0, 0, budget, sep)
}

/// Fit blocks into `budget` characters, keeping the head and the tail, where
/// `count` messages are missing right before the block at index `at`. Says
/// whether anything is left out.
pub fn fit_around(blocks: &Vec<String>, at: usize, count: usize, budget: usize, sep: &str) -> (r: (
    String,
    bool,
))
    requires
        at <= blocks@.len(),
        count > 0 && blocks@.len() > 0 ==> at > 0,
    ensures
        ({
            let gap = Gap { at: at as nat, count: count as nat };
            &&& r.0@ == fitted_around(text::texts(blocks@), gap, budget as nat, sep@)
            &&& r.1 == (count > 0 || over_budget_around(
                text::texts(blocks@),
                gap,
                budget as nat,
                sep@,
            ))
        }),
{
    let ghost t = text::texts(blocks@);
    let ghost gap = Gap { at: at as nat, count: count as nat };
    let all = with_note(blocks, at, count);
    let everything = text::join(all.as_slice(), sep);
    let fits = text::count_chars(everything.as_str()) <= budget;
    if fits || blocks.len() == 0 {
        return (everything, count > 0 || !fits);
    }
    let n = blocks.len();
    let sep_len: u128 = text::count_chars(sep) as u128;
    let ghost g = sep@.len();
    // The starter message alone may exceed the budget; it still gets half of it.
    let first = truncate_chars(blocks[0].as_str(), budget / 2).0;
    let mut short: Vec<String> = Vec::new();
    short.push(first.clone());
    assert(text::texts(short@) =~= seq![clipped(t[0], budget as nat / 2)]);
    copy_blocks(&mut short, blocks, 1, n);
    proof {
        assert(text::texts(short@) =~= short_start(t, budget as nat));
        assert(text::texts(short@).len() == short@.len());
    }
    let short_all = with_note(&short, at, count);
    let shortened = text::join(short_all.as_slice(), sep);
    if text::count_chars(shortened.as_str()) <= budget {
        return (shortened, true);
    }
    let mut used: u128 = text::count_chars(first.as_str()) as u128;
    let ghost start = used as nat;
    let ghost b = budget as nat;
    let end: u128 = text::count_chars(blocks[n - 1].as_str()) as u128 + sep_len;
    let missing: u128 = count as u128;
    let ends: bool = if (count > 0 && at < n) || (count == 0 && n > 1) {
        assert(n > 1);
        used + end + room_for_note((n - 2) as u128 + missing, sep_len) <= budget as u128
    } else {
        false
    };
    assert(ends == holds_ends(t, gap, b, g));
    let begins: bool = used + room_for_note((n - 1) as u128 + missing, sep_len) <= budget as u128;
    assert(begins == holds_start(t, gap, b, g));
    let tenths: u128 = budget as u128 * 6 / 10;
    let mut parts: Vec<String> = Vec::new();
    parts.push(first);
    let stop: usize = if count > 0 {
        at
    } else {
        n - 1
    };
    let mut next: usize = 1;
    loop
        invariant_except_break
            head_end(t, gap, b, g, 1, start) == head_end(t, gap, b, g, next as nat, used as nat),
        invariant
            used <= 2 * usize::MAX,
            tenths == b * 6 / 10,
            b == budget,
            end == t.last().len() + g,
            end <= 2 * usize::MAX,
            missing == gap.count,
            missing <= usize::MAX,
            ends == holds_ends(t, gap, b, g),
            begins == holds_start(t, gap, b, g),
            n == blocks@.len(),
            t == text::texts(blocks@),
            g == sep_len,
            sep_len <= usize::MAX,
            stop == head_stop(t, gap),
            stop <= n,
            gap.count > 0 ==> stop >= 1,
            1 <= next <= n,
            next <= 1 || next <= stop,
            used == start + weight(t.subrange(1, next as int), g),
        ensures
            next == head_end(t, gap, b, g, 1, start),
        decreases n - next,
    {
        if next >= stop {
            break;
        }
        let grown: u128 = used + text::count_chars(blocks[next].as_str()) as u128 + sep_len;
        let reserve: u128 = if ends {
            end + room_for_note((n - 2 - next) as u128 + missing, sep_len)
        } else if begins {
            room_for_note((n - 1 - next) as u128 + missing, sep_len)
        } else {
            0
        };
        if grown + sep_len > tenths || grown + reserve > budget as u128 {
            break;
        }
        used = grown;
        proof {
            assert(t.subrange(1, next + 1) =~= t.subrange(1, next as int).push(t[next as int]));
            lemma_weight_push(t.subrange(1, next as int), t[next as int], g);
        }
        next += 1;
    }
    let ghost head_used = used as nat;
    let low: usize = if count > 0 {
        at
    } else {
        next
    };
    let mut last: usize = n;
    loop
        invariant_except_break
            tail_start(t, gap, b, g, next as nat, n as nat, head_used) == tail_start(
                t,
                gap,
                b,
                g,
                next as nat,
                last as nat,
                used as nat,
            ),
            used <= 2 * usize::MAX,
        invariant
            b == budget,
            missing == gap.count,
            missing <= usize::MAX,
            ends == holds_ends(t, gap, b, g),
            begins == holds_start(t, gap, b, g),
            n == blocks@.len(),
            t == text::texts(blocks@),
            g == sep_len,
            sep_len <= usize::MAX,
            low == tail_low(gap, next as nat),
            next <= low <= last <= n,
        ensures
            last == tail_start(t, gap, b, g, next as nat, n as nat, head_used),
        decreases last,
    {
        if last <= low {
            break;
        }
        let grown: u128 = used + text::count_chars(blocks[last - 1].as_str()) as u128 + sep_len;
        let left: u128 = (last - 1 - next) as u128 + missing;
        let reserve: u128 = if ends || begins {
            room_for_note(left, sep_len)
        } else {
            sep_len
        };
        if grown + reserve > budget as u128 {
            break;
        }
        used = grown;
        last -= 1;
    }
    assert((next as nat, last as nat) == kept_ends(t, gap, budget as nat, g));
    assert(text::texts(parts@) =~= seq![clipped(t[0], budget as nat / 2)]);
    copy_blocks(&mut parts, blocks, 1, next);
    push_omission(&mut parts, (last - next) as u128 + missing);
    copy_blocks(&mut parts, blocks, last, n);
    assert(text::texts(parts@) =~= cut_blocks(t, gap, budget as nat, g));
    (text::join(parts.as_slice(), sep), true)
}

// ---------------------------------------------------------------------------
// Attachments
// ---------------------------------------------------------------------------
/// How far a message's attachments have been gone through.
#[verifier::ext_equal]
pub struct Tally {
    /// The addresses of the attachments kept so far, in the whole thread.
    pub seen: Seq<Seq<char>>,
    /// The attachments of this message that are kept.
    pub kept: Seq<AssetView>,
    /// Whether an attachment was met that there is no room for. Nothing after
    /// it is looked at.
    pub full: bool,
}

/// Goes through the attachments `offered` by one message: one whose address
/// was seen before is passed over, any other is kept while there are fewer
/// than `cap`.
pub open spec fn tally(seen: Seq<Seq<char>>, offered: Seq<AssetView>, cap: nat) -> Tally
    decreases offered.len(),
{
    if offered.len() == 0 {
        Tally { seen, kept: Seq::empty(), full: false }
    } else {
        let t = tally(seen, offered.drop_last(), cap);
        let a = offered.last();
        if t.full || t.seen.contains(a.url) {
            t
        } else if t.seen.len() >= cap {
            Tally { full: true, ..t }
        } else {
            Tally { seen: t.seen.push(a.url), kept: t.kept.push(a), full: false }
        }
    }
}

proof fn lemma_tally_full_sticks(
    seen: Seq<Seq<char>>,
    offered: Seq<AssetView>,
    i: int,
    cap: nat,
)
    requires
        0 <= i <= offered.len(),
        tally(seen, offered.take(i), cap).full,
    ensures
        tally(seen, offered, cap) == tally(seen, offered.take(i), cap),
    decreases offered.len() - i,
{
    if i < offered.len() {
        assert(offered.take(i + 1).drop_last() =~= offered.take(i));
        lemma_tally_full_sticks(seen, offered, i + 1, cap);
    } else {
        assert(offered.take(i) =~= offered);
    }
}

/// Goes through one message's attachments, given the addresses `seen` before.
fn keep_assets(seen: &mut Vec<String>, offered: &Vec<Asset>, cap: usize) -> (r: (Vec<Asset>, bool))
    ensures
        ({
            let t = tally(text::texts(old(seen)@), asset_views(offered@), cap as nat);
            &&& text::texts(final(seen)@) == t.seen
            &&& asset_views(r.0@) == t.kept
            &&& r.1 == t.full
        }),
{
    let ghost start = text::texts(seen@);
    let ghost all = asset_views(offered@);
    let mut kept: Vec<Asset> = Vec::new();
    let mut i: usize = 0;
    assert(all.take(0) =~= Seq::<AssetView>::empty());
    assert(asset_views(kept@) =~= Seq::<AssetView>::empty());
    while i < offered.len()
        invariant
            i <= offered@.len(),
            start == text::texts(old(seen)@),
            all == asset_views(offered@),
            tally(start, all.take(i as int), cap as nat) == (Tally {
                seen: text::texts(seen@),
                kept: asset_views(kept@),
                full: false,
            }),
        decreases offered@.len() - i,
    {
        let a = &offered[i];
        proof {
            let t = all.take(i + 1);
            assert(t.drop_last() =~= all.take(i as int));
            assert(t.last() == a@);
        }
        if !text::lists(seen.as_slice(), a.url.as_str()) {
            if seen.len() >= cap {
                proof {
                    lemma_tally_full_sticks(start, all, i + 1, cap as nat);
                }
                return (kept, true);
            }
            let ghost seen_before = seen@;
            let ghost kept_before = kept@;
            let url = a.url.clone();
            let asset = a.clone();
            seen.push(url);
            kept.push(asset);
            proof {
                text::lemma_texts_push(seen_before, url);
                lemma_assets_push(kept_before, asset);
            }
        }
        i += 1;
    }
    assert(all.take(i as int) =~= all);
    (kept, false)
}

// ---------------------------------------------------------------------------
// The whole thread
// ---------------------------------------------------------------------------
/// Authors' names are cut to this many characters.
pub const MAX_AUTHOR_CHARS: usize = 80;

/// Attachments under names that hide nothing.
pub open spec fn clean_assets(assets: Seq<AssetView>) -> Seq<AssetView> {
    Seq::new(assets.len(), |i: int| AssetView { name: sanitized(assets[i].name), ..assets[i] })
}

/// Cleans the names of attachments.
fn sanitize_names(assets: &Vec<Asset>) -> (r: Vec<Asset>)
    ensures
        asset_views(r@) == clean_assets(asset_views(assets@)),
{
    let mut out: Vec<Asset> = Vec::new();
    let mut i: usize = 0;
    while i < assets.len()
        invariant
            i <= assets@.len(),
            asset_views(out@) == clean_assets(asset_views(assets@)).take(i as int),
        decreases assets@.len() - i,
    {
        let ghost before = out@;
        let a = &assets[i];
        let asset = Asset {
            name: sanitize(a.name.as_str()),
            url: a.url.clone(),
            is_image: a.is_image,
        };
        out.push(asset);
        proof {
            lemma_assets_push(before, asset);
        }
        i += 1;
    }
    assert(asset_views(out@) =~= clean_assets(asset_views(assets@)));
    out
}

/// A message sanitized and cut to size, with the attachments it keeps.
pub open spec fn clean_message(
    m: MessageView,
    kept: Seq<AssetView>,
    limits: Limits,
) -> MessageView {
    MessageView {
        author: clipped(sanitized(m.author), MAX_AUTHOR_CHARS as nat),
        timestamp: m.timestamp,
        content: clipped(sanitized(m.content), limits.max_message_chars as nat),
        assets: clean_assets(kept),
    }
}

/// A thread gone through from its first message on.
#[verifier::ext_equal]
pub struct CleanThread {
    pub messages: Seq<MessageView>,
    /// The addresses of the attachments kept, in the order they were met.
    pub seen: Seq<Seq<char>>,
    /// Whether an attachment was left out for want of room.
    pub assets_truncated: bool,
}

/// The messages of a thread cleaned, and its attachments deduplicated and
/// capped across the whole of it.
pub open spec fn clean_thread(messages: Seq<MessageView>, limits: Limits) -> CleanThread
    decreases messages.len(),
{
    if messages.len() == 0 {
        CleanThread { messages: Seq::empty(), seen: Seq::empty(), assets_truncated: false }
    } else {
        let before = clean_thread(messages.drop_last(), limits);
        let m = messages.last();
        let t = tally(before.seen, m.assets, limits.max_attachments as nat);
        CleanThread {
            messages: before.messages.push(clean_message(m, t.kept, limits)),
            seen: t.seen,
            assets_truncated: before.assets_truncated || t.full,
        }
    }
}

/// How many messages from the start of a thread are looked at where it has more
/// than `max`: half of them, the odd one included, but only the first where
/// messages are missing behind it.
pub open spec fn front_run(missing: nat, max: nat) -> nat {
    if missing == 0 {
        (max - max / 2) as nat
    } else if max == 0 {
        0
    } else {
        1
    }
}

/// What is missing of a thread of which `total` messages were handed in, and
/// `missing` more stood behind the first of them, once it is cut down to as
/// many as are looked at.
pub open spec fn cap_gap(total: nat, missing: nat, limits: Limits) -> Gap {
    let max = limits.max_messages as nat;
    if total > max {
        Gap { at: front_run(missing, max), count: (total - max) as nat + missing }
    } else if missing == 0 {
        no_gap()
    } else {
        Gap {
            at: if total == 0 {
                0
            } else {
                1
            },
            count: missing,
        }
    }
}

/// The messages of a thread that are looked at: all that were handed in, or a
/// run from their start and one from their end.
pub open spec fn within_cap(
    messages: Seq<MessageView>,
    missing: nat,
    limits: Limits,
) -> Seq<MessageView> {
    let max = limits.max_messages as nat;
    let front = front_run(missing, max);
    if messages.len() <= max {
        messages
    } else {
        messages.take(front as int) + messages.skip(messages.len() - (max - front))
    }
}

/// The messages as the model sees them.
pub open spec fn llm_blocks(messages: Seq<MessageView>) -> Seq<Seq<char>> {
    Seq::new(messages.len(), |i: int| llm_block(messages[i]))
}

/// The messages as the issue shows them.
pub open spec fn body_blocks(messages: Seq<MessageView>) -> Seq<Seq<char>> {
    Seq::new(messages.len(), |i: int| body_block(messages[i]))
}

/// What stands where a copy of the nonce was.
pub const REDACTION: &'static str = "[redacted]";

/// `content` between delimiters that carry `nonce`, which `content` is not
/// allowed to echo.
pub open spec fn enclosed(content: Seq<char>, nonce: Seq<char>) -> Seq<char> {
    "<<<THREAD "@ + nonce + ">>>\n"@ + text::replaced(content, nonce, REDACTION@)
        + "\n<<<END THREAD "@ + nonce + ">>>"@
}

/// The part of the body budget that the thread may use.
pub open spec fn thread_budget(limits: Limits) -> nat {
    if limits.max_body_chars >= BODY_RESERVE {
        (limits.max_body_chars - BODY_RESERVE) as nat
    } else {
        0
    }
}

/// Both renderings of a thread under `limits`, delimited by `nonce`. Of the
/// thread `missing` messages are not among `messages`: they stood right behind
/// the first.
pub open spec fn transcribed(
    messages: Seq<MessageView>,
    missing: nat,
    limits: Limits,
    nonce: Seq<char>,
) -> TranscriptView {
    let clean = clean_thread(within_cap(messages, missing, limits), limits);
    let gap = cap_gap(messages.len(), missing, limits);
    let llm = llm_blocks(clean.messages);
    let body = body_blocks(clean.messages);
    let llm_budget = limits.max_llm_chars as nat;
    let body_budget = thread_budget(limits);
    TranscriptView {
        llm_text: enclosed(fitted_around(llm, gap, llm_budget, LLM_SEP@), nonce),
        body_text: fitted_around(body, gap, body_budget, BODY_SEP@),
        nonce,
        total_messages: messages.len() + missing,
        llm_truncated: gap.count > 0 || over_budget_around(llm, gap, llm_budget, LLM_SEP@),
        body_truncated: gap.count > 0 || over_budget_around(body, gap, body_budget, BODY_SEP@),
        assets_truncated: clean.assets_truncated,
    }
}

/// The nonce that `bits` make: sixteen hexadecimal digits.
pub open spec fn nonce_of(bits: u64) -> Seq<char> {
    number::hex(bits as nat, 16)
}

/// Nothing is claimed of what `std::hash::RandomState::new` returns: a state
/// with keys that no one can foresee.
pub assume_specification[ std::hash::RandomState::new ]() -> (state: RandomState);

/// A hasher under the keys of `state`, from `RandomState::build_hasher`.
/// Nothing is claimed of it.
#[verifier::external_body]
fn keyed_hasher(state: &RandomState) -> (hasher: DefaultHasher) {
    state.build_hasher()
}

/// Sixty-four bits that no thread can foresee: what a hasher under fresh keys
/// makes of nothing. Any value may come back.
fn fresh_bits() -> u64 {
    let state = RandomState::new();
    let hasher = keyed_hasher(&state);
    hasher.finish()
}

/// Build both renderings of a thread under `limits`.
///
/// `messages` must be oldest-first, with the thread's starter message at
/// index 0 — it carries the original report, so it is the one block we never
/// drop entirely.
pub fn build(messages: &[ThreadMessage], limits: &Limits) -> (r: Transcript)
    ensures
        exists|bits: u64| r@ == transcribed(message_views(messages@), 0, *limits, nonce_of(bits)),
{
    assert(messages@.len() == messages.len());
    build_missing(messages, 0, limits)
}

/// Build both renderings of a thread of which `missing` messages are not among
/// `messages`: they stood right behind the first, and are counted with what is
/// left out.
pub fn build_missing(messages: &[ThreadMessage], missing: usize, limits: &Limits) -> (r: Transcript)
    requires
        messages@.len() + missing <= usize::MAX,
    ensures
        exists|bits: u64|
            r@ == transcribed(
                message_views(messages@),
                missing as nat,
                *limits,
                nonce_of(bits),
            ),
{
    let bits = fresh_bits();
    build_with(messages, missing, limits, bits)
}

/// Build both renderings of a thread under `limits`, with the nonce that
/// `bits` make. Right behind the first message stood `missing` more.
pub fn build_with(
    messages: &[ThreadMessage],
    missing: usize,
    limits: &Limits,
    bits: u64,
) -> (r: Transcript)
    requires
        messages@.len() + missing <= usize::MAX,
    ensures
        r@ == transcribed(message_views(messages@), missing as nat, *limits, nonce_of(bits)),
{
    let n = messages.len();
    let ghost all = message_views(messages@);
    let max = limits.max_messages;
    let (count, front, dropped): (usize, usize, usize) = if n > max {
        let front: usize = if missing == 0 {
            max - max / 2
        } else if max == 0 {
            0
        } else {
            1
        };
        (max, front, n - max)
    } else if missing == 0 || n == 0 {
        (n, 0, 0)
    } else {
        (n, 1, 0)
    };
    let omitted: usize = dropped + missing;
    let ghost gap = cap_gap(all.len(), missing as nat, *limits);
    let ghost used = within_cap(all, missing as nat, *limits);
    assert(gap == (Gap { at: front as nat, count: omitted as nat }));
    // Assets are deduped and capped across the whole thread as we go, so that
    // the cap holds on what we actually render rather than on a tally.
    let mut seen: Vec<String> = Vec::new();
    let mut assets_truncated = false;
    let mut llm: Vec<String> = Vec::new();
    let mut body: Vec<String> = Vec::new();
    let mut i: usize = 0;
    proof {
        assert(used.take(0) =~= Seq::<MessageView>::empty());
        let c = clean_thread(used.take(0), *limits);
        assert(text::texts(seen@) =~= c.seen);
        assert(text::texts(llm@) =~= llm_blocks(c.messages));
        assert(text::texts(body@) =~= body_blocks(c.messages));
    }
    while i < count
        invariant
            i <= count <= messages@.len(),
            count == used.len(),
            count + dropped == n,
            n == messages@.len(),
            llm@.len() == i,
            body@.len() == i,
            forall|j: int|
                0 <= j < count ==> #[trigger] used[j] == messages@[if j < front {
                    j
                } else {
                    j + dropped
                }]@,
            ({
                let c = clean_thread(used.take(i as int), *limits);
                &&& text::texts(seen@) == c.seen
                &&& assets_truncated == c.assets_truncated
                &&& text::texts(llm@) == llm_blocks(c.messages)
                &&& text::texts(body@) == body_blocks(c.messages)
            }),
        decreases count - i,
    {
        let index: usize = if i < front {
            i
        } else {
            i + dropped
        };
        let m = &messages[index];
        let ghost before = clean_thread(used.take(i as int), *limits);
        let (kept, full) = keep_assets(&mut seen, &m.assets, limits.max_attachments);
        if full {
            assets_truncated = true;
        }
        let author = sanitize(m.author.as_str());
        let content = sanitize(m.content.as_str());
        let clean = ThreadMessage {
            author: truncate_chars(author.as_str(), MAX_AUTHOR_CHARS).0,
            timestamp: m.timestamp.clone(),
            content: truncate_chars(content.as_str(), limits.max_message_chars).0,
            assets: sanitize_names(&kept),
        };
        let for_llm = render_for_llm(&clean);
        let for_body = render_for_body(&clean);
        let ghost llm_before = llm@;
        let ghost body_before = body@;
        llm.push(for_llm);
        body.push(for_body);
        proof {
            let t = used.take(i + 1);
            assert(t.drop_last() =~= used.take(i as int));
            assert(t.last() == m@);
            let after = clean_thread(t, *limits);
            assert(after.messages == before.messages.push(clean@));
            text::lemma_texts_push(llm_before, for_llm);
            text::lemma_texts_push(body_before, for_body);
            assert(llm_blocks(after.messages) =~= llm_blocks(before.messages).push(
                llm_block(clean@),
            ));
            assert(body_blocks(after.messages) =~= body_blocks(before.messages).push(
                body_block(clean@),
            ));
        }
        i += 1;
    }
    assert(used.take(i as int) =~= used);
    let (llm_body, llm_truncated) = fit_around(
        &llm,
        front,
        omitted,
        limits.max_llm_chars,
        LLM_SEP,
    );
    // Leave room for the summary and the footer, so the trailing rule and the
    // thread URL can never be the thing that gets truncated away.
    let budget: usize = if limits.max_body_chars >= BODY_RESERVE {
        limits.max_body_chars - BODY_RESERVE
    } else {
        0
    };
    let (body_text, body_truncated) = fit_around(&body, front, omitted, budget, BODY_SEP);
    let nonce = number::to_hex(bits, 16);
    proof {
        number::lemma_hex(bits as nat, 16);
    }
    let inner = text::replace(llm_body.as_str(), nonce.as_str(), REDACTION);
    let mut llm_text = "<<<THREAD ".to_owned();
    llm_text.append(nonce.as_str());
    llm_text.append(">>>\n");
    llm_text.append(inner.as_str());
    llm_text.append("\n<<<END THREAD ");
    llm_text.append(nonce.as_str());
    llm_text.append(">>>");
    Transcript {
        llm_text,
        body_text,
        nonce,
        total_messages: n + missing,
        llm_truncated,
        body_truncated,
        assets_truncated,
    }
}

} // verus!
