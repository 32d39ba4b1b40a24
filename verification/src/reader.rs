//! Reading a thread: which messages are asked for, which of them count, and
//! what is kept of each.

use crate::text;
use crate::transcript;
use crate::transcript::{Asset, AssetView, MessageView, ThreadMessage};
use vstd::prelude::*;

verus! {

// ---------------------------------------------------------------------------
// Messages
// ---------------------------------------------------------------------------
/// A file that goes with a message.
#[derive(Debug)]
pub struct Attachment {
    pub filename: String,
    pub url: String,
    pub content_type: Option<String>,
}

/// What an [`Attachment`] holds.
#[verifier::ext_equal]
pub struct AttachmentView {
    pub filename: Seq<char>,
    pub url: Seq<char>,
    pub content_type: Option<Seq<char>>,
}

impl View for Attachment {
    type V = AttachmentView;

    open spec fn view(&self) -> AttachmentView {
        AttachmentView {
            filename: self.filename@,
            url: self.url@,
            content_type: text::opt_text(self.content_type),
        }
    }
}

/// A message as Discord has it.
#[derive(Debug)]
pub struct DiscordMessage {
    pub id: u64,
    pub author_is_bot: bool,
    /// The author's account name.
    pub author_name: String,
    /// The name that the author goes by, where there is one.
    pub author_global_name: Option<String>,
    pub timestamp: String,
    pub content: String,
    pub attachments: Vec<Attachment>,
}

/// What a [`DiscordMessage`] holds.
#[verifier::ext_equal]
pub struct DiscordView {
    pub id: u64,
    pub author_is_bot: bool,
    pub author_name: Seq<char>,
    pub author_global_name: Option<Seq<char>>,
    pub timestamp: Seq<char>,
    pub content: Seq<char>,
    pub attachments: Seq<AttachmentView>,
}

impl View for DiscordMessage {
    type V = DiscordView;

    open spec fn view(&self) -> DiscordView {
        DiscordView {
            id: self.id,
            author_is_bot: self.author_is_bot,
            author_name: self.author_name@,
            author_global_name: text::opt_text(self.author_global_name),
            timestamp: self.timestamp@,
            content: self.content@,
            attachments: Seq::new(self.attachments@.len(), |i: int| self.attachments@[i]@),
        }
    }
}

/// What a list of messages holds.
pub open spec fn discord_views(v: Seq<DiscordMessage>) -> Seq<DiscordView> {
    Seq::new(v.len(), |i: int| v[i]@)
}

/// The name that a user is shown under.
pub open spec fn name_shown(name: Seq<char>, global_name: Option<Seq<char>>) -> Seq<char> {
    match global_name {
        Some(shown) => shown,
        None => name,
    }
}

/// The name that a user is shown under.
pub fn display_name(name: &str, global_name: &Option<String>) -> (r: String)
    ensures
        r@ == name_shown(name@, text::opt_text(*global_name)),
{
    match global_name {
        Some(shown) => shown.clone(),
        None => name.to_owned(),
    }
}

/// Whether a file of that type is an image.
pub open spec fn is_image_type(content_type: Option<Seq<char>>) -> bool {
    match content_type {
        Some(t) => "image/"@.is_prefix_of(t),
        None => false,
    }
}

/// A file as the transcript has it.
pub open spec fn asset_of(a: AttachmentView) -> AssetView {
    AssetView { name: a.filename, url: a.url, is_image: is_image_type(a.content_type) }
}

/// A message as the transcript has it.
pub open spec fn converted(m: DiscordView) -> MessageView {
    MessageView {
        author: name_shown(m.author_name, m.author_global_name),
        timestamp: m.timestamp,
        content: m.content,
        assets: Seq::new(m.attachments.len(), |i: int| asset_of(m.attachments[i])),
    }
}

/// A message as the transcript has it.
pub fn convert(m: &DiscordMessage) -> (r: ThreadMessage)
    ensures
        r@ == converted(m@),
{
    let mut assets: Vec<Asset> = Vec::new();
    let mut i: usize = 0;
    while i < m.attachments.len()
        invariant
            i <= m.attachments@.len(),
            transcript::asset_views(assets@) == converted(m@).assets.take(i as int),
        decreases m.attachments@.len() - i,
    {
        let a = &m.attachments[i];
        let ghost before = assets@;
        let asset = Asset {
            name: a.filename.clone(),
            url: a.url.clone(),
            is_image: match &a.content_type {
                Some(t) => text::starts_with(t.as_str(), "image/"),
                None => false,
            },
        };
        assets.push(asset);
        assert(transcript::asset_views(assets@) =~= transcript::asset_views(before).push(asset@));
        i += 1;
    }
    assert(transcript::asset_views(assets@) =~= converted(m@).assets);
    ThreadMessage {
        author: display_name(m.author_name.as_str(), &m.author_global_name),
        timestamp: m.timestamp.clone(),
        content: m.content.clone(),
        assets,
    }
}

// ---------------------------------------------------------------------------
// The starter message
// ---------------------------------------------------------------------------
/// Where the starter message of a thread may be found, by channel and message,
/// the likeliest place first.
pub open spec fn places(thread_id: u64, parent_id: Option<u64>) -> Seq<(u64, u64)> {
    match parent_id {
        Some(parent) => seq![(thread_id, thread_id), (parent, thread_id)],
        None => seq![(thread_id, thread_id)],
    }
}

/// Where the starter message of a thread may be found, by channel and message.
/// A thread and its starter message share an id. Forum posts answer on the
/// thread itself; threads started from a channel message answer on the parent.
pub fn starter_places(thread_id: u64, parent_id: Option<u64>) -> (r: Vec<(u64, u64)>)
    ensures
        r@ == (match parent_id {
            Some(parent) => seq![(thread_id, thread_id), (parent, thread_id)],
            None => seq![(thread_id, thread_id)],
        }),
        r@ == places(thread_id, parent_id),
{
    let mut places: Vec<(u64, u64)> = Vec::new();
    places.push((thread_id, thread_id));
    if let Some(parent) = parent_id {
        places.push((parent, thread_id));
    }
    places
}

// ---------------------------------------------------------------------------
// The replies
// ---------------------------------------------------------------------------
/// As many messages as Discord hands out at once.
pub const PAGE: usize = 100;

/// A request for a page of messages, newest first.
#[derive(Clone, Copy, Debug, PartialEq, Eq, Structural)]
pub struct PageRequest {
    pub limit: u8,
    /// Only messages before this one.
    pub before: Option<u64>,
}

/// Goes through a thread page by page, from its newest message back.
#[derive(Debug)]
pub struct ThreadReader {
    max_messages: usize,
    /// What was read so far, newest first.
    replies: Vec<DiscordMessage>,
    before: Option<u64>,
    exhausted: bool,
}

/// What a [`ThreadReader`] holds.
#[verifier::ext_equal]
pub struct ReaderView {
    pub max_messages: nat,
    pub replies: Seq<DiscordView>,
    pub before: Option<u64>,
    pub exhausted: bool,
}

impl View for ThreadReader {
    type V = ReaderView;

    closed spec fn view(&self) -> ReaderView {
        ReaderView {
            max_messages: self.max_messages as nat,
            replies: discord_views(self.replies@),
            before: self.before,
            exhausted: self.exhausted,
        }
    }
}

/// The reader once it was handed the page `batch`. A page that is not full is
/// the last.
pub open spec fn read_page(r: ReaderView, batch: Seq<DiscordView>) -> ReaderView {
    if batch.len() == 0 {
        ReaderView { exhausted: true, ..r }
    } else {
        ReaderView {
            replies: r.replies + batch,
            before: Some(batch.last().id),
            exhausted: batch.len() < PAGE,
            ..r
        }
    }
}

/// A reader that begins to read, for up to `max_messages` messages.
pub open spec fn unread(max_messages: nat) -> ReaderView {
    ReaderView { max_messages, replies: Seq::empty(), before: None, exhausted: false }
}

/// The page that a reader asks for next, if there is one.
pub open spec fn wanted(r: ReaderView) -> Option<PageRequest> {
    if !r.exhausted && r.replies.len() < r.max_messages {
        Some(PageRequest { limit: 100, before: r.before })
    } else {
        None
    }
}

/// Whether a reply counts: bots, the call itself and the starter do not.
pub open spec fn counts(m: DiscordView, trigger_id: u64, starter_id: Option<u64>) -> bool {
    !m.author_is_bot && m.id != trigger_id && Some(m.id) != starter_id
}

/// The replies that count, oldest first, as the transcript has them; `replies`
/// are newest first.
pub open spec fn kept_replies(
    replies: Seq<DiscordView>,
    trigger_id: u64,
    starter_id: Option<u64>,
) -> Seq<MessageView>
    decreases replies.len(),
{
    if replies.len() == 0 {
        Seq::empty()
    } else {
        let newer = replies[0];
        let older = kept_replies(replies.skip(1), trigger_id, starter_id);
        if counts(newer, trigger_id, starter_id) {
            older.push(converted(newer))
        } else {
            older
        }
    }
}

/// The thread as far as it was read: its starter message followed by the
/// replies that count, oldest first.
pub open spec fn read_thread(
    starter: Option<DiscordView>,
    replies: Seq<DiscordView>,
    trigger_id: u64,
) -> Seq<MessageView> {
    match starter {
        Some(m) => seq![converted(m)] + kept_replies(replies, trigger_id, Some(m.id)),
        None => kept_replies(replies, trigger_id, None),
    }
}

/// As many of `messages` as `max`: where there are more, the first and the
/// newest.
pub open spec fn first_and_newest(messages: Seq<MessageView>, max: nat) -> Seq<MessageView> {
    if messages.len() <= max {
        messages
    } else if max == 0 {
        Seq::empty()
    } else {
        messages.take(1) + messages.skip(messages.len() - (max - 1))
    }
}

/// What is kept of the thread: all of it, or where that is more than is wanted
/// its first message, which is the starter where there is one, and the newest.
pub open spec fn collected(
    starter: Option<DiscordView>,
    replies: Seq<DiscordView>,
    trigger_id: u64,
    max_messages: nat,
) -> Seq<MessageView> {
    first_and_newest(read_thread(starter, replies, trigger_id), max_messages)
}

/// What an optional message holds.
pub open spec fn opt_message(m: Option<DiscordMessage>) -> Option<DiscordView> {
    match m {
        Some(m) => Some(m@),
        None => None,
    }
}

impl ThreadReader {
    /// Begins to read a thread, for up to `max_messages` messages.
    pub fn new(max_messages: usize) -> (r: Self)
        ensures
            r@ == (ReaderView {
                max_messages: max_messages as nat,
                replies: Seq::empty(),
                before: None,
                exhausted: false,
            }),
            r@ == unread(max_messages as nat),
    {
        let r = ThreadReader {
            max_messages,
            replies: Vec::new(),
            before: None,
            exhausted: false,
        };
        assert(r@.replies =~= Seq::<DiscordView>::empty());
        r
    }

    /// The next page to ask for, if there is one.
    pub fn next_page(&self) -> (r: Option<PageRequest>)
        ensures
            r == (if !self@.exhausted && self@.replies.len() < self@.max_messages {
                Some(PageRequest { limit: 100, before: self@.before })
            } else {
                None
            }),
            r == wanted(self@),
    {
        if !self.exhausted && self.replies.len() < self.max_messages {
            Some(PageRequest { limit: 100, before: self.before })
        } else {
            None
        }
    }

    /// Takes in a page.
    pub fn take_page(&mut self, batch: Vec<DiscordMessage>)
        ensures
            final(self)@ == read_page(old(self)@, discord_views(batch@)),
    {
        let n = batch.len();
        if n == 0 {
            self.exhausted = true;
            return ;
        }
        let mut batch = batch;
        let ghost page = batch@;
        let ghost before = self.replies@;
        self.before = Some(batch[n - 1].id);
        self.exhausted = n < PAGE;
        self.replies.append(&mut batch);
        assert(discord_views(self.replies@) =~= discord_views(before) + discord_views(page));
    }

    /// The thread's starter message followed by every human reply, oldest
    /// first; where that is too much, its first message and the newest. With
    /// them comes the number of messages left out behind the first. What lies
    /// further back than was read is not known, and not counted.
    pub fn collect_thread(&self, starter: Option<DiscordMessage>, trigger_id: u64) -> (r: (
        Vec<ThreadMessage>,
        usize,
    ))
        ensures
            transcript::message_views(r.0@) == collected(
                opt_message(starter),
                self@.replies,
                trigger_id,
                self@.max_messages,
            ),
            r.0@.len() + r.1 == read_thread(opt_message(starter), self@.replies, trigger_id).len(),
            r.0@.len() + r.1 <= usize::MAX,
    {
        let mut all: Vec<ThreadMessage> = Vec::new();
        let mut starter_id: Option<u64> = None;
        assert(transcript::message_views(all@) =~= Seq::<MessageView>::empty());
        if let Some(m) = &starter {
            starter_id = Some(m.id);
            all.push(convert(m));
            assert(transcript::message_views(all@) =~= seq![converted(m@)]);
        }
        let ghost front = transcript::message_views(all@);
        let mut replies = self.keep_replies(trigger_id, starter_id);
        let ghost kept = transcript::message_views(replies@);
        all.append(&mut replies);
        let ghost thread = read_thread(opt_message(starter), self@.replies, trigger_id);
        proof {
            assert(transcript::message_views(all@) =~= front + kept);
            assert(Seq::<MessageView>::empty() + kept =~= kept);
            assert(transcript::message_views(all@) == thread);
            assert(all@.len() == thread.len());
        }
        let n = all.len();
        let max = self.max_messages;
        if n <= max {
            return (all, 0);
        }
        if max == 0 {
            let none: Vec<ThreadMessage> = Vec::new();
            assert(transcript::message_views(none@) =~= Seq::<MessageView>::empty());
            return (none, n);
        }
        let mut newest = all.split_off(n - (max - 1));
        let ghost last = newest@;
        let mut out = all;
        out.truncate(1);
        let ghost first = out@;
        out.append(&mut newest);
        proof {
            assert(transcript::message_views(first) =~= thread.take(1));
            assert(transcript::message_views(last) =~= thread.skip(n - (max - 1)));
            assert(transcript::message_views(out@) =~= transcript::message_views(first)
                + transcript::message_views(last));
        }
        (out, n - max)
    }

    /// The replies that count, oldest first.
    fn keep_replies(&self, trigger_id: u64, starter_id: Option<u64>) -> (r: Vec<ThreadMessage>)
        ensures
            transcript::message_views(r@) == kept_replies(
                self@.replies,
                trigger_id,
                starter_id,
            ),
    {
        let ghost all = self@.replies;
        let mut out: Vec<ThreadMessage> = Vec::new();
        let n = self.replies.len();
        // Discord hands these out newest first.
        let mut i: usize = n;
        proof {
            assert(transcript::message_views(out@) =~= Seq::<MessageView>::empty());
            assert(all.skip(n as int) =~= Seq::<DiscordView>::empty());
        }
        while i > 0
            invariant
                i <= n,
                n == self.replies@.len(),
                all == discord_views(self.replies@),
                transcript::message_views(out@) == kept_replies(
                    all.skip(i as int),
                    trigger_id,
                    starter_id,
                ),
            decreases i,
        {
            i -= 1;
            let m = &self.replies[i];
            let is_starter = match starter_id {
                Some(id) => id == m.id,
                None => false,
            };
            proof {
                assert(all.skip(i as int)[0] == m@);
                assert(all.skip(i as int).skip(1) =~= all.skip(i + 1));
            }
            if !m.author_is_bot && m.id != trigger_id && !is_starter {
                let ghost before = out@;
                let message = convert(m);
                out.push(message);
                proof {
                    transcript::lemma_messages_push(before, message);
                }
            }
        }
        assert(all.skip(0) =~= all);
        out
    }
}

} // verus!
