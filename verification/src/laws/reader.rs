//! What is read of a thread.

use crate::reader;
use crate::reader::{AttachmentView, DiscordView, ReaderView};
use crate::transcript::MessageView;
use vstd::prelude::*;

verus! {

/// Whether `m` is one of `replies`, and one that counts.
pub open spec fn is_kept(
    m: MessageView,
    replies: Seq<DiscordView>,
    trigger_id: u64,
    starter_id: Option<u64>,
) -> bool {
    exists|j: int|
        0 <= j < replies.len() && reader::counts(#[trigger] replies[j], trigger_id, starter_id)
            && m == reader::converted(replies[j])
}

proof fn lemma_kept_replies(replies: Seq<DiscordView>, trigger_id: u64, starter_id: Option<u64>)
    ensures
        reader::kept_replies(replies, trigger_id, starter_id).len() <= replies.len(),
        forall|i: int|
            0 <= i < reader::kept_replies(replies, trigger_id, starter_id).len() ==> is_kept(
                #[trigger] reader::kept_replies(replies, trigger_id, starter_id)[i],
                replies,
                trigger_id,
                starter_id,
            ),
        forall|j: int|
            0 <= j < replies.len() && reader::counts(#[trigger] replies[j], trigger_id, starter_id)
                ==> reader::kept_replies(replies, trigger_id, starter_id).contains(
                reader::converted(replies[j]),
            ),
    decreases replies.len(),
{
    if replies.len() > 0 {
        let rest = replies.skip(1);
        let older = reader::kept_replies(rest, trigger_id, starter_id);
        let all = reader::kept_replies(replies, trigger_id, starter_id);
        lemma_kept_replies(rest, trigger_id, starter_id);
        assert forall|i: int| 0 <= i < all.len() implies is_kept(
            #[trigger] all[i],
            replies,
            trigger_id,
            starter_id,
        ) by {
            if i < older.len() {
                assert(all[i] == older[i]);
                assert(is_kept(older[i], rest, trigger_id, starter_id));
                let j = choose|j: int|
                    0 <= j < rest.len() && reader::counts(
                        #[trigger] rest[j],
                        trigger_id,
                        starter_id,
                    ) && older[i] == reader::converted(rest[j]);
                assert(replies[j + 1] == rest[j]);
            } else {
                assert(reader::counts(replies[0], trigger_id, starter_id));
            }
        }
        assert forall|j: int|
            0 <= j < replies.len() && reader::counts(
                #[trigger] replies[j],
                trigger_id,
                starter_id,
            ) implies all.contains(reader::converted(replies[j])) by {
            let m = reader::converted(replies[j]);
            if j > 0 {
                assert(rest[j - 1] == replies[j]);
                assert(older.contains(m));
                let k = choose|k: int| 0 <= k < older.len() && older[k] == m;
                assert(all[k] == m);
            } else {
                assert(all.last() == m);
            }
        }
    }
}

/// What is read of a thread begins with its starter message, where there is
/// one, and goes on with replies only: none of a bot, not the call itself, and
/// not the starter again. There are never more messages than wanted. None that
/// counts is left out where they all fit. Where they do not, the first message
/// and the newest are kept, as many as are wanted, so that the thread ends in
/// the newest reply that counts, and everything left out stood right behind the
/// first.
pub proof fn law_threads_are_read_starter_first(
    starter: Option<DiscordView>,
    replies: Seq<DiscordView>,
    trigger_id: u64,
    max_messages: nat,
)
    ensures
        ({
            let read = reader::collected(starter, replies, trigger_id, max_messages);
            let all = reader::read_thread(starter, replies, trigger_id);
            let left = all.len() - read.len();
            let starter_id = match starter {
                Some(m) => Some(m.id),
                None => None,
            };
            let first: int = if starter is Some {
                1
            } else {
                0
            };
            &&& read.len() <= max_messages
            &&& starter is Some && max_messages > 0 ==> read.len() > 0 && read[0]
                == reader::converted(starter->Some_0)
            &&& forall|i: int|
                first <= i < read.len() ==> is_kept(
                    #[trigger] read[i],
                    replies,
                    trigger_id,
                    starter_id,
                )
            &&& forall|j: int|
                0 <= j < replies.len() && reader::counts(
                    #[trigger] replies[j],
                    trigger_id,
                    starter_id,
                ) ==> all.contains(reader::converted(replies[j]))
            &&& all.len() <= max_messages ==> read == all
            &&& all.len() > max_messages ==> read.len() == max_messages
            &&& read.len() > 0 ==> read[0] == all[0]
            &&& forall|k: int| 1 <= k < read.len() ==> #[trigger] read[k] == all[left + k]
            &&& read.len() > 1 ==> read.last() == all.last()
        }),
{
    let read = reader::collected(starter, replies, trigger_id, max_messages);
    let all = reader::read_thread(starter, replies, trigger_id);
    let left = all.len() - read.len();
    let starter_id = match starter {
        Some(m) => Some(m.id),
        None => None,
    };
    let first: int = if starter is Some {
        1
    } else {
        0
    };
    let kept = reader::kept_replies(replies, trigger_id, starter_id);
    lemma_kept_replies(replies, trigger_id, starter_id);
    assert forall|i: int| first <= i < read.len() implies is_kept(
        #[trigger] read[i],
        replies,
        trigger_id,
        starter_id,
    ) by {
        let from = if i == 0 {
            0
        } else {
            left + i
        };
        assert(read[i] == all[from]);
        assert(is_kept(kept[from - first], replies, trigger_id, starter_id));
    }
    assert forall|j: int|
        0 <= j < replies.len() && reader::counts(
            #[trigger] replies[j],
            trigger_id,
            starter_id,
        ) implies all.contains(reader::converted(replies[j])) by {
        let m = reader::converted(replies[j]);
        let k = choose|k: int| 0 <= k < kept.len() && kept[k] == m;
        assert(all[k + first] == m);
    }
}

/// Reading comes to an end: each page is the last one asked for, or brings a
/// hundred messages nearer to as many as are wanted; and what is asked for next
/// is what came before the oldest message read.
pub proof fn law_reading_comes_to_an_end(r: ReaderView, batch: Seq<DiscordView>)
    ensures
        ({
            let after = reader::read_page(r, batch);
            &&& after.exhausted || after.replies.len() >= r.replies.len() + 100
            &&& after.replies == r.replies + batch
            &&& batch.len() > 0 ==> after.before == Some(batch.last().id)
            &&& after.max_messages == r.max_messages
        }),
{
    if batch.len() == 0 {
        assert(r.replies + batch =~= r.replies);
    }
}

// ---------------------------------------------------------------------------
// Which messages, and what of them
// ---------------------------------------------------------------------------
/// Every reply that was read and that a person wrote is in the thread, whatever
/// it says and whatever is attached to it, but for the call itself and for the
/// starter, which is there already.
pub proof fn law_every_human_reply_is_read(
    starter: Option<DiscordView>,
    replies: Seq<DiscordView>,
    trigger_id: u64,
    j: int,
)
    requires
        0 <= j < replies.len(),
        !replies[j].author_is_bot,
        replies[j].id != trigger_id,
        starter is Some ==> replies[j].id != starter->Some_0.id,
    ensures
        ({
            let m = reader::converted(replies[j]);
            let all = reader::read_thread(starter, replies, trigger_id);
            exists|k: int| 0 <= k < all.len() && #[trigger] all[k] == m
        }),
{
    let starter_id = match starter {
        Some(m) => Some(m.id),
        None => None,
    };
    lemma_kept_replies(replies, trigger_id, starter_id);
    let kept = reader::kept_replies(replies, trigger_id, starter_id);
    let m = reader::converted(replies[j]);
    assert(kept.contains(m));
    let k = choose|k: int| 0 <= k < kept.len() && kept[k] == m;
    let all = reader::read_thread(starter, replies, trigger_id);
    if starter is Some {
        assert(all[k + 1] == m);
    } else {
        assert(all[k] == m);
    }
}

/// A thread is read oldest first: Discord hands replies out newest first, and
/// each that is newer than all others comes last in the thread, where it counts,
/// and changes nothing about the rest. Where there are no replies there is the
/// starter, if that.
pub proof fn law_threads_are_read_oldest_first(
    starter: Option<DiscordView>,
    newer: DiscordView,
    replies: Seq<DiscordView>,
    trigger_id: u64,
)
    ensures
        ({
            let before = reader::read_thread(starter, replies, trigger_id);
            let after = reader::read_thread(starter, seq![newer] + replies, trigger_id);
            let left_out = newer.author_is_bot || newer.id == trigger_id || starter is Some
                && newer.id == starter->Some_0.id;
            &&& left_out ==> after == before
            &&& !left_out ==> after == before.push(reader::converted(newer))
        }),
        reader::read_thread(starter, Seq::empty(), trigger_id) == match starter {
            Some(m) => seq![reader::converted(m)],
            None => Seq::empty(),
        },
{
    let starter_id = match starter {
        Some(m) => Some(m.id),
        None => None,
    };
    let all = seq![newer] + replies;
    assert(all.skip(1) =~= replies);
    let before = reader::kept_replies(replies, trigger_id, starter_id);
    let after = reader::kept_replies(all, trigger_id, starter_id);
    if starter is Some {
        let first = seq![reader::converted(starter->Some_0)];
        assert(first + before.push(reader::converted(newer)) =~= (first + before).push(
            reader::converted(newer),
        ));
        assert(first + Seq::<MessageView>::empty() =~= first);
    }
}

/// Whether a file of the type `t` is an image: its type begins so.
pub open spec fn is_image(a: AttachmentView) -> bool {
    &&& a.content_type is Some
    &&& a.content_type->Some_0.len() >= 6
    &&& a.content_type->Some_0.take(6) == seq!['i', 'm', 'a', 'g', 'e', '/']
}

/// A message is taken over as it is: what it says, when, and each of its
/// attachments in its place, with its name, its address and whether it is an
/// image; its author goes by the name they chose, or else by their account's.
pub proof fn law_messages_are_taken_over_as_they_are(m: DiscordView)
    ensures
        ({
            let t = reader::converted(m);
            &&& t.content == m.content
            &&& t.timestamp == m.timestamp
            &&& m.author_global_name is Some ==> t.author == m.author_global_name->Some_0
            &&& m.author_global_name is None ==> t.author == m.author_name
            &&& t.assets.len() == m.attachments.len()
            &&& forall|i: int|
                0 <= i < t.assets.len() ==> {
                    &&& (#[trigger] t.assets[i]).name == m.attachments[i].filename
                    &&& t.assets[i].url == m.attachments[i].url
                    &&& t.assets[i].is_image == is_image(m.attachments[i])
                }
        }),
{
    reveal_strlit("image/");
    let prefix = "image/"@;
    assert(prefix =~= seq!['i', 'm', 'a', 'g', 'e', '/']);
    let t = reader::converted(m);
    assert forall|i: int| 0 <= i < t.assets.len() implies (#[trigger] t.assets[i]).is_image
        == is_image(m.attachments[i]) by {
        let a = m.attachments[i];
        if a.content_type is Some && a.content_type->Some_0.len() >= 6 {
            let kind = a.content_type->Some_0;
            assert(kind.take(6) =~= kind.subrange(0, 6));
        }
    }
}

// ---------------------------------------------------------------------------
// Pages
// ---------------------------------------------------------------------------
/// Pages are asked for from the newest message back, a hundred at a time, each
/// before the oldest message of the one that came, as long as pages come full
/// and there are not as many messages as wanted.
pub proof fn law_pages_are_asked_for_until_there_is_enough(
    r: ReaderView,
    batch: Seq<DiscordView>,
    max_messages: nat,
)
    requires
        reader::wanted(r) is Some,
    ensures
        ({
            let fresh = reader::unread(max_messages);
            let after = reader::read_page(r, batch);
            let next = reader::wanted(after);
            &&& fresh.replies.len() == 0
            &&& fresh.max_messages == max_messages
            &&& reader::wanted(fresh) is Some <==> max_messages > 0
            &&& max_messages > 0 ==> reader::wanted(fresh)->Some_0.before is None
            &&& reader::wanted(r)->Some_0.limit == 100
            &&& next is Some <==> batch.len() >= 100 && r.replies.len() + batch.len()
                < r.max_messages
            &&& next is Some ==> next->Some_0.limit == 100 && next->Some_0.before == Some(
                batch[batch.len() - 1].id,
            )
        }),
{
}

/// The starter message is looked for in the thread itself, then in the channel
/// that it hangs from, under the id that it shares with the thread.
pub proof fn law_the_starter_is_looked_for_in_both_places(thread_id: u64, parent: u64)
    ensures
        reader::places(thread_id, None) == seq![(thread_id, thread_id)],
        reader::places(thread_id, Some(parent)) == seq![
            (thread_id, thread_id),
            (parent, thread_id),
        ],
{
}

} // verus!
