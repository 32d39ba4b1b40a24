//! What the values that the library works on stand for: the models that the
//! contracts speak of hold, field by field, what the values hold.

use crate::card::{Button, Embed, Menu, Modal, PendingDraft, Row, RowView, SelectOption};
use crate::config::{Config, Repo};
use crate::discord;
use crate::discord::{ActionView, Admission, AdmissionView, CardAction, Edit, EditView};
use crate::github;
use crate::github::ApiRequest;
use crate::json::{Json, JsonView};
use crate::llm::IssueDraft;
use crate::reader;
use crate::reader::{Attachment, DiscordMessage};
use crate::text;
use crate::transcript;
use crate::transcript::{Asset, ThreadMessage, Transcript};
use vstd::prelude::*;

verus! {

/// Whether `model` holds the texts `v`, in their order.
pub open spec fn holds_texts(model: Seq<Seq<char>>, v: Seq<String>) -> bool {
    &&& model.len() == v.len()
    &&& forall|i: int| 0 <= i < v.len() ==> #[trigger] model[i] == v[i]@
}

/// Whether `model` holds the text `v`, where there is one.
pub open spec fn holds_text(model: Option<Seq<char>>, v: Option<String>) -> bool {
    &&& model is Some <==> v is Some
    &&& v is Some ==> model->Some_0 == v->Some_0@
}

/// A message as Discord hands it out is modelled by what it holds.
pub proof fn law_discord_messages_are_modelled_as_they_are(m: DiscordMessage, a: Attachment)
    ensures
        m@.id == m.id,
        m@.author_is_bot == m.author_is_bot,
        m@.author_name == m.author_name@,
        holds_text(m@.author_global_name, m.author_global_name),
        m@.timestamp == m.timestamp@,
        m@.content == m.content@,
        m@.attachments.len() == m.attachments@.len(),
        forall|i: int|
            0 <= i < m.attachments@.len() ==> #[trigger] m@.attachments[i] == m.attachments@[i]@,
        a@.filename == a.filename@,
        a@.url == a.url@,
        holds_text(a@.content_type, a.content_type),
{
}

/// A message of a thread and a transcript are modelled by what they hold.
pub proof fn law_threads_are_modelled_as_they_are(m: ThreadMessage, a: Asset, t: Transcript)
    ensures
        m@.author == m.author@,
        m@.timestamp == m.timestamp@,
        m@.content == m.content@,
        m@.assets.len() == m.assets@.len(),
        forall|i: int| 0 <= i < m.assets@.len() ==> #[trigger] m@.assets[i] == m.assets@[i]@,
        a@.name == a.name@,
        a@.url == a.url@,
        a@.is_image == a.is_image,
        t@.llm_text == t.llm_text@,
        t@.body_text == t.body_text@,
        t@.nonce == t.nonce@,
        t@.total_messages == t.total_messages,
        t@.llm_truncated == t.llm_truncated,
        t@.body_truncated == t.body_truncated,
        t@.assets_truncated == t.assets_truncated,
{
}

/// A draft, one that waits on a card, and an edit of one are modelled by what
/// they hold.
pub proof fn law_drafts_are_modelled_as_they_are(d: IssueDraft, p: PendingDraft, e: Edit)
    ensures
        d@.title == d.title@,
        d@.summary == d.summary@,
        holds_texts(d@.labels, d.labels@),
        d@.from_model == d.from_model,
        p@.channel_id == p.channel_id,
        p@.requester == p.requester,
        p@.repo == p.repo@,
        p@.draft == p.draft@,
        holds_texts(p@.available_labels, p.available_labels@),
        p@.transcript == p.transcript@,
        p@.thread_url == p.thread_url@,
        p@.reporter == p.reporter@,
        match e {
            Edit::Title(title) => e@ == EditView::Title(title@),
            Edit::Labels(labels) => e@ is Labels && holds_texts(e@->Labels_0, labels@),
        },
{
}

/// A repository and a configuration are modelled by what they hold.
pub proof fn law_configurations_are_modelled_as_they_are(r: Repo, c: Config)
    ensures
        r@.owner == r.owner@,
        r@.name == r.name@,
        c@.discord_token == c.discord_token@,
        c@.openai_api_key == c.openai_api_key@,
        c@.openai_model == c.openai_model@,
        c@.openai_base_url == c.openai_base_url@,
        c@.github_token == c.github_token@,
        c@.default_repo is Some <==> c.default_repo is Some,
        c.default_repo is Some ==> c@.default_repo->Some_0 == c.default_repo->Some_0@,
        c@.guild_repos.dom() == c.guild_repos@.dom(),
        forall|guild: u64| #[trigger]
            c.guild_repos@.contains_key(guild) ==> c@.guild_repos[guild]
                == c.guild_repos@[guild]@,
        c@.allowed_role_ids == c.allowed_role_ids@,
        c@.limits == c.limits,
        c@.port == c.port,
{
}

/// A request to GitHub and the JSON that it sends are modelled by what they
/// hold.
pub proof fn law_requests_are_modelled_as_they_are(r: ApiRequest, j: Json)
    ensures
        r@.method == r.method,
        r@.url == r.url@,
        r@.token == r.token@,
        r@.headers.len() == r.headers@.len(),
        forall|i: int|
            0 <= i < r.headers@.len() ==> #[trigger] r@.headers[i] == (
                r.headers@[i].0@,
                r.headers@[i].1@,
            ),
        r@.payload is Some <==> r.payload is Some,
        r.payload is Some ==> r@.payload->Some_0 == r.payload->Some_0@,
        match j {
            Json::Bool(b) => j@ == JsonView::Bool(b),
            Json::Text(s) => j@ == JsonView::Text(s@),
            Json::List(v) => {
                &&& j@ is List
                &&& j@->List_0.len() == v@.len()
                &&& forall|i: int| 0 <= i < v@.len() ==> #[trigger] j@->List_0[i] == v@[i]@
            },
            Json::Object(v) => {
                &&& j@ is Object
                &&& j@->Object_0.len() == v@.len()
                &&& forall|i: int|
                    0 <= i < v@.len() ==> (#[trigger] j@->Object_0[i]).key == v@[i].key@
                        && j@->Object_0[i].value == v@[i].value@
            },
        },
{
}

/// A card, its controls and the title editor are modelled by what they hold.
pub proof fn law_cards_are_modelled_as_they_are(
    e: Embed,
    r: Row,
    menu: Menu,
    o: SelectOption,
    b: Button,
    m: Modal,
)
    ensures
        e@.title == e.title@,
        e@.description == e.description@,
        e@.fields.len() == e.fields@.len(),
        forall|i: int|
            0 <= i < e.fields@.len() ==> #[trigger] e@.fields[i] == (
                e.fields@[i].name@,
                e.fields@[i].value@,
            ),
        e@.footer == e.footer@,
        e@.colour == e.colour,
        match r {
            Row::SelectMenu(menu) => r@ == RowView::SelectMenu(menu@),
            Row::Buttons(v) => {
                &&& r@ is Buttons
                &&& r@->Buttons_0.len() == v@.len()
                &&& forall|i: int| 0 <= i < v@.len() ==> #[trigger] r@->Buttons_0[i] == v@[i]@
            },
        },
        menu@.custom_id == menu.custom_id@,
        menu@.placeholder == menu.placeholder@,
        menu@.min_values == menu.min_values,
        menu@.max_values == menu.max_values,
        menu@.options.len() == menu.options@.len(),
        forall|i: int|
            0 <= i < menu.options@.len() ==> #[trigger] menu@.options[i] == menu.options@[i]@,
        o@.label == o.label@,
        o@.value == o.value@,
        o@.default == o.default,
        b@.custom_id == b.custom_id@,
        b@.label == b.label@,
        b@.style == b.style,
        m@.custom_id == m.custom_id@,
        m@.title == m.title@,
        m@.input_label == m.input_label@,
        m@.input_id == m.input_id@,
        m@.value == m.value@,
        m@.max_length == m.max_length,
        m@.required == m.required,
{
}

/// What comes of a request and of a press on a card is modelled by what it
/// holds.
pub proof fn law_answers_are_modelled_as_they_are(a: Admission, c: CardAction)
    ensures
        match a {
            Admission::Ignored => a@ is Ignored,
            Admission::NotAThread => a@ is NotAThread,
            Admission::AlreadyFiled(url) => a@ == AdmissionView::AlreadyFiled(url@),
            Admission::Refused(reason) => a@ == AdmissionView::Refused(reason@),
            Admission::Run(repo) => a@ == AdmissionView::Run(repo@),
        },
        match c {
            CardAction::Nothing => c@ is Nothing,
            CardAction::Tell(s) => c@ == ActionView::Tell(s@),
            CardAction::Close(s) => c@ == ActionView::Close(s@),
            CardAction::Ask(modal) => c@ == ActionView::Ask(modal@),
            CardAction::Redraw(p) => c@ == ActionView::Redraw(p@),
            CardAction::File(p, request) => c@ == ActionView::File(p@, request@),
        },
{
}

/// A list is modelled by what it holds, in its order, and what may be missing is
/// modelled as missing just where it is.
pub proof fn law_lists_are_modelled_as_they_are(
    texts: Vec<String>,
    messages: Vec<ThreadMessage>,
    posts: Vec<DiscordMessage>,
    pairs: Vec<(String, String)>,
    inputs: Vec<(String, Option<String>)>,
)
    ensures
        holds_texts(text::texts(texts@), texts@),
        discord::picks(None) is None,
        discord::picks(Some(texts)) is Some && holds_texts(
            discord::picks(Some(texts))->Some_0,
            texts@,
        ),
        github::opt_texts(None) is None,
        github::opt_texts(Some(texts)) is Some && holds_texts(
            github::opt_texts(Some(texts))->Some_0,
            texts@,
        ),
        transcript::message_views(messages@).len() == messages@.len(),
        forall|i: int|
            0 <= i < messages@.len() ==> #[trigger] transcript::message_views(messages@)[i]
                == messages@[i]@,
        reader::discord_views(posts@).len() == posts@.len(),
        forall|i: int|
            0 <= i < posts@.len() ==> #[trigger] reader::discord_views(posts@)[i] == posts@[i]@,
        text::pair_texts(pairs@).len() == pairs@.len(),
        forall|i: int|
            0 <= i < pairs@.len() ==> #[trigger] text::pair_texts(pairs@)[i] == (
                pairs@[i].0@,
                pairs@[i].1@,
            ),
        discord::input_views(inputs@).len() == inputs@.len(),
        forall|i: int|
            0 <= i < inputs@.len() ==> (#[trigger] discord::input_views(inputs@)[i]).0
                == inputs@[i].0@ && holds_text(
                discord::input_views(inputs@)[i].1,
                inputs@[i].1,
            ),
{
}

} // verus!
