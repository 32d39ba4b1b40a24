//! The confirmation card: what the bot proposes before anything is filed.
//!
//! Nothing reaches GitHub until someone presses **Create issue**, so the
//! model's draft is a suggestion rather than a decision.

use crate::config::{Repo, RepoView};
use crate::llm::{DraftView, IssueDraft, MAX_LABELS};
use crate::number;
use crate::text;
use crate::transcript;
use crate::transcript::{Transcript, TranscriptView};
use vstd::prelude::*;

verus! {

/// What the controls of a card are called in what Discord reports.
pub const CREATE: &'static str = "issue.create";

/// See [`CREATE`].
pub const EDIT: &'static str = "issue.edit";

/// See [`CREATE`].
pub const CANCEL: &'static str = "issue.cancel";

/// See [`CREATE`].
pub const LABELS: &'static str = "issue.labels";

/// What the title editor is called.
pub const TITLE_MODAL: &'static str = "issue.title_modal";

/// What the one line of the title editor is called.
pub const TITLE_INPUT: &'static str = "issue.title_input";

/// Discord's hard cap on options in a select menu.
pub const MAX_SELECT_OPTIONS: usize = 25;

/// Embed field values cap at 1024; leave room for the truncation marker.
pub const SUMMARY_PREVIEW: usize = 1000;

/// As much of the title as the card shows.
pub const TITLE_PREVIEW: usize = 1000;

/// As much of the title as the editor takes.
pub const TITLE_INPUT_CHARS: u16 = 200;

/// As much of a label as the menu shows.
pub const OPTION_LABEL_CHARS: usize = 100;

/// The colour of the card's edge.
pub const CARD_COLOUR: u32 = 0x5865F2;

// ---------------------------------------------------------------------------
// Drafts on hold
// ---------------------------------------------------------------------------
/// A draft waiting on someone to confirm it.
#[derive(Debug)]
pub struct PendingDraft {
    /// The thread that it is about.
    pub channel_id: u64,
    /// Only this user may confirm, edit or cancel: it is their report.
    pub requester: u64,
    pub repo: Repo,
    pub draft: IssueDraft,
    pub available_labels: Vec<String>,
    pub transcript: Transcript,
    pub thread_url: String,
    pub reporter: String,
}

/// What a [`PendingDraft`] holds.
#[verifier::ext_equal]
pub struct PendingView {
    pub channel_id: u64,
    pub requester: u64,
    pub repo: RepoView,
    pub draft: DraftView,
    pub available_labels: Seq<Seq<char>>,
    pub transcript: TranscriptView,
    pub thread_url: Seq<char>,
    pub reporter: Seq<char>,
}

impl View for PendingDraft {
    type V = PendingView;

    open spec fn view(&self) -> PendingView {
        PendingView {
            channel_id: self.channel_id,
            requester: self.requester,
            repo: self.repo@,
            draft: self.draft@,
            available_labels: text::texts(self.available_labels@),
            transcript: self.transcript@,
            thread_url: self.thread_url@,
            reporter: self.reporter@,
        }
    }
}

impl Clone for PendingDraft {
    fn clone(&self) -> (r: Self)
        ensures
            r@ == self@,
    {
        PendingDraft {
            channel_id: self.channel_id,
            requester: self.requester,
            repo: self.repo.clone(),
            draft: self.draft.clone(),
            available_labels: text::copy_list(self.available_labels.as_slice()),
            transcript: self.transcript.clone(),
            thread_url: self.thread_url.clone(),
            reporter: self.reporter.clone(),
        }
    }
}

impl PendingDraft {
    /// The title it would be filed under.
    pub fn title_for_test(&self) -> (r: &str)
        ensures
            r@ == self@.draft.title,
    {
        self.draft.title.as_str()
    }
}

// ---------------------------------------------------------------------------
// The embed
// ---------------------------------------------------------------------------
/// A field of an embed, on lines of its own.
#[derive(Debug)]
pub struct Field {
    pub name: String,
    pub value: String,
}

/// What the card shows.
#[derive(Debug)]
pub struct Embed {
    pub title: String,
    pub description: String,
    pub fields: Vec<Field>,
    pub footer: String,
    pub colour: u32,
}

/// What an [`Embed`] holds, each field as its name and its value.
#[verifier::ext_equal]
pub struct EmbedView {
    pub title: Seq<char>,
    pub description: Seq<char>,
    pub fields: Seq<(Seq<char>, Seq<char>)>,
    pub footer: Seq<char>,
    pub colour: u32,
}

impl View for Embed {
    type V = EmbedView;

    open spec fn view(&self) -> EmbedView {
        EmbedView {
            title: self.title@,
            description: self.description@,
            fields: Seq::new(
                self.fields@.len(),
                |i: int| (self.fields@[i].name@, self.fields@[i].value@),
            ),
            footer: self.footer@,
            colour: self.colour,
        }
    }
}

/// Each label between backticks.
pub open spec fn ticked(labels: Seq<Seq<char>>) -> Seq<Seq<char>> {
    Seq::new(labels.len(), |i: int| "`"@ + labels[i] + "`"@)
}

/// The labels as the card shows them.
pub open spec fn labels_shown(labels: Seq<Seq<char>>) -> Seq<char> {
    if labels.len() == 0 {
        "_none_"@
    } else {
        text::joined(ticked(labels), " "@)
    }
}

/// The summary as the card shows it.
pub open spec fn summary_shown(summary: Seq<char>) -> Seq<char> {
    if summary.len() == 0 {
        "_No summary — the thread will be filed as-is._"@
    } else {
        transcript::clipped(summary, SUMMARY_PREVIEW as nat)
    }
}

/// `words`, where `holds`.
pub open spec fn words_if(holds: bool, words: Seq<char>) -> Seq<char> {
    if holds {
        words
    } else {
        Seq::empty()
    }
}

/// The card's last line.
pub open spec fn card_footer(p: PendingView) -> Seq<char> {
    number::decimal(p.transcript.total_messages) + " messages · requested by "@ + p.reporter
        + words_if(p.transcript.body_truncated, " · thread trimmed to fit"@) + words_if(
        !p.draft.from_model,
        " · drafted without the model"@,
    )
}

/// The card of a draft.
pub open spec fn embed_of(p: PendingView) -> EmbedView {
    EmbedView {
        title: "Draft issue"@,
        description: "Filing into **"@ + p.repo.slug() + "** once you confirm."@,
        fields: seq![
            ("Title"@, transcript::clipped(p.draft.title, TITLE_PREVIEW as nat)),
            ("Labels"@, labels_shown(p.draft.labels)),
            ("Summary"@, summary_shown(p.draft.summary)),
        ],
        footer: card_footer(p),
        colour: CARD_COLOUR,
    }
}

fn show_labels(labels: &[String]) -> (r: String)
    ensures
        r@ == labels_shown(text::texts(labels@)),
{
    if labels.len() == 0 {
        return "_none_".to_owned();
    }
    let mut parts: Vec<String> = Vec::new();
    let mut i: usize = 0;
    while i < labels.len()
        invariant
            i <= labels@.len(),
            text::texts(parts@) == ticked(text::texts(labels@)).take(i as int),
        decreases labels@.len() - i,
    {
        let ghost before = parts@;
        let mut part = "`".to_owned();
        part.append(labels[i].as_str());
        part.append("`");
        parts.push(part);
        proof {
            text::lemma_texts_push(before, part);
        }
        i += 1;
    }
    assert(text::texts(parts@) =~= ticked(text::texts(labels@)));
    text::join(parts.as_slice(), " ")
}

/// The card of a draft.
pub fn embed(pending: &PendingDraft) -> (r: Embed)
    ensures
        r@ == embed_of(pending@),
{
    let labels = show_labels(pending.draft.labels.as_slice());
    let summary = if text::count_chars(pending.draft.summary.as_str()) == 0 {
        "_No summary — the thread will be filed as-is._".to_owned()
    } else {
        transcript::truncate_chars(pending.draft.summary.as_str(), SUMMARY_PREVIEW).0
    };
    let mut footer = number::to_decimal(pending.transcript.total_messages as u128);
    footer.append(" messages · requested by ");
    footer.append(pending.reporter.as_str());
    if pending.transcript.body_truncated {
        footer.append(" · thread trimmed to fit");
    }
    if !pending.draft.from_model {
        footer.append(" · drafted without the model");
    }
    assert(footer@ =~= card_footer(pending@));
    let mut description = "Filing into **".to_owned();
    description.append(pending.repo.to_string().as_str());
    description.append("** once you confirm.");
    let mut fields: Vec<Field> = Vec::new();
    fields.push(
        Field {
            name: "Title".to_owned(),
            value: transcript::truncate_chars(pending.draft.title.as_str(), TITLE_PREVIEW).0,
        },
    );
    fields.push(Field { name: "Labels".to_owned(), value: labels });
    fields.push(Field { name: "Summary".to_owned(), value: summary });
    let r = Embed {
        title: "Draft issue".to_owned(),
        description,
        fields,
        footer,
        colour: CARD_COLOUR,
    };
    assert(r@.fields =~= embed_of(pending@).fields);
    r
}

// ---------------------------------------------------------------------------
// The label menu
// ---------------------------------------------------------------------------
/// An option of the label menu.
#[derive(Debug)]
pub struct SelectOption {
    pub label: String,
    pub value: String,
    /// Whether it comes ticked.
    pub default: bool,
}

/// What a [`SelectOption`] holds.
#[verifier::ext_equal]
pub struct OptionView {
    pub label: Seq<char>,
    pub value: Seq<char>,
    pub default: bool,
}

impl View for SelectOption {
    type V = OptionView;

    open spec fn view(&self) -> OptionView {
        OptionView { label: self.label@, value: self.value@, default: self.default }
    }
}

/// What a list of options holds.
pub open spec fn option_views(v: Seq<SelectOption>) -> Seq<OptionView> {
    Seq::new(v.len(), |i: int| v[i]@)
}

/// The chosen labels that the repository has, then the labels that were not
/// chosen, as many as fit in a menu.
pub open spec fn offered(available: Seq<Seq<char>>, chosen: Seq<Seq<char>>) -> Seq<Seq<char>> {
    let all = chosen.filter(|c: Seq<char>| available.contains(c)) + available.filter(
        |a: Seq<char>| !chosen.contains(a),
    );
    if all.len() <= MAX_SELECT_OPTIONS {
        all
    } else {
        all.take(MAX_SELECT_OPTIONS as int)
    }
}

/// The option for `label`: ticked where it is chosen.
pub open spec fn option_of(label: Seq<char>, chosen: Seq<Seq<char>>) -> OptionView {
    OptionView {
        label: transcript::clipped(label, OPTION_LABEL_CHARS as nat),
        value: label,
        default: chosen.contains(label),
    }
}

/// The options of the label menu.
pub open spec fn options_of(available: Seq<Seq<char>>, chosen: Seq<Seq<char>>) -> Seq<OptionView> {
    Seq::new(
        offered(available, chosen).len(),
        |i: int| option_of(offered(available, chosen)[i], chosen),
    )
}

/// The labels of `list` that `other` has, or those that it has not.
fn sift(list: &[String], other: &[String], present: bool) -> (r: Vec<String>)
    ensures
        text::texts(r@) == text::texts(list@).filter(
            |s: Seq<char>| text::texts(other@).contains(s) == present,
        ),
{
    let ghost all = text::texts(list@);
    let ghost keep = |s: Seq<char>| text::texts(other@).contains(s) == present;
    let mut out: Vec<String> = Vec::new();
    let mut i: usize = 0;
    proof {
        reveal(Seq::filter);
        assert(all.take(0) =~= Seq::<Seq<char>>::empty());
        assert(text::texts(out@) =~= all.take(0).filter(keep));
    }
    while i < list.len()
        invariant
            i <= list@.len(),
            all == text::texts(list@),
            keep == (|s: Seq<char>| text::texts(other@).contains(s) == present),
            text::texts(out@) == all.take(i as int).filter(keep),
        decreases list@.len() - i,
    {
        proof {
            reveal(Seq::filter);
            assert(all.take(i + 1).drop_last() =~= all.take(i as int));
            assert(all.take(i + 1).last() == list@[i as int]@);
        }
        if text::lists(other, list[i].as_str()) == present {
            let ghost before = out@;
            let label = list[i].clone();
            out.push(label);
            proof {
                text::lemma_texts_push(before, label);
            }
        }
        i += 1;
    }
    assert(all.take(i as int) =~= all);
    out
}

/// Chosen labels first and pre-ticked, then the rest, capped at Discord's 25.
///
/// The cap matters: a repo with more than 25 labels would otherwise be
/// rejected outright by Discord, so the model's picks have to survive it.
pub fn label_options(available: &[String], chosen: &[String]) -> (r: Vec<SelectOption>)
    ensures
        option_views(r@) == options_of(text::texts(available@), text::texts(chosen@)),
{
    let ghost has = text::texts(available@);
    let ghost picks = text::texts(chosen@);
    let mut ordered = sift(chosen, available, true);
    let ghost first = ordered@;
    let mut rest = sift(available, chosen, false);
    let ghost second = rest@;
    ordered.append(&mut rest);
    proof {
        let f = |c: Seq<char>| has.contains(c);
        let g = |c: Seq<char>| has.contains(c) == true;
        assert(f =~= g);
        let h = |a: Seq<char>| !picks.contains(a);
        let k = |a: Seq<char>| picks.contains(a) == false;
        assert(h =~= k);
        assert(text::texts(ordered@) =~= text::texts(first) + text::texts(second));
    }
    if ordered.len() > MAX_SELECT_OPTIONS {
        ordered.truncate(MAX_SELECT_OPTIONS);
    }
    assert(text::texts(ordered@) =~= offered(has, picks));
    let mut out: Vec<SelectOption> = Vec::new();
    let mut i: usize = 0;
    while i < ordered.len()
        invariant
            i <= ordered@.len(),
            picks == text::texts(chosen@),
            text::texts(ordered@) == offered(has, picks),
            option_views(out@) == options_of(has, picks).take(i as int),
        decreases ordered@.len() - i,
    {
        let ghost before = out@;
        let label = ordered[i].clone();
        assert(offered(has, picks)[i as int] == label@);
        let option = SelectOption {
            label: transcript::truncate_chars(label.as_str(), OPTION_LABEL_CHARS).0,
            default: text::lists(chosen, label.as_str()),
            value: label,
        };
        out.push(option);
        assert(option_views(out@) =~= option_views(before).push(option@));
        i += 1;
    }
    assert(option_views(out@) =~= options_of(has, picks));
    out
}

// ---------------------------------------------------------------------------
// The controls
// ---------------------------------------------------------------------------
/// How a button looks.
#[derive(Clone, Copy, Debug, PartialEq, Eq, Structural)]
pub enum Style {
    Success,
    Secondary,
    Danger,
}

/// A button.
#[derive(Debug)]
pub struct Button {
    pub custom_id: String,
    pub label: String,
    pub style: Style,
}

/// What a [`Button`] holds.
#[verifier::ext_equal]
pub struct ButtonView {
    pub custom_id: Seq<char>,
    pub label: Seq<char>,
    pub style: Style,
}

impl View for Button {
    type V = ButtonView;

    open spec fn view(&self) -> ButtonView {
        ButtonView { custom_id: self.custom_id@, label: self.label@, style: self.style }
    }
}

/// A menu of which several options may be picked.
#[derive(Debug)]
pub struct Menu {
    pub custom_id: String,
    pub placeholder: String,
    pub min_values: u8,
    pub max_values: u8,
    pub options: Vec<SelectOption>,
}

/// What a [`Menu`] holds.
#[verifier::ext_equal]
pub struct MenuView {
    pub custom_id: Seq<char>,
    pub placeholder: Seq<char>,
    pub min_values: u8,
    pub max_values: u8,
    pub options: Seq<OptionView>,
}

impl View for Menu {
    type V = MenuView;

    open spec fn view(&self) -> MenuView {
        MenuView {
            custom_id: self.custom_id@,
            placeholder: self.placeholder@,
            min_values: self.min_values,
            max_values: self.max_values,
            options: option_views(self.options@),
        }
    }
}

/// A row of controls under the card.
#[derive(Debug)]
pub enum Row {
    SelectMenu(Menu),
    Buttons(Vec<Button>),
}

/// What a [`Row`] holds.
#[verifier::ext_equal]
pub enum RowView {
    SelectMenu(MenuView),
    Buttons(Seq<ButtonView>),
}

impl View for Row {
    type V = RowView;

    open spec fn view(&self) -> RowView {
        match self {
            Row::SelectMenu(menu) => RowView::SelectMenu(menu@),
            Row::Buttons(buttons) => RowView::Buttons(
                Seq::new(buttons@.len(), |i: int| buttons@[i]@),
            ),
        }
    }
}

/// What a list of rows holds.
pub open spec fn row_views(v: Seq<Row>) -> Seq<RowView> {
    Seq::new(v.len(), |i: int| v[i]@)
}

/// How many labels may be picked where `n` are on offer.
pub open spec fn most_picks(n: nat) -> u8 {
    if n < MAX_LABELS {
        n as u8
    } else {
        MAX_LABELS as u8
    }
}

/// The menu that offers `options`.
pub open spec fn menu_of(options: Seq<OptionView>) -> MenuView {
    MenuView {
        custom_id: LABELS@,
        placeholder: "Labels"@,
        min_values: 0,
        max_values: most_picks(options.len()),
        options,
    }
}

/// The buttons that every card has.
pub open spec fn buttons_of() -> Seq<ButtonView> {
    seq![
        ButtonView { custom_id: CREATE@, label: "Create issue"@, style: Style::Success },
        ButtonView { custom_id: EDIT@, label: "Edit title"@, style: Style::Secondary },
        ButtonView { custom_id: CANCEL@, label: "Cancel"@, style: Style::Danger },
    ]
}

/// The controls under the card: the label menu, where there is a label to
/// offer, then the buttons.
pub open spec fn components_of(p: PendingView) -> Seq<RowView> {
    let options = options_of(p.available_labels, p.draft.labels);
    if options.len() == 0 {
        seq![RowView::Buttons(buttons_of())]
    } else {
        seq![RowView::SelectMenu(menu_of(options)), RowView::Buttons(buttons_of())]
    }
}

fn make_buttons() -> (r: Row)
    ensures
        r@ == RowView::Buttons(buttons_of()),
{
    let mut buttons: Vec<Button> = Vec::new();
    buttons.push(
        Button {
            custom_id: CREATE.to_owned(),
            label: "Create issue".to_owned(),
            style: Style::Success,
        },
    );
    buttons.push(
        Button {
            custom_id: EDIT.to_owned(),
            label: "Edit title".to_owned(),
            style: Style::Secondary,
        },
    );
    buttons.push(
        Button {
            custom_id: CANCEL.to_owned(),
            label: "Cancel".to_owned(),
            style: Style::Danger,
        },
    );
    let r = Row::Buttons(buttons);
    assert(r@->Buttons_0 =~= buttons_of());
    r
}

/// The controls under the card.
pub fn components(pending: &PendingDraft) -> (r: Vec<Row>)
    ensures
        row_views(r@) == components_of(pending@),
{
    let mut rows: Vec<Row> = Vec::new();
    let options = label_options(
        pending.available_labels.as_slice(),
        pending.draft.labels.as_slice(),
    );
    let ghost all = options_of(pending@.available_labels, pending@.draft.labels);
    assert(option_views(options@).len() == options@.len());
    if options.len() > 0 {
        let max_values: u8 = if options.len() < MAX_LABELS {
            options.len() as u8
        } else {
            MAX_LABELS as u8
        };
        rows.push(
            Row::SelectMenu(
                Menu {
                    custom_id: LABELS.to_owned(),
                    placeholder: "Labels".to_owned(),
                    min_values: 0,
                    max_values,
                    options,
                },
            ),
        );
    }
    rows.push(make_buttons());
    assert(row_views(rows@) =~= components_of(pending@));
    rows
}

/// The editor for the title: one prefilled line.
#[derive(Debug)]
pub struct Modal {
    pub custom_id: String,
    pub title: String,
    pub input_label: String,
    pub input_id: String,
    pub value: String,
    pub max_length: u16,
    pub required: bool,
}

/// What a [`Modal`] holds.
#[verifier::ext_equal]
pub struct ModalView {
    pub custom_id: Seq<char>,
    pub title: Seq<char>,
    pub input_label: Seq<char>,
    pub input_id: Seq<char>,
    pub value: Seq<char>,
    pub max_length: u16,
    pub required: bool,
}

impl View for Modal {
    type V = ModalView;

    open spec fn view(&self) -> ModalView {
        ModalView {
            custom_id: self.custom_id@,
            title: self.title@,
            input_label: self.input_label@,
            input_id: self.input_id@,
            value: self.value@,
            max_length: self.max_length,
            required: self.required,
        }
    }
}

/// The editor that opens on `current_title`.
pub open spec fn modal_of(current_title: Seq<char>) -> ModalView {
    ModalView {
        custom_id: TITLE_MODAL@,
        title: "Edit the issue title"@,
        input_label: "Title"@,
        input_id: TITLE_INPUT@,
        value: transcript::clipped(current_title, TITLE_INPUT_CHARS as nat),
        max_length: TITLE_INPUT_CHARS,
        required: true,
    }
}

/// The modal behind **Edit title**: one prefilled line.
pub fn title_modal(current_title: &str) -> (r: Modal)
    ensures
        r@ == modal_of(current_title@),
{
    Modal {
        custom_id: TITLE_MODAL.to_owned(),
        title: "Edit the issue title".to_owned(),
        input_label: "Title".to_owned(),
        input_id: TITLE_INPUT.to_owned(),
        value: transcript::truncate_chars(current_title, TITLE_INPUT_CHARS as usize).0,
        max_length: TITLE_INPUT_CHARS,
        required: true,
    }
}

} // verus!
