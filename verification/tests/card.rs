use discord_issue_bot::card::{
    components, embed, label_options, title_modal, PendingDraft, Row, Style, CANCEL, CREATE, EDIT,
    LABELS, MAX_SELECT_OPTIONS, TITLE_INPUT, TITLE_MODAL,
};
use discord_issue_bot::config::Limits;
use discord_issue_bot::llm::IssueDraft;
use discord_issue_bot::transcript::{build, ThreadMessage};

fn names(n: usize) -> Vec<String> {
    (0..n).map(|i| format!("label-{i}")).collect()
}

fn pending() -> PendingDraft {
    PendingDraft {
        channel_id: 7,
        requester: 99,
        repo: "octocat/hello".parse().unwrap(),
        draft: IssueDraft {
            title: "Export returns 500".into(),
            summary: "It 500s.".into(),
            labels: vec!["bug".into(), "p2".into()],
            from_model: true,
        },
        available_labels: vec!["p2".into(), "docs".into(), "bug".into()],
        transcript: build(
            &[ThreadMessage {
                author: "alice".into(),
                timestamp: "2026-09-24T10:00:00Z".into(),
                content: "the export button 500s".into(),
                assets: vec![],
            }],
            &Limits::default(),
        ),
        thread_url: "https://discord.com/channels/1/7".into(),
        reporter: "alice".into(),
    }
}

#[test]
fn chosen_labels_come_first_and_survive_the_25_cap() {
    let available = names(40);
    let chosen = vec!["label-30".to_owned(), "label-39".to_owned()];
    let options = label_options(&available, &chosen);

    assert_eq!(options.len(), MAX_SELECT_OPTIONS, "Discord rejects more than 25");
    assert_eq!(options[0].value, "label-30");
    assert_eq!(options[1].value, "label-39");
    assert!(
        options[0].default,
        "the model's picks must come back ticked"
    );
    assert!(!options[2].default);
}

#[test]
fn a_repo_without_labels_gets_no_menu() {
    assert!(label_options(&[], &[]).is_empty());
}

#[test]
fn a_stale_label_choice_is_not_offered() {
    let options = label_options(&["bug".to_owned()], &["deleted-label".to_owned()]);
    assert_eq!(options.len(), 1);
    assert_eq!(options[0].value, "bug");
}

#[test]
fn long_labels_are_shown_cut_but_picked_whole() {
    let long = "l".repeat(150);
    let options = label_options(&[long.clone()], &[]);
    assert_eq!(options[0].value, long);
    assert_eq!(options[0].label, format!("{} … [truncated]", "l".repeat(86)));
}

#[test]
fn the_card_shows_the_draft() {
    let e = embed(&pending());
    assert_eq!(e.title, "Draft issue");
    assert_eq!(e.description, "Filing into **octocat/hello** once you confirm.");
    let fields: Vec<(&str, &str)> =
        e.fields.iter().map(|f| (f.name.as_str(), f.value.as_str())).collect();
    assert_eq!(
        fields,
        vec![("Title", "Export returns 500"), ("Labels", "`bug` `p2`"), ("Summary", "It 500s.")]
    );
    assert_eq!(e.footer, "1 messages · requested by alice");
    assert_eq!(e.colour, 0x5865F2);
}

#[test]
fn the_card_owns_up_to_what_is_missing() {
    let mut p = pending();
    p.draft.labels.clear();
    p.draft.summary.clear();
    p.draft.from_model = false;
    p.transcript.body_truncated = true;
    p.transcript.total_messages = 12;
    let e = embed(&p);
    assert_eq!(e.fields[1].value, "_none_");
    assert_eq!(e.fields[2].value, "_No summary — the thread will be filed as-is._");
    assert_eq!(
        e.footer,
        "12 messages · requested by alice · thread trimmed to fit · drafted without the model"
    );
    p.draft.summary = "s".repeat(1_001);
    p.draft.title = "t".repeat(1_001);
    let e = embed(&p);
    assert_eq!(e.fields[0].value, format!("{} … [truncated]", "t".repeat(986)));
    assert_eq!(e.fields[2].value, format!("{} … [truncated]", "s".repeat(986)));
}

#[test]
fn the_controls_are_a_menu_and_three_buttons() {
    let rows = components(&pending());
    assert_eq!(rows.len(), 2);
    let Row::SelectMenu(menu) = &rows[0] else { panic!("no menu") };
    assert_eq!(menu.custom_id, LABELS);
    assert_eq!(menu.placeholder, "Labels");
    assert_eq!((menu.min_values, menu.max_values), (0, 3));
    let values: Vec<&str> = menu.options.iter().map(|o| o.value.as_str()).collect();
    assert_eq!(values, vec!["bug", "p2", "docs"]);
    let Row::Buttons(buttons) = &rows[1] else { panic!("no buttons") };
    let shown: Vec<(&str, &str, Style)> =
        buttons.iter().map(|b| (b.custom_id.as_str(), b.label.as_str(), b.style)).collect();
    assert_eq!(
        shown,
        vec![
            (CREATE, "Create issue", Style::Success),
            (EDIT, "Edit title", Style::Secondary),
            (CANCEL, "Cancel", Style::Danger),
        ]
    );
    assert_eq!((CREATE, EDIT, CANCEL), ("issue.create", "issue.edit", "issue.cancel"));
}

#[test]
fn the_menu_is_left_out_without_labels() {
    let mut p = pending();
    p.available_labels.clear();
    let rows = components(&p);
    assert_eq!(rows.len(), 1);
    assert!(matches!(rows[0], Row::Buttons(_)));
    p.available_labels = vec!["bug".into()];
    let Row::SelectMenu(menu) = &components(&p)[0] else { panic!("no menu") };
    assert_eq!(menu.max_values, 1);
}

#[test]
fn the_editor_opens_on_the_title() {
    let m = title_modal(&"t".repeat(300));
    assert_eq!(m.custom_id, TITLE_MODAL);
    assert_eq!(m.title, "Edit the issue title");
    assert_eq!(m.input_label, "Title");
    assert_eq!(m.input_id, TITLE_INPUT);
    assert_eq!(m.value, format!("{} … [truncated]", "t".repeat(186)));
    assert_eq!(m.max_length, 200);
    assert!(m.required);
    assert_eq!(title_modal("short").value, "short");
}
