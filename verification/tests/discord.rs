use std::collections::HashMap;

use discord_issue_bot::card::{PendingDraft, CANCEL, CREATE, EDIT, LABELS, TITLE_INPUT, TITLE_MODAL};
use discord_issue_bot::config::{Config, Limits, Repo};
use discord_issue_bot::discord::{
    calls_bot, draft_or_fallback, explain_failed_filing, explain_failure, is_call_in, opening_of,
    prepare, valid_labels, Admission, BotState, CardAction, ChannelKind, Edit, Mention, Press,
    Submission, SECOND,
};
use discord_issue_bot::github::{CreatedIssue, LabelSource};
use discord_issue_bot::json::Json;
use discord_issue_bot::llm::{IssueDraft, MAX_LABELS};
use discord_issue_bot::transcript::{build, ThreadMessage, Transcript};

fn test_config() -> Config {
    Config {
        discord_token: "t".into(),
        openai_api_key: "sk-test".into(),
        openai_model: "gpt-4o-mini".into(),
        openai_base_url: "http://unused".into(),
        github_token: "g".into(),
        default_repo: Some("octocat/hello".parse::<Repo>().unwrap()),
        guild_repos: HashMap::new(),
        allowed_role_ids: vec![],
        limits: Limits::default(),
        port: 0,
    }
}

fn state() -> BotState {
    BotState::new(test_config())
}

fn messages() -> Vec<ThreadMessage> {
    vec![ThreadMessage {
        author: "alice".into(),
        timestamp: "2026-09-24T10:00:00Z".into(),
        content: "the export button 500s".into(),
        assets: vec![],
    }]
}

fn script() -> Transcript {
    build(&messages(), &Limits::default())
}

fn pending() -> PendingDraft {
    PendingDraft {
        channel_id: 7,
        requester: 99,
        repo: "octocat/hello".parse().unwrap(),
        draft: IssueDraft {
            title: "Export returns 500".into(),
            summary: "**What's happening**\nIt 500s.".into(),
            labels: vec!["bug".into()],
            from_model: true,
        },
        available_labels: vec!["bug".into(), "p2".into()],
        transcript: script(),
        thread_url: "https://discord.com/channels/1/7".into(),
        reporter: "alice".into(),
    }
}

fn mention(channel: u64, author: u64) -> Mention {
    Mention {
        guild_id: 1,
        channel_id: channel,
        channel_kind: ChannelKind::PublicThread,
        author,
        roles: vec![],
    }
}

fn press(card_id: u64, user: u64, id: &str) -> Press {
    Press {
        card_id,
        user,
        custom_id: id.to_owned(),
        values: None,
    }
}

fn submission(card_id: u64, user: u64, title: &str) -> Submission {
    Submission {
        custom_id: TITLE_MODAL.to_owned(),
        card_id: Some(card_id),
        user,
        inputs: vec![(TITLE_INPUT.to_owned(), Some(title.to_owned()))],
    }
}

#[test]
fn edits_apply_to_the_stored_draft() {
    let mut state = state();
    let card = 1;
    state.open_card(card, pending());

    let updated = state.mutate(card, Edit::Title("Better title".into())).unwrap();
    assert_eq!(updated.title_for_test(), "Better title");
    // The edit must be persisted, not just returned.
    assert_eq!(
        state.lookup(card).unwrap().title_for_test(),
        "Better title"
    );
}

#[test]
fn a_draft_that_is_gone_reads_as_gone() {
    let mut state = state();
    assert!(state.lookup(404).is_none());
    assert!(state.mutate(404, Edit::Labels(vec![])).is_err());
    assert_eq!(
        state.mutate(404, Edit::Title("t".into())).unwrap_err(),
        "this draft is no longer open"
    );
}

#[test]
fn filing_is_blocked_while_a_card_is_open_in_the_thread() {
    let mut state = state();
    state.open_card(1, pending());
    let open = state.has_open_draft(7);
    assert!(open, "a second @issue in the same thread must find the open card");
    assert!(!state.has_open_draft(8));
    let Admission::Refused(reason) = state.consider(&mention(7, 5), 0) else { panic!("granted") };
    assert_eq!(
        reason,
        "there's already a draft waiting in this thread — confirm or cancel it first"
    );
}

#[test]
fn label_picks_are_checked_against_the_repo() {
    let available = vec![
        "bug".to_owned(),
        "p2".to_owned(),
        "docs".to_owned(),
        "ux".to_owned(),
    ];
    // A label deleted on GitHub while the card was open.
    assert_eq!(
        valid_labels(&["bug".into(), "deleted".into()], &available),
        vec!["bug"]
    );
    // Duplicates collapse.
    assert_eq!(
        valid_labels(&["bug".into(), "bug".into()], &available),
        vec!["bug"]
    );
    // More than we allow is trimmed even if Discord sent it.
    assert_eq!(
        valid_labels(
            &["bug".into(), "p2".into(), "docs".into(), "ux".into()],
            &available
        )
        .len(),
        MAX_LABELS
    );
}

#[test]
fn calls_are_told_from_chatter() {
    assert!(calls_bot(false, true, true, ""));
    assert!(calls_bot(false, true, false, "please @ISSUE this"));
    assert!(calls_bot(false, true, false, "@İssue @issue"));
    assert!(!calls_bot(false, true, false, "an issue @ work"));
    assert!(!calls_bot(true, true, true, "@issue"));
    assert!(!calls_bot(false, false, true, "@issue"));
    // Small letters are for the caller to make.
    assert!(!is_call_in(false, true, false, "@ISSUE"));
    assert!(is_call_in(false, true, false, "x@issuey"));
}

#[test]
fn requests_are_granted_once_per_thread() {
    let mut s = state();
    let Admission::Run(repo) = s.consider(&mention(7, 5), 0) else { panic!("refused") };
    assert_eq!(repo.to_string(), "octocat/hello");
    // Another user, while the first run is under way.
    let second = s.consider(&mention(7, 6), 0);
    assert!(matches!(second, Admission::Ignored));
    assert_eq!(second.reply(), None);
    s.release(7);
    assert!(matches!(s.consider(&mention(7, 8), 0), Admission::Run(_)));
}

#[test]
fn only_threads_make_issues() {
    let mut s = state();
    for (kind, ok) in [
        (ChannelKind::PublicThread, true),
        (ChannelKind::PrivateThread, true),
        (ChannelKind::NewsThread, true),
        (ChannelKind::Other, false),
        (ChannelKind::Outside, false),
    ] {
        let mut m = mention(7, 5);
        m.channel_kind = kind;
        let outcome = s.consider(&m, 0);
        assert_eq!(matches!(outcome, Admission::Run(_)), ok);
        if kind == ChannelKind::Other {
            assert_eq!(
                outcome.reply().unwrap(),
                "Mention me **inside a thread** and I'll turn it into a GitHub issue."
            );
        }
        if kind == ChannelKind::Outside {
            assert!(matches!(outcome, Admission::Ignored));
        }
        s = state();
    }
}

#[test]
fn roles_restrict_who_can_ask() {
    let mut cfg = test_config();
    cfg.allowed_role_ids = vec![10, 20];
    let mut s = BotState::new(cfg);
    let outcome = s.consider(&mention(7, 5), 0);
    assert_eq!(
        outcome.reply().unwrap(),
        "Could not draft the issue: you don't have a role that's allowed to file issues here"
    );
    let mut m = mention(7, 5);
    m.roles = vec![3, 20];
    assert!(matches!(s.consider(&m, 0), Admission::Run(_)));
}

#[test]
fn a_server_needs_a_repo() {
    let mut cfg = test_config();
    cfg.default_repo = None;
    cfg.guild_repos.insert(2, "a/b".parse().unwrap());
    let mut s = BotState::new(cfg);
    let Admission::Refused(reason) = s.consider(&mention(7, 5), 0) else { panic!("granted") };
    assert_eq!(reason, "no GitHub repo is configured for this server");
    let mut m = mention(7, 5);
    m.guild_id = 2;
    assert!(matches!(s.consider(&m, 0), Admission::Run(repo) if repo.to_string() == "a/b"));
}

#[test]
fn one_request_per_user_per_window() {
    let mut s = state();
    assert!(matches!(s.consider(&mention(7, 5), 100), Admission::Run(_)));
    let Admission::Refused(reason) = s.consider(&mention(8, 5), 100) else { panic!("granted") };
    assert_eq!(reason, "slow down a moment — try again in 21s");
    let Admission::Refused(reason) = s.consider(&mention(8, 5), 100 + 20 * SECOND - 1) else {
        panic!("granted")
    };
    assert_eq!(reason, "slow down a moment — try again in 1s");
    // Someone else is not held up, and the window ends.
    assert!(matches!(s.consider(&mention(8, 6), 101), Admission::Run(_)));
    assert!(matches!(s.consider(&mention(9, 5), 100 + 20 * SECOND), Admission::Run(_)));
}

#[test]
fn a_large_table_of_cooldowns_is_tidied_without_forgiving_anyone() {
    let mut s = state();
    for user in 0..1_500 {
        assert!(matches!(s.consider(&mention(10_000 + user, user), 0), Admission::Run(_)));
    }
    for user in 0..1_500 {
        assert!(matches!(s.consider(&mention(20_000 + user, user), SECOND), Admission::Refused(_)));
    }
    for user in 0..1_500 {
        let m = mention(20_000 + user, user);
        assert!(matches!(s.consider(&m, 20 * SECOND), Admission::Run(_)));
    }
}

#[test]
fn a_card_that_is_posted_ends_the_run() {
    let mut s = state();
    assert!(matches!(s.consider(&mention(7, 99), 0), Admission::Run(_)));
    s.open_card(1, pending());
    assert!(matches!(s.on_component(&press(1, 99, CANCEL)), CardAction::Close(_)));
    assert!(matches!(s.consider(&mention(7, 5), 0), Admission::Run(_)));
}

#[test]
fn drafts_are_prepared_from_the_call() {
    assert_eq!(opening_of(&messages()).unwrap(), "the export button 500s");
    assert_eq!(opening_of(&[]).unwrap_err(), "I couldn't read any messages in this thread");
    let raw = draft_or_fallback(None, " first line \nsecond");
    assert_eq!(raw.title, "first line");
    assert!(!raw.from_model);
    let kept = draft_or_fallback(Some(pending().draft), "x");
    assert_eq!(kept.title, "Export returns 500");
    let p = prepare(
        &mention(7, 5),
        "bob".into(),
        "a/b".parse().unwrap(),
        kept,
        vec!["bug".into()],
        script(),
    );
    assert_eq!(p.thread_url, "https://discord.com/channels/1/7");
    assert_eq!((p.channel_id, p.requester), (7, 5));
    assert_eq!((p.repo.to_string().as_str(), p.reporter.as_str()), ("a/b", "bob"));
}

#[test]
fn only_the_requester_files() {
    let mut s = state();
    s.open_card(1, pending());
    let CardAction::Tell(text) = s.on_component(&press(1, 5, CREATE)) else { panic!("allowed") };
    assert_eq!(
        text,
        "Only alice can confirm this draft. Run `@issue` yourself to make your own."
    );
    let CardAction::File(p, request) = s.on_component(&press(1, 99, CREATE)) else {
        panic!("not filed")
    };
    assert_eq!(p.title_for_test(), "Export returns 500");
    assert_eq!(request.url, "https://api.github.com/repos/octocat/hello/issues");
    assert_eq!(request.token, "g");
    let Some(Json::Object(members)) = request.payload else { panic!("no payload") };
    let keys: Vec<&str> = members.iter().map(|m| m.key.as_str()).collect();
    assert_eq!(keys, vec!["title", "body", "labels"]);
    assert!(matches!(&members[1].value, Json::Text(body)
        if body.starts_with("**What's happening**\nIt 500s.\n\n---\n\n### Thread\n\n")
            && body.ends_with("<sub>Filed from Discord by alice.</sub>")));
    // A filing that failed can be tried again.
    assert_eq!(explain_failed_filing("boom"), "Could not file the issue: boom");
    assert!(matches!(s.on_component(&press(1, 99, CREATE)), CardAction::File(..)));
}

#[test]
fn filed_threads_get_their_link() {
    let mut s = state();
    s.open_card(1, pending());
    let CardAction::File(p, _) = s.on_component(&press(1, 99, CREATE)) else { panic!("not filed") };
    let issue = CreatedIssue { number: 12, html_url: "https://x/12".into() };
    assert_eq!(s.settle_filing(1, &p, &issue), "Filed: https://x/12");
    assert!(s.lookup(1).is_none());
    let outcome = s.consider(&mention(7, 5), 0);
    assert!(matches!(&outcome, Admission::AlreadyFiled(url) if url == "https://x/12"));
    assert_eq!(outcome.reply().unwrap(), "This thread already has an issue: https://x/12");
    // The card is spent.
    assert!(matches!(s.on_component(&press(1, 99, CREATE)), CardAction::Tell(_)));
}

#[test]
fn cancelled_drafts_are_gone() {
    let mut s = state();
    s.open_card(1, pending());
    let CardAction::Close(text) = s.on_component(&press(1, 99, CANCEL)) else { panic!("kept") };
    assert_eq!(text, "Cancelled — nothing was filed.");
    for id in [CREATE, EDIT, CANCEL, LABELS] {
        let CardAction::Tell(text) = s.on_component(&press(1, 99, id)) else { panic!("{id}") };
        assert_eq!(text, "This draft is no longer open — run `@issue` again to start over.");
    }
    assert!(matches!(s.on_modal(&submission(1, 99, "t")), CardAction::Tell(_)));
    assert!(!s.has_open_draft(7));
}

#[test]
fn labels_are_picked_from_the_menu() {
    let mut s = state();
    s.open_card(1, pending());
    let mut p = press(1, 99, LABELS);
    assert!(matches!(s.on_component(&p), CardAction::Nothing));
    p.values = Some(vec!["p2".into(), "gone".into(), "p2".into()]);
    let CardAction::Redraw(updated) = s.on_component(&p) else { panic!("not redrawn") };
    assert_eq!(updated.draft.labels, vec!["p2"]);
    assert_eq!(s.lookup(1).unwrap().draft.labels, vec!["p2"]);
    // A stranger's picks do not count.
    p.user = 5;
    p.values = Some(vec!["bug".into()]);
    assert!(matches!(s.on_component(&p), CardAction::Tell(_)));
    assert_eq!(s.lookup(1).unwrap().draft.labels, vec!["p2"]);
}

#[test]
fn the_title_is_edited_in_a_modal() {
    let mut s = state();
    s.open_card(1, pending());
    let CardAction::Ask(modal) = s.on_component(&press(1, 99, EDIT)) else { panic!("no modal") };
    assert_eq!(modal.value, "Export returns 500");
    let CardAction::Redraw(updated) = s.on_modal(&submission(1, 99, "  Better title ")) else {
        panic!("not redrawn")
    };
    assert_eq!(updated.title_for_test(), "Better title");
    assert_eq!(s.lookup(1).unwrap().title_for_test(), "Better title");
    // Blank titles, strangers and other modals change nothing.
    assert!(matches!(s.on_modal(&submission(1, 99, " \n")), CardAction::Nothing));
    assert!(matches!(s.on_modal(&submission(1, 5, "mine")), CardAction::Nothing));
    let mut other = submission(1, 99, "x");
    other.custom_id = "other".into();
    assert!(matches!(s.on_modal(&other), CardAction::Nothing));
    let mut nowhere = submission(1, 99, "x");
    nowhere.card_id = None;
    assert!(matches!(s.on_modal(&nowhere), CardAction::Nothing));
    assert_eq!(s.lookup(1).unwrap().title_for_test(), "Better title");
}

#[test]
fn the_first_line_that_holds_a_title_counts() {
    let mut s = state();
    s.open_card(1, pending());
    let mut m = submission(1, 99, "unused");
    m.inputs = vec![
        ("other".into(), Some("no".into())),
        (TITLE_INPUT.into(), None),
        (TITLE_INPUT.into(), Some("yes".into())),
        (TITLE_INPUT.into(), Some("too late".into())),
    ];
    let CardAction::Redraw(updated) = s.on_modal(&m) else { panic!("not redrawn") };
    assert_eq!(updated.title_for_test(), "yes");
    m.inputs.clear();
    assert!(matches!(s.on_modal(&m), CardAction::Nothing));
}

#[test]
fn unknown_controls_are_left_alone() {
    let mut s = state();
    s.open_card(1, pending());
    assert!(matches!(s.on_component(&press(1, 99, "other.button")), CardAction::Nothing));
    assert!(matches!(s.on_component(&press(2, 99, CREATE)), CardAction::Tell(_)));
}

#[test]
fn a_restart_orphans_every_card() {
    let mut s = state();
    for id in [CREATE, EDIT, CANCEL, LABELS] {
        let CardAction::Tell(text) = s.on_component(&press(1, 99, id)) else { panic!("{id}") };
        assert_eq!(text, "This draft is no longer open — run `@issue` again to start over.");
    }
}

#[test]
fn replies_fit_in_a_message() {
    let text = explain_failure(&"x".repeat(3_000));
    assert_eq!(text.chars().count(), 1_900);
    assert!(text.starts_with("Could not draft the issue: xxx"));
    assert!(text.ends_with(" … [truncated]"));
    assert_eq!(explain_failure("no"), "Could not draft the issue: no");
}

#[test]
fn the_state_remembers_labels() {
    let mut s = state();
    let repo: Repo = "octocat/hello".parse().unwrap();
    assert!(matches!(s.labels(&repo, 0), LabelSource::Fetch(_)));
    assert_eq!(s.settle_labels(&repo, Some(vec!["bug".into()]), 0), vec!["bug"]);
    assert!(matches!(s.labels(&repo, 1), LabelSource::Cached(l) if l == vec!["bug"]));
    assert_eq!(s.cfg().openai_model, "gpt-4o-mini");
}
