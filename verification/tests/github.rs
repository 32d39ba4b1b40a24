use std::collections::HashMap;

use discord_issue_bot::card::{PendingDraft, CREATE};
use discord_issue_bot::config::{Config, Limits, Repo};
use discord_issue_bot::discord::{BotState, CardAction, Press};
use discord_issue_bot::github::{
    check, hint, judge_reply, CreatedIssue, GitHub, LabelSource, Method, LABEL_TTL,
};
use discord_issue_bot::json::Json;
use discord_issue_bot::llm::fallback;
use discord_issue_bot::transcript::build;
use serde_json::Value;

fn repo() -> Repo {
    "octocat/hello".parse().unwrap()
}

/// A bot that was just told to file the draft of card 1, and that draft.
fn filing() -> (BotState, PendingDraft) {
    let mut state = BotState::new(Config {
        discord_token: "t".into(),
        openai_api_key: "sk-test".into(),
        openai_model: "gpt-4o-mini".into(),
        openai_base_url: "http://unused".into(),
        github_token: "tok".into(),
        default_repo: Some(repo()),
        guild_repos: HashMap::new(),
        allowed_role_ids: vec![],
        limits: Limits::default(),
        port: 0,
    });
    state.open_card(
        1,
        PendingDraft {
            channel_id: 7,
            requester: 99,
            repo: repo(),
            draft: fallback("Export returns 500"),
            available_labels: vec![],
            transcript: build(&[], &Limits::default()),
            thread_url: "https://discord.com/channels/1/7".into(),
            reporter: "alice".into(),
        },
    );
    let press = Press {
        card_id: 1,
        user: 99,
        custom_id: CREATE.to_owned(),
        values: None,
    };
    match state.on_component(&press) {
        CardAction::File(filed, _) => (state, filed),
        _ => panic!("not filed"),
    }
}

fn value(json: &Json) -> Value {
    match json {
        Json::Bool(b) => Value::Bool(*b),
        Json::Text(s) => Value::String(s.clone()),
        Json::List(v) => Value::Array(v.iter().map(value).collect()),
        Json::Object(v) => {
            Value::Object(v.iter().map(|m| (m.key.clone(), value(&m.value))).collect())
        }
    }
}

#[test]
fn creates_an_issue_and_returns_its_url() {
    let gh = GitHub::with_base("tok".into(), "http://base".into());
    let request = gh.create_issue(&repo(), "Export returns 500", "the body", &["bug".to_owned()]);
    assert_eq!(request.method, Method::Post);
    assert_eq!(request.url, "http://base/repos/octocat/hello/issues");
    assert_eq!(request.token, "tok");
    assert_eq!(
        request.headers,
        vec![
            ("Accept".to_owned(), "application/vnd.github+json".to_owned()),
            ("X-GitHub-Api-Version".to_owned(), "2022-11-28".to_owned()),
        ]
    );
    let sent = value(request.payload.as_ref().unwrap());
    assert_eq!(sent["title"], "Export returns 500");
    assert_eq!(sent["body"], "the body");
    assert_eq!(sent["labels"], Value::Array(vec![Value::String("bug".into())]));

    let body = r#"{"number":12,"html_url":"https://github.com/octocat/hello/issues/12"}"#;
    assert_eq!(check(201, body), None);
    let reply: Value = serde_json::from_str(body).unwrap();
    let issue = CreatedIssue {
        number: reply["number"].as_u64().unwrap(),
        html_url: reply["html_url"].as_str().unwrap().to_owned(),
    };
    assert_eq!(issue.number, 12);
    // The one who pressed the button is told the address.
    let (mut state, filed) = filing();
    assert_eq!(
        state.settle_filing(1, &filed, &issue),
        "Filed: https://github.com/octocat/hello/issues/12"
    );
}

#[test]
fn an_empty_label_set_is_left_out_of_the_payload() {
    let gh = GitHub::new("tok".into());
    let request = gh.create_issue(&repo(), "t", "b", &[]);
    assert_eq!(request.url, "https://api.github.com/repos/octocat/hello/issues");
    assert!(value(request.payload.as_ref().unwrap()).get("labels").is_none());
}

#[test]
fn permission_failures_explain_themselves() {
    let body = r#"{"message": "Resource not accessible by personal access token"}"#;
    let err = check(403, body).unwrap();
    assert!(err.contains("403"), "{err}");
    assert!(err.contains("issues write access"), "{err}");
    assert!(err.contains("Resource not accessible"), "{err}");
    assert_eq!(
        err,
        "GitHub returned 403 Forbidden (the token is missing repo/issues write access, or you are \
         rate limited): Resource not accessible by personal access token"
    );
}

#[test]
fn hints_go_with_their_codes() {
    assert_eq!(hint(401), " (check GITHUB_TOKEN)");
    assert_eq!(hint(404), " (repo not found, or the token cannot see it)");
    assert_eq!(hint(410), " (issues are disabled on this repo)");
    assert_eq!(hint(500), "");
    assert_eq!(check(404, "gone").unwrap(), "GitHub returned 404 Not Found (repo not found, or the token cannot see it): gone");
    assert_eq!(
        judge_reply(500, "S".into(), None, &"x".repeat(301)).unwrap(),
        format!("GitHub returned S: {}", "x".repeat(300))
    );
    assert_eq!(judge_reply(204, "S".into(), None, "x"), None);
    // No object, no report.
    assert_eq!(check(500, "[1]").unwrap(), "GitHub returned 500 Internal Server Error: [1]");
}

#[test]
fn listing_labels_is_best_effort() {
    let mut gh = GitHub::new("tok".into());
    assert!(check(500, "boom").is_some());
    // A label lookup that fails must not stop an issue being filed.
    assert!(gh.settle_labels(&repo(), None, 0).is_empty());
    // Nor is the failure remembered.
    assert!(matches!(gh.labels(&repo(), 1), LabelSource::Fetch(_)));
}

#[test]
fn labels_are_fetched_once_then_cached() {
    let mut gh = GitHub::with_base("tok".into(), "http://base".into());
    let LabelSource::Fetch(request) = gh.labels(&repo(), 5) else { panic!("not fetched") };
    assert_eq!(request.method, Method::Get);
    assert_eq!(request.url, "http://base/repos/octocat/hello/labels?per_page=100");
    assert!(request.payload.is_none());
    let fetched = gh.settle_labels(&repo(), Some(vec!["bug".into(), "enhancement".into()]), 10);
    assert_eq!(fetched, vec!["bug", "enhancement"]);
    let LabelSource::Cached(labels) = gh.labels(&repo(), 10 + LABEL_TTL - 1) else {
        panic!("the second call must come from the cache")
    };
    assert_eq!(labels, vec!["bug", "enhancement"]);
    assert!(matches!(gh.labels(&repo(), 10 + LABEL_TTL), LabelSource::Fetch(_)));
    assert_eq!(LABEL_TTL, 600 * 1_000_000_000);
}

#[test]
fn each_repo_has_its_own_labels() {
    let mut gh = GitHub::new("tok".into());
    let other: Repo = "octocat/other".parse().unwrap();
    gh.settle_labels(&repo(), Some(vec!["a".into()]), 0);
    assert!(matches!(gh.labels(&other, 0), LabelSource::Fetch(_)));
    gh.settle_labels(&other, Some(vec!["b".into()]), 0);
    gh.settle_labels(&repo(), Some(vec!["c".into()]), 1);
    assert!(matches!(gh.labels(&repo(), 1), LabelSource::Cached(l) if l == vec!["c"]));
    assert!(matches!(gh.labels(&other, 1), LabelSource::Cached(l) if l == vec!["b"]));
}
