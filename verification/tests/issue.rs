use discord_issue_bot::config::Limits;
use discord_issue_bot::issue::{render_body, IssueContext};
use discord_issue_bot::llm::{fallback, IssueDraft};
use discord_issue_bot::transcript::{build, ThreadMessage, Transcript};

fn transcript_of(contents: &[&str]) -> Transcript {
    let messages: Vec<ThreadMessage> = contents
        .iter()
        .map(|c| ThreadMessage {
            author: "alice".to_owned(),
            timestamp: "2026-09-24T10:00:00Z".to_owned(),
            content: (*c).to_owned(),
            assets: vec![],
        })
        .collect();
    build(&messages, &Limits::default())
}

#[test]
fn body_has_the_three_sections_in_order() {
    let draft = IssueDraft {
        title: "Export returns 500".to_owned(),
        summary: "**What's happening**\nExport 500s.".to_owned(),
        labels: vec!["bug".to_owned()],
        from_model: true,
    };
    let t = transcript_of(&["export button 500s", "confirmed"]);
    let cx = IssueContext {
        thread_url: "https://discord.com/channels/1/2",
        reporter: "alice",
    };
    let body = render_body(&draft, &t, &cx, 60_000);

    let summary_at = body.find("Export 500s.").unwrap();
    let thread_at = body.find("export button 500s").unwrap();
    let url_at = body.find("https://discord.com/channels/1/2").unwrap();
    assert!(
        summary_at < thread_at && thread_at < url_at,
        "summary, thread, then URL"
    );
    assert_eq!(
        body.matches("\n---\n").count(),
        2,
        "one rule between each section"
    );
}

#[test]
fn an_overlong_summary_cannot_crowd_out_the_thread_url() {
    let draft = IssueDraft {
        title: "t".to_owned(),
        summary: "padding. ".repeat(40_000),
        labels: vec![],
        from_model: true,
    };
    let t = transcript_of(&["export button 500s"]);
    let cx = IssueContext {
        thread_url: "https://discord.com/channels/1/2",
        reporter: "alice",
    };
    let body = render_body(&draft, &t, &cx, Limits::default().max_body_chars);

    assert!(body.chars().count() <= Limits::default().max_body_chars);
    assert!(
        body.contains("export button 500s"),
        "the thread must survive a long summary"
    );
    assert!(body.ends_with("</sub>"), "the footer must be intact");
    assert!(
        body.contains("https://discord.com/channels/1/2"),
        "the thread URL must survive"
    );
}

#[test]
fn body_never_exceeds_the_cap() {
    let draft = IssueDraft {
        title: "t".to_owned(),
        summary: "s".repeat(5_000),
        labels: vec![],
        from_model: true,
    };
    let t = transcript_of(&["x"; 50]);
    let cx = IssueContext {
        thread_url: "https://d/1",
        reporter: "alice",
    };
    let body = render_body(&draft, &t, &cx, 1_000);
    assert!(body.chars().count() <= 1_000);
}

#[test]
fn a_missing_summary_is_called_out() {
    let draft = fallback("export button 500s");
    let t = transcript_of(&["export button 500s"]);
    let cx = IssueContext {
        thread_url: "https://d/1",
        reporter: "alice",
    };
    let body = render_body(&draft, &t, &cx, 60_000);
    assert!(body.contains("No summary available"));
    assert!(body.contains("The summary step was unavailable"));
}

#[test]
fn a_body_is_put_together_to_the_letter() {
    let draft = IssueDraft {
        title: "t".to_owned(),
        summary: "S".to_owned(),
        labels: vec![],
        from_model: true,
    };
    let mut t = transcript_of(&["hello"]);
    let cx = IssueContext {
        thread_url: "https://d/1",
        reporter: "alice",
    };
    assert_eq!(
        render_body(&draft, &t, &cx, 60_000),
        "S\n\n---\n\n### Thread\n\n**alice** · 2026-09-24T10:00:00Z\n\nhello\n\n---\n\n\
         [View the original Discord thread](https://d/1)\n\n<sub>Filed from Discord by alice.</sub>"
    );
    t.body_truncated = true;
    t.assets_truncated = true;
    t.total_messages = 321;
    let raw = IssueDraft {
        from_model: false,
        ..draft
    };
    assert!(render_body(&raw, &t, &cx, 60_000).contains(
        "hello\n\n> [!NOTE]\n> This thread has 321 messages and was too long to reproduce in full; \
         some of it was omitted. Some attachments were left out. The summary step was unavailable, \
         so this issue is the raw thread.\n\n---\n\n"
    ));
}

#[test]
fn a_flooded_thread_keeps_its_footer() {
    let long = "word ".repeat(400);
    let contents: Vec<&str> = (0..190).map(|_| long.as_str()).collect();
    let t = transcript_of(&contents);
    assert!(t.body_truncated);
    let draft = IssueDraft {
        title: "t".to_owned(),
        summary: "s".repeat(20_000),
        labels: vec![],
        from_model: false,
    };
    let url = format!("https://discord.com/channels/{}", "9".repeat(900));
    let cx = IssueContext {
        thread_url: &url,
        reporter: "alice",
    };
    let body = render_body(&draft, &t, &cx, Limits::default().max_body_chars);
    assert!(body.chars().count() <= 60_000);
    assert!(body.contains(&t.body_text));
    assert!(body.ends_with(&format!("({url})\n\n<sub>Filed from Discord by alice.</sub>")));
}

#[test]
fn a_small_cap_keeps_the_footer() {
    let draft = IssueDraft {
        title: "t".to_owned(),
        summary: "s".repeat(5_000),
        labels: vec![],
        from_model: true,
    };
    let cx = IssueContext {
        thread_url: "https://d/1",
        reporter: "alice",
    };
    let footer = "\n\n---\n\n[View the original Discord thread](https://d/1)\n\n\
                  <sub>Filed from Discord by alice.</sub>";

    // A thread that fills the body by itself is cut above the footer.
    let t = transcript_of(&["x"; 50]);
    for max in [150, 500, 1_000, 2_000] {
        let body = render_body(&draft, &t, &cx, max);
        assert!(body.chars().count() <= max);
        assert!(body.contains("https://d/1"));
        assert!(body.ends_with(footer));
    }

    // The summary gives way before the thread does.
    let t = transcript_of(&["export button 500s"]);
    let body = render_body(&draft, &t, &cx, 1_000);
    assert_eq!(body.chars().count(), 1_000);
    assert!(body.contains("s … [truncated]"));
    assert!(body.contains("### Thread\n\n**alice** · 2026-09-24T10:00:00Z\n\nexport button 500s"));
    assert!(body.ends_with(footer));
}

#[test]
fn a_cap_below_the_footer_still_holds() {
    let draft = fallback("export button 500s");
    let t = transcript_of(&["export button 500s"]);
    let cx = IssueContext {
        thread_url: "https://d/1",
        reporter: "alice",
    };
    let body = render_body(&draft, &t, &cx, 40);
    assert_eq!(body.chars().count(), 40);
    assert!(body.ends_with(" … [truncated]"));
}

#[test]
fn a_short_summary_is_not_cut_to_a_longer_note() {
    let draft = IssueDraft {
        title: "t".to_owned(),
        summary: "S".to_owned(),
        labels: vec![],
        from_model: true,
    };
    let cx = IssueContext {
        thread_url: "https://d/1",
        reporter: "alice",
    };
    let t = transcript_of(&["x"; 50]);
    for max in [110, 150, 1_000] {
        let body = render_body(&draft, &t, &cx, max);
        assert!(body.chars().count() <= max);
        assert!(body.starts_with('S'));
        assert!(body.contains("https://d/1"));
    }
    assert!(render_body(&draft, &t, &cx, 110).starts_with("S … [truncated]\n\n---\n\n"));
    assert!(render_body(&draft, &t, &cx, 150).starts_with("S\n\n---\n\n### Thread\n\n"));
}
