use discord_issue_bot::config::Limits;
use discord_issue_bot::reader::{
    convert, display_name, starter_places, Attachment, DiscordMessage, PageRequest, ThreadReader,
};
use discord_issue_bot::transcript::build_missing;

fn message(id: u64, content: &str) -> DiscordMessage {
    DiscordMessage {
        id,
        author_is_bot: false,
        author_name: "alice".into(),
        author_global_name: None,
        timestamp: "2026-09-24T10:00:00Z".into(),
        content: content.to_owned(),
        attachments: vec![],
    }
}

/// A page of messages, newest first.
fn page(newest: u64, count: u64) -> Vec<DiscordMessage> {
    (0..count).map(|i| message(newest - i, &format!("m{}", newest - i))).collect()
}

fn contents(reader: &ThreadReader, starter: Option<DiscordMessage>, trigger: u64) -> Vec<String> {
    reader.collect_thread(starter, trigger).0.into_iter().map(|m| m.content).collect()
}

#[test]
fn messages_keep_what_the_transcript_needs() {
    let mut m = message(1, "see this");
    m.author_global_name = Some("Alice A.".into());
    for (name, kind) in [("a.png", Some("image/png")), ("b.txt", Some("text/image/x")), ("c", None)] {
        m.attachments.push(Attachment {
            filename: name.into(),
            url: format!("https://cdn/{name}"),
            content_type: kind.map(str::to_owned),
        });
    }
    let t = convert(&m);
    assert_eq!(t.author, "Alice A.");
    assert_eq!(t.timestamp, "2026-09-24T10:00:00Z");
    assert_eq!(t.content, "see this");
    let assets: Vec<(&str, &str, bool)> =
        t.assets.iter().map(|a| (a.name.as_str(), a.url.as_str(), a.is_image)).collect();
    assert_eq!(
        assets,
        vec![
            ("a.png", "https://cdn/a.png", true),
            ("b.txt", "https://cdn/b.txt", false),
            ("c", "https://cdn/c", false),
        ]
    );
    assert_eq!(display_name("a", &None), "a");
    assert_eq!(display_name("a", &Some("b".into())), "b");
}

#[test]
fn the_starter_is_looked_for_in_the_thread_then_in_its_parent() {
    assert_eq!(starter_places(5, Some(9)), vec![(5, 5), (9, 5)]);
    assert_eq!(starter_places(5, None), vec![(5, 5)]);
}

#[test]
fn a_thread_is_read_oldest_first() {
    let mut r = ThreadReader::new(200);
    assert_eq!(r.next_page(), Some(PageRequest { limit: 100, before: None }));
    r.take_page(page(10, 4));
    assert_eq!(r.next_page(), None);
    assert_eq!(contents(&r, Some(message(3, "start")), 99), vec!["start", "m7", "m8", "m9", "m10"]);
    assert_eq!(contents(&r, None, 99), vec!["m7", "m8", "m9", "m10"]);
}

#[test]
fn bots_the_call_and_the_starter_are_passed_over() {
    let mut r = ThreadReader::new(200);
    let mut batch = page(10, 5);
    batch[1].author_is_bot = true;
    r.take_page(batch);
    // The call is the newest, and the starter turns up again as the oldest.
    assert_eq!(contents(&r, Some(message(6, "start")), 10), vec!["start", "m7", "m8"]);
}

#[test]
fn reading_goes_on_page_by_page() {
    let mut r = ThreadReader::new(250);
    r.take_page(page(1_000, 100));
    assert_eq!(r.next_page(), Some(PageRequest { limit: 100, before: Some(901) }));
    r.take_page(page(900, 100));
    assert_eq!(r.next_page(), Some(PageRequest { limit: 100, before: Some(801) }));
    r.take_page(page(800, 100));
    // Enough is enough.
    assert_eq!(r.next_page(), None);
    let read = contents(&r, None, 0);
    assert_eq!(read.len(), 250);
    // The first says what broke, and the newest what was concluded.
    assert_eq!(read[0], "m701");
    assert_eq!(read[1], "m752");
    assert_eq!(read[249], "m1000");
    assert_eq!(r.collect_thread(None, 0).1, 50);
}

#[test]
fn an_empty_page_is_the_last() {
    let mut r = ThreadReader::new(200);
    r.take_page(page(500, 100));
    r.take_page(vec![]);
    assert_eq!(r.next_page(), None);
    assert_eq!(contents(&r, None, 0).len(), 100);
    assert_eq!(ThreadReader::new(0).next_page(), None);
    assert!(contents(&ThreadReader::new(0), Some(message(1, "start")), 0).is_empty());
}

#[test]
fn past_the_limit_the_starter_and_the_newest_stay() {
    let mut r = ThreadReader::new(3);
    r.take_page(page(10, 8));
    assert_eq!(contents(&r, Some(message(1, "start")), 99), vec!["start", "m9", "m10"]);
    assert_eq!(contents(&r, Some(message(1, "start")), 10), vec!["start", "m8", "m9"]);
    assert_eq!(contents(&r, None, 99), vec!["m3", "m9", "m10"]);
    assert_eq!(r.collect_thread(Some(message(1, "start")), 99).1, 6);
    assert_eq!(r.collect_thread(Some(message(1, "start")), 10).1, 5);
    assert_eq!(r.collect_thread(None, 99).1, 5);
    let mut one = ThreadReader::new(1);
    one.take_page(page(10, 8));
    assert_eq!(contents(&one, Some(message(1, "start")), 99), vec!["start"]);
    assert_eq!(contents(&one, None, 99), vec!["m3"]);
    assert_eq!(one.collect_thread(None, 99).1, 7);
    let mut none = ThreadReader::new(0);
    none.take_page(page(10, 8));
    assert_eq!(none.collect_thread(Some(message(1, "start")), 99).1, 9);
    let mut all = ThreadReader::new(9);
    all.take_page(page(10, 8));
    assert_eq!(all.collect_thread(Some(message(1, "start")), 99).1, 0);
}

#[test]
fn what_is_cut_while_reading_is_counted_in_the_transcript() {
    let limits = Limits { max_messages: 3, ..Limits::default() };
    let mut r = ThreadReader::new(limits.max_messages);
    r.take_page(page(10, 8));
    let (messages, left_out) = r.collect_thread(Some(message(1, "start")), 99);
    let t = build_missing(&messages, left_out, &limits);
    assert_eq!(
        t.body_text,
        "**alice** · 2026-09-24T10:00:00Z\n\nstart\n\n\
         _… 6 message(s) omitted to stay within size limits …_\n\n\
         **alice** · 2026-09-24T10:00:00Z\n\nm9\n\n\
         **alice** · 2026-09-24T10:00:00Z\n\nm10"
    );
    assert_eq!(t.total_messages, 9);
    assert!(t.body_truncated && t.llm_truncated);
}
