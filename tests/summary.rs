use telllm::clock::Stamp;
use telllm::logger::ChatLogger;
use telllm::summary::SummaryRecord;

fn pairs(r: &SummaryRecord) -> Vec<(String, String)> {
    r.entries.iter().map(|e| (e.key.clone(), e.value.clone())).collect()
}

fn p(k: &str, v: &str) -> (String, String) {
    (k.to_string(), v.to_string())
}

#[test]
fn parse_skips_lines_without_separator() {
    let r = SummaryRecord::parse("name: Bob\ngarbage\nmood: a: b\r\n\nlast_seen: t");
    assert_eq!(pairs(&r), vec![p("name", "Bob"), p("mood", "a: b"), p("last_seen", "t")]);
}

#[test]
fn parse_empty_text() {
    assert!(SummaryRecord::parse("").entries.is_empty());
}

#[test]
fn render_lines() {
    let r = SummaryRecord::parse("a: 1\nb: 2\n");
    assert_eq!(r.render(), "a: 1\nb: 2\n");
    assert_eq!(SummaryRecord::new().render(), "\n");
}

#[test]
fn upsert_matches_key_ignoring_case() {
    let mut r = SummaryRecord::parse("Name: Al\ncity: Oslo\n");
    r.upsert("NAME", "Bob", "T1");
    assert_eq!(pairs(&r), vec![p("Name", "Bob"), p("city", "Oslo"), p("last_seen", "T1")]);
}

#[test]
fn upsert_appends_new_key() {
    let mut r = SummaryRecord::parse("last_seen: T0\n");
    r.upsert("name", "Bob", "T1");
    assert_eq!(pairs(&r), vec![p("last_seen", "T1"), p("name", "Bob")]);
}

#[test]
fn touch_twice_changes_only_last_seen() {
    let mut r = SummaryRecord::parse("name: Bob\ncity: Oslo\n");
    r.touch("T1");
    r.touch("T2");
    assert_eq!(pairs(&r), vec![p("name", "Bob"), p("city", "Oslo"), p("last_seen", "T2")]);
    let mut q = SummaryRecord::parse("last_seen: T0\nname: Bob\n");
    q.touch("T1");
    q.touch("T2");
    assert_eq!(pairs(&q), vec![p("last_seen", "T2"), p("name", "Bob")]);
}

#[test]
fn name_round_trip_through_file_text() {
    let at = Stamp { year: 2024, month: 3, day: 9, hour: 7, minute: 5, second: 1 };
    let text = ChatLogger::updated_summary("city: Oslo\n", "name", "Bob", &at);
    assert_eq!(text, "city: Oslo\nname: Bob\nlast_seen: 09-03-2024 07:05:01\n");
    let back = SummaryRecord::parse(&text);
    assert!(pairs(&back).contains(&p("name", "Bob")));
}

#[test]
fn touched_summary_text() {
    let at = Stamp { year: 2023, month: 12, day: 31, hour: 23, minute: 59, second: 58 };
    assert_eq!(
        ChatLogger::touched_summary("name: Bob\nlast_seen: old\n", &at),
        "name: Bob\nlast_seen: 31-12-2023 23:59:58\n"
    );
    assert_eq!(ChatLogger::touched_summary("", &at), "last_seen: 31-12-2023 23:59:58\n");
}
