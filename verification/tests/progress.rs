use buzz_acp::progress::{glyph, is_text, Log, ProgressEvent, MAX_LINE, SHOWN};

const SECOND: u128 = 1_000_000_000;

fn event(kind: &str, title: &str) -> ProgressEvent {
    ProgressEvent { title: title.to_owned(), kind: kind.to_owned() }
}

fn log_of(events: &[(&str, &str)]) -> Log {
    let mut log = Log::new();
    for (kind, title) in events {
        log.ingest(&event(kind, title));
    }
    log
}

fn shown(log: &Log) -> Vec<String> {
    log.render(0, false).lines().skip(1).map(|l| l.to_owned()).collect()
}

#[test]
fn every_kind_has_its_sign() {
    assert_eq!(glyph("read"), "📖");
    assert_eq!(glyph("edit"), "✏️");
    assert_eq!(glyph("delete"), "✏️");
    assert_eq!(glyph("move"), "✏️");
    assert_eq!(glyph("execute"), "💻");
    assert_eq!(glyph("search"), "🔍");
    assert_eq!(glyph("fetch"), "🔍");
    assert_eq!(glyph("think"), "💭");
    assert_eq!(glyph("say"), "💬");
    assert_eq!(glyph("other"), "·");
    assert_eq!(glyph(""), "·");
    assert!(is_text("think") && is_text("say"));
    assert!(!is_text("read") && !is_text("Say"));
}

#[test]
fn a_message_has_a_headline_and_lines() {
    let log = log_of(&[("read", " a.rs "), ("execute", "cargo test")]);
    assert_eq!(
        log.render(61 * SECOND + SECOND - 1, false),
        "⚙️ **working…** — 2 steps · 61s\n› 📖 a.rs\n› 💻 cargo test"
    );
    assert_eq!(
        log.render(3 * SECOND, true),
        "✅ **done** — 2 steps · 3s\n› 📖 a.rs\n› 💻 cargo test"
    );
    assert_eq!(Log::new().render(0, false), "⚙️ **working…** — 0 steps · 0s");
}

#[test]
fn streamed_text_becomes_one_line() {
    let mut log = log_of(&[("think", "I "), ("think", "should "), ("think", "look")]);
    assert!(log.is_empty());
    assert_eq!(log.steps(), 0);
    log.ingest(&event("read", "a.rs"));
    assert_eq!(shown(&log), vec!["› 💭 I should look", "› 📖 a.rs"]);
    assert_eq!(log.steps(), 2);
}

#[test]
fn switching_between_thought_and_speech_makes_a_line() {
    let mut log = log_of(&[("think", "hm"), ("say", "hello"), ("say", " there")]);
    assert_eq!(shown(&log), vec!["› 💭 hm"]);
    log.flush();
    assert_eq!(shown(&log), vec!["› 💭 hm", "› 💬 hello there"]);
    log.flush();
    assert_eq!(log.steps(), 2);
}

#[test]
fn blank_text_is_no_step() {
    let mut log = log_of(&[("read", " \n"), ("think", "  "), ("say", "")]);
    log.flush();
    assert!(log.is_empty());
    assert_eq!(log.steps(), 0);
}

#[test]
fn repeated_lines_are_counted_and_shown_once() {
    let log = log_of(&[("read", "a"), ("read", "a "), ("edit", "a"), ("read", "a")]);
    assert_eq!(log.steps(), 4);
    assert_eq!(shown(&log), vec!["› 📖 a", "› ✏️ a", "› 📖 a"]);
}

#[test]
fn only_the_last_lines_are_shown() {
    let mut log = Log::new();
    for i in 0..20 {
        log.emit("read", &format!("file {i}"));
    }
    let lines = shown(&log);
    assert_eq!(lines.len(), SHOWN);
    assert_eq!(lines[0], "› 📖 file 12");
    assert_eq!(lines[7], "› 📖 file 19");
    assert_eq!(log.steps(), 20);
}

#[test]
fn long_lines_are_cut_by_characters() {
    let mut log = Log::new();
    log.emit("read", &"é".repeat(158));
    assert_eq!(shown(&log)[0].chars().count(), 2 + MAX_LINE);
    log.emit("read", &"é".repeat(159));
    let cut = shown(&log)[1].clone();
    assert_eq!(cut.chars().count(), 2 + MAX_LINE + 1);
    assert!(cut.ends_with("é…"));
}

#[test]
fn accumulation_stops_at_twice_a_line() {
    let blanks = " ".repeat(MAX_LINE * 2);
    let mut log = log_of(&[("think", &blanks), ("think", "never seen")]);
    log.flush();
    assert!(log.is_empty());
    let blanks = " ".repeat(MAX_LINE * 2 - 1);
    let mut log = log_of(&[("think", &blanks), ("think", "still seen")]);
    log.flush();
    assert_eq!(shown(&log), vec!["› 💭 still seen"]);
}

#[test]
fn chunking_does_not_matter() {
    let mut pieces = log_of(&[("say", "one "), ("say", ""), ("say", "two"), ("say", " three")]);
    let mut whole = log_of(&[("say", "one two three")]);
    pieces.flush();
    whole.flush();
    assert_eq!(pieces.render(0, true), whole.render(0, true));
}

#[test]
fn an_empty_chunk_after_two_full_lines_changes_nothing() {
    let text = "x".repeat(MAX_LINE * 2);
    let mut pieces = log_of(&[("think", &text[..MAX_LINE]), ("think", &text[MAX_LINE..]), ("think", "")]);
    let mut whole = log_of(&[("think", &text)]);
    assert!(pieces.is_empty());
    assert_eq!(pieces.steps(), 0);
    pieces.flush();
    whole.flush();
    assert_eq!(pieces.steps(), 1);
    assert_eq!(shown(&pieces).len(), 1);
    assert_eq!(pieces.render(0, true), whole.render(0, true));
}

#[test]
fn every_line_begins_with_a_sign() {
    let log = log_of(&[("edit", &"y".repeat(MAX_LINE)), ("unknown", "z")]);
    let lines = shown(&log);
    assert!(lines[0].starts_with("› ✏️ y"));
    assert_eq!(lines[1], "› · z");
}
