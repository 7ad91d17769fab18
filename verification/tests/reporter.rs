use buzz_acp::progress::ProgressEvent;
use buzz_acp::reporter::{reply_thread, submitted, Action, Reporter, Submission, THROTTLE};

const SECOND: u128 = 1_000_000_000;
const ID: [u8; 32] = [7; 32];

fn event(kind: &str, title: &str) -> ProgressEvent {
    ProgressEvent { title: title.to_owned(), kind: kind.to_owned() }
}

fn live() -> Reporter {
    let mut r = Reporter::new();
    assert!(matches!(r.on_event(&event("read", "a"), 0), Action::Wait));
    match r.on_event(&event("read", "b"), 2 * SECOND) {
        Action::Post { content } => {
            assert_eq!(content, "⚙️ **working…** — 2 steps · 2s\n› 📖 a\n› 📖 b")
        }
        _ => panic!("nothing was posted"),
    }
    r.on_posted(Some(ID), 3 * SECOND);
    r
}

#[test]
fn a_turn_without_activity_posts_nothing() {
    let mut r = Reporter::new();
    assert!(matches!(r.on_closed(5), Action::Stop));
}

#[test]
fn a_single_event_posts_nothing() {
    let mut r = Reporter::new();
    assert!(matches!(r.on_event(&event("read", "a"), 0), Action::Wait));
    assert!(matches!(r.on_closed(5), Action::Stop));
}

#[test]
fn a_lone_text_fragment_is_held_back() {
    let mut r = Reporter::new();
    assert!(matches!(r.on_event(&event("think", "a"), 0), Action::Wait));
    assert!(matches!(r.on_event(&event("think", "b"), 1), Action::Wait));
    assert!(matches!(r.on_event(&event("say", "c"), 2), Action::Post { .. }));
}

#[test]
fn edits_are_throttled() {
    let mut r = live();
    assert_eq!(THROTTLE, 10 * SECOND);
    assert!(matches!(r.on_event(&event("read", "c"), 13 * SECOND - 1), Action::Wait));
    match r.on_event(&event("read", "d"), 13 * SECOND) {
        Action::Edit { message, content } => {
            assert_eq!(message, ID);
            assert!(content.starts_with("⚙️ **working…** — 4 steps · 13s\n"));
        }
        _ => panic!("no edit was due"),
    }
    r.on_edited(14 * SECOND);
    assert!(matches!(r.on_event(&event("read", "e"), 23 * SECOND), Action::Wait));
    assert!(matches!(r.on_event(&event("read", "f"), 24 * SECOND), Action::Edit { .. }));
}

#[test]
fn the_end_of_a_turn_shows_everything() {
    let mut r = live();
    assert!(matches!(r.on_event(&event("say", "bye"), 4 * SECOND), Action::Wait));
    match r.on_closed(5 * SECOND) {
        Action::Finish { message, content } => {
            assert_eq!(message, ID);
            assert_eq!(content, "✅ **done** — 3 steps · 5s\n› 📖 a\n› 📖 b\n› 💬 bye");
        }
        _ => panic!("the message was left open"),
    }
    assert_eq!(r.steps(), 3);
    assert!(matches!(r.on_closed(6 * SECOND), Action::Stop));
}

#[test]
fn a_failed_post_ends_the_reporting() {
    let mut r = Reporter::new();
    r.on_event(&event("read", "a"), 0);
    assert!(matches!(r.on_event(&event("read", "b"), 1), Action::Post { .. }));
    r.on_posted(None, 2);
    assert!(matches!(r.on_event(&event("read", "c"), 3), Action::Stop));
    assert_eq!(r.steps(), 2);
    assert!(matches!(r.on_closed(4), Action::Stop));
    r.on_posted(Some(ID), 5);
    assert!(matches!(r.on_closed(6), Action::Stop));
}

#[test]
fn only_an_accepted_event_has_an_id() {
    assert_eq!(submitted(Submission::Accepted { id: ID }), Some(ID));
    assert_eq!(submitted(Submission::Failed { id: ID }), None);
    assert_eq!(submitted(Submission::TimedOut { id: ID }), None);
    assert_eq!(submitted(Submission::NotSigned), None);
}

#[test]
fn a_reply_goes_to_the_root() {
    let mut bytes = [0u8; 32];
    bytes[0] = 0xab;
    bytes[31] = 0x1f;
    let hex = "ab0000000000000000000000000000000000000000000000000000000000001f";
    let thread = reply_thread(Some(hex)).unwrap();
    assert_eq!(thread.root_event_id, bytes);
    assert_eq!(thread.parent_event_id, bytes);
    assert_eq!(reply_thread(Some(&hex.to_uppercase())).unwrap().root_event_id, bytes);
    assert!(reply_thread(None).is_none());
    assert!(reply_thread(Some("")).is_none());
    assert!(reply_thread(Some(&hex[1..])).is_none());
    assert!(reply_thread(Some(&format!("{hex}00"))).is_none());
    assert!(reply_thread(Some(&hex.replace('f', "g"))).is_none());
    assert!(reply_thread(Some(&"é".repeat(32))).is_none());
}
