use buzz_acp::json::{has_repeat, list_members};
use buzz_acp::scope::{scope_key, SessionScope};
use buzz_acp::session_store::{
    after_step, all_sessions, flush_failed, flush_steps, legacy_sessions, read_session,
    session_from_fields, Field, FlushStep, NextStep, SessionStore, StoredSession,
};
use buzz_acp::state_dir::{resolve_path, shorten_key};
use uuid::Uuid;

/// The file of a store and the temporary file beside it.
#[derive(Default, Clone)]
struct Disk {
    file: Option<String>,
    temp: Option<String>,
}

impl Disk {
    fn step(&mut self, step: &FlushStep) {
        match step {
            FlushStep::CreateTemp => self.temp = Some(String::new()),
            FlushStep::WriteTemp(text) => self.temp.as_mut().unwrap().push_str(text),
            FlushStep::SyncTemp => {}
            FlushStep::Replace => self.file = self.temp.take(),
            FlushStep::RemoveTemp => self.temp = None,
        }
    }

    fn run(&mut self, steps: Vec<FlushStep>) {
        for step in &steps {
            self.step(step);
        }
    }

    fn open(&self) -> SessionStore {
        SessionStore::open_at("sessions.json".to_owned(), self.file.as_deref())
    }
}

fn nil() -> u128 {
    Uuid::nil().as_u128()
}

fn thread(root: &str) -> SessionScope {
    SessionScope::Thread { channel_id: nil(), root_event_id: root.to_owned() }
}

fn conversation() -> SessionScope {
    SessionScope::Conversation { channel_id: nil() }
}

fn id_of<'a>(store: &'a SessionStore, scope: &SessionScope) -> Option<&'a str> {
    store.get(scope).map(|e| e.id.as_str())
}

fn on_text(text: &str) -> SessionStore {
    SessionStore::open_at("sessions.json".to_owned(), Some(text))
}

#[test]
fn a_mapping_survives_reopening() {
    let mut disk = Disk::default();
    let mut store = disk.open();
    disk.run(store.insert(&thread("aa"), "sess-1"));
    // A restart is exactly this: a new store over the same file.
    assert_eq!(disk.open().get(&thread("aa")).map(|e| e.id.as_str()), Some("sess-1"));
}

#[test]
fn scopes_do_not_collide() {
    let mut disk = Disk::default();
    let mut store = disk.open();
    disk.run(store.insert(&thread("aa"), "sess-a"));
    disk.run(store.insert(&thread("bb"), "sess-b"));
    disk.run(store.insert(&SessionScope::Conversation { channel_id: nil() }, "sess-conv"));
    let reopened = disk.open();
    assert_eq!(reopened.get(&thread("aa")).map(|e| e.id.as_str()), Some("sess-a"));
    assert_eq!(reopened.get(&thread("bb")).map(|e| e.id.as_str()), Some("sess-b"));
    assert_eq!(
        reopened.get(&SessionScope::Conversation { channel_id: nil() }).map(|e| e.id.as_str()),
        Some("sess-conv")
    );
}

#[test]
fn agents_on_one_host_do_not_share_a_map() {
    let mut first = Disk::default();
    let second = Disk::default();
    let mut a = first.open();
    first.run(a.insert(&thread("x"), "sess-a"));
    assert_eq!(
        second.open().get(&thread("x")).map(|e| e.id.as_str()),
        None,
        "one agent must not see another's sessions"
    );
}

#[test]
fn removal_is_persisted() {
    let mut disk = Disk::default();
    let mut store = disk.open();
    disk.run(store.insert(&thread("aa"), "sess-1"));
    disk.run(store.remove(&thread("aa")));
    assert_eq!(disk.open().get(&thread("aa")).map(|e| e.id.as_str()), None);
}

#[test]
fn clear_forgets_everything() {
    let mut disk = Disk::default();
    let mut store = disk.open();
    disk.run(store.insert(&thread("aa"), "sess-1"));
    disk.run(store.insert(&thread("bb"), "sess-2"));
    disk.run(store.clear());
    let reopened = disk.open();
    assert_eq!(reopened.get(&thread("aa")).map(|e| e.id.as_str()), None);
    assert_eq!(reopened.get(&thread("bb")).map(|e| e.id.as_str()), None);
}

#[test]
fn a_corrupt_file_degrades_to_empty_rather_than_failing() {
    let store = on_text("{ this is not json");
    assert_eq!(store.get(&thread("aa")).map(|e| e.id.as_str()), None);
}

#[test]
fn an_unwritable_location_never_panics() {
    let mut store = SessionStore::open_at("/proc/nope/sessions.json".to_owned(), None);
    let steps = store.insert(&thread("aa"), "sess-1"); // no step can be done
    assert!(!steps.is_empty());
    assert_eq!(store.get(&thread("aa")).map(|e| e.id.as_str()), Some("sess-1")); // in memory for this run
}

#[test]
fn keys_are_greppable_and_distinct() {
    assert_eq!(
        scope_key(&SessionScope::Conversation { channel_id: nil() }),
        "conversation:00000000-0000-0000-0000-000000000000"
    );
    assert!(scope_key(&thread("beef")).starts_with("thread:"));
    assert!(scope_key(&thread("beef")).ends_with(":beef"));
}

#[test]
fn a_new_session_is_not_primed_and_priming_persists() {
    let mut disk = Disk::default();
    let mut store = disk.open();
    disk.run(store.insert(&thread("aa"), "sess-1"));
    assert!(!store.get(&thread("aa")).unwrap().primed, "new sessions start unprimed");

    disk.run(store.mark_primed(&thread("aa"), "sess-1"));
    assert!(disk.open().get(&thread("aa")).unwrap().primed);
}

#[test]
fn priming_a_different_session_is_ignored() {
    let mut store = Disk::default().open();
    store.insert(&thread("aa"), "sess-new");
    let steps = store.mark_primed(&thread("aa"), "sess-old");
    assert!(!store.get(&thread("aa")).unwrap().primed);
    assert!(steps.is_empty());
}

#[test]
fn replacing_a_session_clears_its_primed_flag() {
    let mut store = Disk::default().open();
    store.insert(&thread("aa"), "sess-1");
    store.mark_primed(&thread("aa"), "sess-1");
    store.insert(&thread("aa"), "sess-2");
    assert!(!store.get(&thread("aa")).unwrap().primed);
}

#[test]
fn a_pre_primed_file_reads_as_unprimed() {
    let store =
        on_text(r#"{"thread:00000000-0000-0000-0000-000000000000:aa":"sess-old"}"#);
    let entry = store.get(&thread("aa")).expect("old format must still load");
    assert_eq!(entry.id, "sess-old");
    assert!(!entry.primed);
}

#[test]
fn the_file_is_pretty_json_with_a_final_line_feed() {
    let mut disk = Disk::default();
    let mut store = disk.open();
    store.insert(&thread("b\"b"), "sess\n2");
    disk.run(store.insert(&conversation(), "sess-1"));
    disk.run(store.mark_primed(&conversation(), "sess-1"));
    assert_eq!(
        disk.file.as_deref(),
        Some(
            "{\n  \"conversation:00000000-0000-0000-0000-000000000000\": {\n    \"id\": \"sess-1\",\n    \"primed\": true\n  },\n  \"thread:00000000-0000-0000-0000-000000000000:b\\\"b\": {\n    \"id\": \"sess\\n2\",\n    \"primed\": false\n  }\n}\n"
        )
    );
    let reopened = disk.open();
    assert_eq!(id_of(&reopened, &thread("b\"b")), Some("sess\n2"));
    assert!(reopened.get(&conversation()).unwrap().primed);
}

#[test]
fn an_emptied_store_writes_an_empty_object() {
    let mut disk = Disk::default();
    let mut store = disk.open();
    disk.run(store.insert(&conversation(), "sess-1"));
    disk.run(store.remove(&conversation()));
    assert_eq!(disk.file.as_deref(), Some("{}\n"));
    assert!(disk.open().get(&conversation()).is_none());
}

#[test]
fn awkward_strings_survive_reopening() {
    for text in ["", "\u{0}", "\\", "\"", "\u{2028}", "🐝", "a\tb\r\n", "$serde_json::private::RawValue"] {
        let mut disk = Disk::default();
        let mut store = disk.open();
        disk.run(store.insert(&thread(text), text));
        assert_eq!(id_of(&disk.open(), &thread(text)), Some(text));
    }
}

#[test]
fn an_unchanged_store_writes_nothing() {
    let mut store = Disk::default().open();
    assert!(store.clear().is_empty());
    assert!(store.remove(&thread("aa")).is_empty());
    assert!(store.mark_primed(&thread("aa"), "sess-1").is_empty());
    assert_eq!(store.insert(&thread("aa"), "sess-1").len(), 5);
    assert!(store.insert(&thread("aa"), "sess-1").is_empty());
    assert_eq!(store.mark_primed(&thread("aa"), "sess-1").len(), 5);
    assert!(store.mark_primed(&thread("aa"), "sess-1").is_empty());
    assert!(store.insert(&thread("aa"), "sess-1").is_empty());
    assert!(store.get(&thread("aa")).unwrap().primed, "the same session stays primed");
    assert_eq!(store.clear().len(), 5);
}

#[test]
fn a_store_without_a_place_remembers_only_this_run() {
    let mut store = SessionStore::open(None, Some(r#"{"k":"v"}"#));
    assert!(store.insert(&thread("aa"), "sess-1").is_empty());
    assert_eq!(id_of(&store, &thread("aa")), Some("sess-1"));
    assert!(store.flush().is_empty());
    assert!(SessionStore::default().get(&thread("aa")).is_none());
}

#[test]
fn a_store_with_a_place_opens_on_its_file() {
    let text = r#"{"conversation:00000000-0000-0000-0000-000000000000":{"id":"s","primed":true}}"#;
    let store = SessionStore::open(Some("p".to_owned()), Some(text));
    assert_eq!(id_of(&store, &conversation()), Some("s"));
    assert!(store.get(&conversation()).unwrap().primed);
}

#[test]
fn other_scopes_are_untouched() {
    let mut store = Disk::default().open();
    assert_eq!(store.len(), 0);
    store.insert(&thread("aa"), "sess-a");
    store.insert(&thread("bb"), "sess-b");
    assert_eq!(store.len(), 2);
    store.mark_primed(&thread("aa"), "sess-a");
    store.insert(&thread("aa"), "sess-c");
    assert_eq!(id_of(&store, &thread("bb")), Some("sess-b"));
    assert!(!store.get(&thread("bb")).unwrap().primed);
    store.remove(&thread("aa"));
    assert_eq!(id_of(&store, &thread("bb")), Some("sess-b"));
}

#[test]
fn a_crash_mid_write_keeps_the_old_file() {
    let mut disk = Disk::default();
    let mut store = disk.open();
    disk.run(store.insert(&thread("aa"), "sess-1"));
    let before = disk.file.clone();
    let steps = store.insert(&thread("bb"), "sess-2");
    for done in 0..steps.len() {
        let mut crashed = disk.clone();
        for step in &steps[..done] {
            crashed.step(step);
        }
        assert_eq!(crashed.file, before);
        crashed.step(&flush_failed());
        assert_eq!(crashed.file, before);
        assert_eq!(crashed.temp, None);
    }
    disk.run(steps);
    assert_eq!(disk.temp, None);
    assert_eq!(id_of(&disk.open(), &thread("bb")), Some("sess-2"));
}

#[test]
fn no_step_follows_a_failed_one() {
    assert!(matches!(after_step(5, 0, true), NextStep::Step(1)));
    assert!(matches!(after_step(5, 3, true), NextStep::Step(4)));
    assert!(matches!(after_step(5, 4, true), NextStep::Finished));
    assert!(matches!(after_step(1, 0, true), NextStep::Finished));
    assert!(matches!(after_step(5, 1, false), NextStep::CleanUp));
    assert!(matches!(after_step(5, 4, false), NextStep::CleanUp));
    assert!(matches!(after_step(usize::MAX, usize::MAX - 1, true), NextStep::Finished));
}

#[test]
fn a_flush_is_all_or_nothing() {
    let mut start = Disk::default();
    let mut store = start.open();
    start.run(store.insert(&thread("aa"), "sess-1"));
    let steps = store.insert(&thread("bb"), "sess-2");
    // `failing` is the position of the step that fails; the last round has none.
    for failing in 0..=steps.len() {
        let mut disk = start.clone();
        let mut at = 0;
        loop {
            let ok = at != failing;
            if ok {
                disk.step(&steps[at]);
            } else if let FlushStep::WriteTemp(_) = &steps[at] {
                disk.step(&FlushStep::WriteTemp("{ cut".to_owned()));
            }
            match after_step(steps.len(), at, ok) {
                NextStep::Step(next) => at = next,
                NextStep::CleanUp => {
                    disk.step(&flush_failed());
                    break;
                }
                NextStep::Finished => break,
            }
        }
        assert_eq!(disk.temp, None);
        if failing < steps.len() {
            assert_eq!(disk.file, start.file);
        } else {
            assert_eq!(id_of(&disk.open(), &thread("bb")), Some("sess-2"));
        }
    }
}

#[test]
fn a_flush_is_written_beside_the_file_and_moved() {
    let steps = flush_steps("{}".to_owned());
    assert!(matches!(steps[0], FlushStep::CreateTemp));
    assert!(matches!(&steps[1], FlushStep::WriteTemp(t) if t == "{}"));
    assert!(matches!(&steps[2], FlushStep::WriteTemp(t) if t == "\n"));
    assert!(matches!(steps[3], FlushStep::SyncTemp));
    assert!(matches!(steps[4], FlushStep::Replace));
    assert_eq!(steps.len(), 5);
}

fn session(text: &str) -> Option<(String, bool)> {
    read_session(text).map(|s| (s.id, s.primed))
}

#[test]
fn an_entry_is_an_object_or_an_array() {
    assert_eq!(session(r#"{"id":"s","primed":true}"#), Some(("s".to_owned(), true)));
    assert_eq!(session(r#" {"primed" : false , "id" : "A" } "#), Some(("A".to_owned(), false)));
    assert_eq!(session(r#"{"id":"s"}"#), Some(("s".to_owned(), false)));
    assert_eq!(session(r#"{"id":"s","note":[1e999,{}]}"#), Some(("s".to_owned(), false)));
    assert_eq!(session(r#"{"primed":true}"#), None);
    assert_eq!(session(r#"{"id":7}"#), None);
    assert_eq!(session(r#"{"id":"s","primed":"true"}"#), None);
    assert_eq!(session(r#"{"id":"s","primed":null}"#), None);
    assert_eq!(session(r#"["s",true]"#), Some(("s".to_owned(), true)));
    assert_eq!(session(r#"["s"]"#), Some(("s".to_owned(), false)));
    assert_eq!(session("[]"), None);
    assert_eq!(session(r#"["s",true,1]"#), None);
    assert_eq!(session(r#"["s",1]"#), None);
    assert_eq!(session(r#""s""#), None);
    assert_eq!(session("null"), None);
    assert_eq!(session(""), None);
}

#[test]
fn one_bad_entry_spoils_the_file() {
    let store = on_text(
        r#"{"conversation:00000000-0000-0000-0000-000000000000":{"id":"s"},"x":{"id":1}}"#,
    );
    assert!(store.get(&conversation()).is_none());
    let mixed = on_text(
        r#"{"conversation:00000000-0000-0000-0000-000000000000":{"id":"s"},"x":"bare"}"#,
    );
    assert!(mixed.get(&conversation()).is_none());
    assert!(on_text("[]").get(&conversation()).is_none());
}

#[test]
fn the_last_of_repeated_keys_counts() {
    let store = on_text(
        r#"{"conversation:00000000-0000-0000-0000-000000000000":{"id":"a"},"conversation:00000000-0000-0000-0000-000000000000":{"id":"b"}}"#,
    );
    assert_eq!(id_of(&store, &conversation()), Some("b"));
}

#[test]
fn a_field_named_twice_spoils_the_entry() {
    assert_eq!(session(r#"{"id":"a","id":"b"}"#), None);
    assert_eq!(session(r#"{"id":"a", "\u0069d" : "a"}"#), None);
    assert_eq!(session(r#"{"primed":true,"id":"a","primed":true}"#), None);
    assert_eq!(session(r#"{"x":1,"id":"a","x":{"id":"c","id":"d"}}"#), Some(("a".to_owned(), false)));
    assert_eq!(session(r#"{"x":[1,"id",2],"y":"{,:","id":"a"}"#), Some(("a".to_owned(), false)));
}

#[test]
fn an_unreadable_entry_counts_under_a_repeated_key() {
    let key = "conversation:00000000-0000-0000-0000-000000000000";
    let text = format!(r#"{{"{key}":{{"id":1}},"{key}":{{"id":"b"}}}}"#);
    assert!(on_text(&text).get(&conversation()).is_none());
    // Bare ids are read the other way: the whole file at once.
    let text = format!(r#"{{"{key}":"a","{key}":"b"}}"#);
    assert_eq!(id_of(&on_text(&text), &conversation()), Some("b"));
}

#[test]
fn members_are_listed_in_order() {
    let pair = |a: &str, b: &str| (a.to_owned(), b.to_owned());
    assert_eq!(
        list_members(" { \"b\" : [1, 2] ,\n\"a\":{\"c\":3}, \"b\": true } "),
        vec![pair("b", "[1, 2]"), pair("a", r#"{"c":3}"#), pair("b", "true")]
    );
    assert!(list_members("{}").is_empty());
    assert!(list_members("[1]").is_empty());
    assert!(list_members("").is_empty());
    let list = vec![pair("a", "1"), pair("b", "2"), pair("a", "3")];
    assert!(has_repeat(&list, "a"));
    assert!(!has_repeat(&list, "b"));
    assert!(!has_repeat(&list, "c"));
    assert!(!has_repeat(&Vec::new(), "a"));
}

#[test]
fn fields_make_a_session() {
    let made = |id, primed| session_from_fields(id, primed).map(|s| (s.id, s.primed));
    let s = || Field::Value("s".to_owned());
    assert_eq!(made(s(), Field::Value(true)), Some(("s".to_owned(), true)));
    assert_eq!(made(s(), Field::Value(false)), Some(("s".to_owned(), false)));
    assert_eq!(made(s(), Field::Missing), Some(("s".to_owned(), false)));
    assert_eq!(made(s(), Field::Invalid), None);
    assert_eq!(made(Field::Missing, Field::Value(true)), None);
    assert_eq!(made(Field::Invalid, Field::Missing), None);
}

#[test]
fn bare_ids_are_unprimed_sessions() {
    let table = legacy_sessions(&vec![
        ("a".to_owned(), "1".to_owned()),
        ("b".to_owned(), "2".to_owned()),
    ]);
    assert_eq!(table.len(), 2);
    let b = table.get(&"b".to_owned()).unwrap();
    assert_eq!((b.id.as_str(), b.primed), ("2", false));
    assert!(table.get(&"c".to_owned()).is_none());
}

#[test]
fn all_sessions_or_none() {
    let one = || StoredSession { id: "1".to_owned(), primed: true };
    let table = all_sessions(&vec![("a".to_owned(), Some(one()))]).unwrap();
    assert!(table.get(&"a".to_owned()).unwrap().primed);
    assert!(all_sessions(&vec![("a".to_owned(), Some(one())), ("b".to_owned(), None)]).is_none());
    assert_eq!(all_sessions(&Vec::new()).unwrap().len(), 0);
}

#[test]
fn channel_ids_are_hyphenated_in_keys() {
    let channel_id = 0xa1a2a3a4b1b2c1c2d1d2d3d4d5d6d7d8u128;
    assert_eq!(
        scope_key(&SessionScope::Thread { channel_id, root_event_id: "beef".to_owned() }),
        "thread:a1a2a3a4-b1b2-c1c2-d1d2-d3d4d5d6d7d8:beef"
    );
    assert_ne!(
        scope_key(&SessionScope::Conversation { channel_id }),
        scope_key(&SessionScope::Conversation { channel_id: channel_id + 1 })
    );
}

#[test]
fn the_state_directory_is_the_override_or_below_home() {
    let key = "0123456789abcdef0123456789abcdef";
    assert_eq!(
        resolve_path(Some("/var/x"), Some("/home/u"), key),
        Some(vec!["/var/x".to_owned(), "0123456789abcdef".to_owned()])
    );
    assert_eq!(
        resolve_path(Some(" \t"), Some("/home/u"), key),
        Some(vec![
            "/home/u".to_owned(),
            ".local/state/buzz-acp".to_owned(),
            "0123456789abcdef".to_owned()
        ])
    );
    assert_eq!(resolve_path(None, None, key), None);
    assert_eq!(resolve_path(Some(""), None, key), None);
    assert_eq!(resolve_path(Some("/var/x"), None, key).unwrap().len(), 2);
}

#[test]
fn short_keys_are_cut_at_character_boundaries() {
    assert_eq!(shorten_key("0123456789abcdef"), "0123456789abcdef");
    assert_eq!(shorten_key("0123456789abcdefX"), "0123456789abcdef");
    assert_eq!(shorten_key("0123"), "0123");
    assert_eq!(shorten_key(""), "");
    // The sixteenth byte is inside a character: there is no such prefix.
    assert_eq!(shorten_key("0123456789abcdeéf"), "0123456789abcdeéf");
    assert_eq!(shorten_key("0123456789abcdéf"), "0123456789abcdé");
}

#[test]
fn keys_that_differ_early_have_directories_of_their_own() {
    let dir = |key: &str| resolve_path(None, Some("/home/u"), key);
    assert_ne!(dir("0123456789abcdef"), dir("0123456789abcdee"));
    assert_ne!(dir("0123"), dir("012"));
    assert_ne!(dir("0123456789abcdeé"), dir("0123456789abcdeè"));
    // The same first bytes are the same directory.
    assert_eq!(dir("0123456789abcdef00"), dir("0123456789abcdef11"));
}
