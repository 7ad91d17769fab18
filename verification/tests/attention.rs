use buzz_acp::attention::{
    distinct_pubkeys, roster_from_reply, Attention, Event, AGENT_ROSTER_REFRESH, ENGAGEMENT_TTL,
    MAX_TRACKED,
};

const SECOND: u128 = 1_000_000_000;

fn event(id: u8, author: u8, root: Option<&str>) -> Event {
    Event { id: [id; 32], pubkey: [author; 32], root_event_id: root.map(|r| r.to_owned()) }
}

fn hex(byte: u8) -> String {
    format!("{byte:02x}").repeat(32)
}

#[test]
fn a_thread_is_its_root_event() {
    assert_eq!(Attention::thread_key(&event(0xa1, 1, None)), hex(0xa1));
    assert_eq!(Attention::thread_key(&event(0xa1, 1, Some("root"))), "root");
    assert_eq!(
        Attention::thread_key(&event(2, 1, Some(&hex(0xa1)))),
        Attention::thread_key(&event(0xa1, 1, None))
    );
}

#[test]
fn an_engaged_thread_wakes_until_it_expires() {
    assert_eq!(ENGAGEMENT_TTL, 2700 * SECOND);
    let mut a = Attention::new();
    let root = event(1, 9, None);
    let reply = event(2, 8, Some(&hex(1)));
    assert!(!a.should_wake_at(5, &reply, 100));
    a.engage_at(5, &root, 100);
    assert!(a.should_wake_at(5, &reply, 100));
    assert!(a.should_wake_at(5, &reply, 100 + ENGAGEMENT_TTL - 1));
    assert!(!a.should_wake_at(6, &reply, 100), "another channel");
    assert!(!a.should_wake_at(5, &event(3, 8, None), 100), "another thread");
    assert!(!a.should_wake_at(5, &reply, 100 + ENGAGEMENT_TTL));
    // The expired engagement is gone for good.
    assert!(!a.should_wake_at(5, &reply, 100));
}

#[test]
fn an_accepted_event_keeps_the_thread_warm() {
    let mut a = Attention::new();
    a.engage_at(5, &event(1, 9, None), 0);
    a.engage_at(5, &event(2, 8, Some(&hex(1))), ENGAGEMENT_TTL);
    assert!(a.should_wake_at(5, &event(3, 8, Some(&hex(1))), 2 * ENGAGEMENT_TTL - 1));
}

#[test]
fn agents_wake_by_mention_only() {
    let mut a = Attention::new();
    a.engage_at(5, &event(1, 9, None), 0);
    a.set_agents_at(vec![hex(0xee), hex(8)], 0);
    assert!(!a.should_wake_at(5, &event(2, 8, Some(&hex(1))), 1));
    assert!(a.should_wake_at(5, &event(2, 7, Some(&hex(1))), 1));
    // An agent's question does not drop an expired engagement.
    assert!(!a.should_wake_at(5, &event(2, 8, Some(&hex(1))), ENGAGEMENT_TTL));
    assert!(a.should_wake_at(5, &event(2, 7, Some(&hex(1))), 1));
    a.set_agents_at(Vec::new(), 2);
    assert!(a.should_wake_at(5, &event(2, 8, Some(&hex(1))), 3));
}

#[test]
fn a_clock_that_stands_still_is_no_expiry() {
    let mut a = Attention::new();
    a.engage_at(5, &event(1, 9, None), 1000);
    assert!(a.should_wake_at(5, &event(2, 8, Some(&hex(1))), 0));
}

#[test]
fn expired_threads_are_swept_when_there_are_many() {
    let mut a = Attention::new();
    let thread = |i: usize| event(1, 9, Some(&format!("t{i}")));
    for i in 0..MAX_TRACKED {
        a.engage_at(5, &thread(i), i as u128);
    }
    // Thread 0 has expired by now, and all the others have not.
    a.engage_at(5, &thread(MAX_TRACKED), ENGAGEMENT_TTL);
    assert!(!a.should_wake_at(5, &thread(0), 0), "swept");
    assert!(a.should_wake_at(5, &thread(1), 1));
    assert!(a.should_wake_at(5, &thread(MAX_TRACKED), ENGAGEMENT_TTL));
    // None has expired: all of them stay.
    a.engage_at(5, &thread(MAX_TRACKED + 1), ENGAGEMENT_TTL);
    assert!(a.should_wake_at(5, &thread(1), 1));
}

#[test]
fn few_threads_are_not_swept() {
    let mut a = Attention::new();
    a.engage_at(5, &event(1, 9, None), 0);
    a.engage_at(5, &event(2, 9, None), ENGAGEMENT_TTL);
    assert!(a.should_wake_at(5, &event(3, 9, Some(&hex(1))), 1));
    a.sweep_at(ENGAGEMENT_TTL);
    assert!(!a.should_wake_at(5, &event(3, 9, Some(&hex(1))), 1));
    assert!(a.should_wake_at(5, &event(3, 9, Some(&hex(2))), ENGAGEMENT_TTL));
}

#[test]
fn the_roster_goes_stale() {
    assert_eq!(AGENT_ROSTER_REFRESH, 900 * SECOND);
    let mut a = Attention::new();
    assert!(a.agent_roster_stale_at(0));
    a.set_agents_at(Vec::new(), 7);
    assert!(!a.agent_roster_stale_at(7));
    assert!(!a.agent_roster_stale_at(6 + AGENT_ROSTER_REFRESH));
    assert!(a.agent_roster_stale_at(7 + AGENT_ROSTER_REFRESH));
}

#[test]
fn the_clock_is_that_of_the_machine() {
    let mut a = Attention::new();
    assert!(a.agent_roster_stale());
    a.set_agents(vec![hex(8)]);
    assert!(!a.agent_roster_stale());
    let root = event(1, 9, None);
    assert!(!a.should_wake(5, &root));
    a.engage(5, &root);
    assert!(a.should_wake(5, &event(2, 7, Some(&hex(1)))));
    assert!(!a.should_wake(5, &event(2, 8, Some(&hex(1)))));
}

#[test]
fn the_roster_is_read_from_the_reply() {
    let reply = r#"[{"pubkey":"aa"},{"pubkey":7},{"other":"x"},3,{"pubkey":"bb","kind":10100},{"pubkey":"aa"}]"#;
    assert_eq!(roster_from_reply(Some(reply)), Some(vec!["aa".to_owned(), "bb".to_owned()]));
    assert_eq!(roster_from_reply(Some("{}")), Some(Vec::new()));
    assert_eq!(roster_from_reply(Some("[]")), Some(Vec::new()));
    assert_eq!(roster_from_reply(None), None);
}

#[test]
fn every_pubkey_is_listed_once() {
    let found = vec![Some("b".to_owned()), None, Some("a".to_owned()), Some("b".to_owned())];
    assert_eq!(distinct_pubkeys(&found), vec!["b".to_owned(), "a".to_owned()]);
    assert!(distinct_pubkeys(&vec![None]).is_empty());
}
