//! Thread attention: in which threads the agent is woken without a mention.
//!
//! An event that mentions the agent always wakes it. With thread attention, so does one
//! in a thread that the agent is engaged in, as long as its author is no other agent and
//! the engagement has not expired. Everything else is dropped.
//!
//! Agents are left out on purpose: two of them in one thread would otherwise hear each
//! other with no mention required and answer each other without end. Mentions remain the
//! only way in which agents wake each other.

use crate::clock::elapsed;
use crate::clock::instant_now;
use crate::clock::is_reading;
use crate::clock::read_clock;
use crate::clock::since;
use crate::clock::NANOS_PER_SEC;
use crate::hex::event_id_text;
use crate::hex::hex_of;
use crate::hex::law_hex_reads_back;
use crate::hex::pubkey_text;
use crate::hex::Bytes32;
use crate::json::json_elements;
use crate::json::json_members;
use crate::json::json_string;
use crate::json::member;
use crate::json::read_elements;
use crate::json::read_members;
use crate::json::read_string;
use crate::json::value_of;
use crate::table::lemma_map_has_row;
use crate::table::lemma_row_in_map;
use crate::table::Key;
use crate::table::Table;
use crate::text::law_texts_keep_their_places;
use crate::text::same_text;
use crate::text::texts;
use vstd::prelude::*;
use vstd::string::*;

verus! {

/// How long a thread stays engaged after the last accepted event in it.
pub const ENGAGEMENT_TTL: u128 = 45 * 60 * NANOS_PER_SEC;

/// How many threads are tracked before the expired ones are swept out.
pub const MAX_TRACKED: usize = 256;

/// How often the roster of known agents is refreshed from the relay.
pub const AGENT_ROSTER_REFRESH: u128 = 15 * 60 * NANOS_PER_SEC;

/// The kind of event in which an agent registers itself.
pub const AGENT_PROFILE_KIND: u16 = 10100;

/// How many registered agents are asked for.
pub const AGENT_ROSTER_LIMIT: usize = 500;

/// What attention needs of an event.
pub struct Event {
    /// The id of the event.
    pub id: Bytes32,
    /// The public key of its author.
    pub pubkey: Bytes32,
    /// The id of the thread's root event, from the event's tags; none in a root.
    pub root_event_id: Option<String>,
}

impl Event {
    /// The thread of the event: its root event, or the event itself where that is a root.
    pub open spec fn thread(&self) -> Seq<char> {
        match self.root_event_id {
            Some(root) => root@,
            None => hex_of(self.id@),
        }
    }

    /// The author of the event.
    pub open spec fn author(&self) -> Seq<char> {
        hex_of(self.pubkey@)
    }
}

/// A thread of a channel.
pub struct ThreadKey {
    pub channel_id: u128,
    pub thread: String,
}

impl View for ThreadKey {
    type V = (u128, Seq<char>);

    open spec fn view(&self) -> (u128, Seq<char>) {
        (self.channel_id, self.thread@)
    }
}

impl Key for ThreadKey {
    fn same(&self, other: &Self) -> (same: bool) {
        self.channel_id == other.channel_id && same_text(
            self.thread.as_str(),
            other.thread.as_str(),
        )
    }
}

/// The engaged threads, each with the time of the last accepted event in it.
pub type Engaged = Map<(u128, Seq<char>), u128>;

/// Whether an engagement of this time has not expired.
pub open spec fn is_warm(seen: u128, now: u128) -> bool {
    elapsed(now, seen) < ENGAGEMENT_TTL
}

/// The engagements that have not expired.
pub open spec fn swept(engaged: Engaged, now: u128) -> Engaged {
    Map::new(
        |k: (u128, Seq<char>)| engaged.contains_key(k) && is_warm(engaged[k], now),
        |k: (u128, Seq<char>)| engaged[k],
    )
}

/// The engagements after an event of this thread was accepted; where they are many, only
/// those that have not expired.
pub open spec fn engaged_after(engaged: Engaged, thread: (u128, Seq<char>), now: u128) -> Engaged {
    let next = engaged.insert(thread, now);
    if next.len() > MAX_TRACKED {
        swept(next, now)
    } else {
        next
    }
}

/// Whether an event of this thread by this author wakes the agent without mentioning it.
pub open spec fn wakes(
    engaged: Engaged,
    agents: Set<Seq<char>>,
    thread: (u128, Seq<char>),
    author: Seq<char>,
    now: u128,
) -> bool {
    &&& !agents.contains(author)
    &&& engaged.contains_key(thread)
    &&& is_warm(engaged[thread], now)
}

/// The engagements after that question: an engagement that is found expired is dropped.
pub open spec fn engaged_after_wake(
    engaged: Engaged,
    agents: Set<Seq<char>>,
    thread: (u128, Seq<char>),
    author: Seq<char>,
    now: u128,
) -> Engaged {
    if !agents.contains(author) && engaged.contains_key(thread) && !is_warm(engaged[thread], now) {
        engaged.remove(thread)
    } else {
        engaged
    }
}

/// Whether a roster of this age is due for a refresh.
pub open spec fn is_stale(refreshed: Option<u128>, now: u128) -> bool {
    match refreshed {
        None => true,
        Some(then) => elapsed(now, then) >= AGENT_ROSTER_REFRESH,
    }
}

/// The threads that the agent is engaged in, and the agents that it knows.
pub struct Attention {
    engaged: Table<ThreadKey, u128>,
    agents: Vec<String>,
    agents_refreshed: Option<u128>,
    epoch: std::time::Instant,
}

impl Attention {
    /// No thread is tracked twice.
    pub closed spec fn wf(&self) -> bool {
        self.engaged.wf()
    }

    /// The engaged threads.
    pub closed spec fn engaged(&self) -> Engaged {
        self.engaged@
    }

    /// The public keys that are known to be agents'.
    pub closed spec fn agents(&self) -> Set<Seq<char>> {
        texts(self.agents@).to_set()
    }

    /// When the agents were last made known.
    pub closed spec fn refreshed(&self) -> Option<u128> {
        self.agents_refreshed
    }

    /// The moment from which the clock is read.
    pub closed spec fn clock(&self) -> std::time::Instant {
        self.epoch
    }

    /// No thread is engaged and no agent known.
    pub fn new() -> (attention: Self)
        ensures
            attention.wf(),
            attention.engaged() == Map::<(u128, Seq<char>), u128>::empty(),
            attention.agents() == Set::<Seq<char>>::empty(),
            attention.refreshed() is None,
    {
        let attention = Attention {
            engaged: Table::new(),
            agents: Vec::new(),
            agents_refreshed: None,
            epoch: instant_now(),
        };
        assert(attention.agents() =~= Set::<Seq<char>>::empty());
        attention
    }

    /// The thread of an event: its root event, or its own id where it is a root itself.
    pub fn thread_key(event: &Event) -> (thread: String)
        ensures
            thread@ == event.thread(),
    {
        match &event.root_event_id {
            Some(root) => root.clone(),
            None => event_id_text(event.id),
        }
    }

    /// Records that an event was accepted, so that its thread stays engaged as long as the
    /// conversation goes on.
    pub fn engage(&mut self, channel_id: u128, event: &Event)
        requires
            old(self).wf(),
        ensures
            final(self).wf(),
            exists|now: u128|
                {
                    &&& is_reading(old(self).clock(), now)
                    &&& final(self).engaged() == #[trigger] engaged_after(
                        old(self).engaged(),
                        (channel_id, event.thread()),
                        now,
                    )
                },
            final(self).agents() == old(self).agents(),
            final(self).refreshed() == old(self).refreshed(),
            final(self).clock() == old(self).clock(),
    {
        let now: u128 = read_clock(&self.epoch);
        self.engage_at(channel_id, event, now);
    }

    /// Records that an event was accepted at this time.
    pub fn engage_at(&mut self, channel_id: u128, event: &Event, now: u128)
        requires
            old(self).wf(),
        ensures
            final(self).wf(),
            final(self).engaged() == engaged_after(
                old(self).engaged(),
                (channel_id, event.thread()),
                now,
            ),
            final(self).agents() == old(self).agents(),
            final(self).refreshed() == old(self).refreshed(),
            final(self).clock() == old(self).clock(),
    {
        let key = ThreadKey { channel_id, thread: Self::thread_key(event) };
        self.engaged.insert(key, now);
        if self.engaged.len() > MAX_TRACKED {
            self.sweep_at(now);
        }
    }

    /// Drops the engagements that have expired at this time.
    pub fn sweep_at(&mut self, now: u128)
        requires
            old(self).wf(),
        ensures
            final(self).wf(),
            final(self).engaged() == swept(old(self).engaged(), now),
            final(self).agents() == old(self).agents(),
            final(self).refreshed() == old(self).refreshed(),
            final(self).clock() == old(self).clock(),
    {
        let ghost all = self.engaged@;
        let mut i: usize = 0;
        while i < self.engaged.len()
            invariant
                self.engaged.wf(),
                self.agents == old(self).agents,
                self.agents_refreshed == old(self).agents_refreshed,
                self.epoch == old(self).epoch,
                i <= self.engaged.rows().len(),
                forall|j: int|
                    0 <= j < i ==> is_warm((#[trigger] self.engaged.rows()[j]).1, now),
                forall|k: (u128, Seq<char>)| #[trigger]
                    self.engaged@.contains_key(k) ==> all.contains_key(k) && all[k]
                        == self.engaged@[k],
                forall|k: (u128, Seq<char>)| #[trigger]
                    all.contains_key(k) && is_warm(all[k], now) ==> self.engaged@.contains_key(k),
            decreases self.engaged.rows().len() - i,
        {
            let ghost before = self.engaged@;
            let ghost rows = self.engaged.rows();
            let seen: u128 = self.engaged.row(i).1;
            proof {
                self.engaged.lemma_view();
                lemma_row_in_map(rows, i as int);
                let k = rows[i as int].0@;
                assert(before.contains_key(k));
                assert(before[k] == seen);
                assert(all[k] == seen);
            }
            if since(now, seen) < ENGAGEMENT_TTL {
                i += 1;
            } else {
                self.engaged.remove_row(i);
                assert forall|j: int| 0 <= j < i implies is_warm(
                    (#[trigger] self.engaged.rows()[j]).1,
                    now,
                ) by {
                    assert(self.engaged.rows()[j] == rows[j]);
                }
            }
        }
        proof {
            let left = self.engaged@;
            self.engaged.lemma_view();
            assert forall|k: (u128, Seq<char>)| left.contains_key(k) == swept(
                all,
                now,
            ).contains_key(k) by {
                if left.contains_key(k) {
                    let j = lemma_map_has_row(self.engaged.rows(), k);
                    lemma_row_in_map(self.engaged.rows(), j);
                }
            }
            assert(left =~= swept(all, now));
        }
    }

    /// Whether an event that does not mention the agent is still delivered to it.
    pub fn should_wake(&mut self, channel_id: u128, event: &Event) -> (wake: bool)
        requires
            old(self).wf(),
        ensures
            final(self).wf(),
            exists|now: u128|
                {
                    &&& is_reading(old(self).clock(), now)
                    &&& wake == #[trigger] wakes(
                        old(self).engaged(),
                        old(self).agents(),
                        (channel_id, event.thread()),
                        event.author(),
                        now,
                    )
                    &&& final(self).engaged() == engaged_after_wake(
                        old(self).engaged(),
                        old(self).agents(),
                        (channel_id, event.thread()),
                        event.author(),
                        now,
                    )
                },
            final(self).agents() == old(self).agents(),
            final(self).refreshed() == old(self).refreshed(),
            final(self).clock() == old(self).clock(),
    {
        let now: u128 = read_clock(&self.epoch);
        self.should_wake_at(channel_id, event, now)
    }

    /// Whether an event that does not mention the agent is still delivered to it at this
    /// time.
    pub fn should_wake_at(&mut self, channel_id: u128, event: &Event, now: u128) -> (wake: bool)
        requires
            old(self).wf(),
        ensures
            final(self).wf(),
            wake == wakes(
                old(self).engaged(),
                old(self).agents(),
                (channel_id, event.thread()),
                event.author(),
                now,
            ),
            final(self).engaged() == engaged_after_wake(
                old(self).engaged(),
                old(self).agents(),
                (channel_id, event.thread()),
                event.author(),
                now,
            ),
            final(self).agents() == old(self).agents(),
            final(self).refreshed() == old(self).refreshed(),
            final(self).clock() == old(self).clock(),
    {
        let author = pubkey_text(event.pubkey);
        if self.knows_agent(author.as_str()) {
            return false;
        }
        let key = ThreadKey { channel_id, thread: Self::thread_key(event) };
        let seen = match self.engaged.get(&key) {
            Some(seen) => *seen,
            None => {
                return false;
            },
        };
        if since(now, seen) < ENGAGEMENT_TTL {
            true
        } else {
            let _ = self.engaged.remove(&key);
            false
        }
    }

    /// Whether this public key is known to be an agent's.
    fn knows_agent(&self, pubkey_hex: &str) -> (known: bool)
        ensures
            known == self.agents().contains(pubkey_hex@),
    {
        contains_text(&self.agents, pubkey_hex)
    }

    /// Whether the roster of agents is due for a refresh.
    pub fn agent_roster_stale(&self) -> (stale: bool)
        ensures
            exists|now: u128|
                {
                    &&& is_reading(self.clock(), now)
                    &&& stale == #[trigger] is_stale(self.refreshed(), now)
                },
    {
        let now: u128 = read_clock(&self.epoch);
        self.agent_roster_stale_at(now)
    }

    /// Whether the roster of agents is due for a refresh at this time.
    pub fn agent_roster_stale_at(&self, now: u128) -> (stale: bool)
        ensures
            stale == is_stale(self.refreshed(), now),
    {
        match self.agents_refreshed {
            None => true,
            Some(then) => since(now, then) >= AGENT_ROSTER_REFRESH,
        }
    }

    /// Makes these the known agents.
    pub fn set_agents(&mut self, agents: Vec<String>)
        requires
            old(self).wf(),
        ensures
            final(self).wf(),
            final(self).agents() == texts(agents@).to_set(),
            final(self).refreshed() is Some,
            is_reading(old(self).clock(), final(self).refreshed()->0),
            final(self).engaged() == old(self).engaged(),
            final(self).clock() == old(self).clock(),
    {
        let now: u128 = read_clock(&self.epoch);
        self.set_agents_at(agents, now);
    }

    /// Makes these the known agents at this time.
    pub fn set_agents_at(&mut self, agents: Vec<String>, now: u128)
        requires
            old(self).wf(),
        ensures
            final(self).wf(),
            final(self).agents() == texts(agents@).to_set(),
            final(self).refreshed() == Some(now),
            final(self).engaged() == old(self).engaged(),
            final(self).clock() == old(self).clock(),
    {
        self.agents = agents;
        self.agents_refreshed = Some(now);
    }
}

/// Whether one of the strings is this text.
fn contains_text(strings: &Vec<String>, text: &str) -> (found: bool)
    ensures
        found == texts(strings@).to_set().contains(text@),
{
    let n: usize = strings.len();
    let mut i: usize = 0;
    while i < n
        invariant
            n == strings@.len(),
            i <= n,
            forall|j: int| 0 <= j < i ==> (#[trigger] strings@[j])@ != text@,
        decreases n - i,
    {
        if same_text(strings[i].as_str(), text) {
            assert(texts(strings@)[i as int] == text@);
            return true;
        }
        i += 1;
    }
    false
}

/// The public key in an event of the relay's reply, if it has one.
pub open spec fn pubkey_in(element: Seq<char>) -> Option<Seq<char>> {
    match json_members(element) {
        Some(members) => match value_of(members, "pubkey"@) {
            Some(value) => json_string(value),
            None => None,
        },
        None => None,
    }
}

/// The public keys in the relay's reply; none where it is no array.
pub open spec fn roster_of(reply: Seq<char>) -> Set<Seq<char>> {
    match json_elements(reply) {
        Some(elements) => Set::new(
            |key: Seq<char>|
                exists|i: int|
                    0 <= i < elements.len() && pubkey_in(#[trigger] elements[i]) == Some(key),
        ),
        None => Set::empty(),
    }
}

/// The texts that are there.
pub open spec fn present(found: Seq<Option<String>>) -> Set<Seq<char>> {
    Set::new(
        |key: Seq<char>|
            exists|i: int|
                0 <= i < found.len() && (#[trigger] found[i]) is Some && found[i]->0@ == key,
    )
}

/// The public keys that are there, each of them once.
pub fn distinct_pubkeys(found: &Vec<Option<String>>) -> (keys: Vec<String>)
    ensures
        texts(keys@).to_set() == present(found@),
        texts(keys@).no_duplicates(),
{
    let mut keys: Vec<String> = Vec::new();
    let n: usize = found.len();
    let mut i: usize = 0;
    while i < n
        invariant
            n == found@.len(),
            i <= n,
            texts(keys@).no_duplicates(),
            forall|key: Seq<char>| #[trigger]
                texts(keys@).to_set().contains(key) <==> present(found@.take(i as int)).contains(
                    key,
                ),
        decreases n - i,
    {
        let ghost head = found@.take(i as int);
        let ghost more = found@.take(i + 1);
        let ghost before = texts(keys@);
        assert forall|key: Seq<char>| #[trigger] present(more).contains(key) <==> present(head).contains(key)
            || (found@[i as int] is Some && found@[i as int]->0@ == key) by {
            if present(more).contains(key) {
                let j = choose|j: int|
                    0 <= j < more.len() && (#[trigger] more[j]) is Some && more[j]->0@ == key;
                if j < i {
                    assert(head[j] == more[j]);
                }
            }
            if present(head).contains(key) {
                let j = choose|j: int|
                    0 <= j < head.len() && (#[trigger] head[j]) is Some && head[j]->0@ == key;
                assert(head[j] == more[j]);
            }
            if found@[i as int] is Some && found@[i as int]->0@ == key {
                assert(more[i as int] == found@[i as int]);
            }
        }
        if let Some(key) = &found[i] {
            if !contains_text(&keys, key.as_str()) {
                keys.push(key.clone());
                proof {
                    assert(texts(keys@) =~= before.push(key@));
                    assert(!before.contains(key@));
                    assert forall|k: Seq<char>| #[trigger] texts(keys@).to_set().contains(k)
                        <==> before.to_set().contains(k) || k == key@ by {
                        if before.contains(k) {
                            let j = choose|j: int| 0 <= j < before.len() && before[j] == k;
                            assert(texts(keys@)[j] == k);
                        }
                        if k == key@ {
                            assert(texts(keys@)[before.len() as int] == k);
                        }
                    }
                }
            }
        }
        i += 1;
    }
    proof {
        assert(found@.take(n as int) =~= found@);
        assert(texts(keys@).to_set() =~= present(found@));
    }
    keys
}

/// The public key in an event of the relay's reply, if it has one.
fn read_pubkey(element: &str) -> (key: Option<String>)
    ensures
        match key {
            Some(key) => pubkey_in(element@) == Some(key@),
            None => pubkey_in(element@) is None,
        },
{
    match read_members(element) {
        Some(members) => match member(&members, "pubkey") {
            Some(value) => read_string(value.as_str()),
            None => None,
        },
        None => None,
    }
}

/// The registered agents, from the JSON text of the relay's reply to the question for
/// them; `None` where there was no reply, in which case the earlier roster stays.
pub fn roster_from_reply(reply: Option<&str>) -> (roster: Option<Vec<String>>)
    ensures
        match roster {
            Some(keys) => reply is Some && texts(keys@).to_set() == roster_of(reply->0@)
                && texts(keys@).no_duplicates(),
            None => reply is None,
        },
{
    let reply = match reply {
        Some(reply) => reply,
        None => {
            return None;
        },
    };
    let mut found: Vec<Option<String>> = Vec::new();
    let elements = match read_elements(reply) {
        Some(elements) => elements,
        None => {
            let keys: Vec<String> = Vec::new();
            assert(texts(keys@).to_set() =~= roster_of(reply@));
            return Some(keys);
        },
    };
    let n: usize = elements.len();
    let mut i: usize = 0;
    while i < n
        invariant
            n == elements@.len(),
            i <= n,
            found@.len() == i,
            forall|j: int|
                0 <= j < i ==> pubkey_in(elements@[j]@) == (match #[trigger] found@[j] {
                    Some(key) => Some(key@),
                    None => None,
                }),
        decreases n - i,
    {
        found.push(read_pubkey(elements[i].as_str()));
        i += 1;
    }
    let keys = distinct_pubkeys(&found);
    proof {
        let all = texts(elements@);
        assert forall|key: Seq<char>| present(found@).contains(key) <==> roster_of(
            reply@,
        ).contains(key) by {
            if present(found@).contains(key) {
                let j = choose|j: int|
                    0 <= j < found@.len() && (#[trigger] found@[j]) is Some && found@[j]->0@ == key;
                assert(pubkey_in(all[j]) == Some(key));
            }
            if roster_of(reply@).contains(key) {
                let j = choose|j: int|
                    0 <= j < all.len() && pubkey_in(#[trigger] all[j]) == Some(key);
                assert(found@[j] is Some && found@[j]->0@ == key);
            }
        }
        assert(present(found@) =~= roster_of(reply@));
    }
    Some(keys)
}

/// A thread in which an event was accepted wakes the agent for anyone but an agent, until
/// the engagement expires; then it does not.
pub proof fn law_engaged_thread_wakes_until_it_expires(
    engaged: Engaged,
    agents: Set<Seq<char>>,
    thread: (u128, Seq<char>),
    author: Seq<char>,
    accepted: u128,
    now: u128,
)
    requires
        !agents.contains(author),
    ensures
        wakes(engaged_after(engaged, thread, accepted), agents, thread, author, now) <==> elapsed(
            now,
            accepted,
        ) < ENGAGEMENT_TTL,
{
}

/// An agent's event wakes no one without a mention, and changes no engagement.
pub proof fn law_agents_wake_by_mention_only(
    engaged: Engaged,
    agents: Set<Seq<char>>,
    thread: (u128, Seq<char>),
    author: Seq<char>,
    now: u128,
)
    requires
        agents.contains(author),
    ensures
        !wakes(engaged, agents, thread, author, now),
        engaged_after_wake(engaged, agents, thread, author, now) == engaged,
{
}

/// A thread that is not engaged stays silent, and asking does not engage it.
pub proof fn law_unengaged_threads_stay_silent(
    engaged: Engaged,
    agents: Set<Seq<char>>,
    thread: (u128, Seq<char>),
    author: Seq<char>,
    now: u128,
)
    requires
        !engaged.contains_key(thread),
    ensures
        !wakes(engaged, agents, thread, author, now),
        engaged_after_wake(engaged, agents, thread, author, now) == engaged,
{
}

/// To engage one thread, and to sweep while doing so, changes no answer for another thread
/// from then on.
pub proof fn law_other_threads_are_untouched(
    engaged: Engaged,
    agents: Set<Seq<char>>,
    thread: (u128, Seq<char>),
    other: (u128, Seq<char>),
    author: Seq<char>,
    accepted: u128,
    now: u128,
)
    requires
        thread != other,
        accepted <= now,
    ensures
        wakes(engaged_after(engaged, thread, accepted), agents, other, author, now) == wakes(
            engaged,
            agents,
            other,
            author,
            now,
        ),
{
}

/// A sweep changes no answer from then on.
pub proof fn law_sweep_is_unseen(
    engaged: Engaged,
    agents: Set<Seq<char>>,
    thread: (u128, Seq<char>),
    author: Seq<char>,
    at: u128,
    now: u128,
)
    requires
        at <= now,
    ensures
        wakes(swept(engaged, at), agents, thread, author, now) == wakes(
            engaged,
            agents,
            thread,
            author,
            now,
        ),
{
}

/// To ask about one event changes no answer for any event from then on.
pub proof fn law_asking_changes_no_answer(
    engaged: Engaged,
    agents: Set<Seq<char>>,
    asked: (u128, Seq<char>),
    asked_author: Seq<char>,
    at: u128,
    thread: (u128, Seq<char>),
    author: Seq<char>,
    now: u128,
)
    requires
        at <= now,
    ensures
        wakes(
            engaged_after_wake(engaged, agents, asked, asked_author, at),
            agents,
            thread,
            author,
            now,
        ) == wakes(engaged, agents, thread, author, now),
{
}

/// After an event was accepted, more than [`MAX_TRACKED`] threads are tracked only where
/// none of them has expired.
pub proof fn law_tracking_is_bounded(engaged: Engaged, thread: (u128, Seq<char>), now: u128)
    ensures
        ({
            let next = engaged_after(engaged, thread, now);
            next.len() <= MAX_TRACKED || forall|k: (u128, Seq<char>)| #[trigger]
                next.contains_key(k) ==> is_warm(next[k], now)
        }),
{
}

/// A roster is stale until it is made known, and again when it is due for a refresh.
pub proof fn law_roster_goes_stale(then: u128, now: u128)
    ensures
        is_stale(None, now),
        !is_stale(Some(then), then),
        is_stale(Some(then), now) <==> elapsed(now, then) >= AGENT_ROSTER_REFRESH,
{
}

/// A reply belongs to the thread of the event that it names as its root, and different
/// root events start different threads.
pub proof fn law_replies_share_their_roots_thread(root: Event, reply: Event, other: Event)
    requires
        root.root_event_id is None,
        other.root_event_id is None,
        reply.root_event_id is Some,
        reply.root_event_id->0@ == hex_of(root.id@),
    ensures
        reply.thread() == root.thread(),
        root.thread() == other.thread() <==> root.id@ == other.id@,
{
    law_hex_reads_back(root.id@);
    law_hex_reads_back(other.id@);
}

/// The roster holds the public key of every event in the reply, from the first to the last,
/// and nothing else; a reply that is no array holds none.
pub proof fn law_roster_holds_every_event(reply: Seq<char>, elements: Seq<Seq<char>>, key: Seq<char>)
    ensures
        json_elements(reply) is None ==> !roster_of(reply).contains(key),
        json_elements(reply) == Some(elements) ==> {
            &&& forall|i: int|
                0 <= i < elements.len() && pubkey_in(#[trigger] elements[i]) == Some(key)
                    ==> roster_of(reply).contains(key)
            &&& roster_of(reply).contains(key) ==> exists|i: int|
                0 <= i < elements.len() && pubkey_in(#[trigger] elements[i]) == Some(key)
        },
{
}

/// One event more in a reply adds its public key to the roster, where it has one, and
/// changes nothing else.
pub proof fn law_roster_grows_by_each_event(
    reply: Seq<char>,
    longer: Seq<char>,
    elements: Seq<Seq<char>>,
    element: Seq<char>,
)
    requires
        json_elements(reply) == Some(elements),
        json_elements(longer) == Some(elements.push(element)),
    ensures
        roster_of(longer) == (match pubkey_in(element) {
            Some(key) => roster_of(reply).insert(key),
            None => roster_of(reply),
        }),
        elements.len() == 0 ==> roster_of(reply) == Set::<Seq<char>>::empty(),
{
    let more = elements.push(element);
    let grown = match pubkey_in(element) {
        Some(key) => roster_of(reply).insert(key),
        None => roster_of(reply),
    };
    assert forall|key: Seq<char>| roster_of(longer).contains(key) <==> grown.contains(key) by {
        if roster_of(longer).contains(key) {
            let i = choose|i: int| 0 <= i < more.len() && pubkey_in(#[trigger] more[i]) == Some(key);
            if i < elements.len() {
                assert(elements[i] == more[i]);
            }
        }
        if roster_of(reply).contains(key) {
            let i = choose|i: int|
                0 <= i < elements.len() && pubkey_in(#[trigger] elements[i]) == Some(key);
            assert(more[i] == elements[i]);
        }
        assert(more[elements.len() as int] == element);
    }
    assert(roster_of(longer) =~= grown);
    if elements.len() == 0 {
        assert(roster_of(reply) =~= Set::<Seq<char>>::empty());
    }
}

/// The public key of an event is the string that its object has under that name.
pub proof fn law_pubkey_is_the_member(
    element: Seq<char>,
    members: Map<Seq<char>, Seq<char>>,
    key: Seq<char>,
)
    ensures
        json_members(element) is None ==> pubkey_in(element) is None,
        json_members(element) == Some(members) ==> (pubkey_in(element) == Some(key)
            <==> members.contains_key("pubkey"@) && json_string(members["pubkey"@]) == Some(key)),
{
}

/// Whatever roster is made of a reply: each public key in it once, and no reply makes none.
pub proof fn law_roster_from_reply(
    reply: Option<&str>,
    roster: Option<Vec<String>>,
    elements: Seq<Seq<char>>,
    i: int,
    key: Seq<char>,
)
    requires
        call_ensures(roster_from_reply, (reply,), roster),
    ensures
        roster is None <==> reply is None,
        roster is Some && json_elements(reply->0@) is None ==> roster->0@.len() == 0,
        roster is Some && json_elements(reply->0@) == Some(elements) && 0 <= i < elements.len()
            && pubkey_in(elements[i]) == Some(key) ==> exists|j: int|
            0 <= j < roster->0@.len() && (#[trigger] roster->0@[j])@ == key,
        roster is Some && json_elements(reply->0@) == Some(elements) ==> forall|j: int|
            0 <= j < roster->0@.len() ==> exists|e: int|
                0 <= e < elements.len() && pubkey_in(#[trigger] elements[e]) == Some(
                    (#[trigger] roster->0@[j])@,
                ),
        roster is Some ==> forall|a: int, b: int|
            #![trigger roster->0@[a], roster->0@[b]]
            0 <= a < b < roster->0@.len() ==> roster->0@[a]@ != roster->0@[b]@,
{
    if roster is Some {
        let keys = roster->0@;
        let all = texts(keys);
        let set = roster_of(reply->0@);
        law_texts_keep_their_places(keys, reply->0);
        assert(all.to_set() == set);
        assert forall|j: int| 0 <= j < keys.len() implies set.contains((#[trigger] keys[j])@) by {
            assert(all[j] == keys[j]@);
            assert(all.contains(all[j]));
        }
        if json_elements(reply->0@) is None && keys.len() > 0 {
            assert(set.contains(keys[0]@));
        }
        if json_elements(reply->0@) == Some(elements) {
            if 0 <= i < elements.len() && pubkey_in(elements[i]) == Some(key) {
                assert(set.contains(key));
                assert(all.contains(key));
                let j = choose|j: int| 0 <= j < all.len() && all[j] == key;
                assert(keys[j]@ == key);
            }
            assert forall|j: int| 0 <= j < keys.len() implies exists|e: int|
                0 <= e < elements.len() && pubkey_in(#[trigger] elements[e]) == Some(
                    (#[trigger] keys[j])@,
                ) by {
                assert(set.contains(keys[j]@));
            }
        }
        assert forall|a: int, b: int|
            #![trigger keys[a], keys[b]]
            0 <= a < b < keys.len() implies keys[a]@ != keys[b]@ by {
            assert(all[a] == keys[a]@ && all[b] == keys[b]@);
        }
    }
}

/// A sweep keeps exactly the engagements of the last 45 minutes, each with its time.
pub proof fn law_sweep_keeps_the_warm(engaged: Engaged, now: u128, thread: (u128, Seq<char>))
    ensures
        swept(engaged, now).contains_key(thread) <==> engaged.contains_key(thread) && elapsed(
            now,
            engaged[thread],
        ) < 2_700_000_000_000,
        swept(engaged, now).contains_key(thread) ==> swept(engaged, now)[thread] == engaged[thread],
{
}

/// Accepting an event records its thread with that time, also where it was engaged before,
/// and keeps every other thread as it was; only where there are more than 256 are the expired
/// ones dropped.
pub proof fn law_accepting_records_the_thread(
    engaged: Engaged,
    thread: (u128, Seq<char>),
    other: (u128, Seq<char>),
    now: u128,
)
    requires
        thread != other,
    ensures
        ({
            let next = engaged_after(engaged, thread, now);
            &&& next.contains_key(thread) && next[thread] == now
            &&& next.contains_key(other) ==> engaged.contains_key(other) && next[other]
                == engaged[other]
            &&& engaged.contains_key(other) && elapsed(now, engaged[other]) < 2_700_000_000_000
                ==> next.contains_key(other)
            &&& engaged.contains_key(other) && engaged.insert(thread, now).len() <= 256
                ==> next.contains_key(other)
            &&& next.contains_key(other) && engaged.insert(thread, now).len() > 256 ==> elapsed(
                now,
                engaged[other],
            ) < 2_700_000_000_000
        }),
{
}

/// An event wakes the agent exactly where its author is no agent and an event of its thread
/// was accepted less than 45 minutes ago; asking forgets the thread exactly where it is found
/// expired, and never another.
pub proof fn law_waking_is_decided_by_thread_author_and_time(
    engaged: Engaged,
    agents: Set<Seq<char>>,
    thread: (u128, Seq<char>),
    other: (u128, Seq<char>),
    author: Seq<char>,
    now: u128,
)
    ensures
        wakes(engaged, agents, thread, author, now) <==> {
            &&& !agents.contains(author)
            &&& engaged.contains_key(thread)
            &&& elapsed(now, engaged[thread]) < 2_700_000_000_000
        },
        ({
            let next = engaged_after_wake(engaged, agents, thread, author, now);
            &&& next == engaged || next == engaged.remove(thread)
            &&& next.contains_key(thread) <==> engaged.contains_key(thread) && (agents.contains(
                author,
            ) || elapsed(now, engaged[thread]) < 2_700_000_000_000)
            &&& other != thread ==> next.contains_key(other) == engaged.contains_key(other)
            &&& next.contains_key(other) ==> next[other] == engaged[other]
        }),
{
}

/// The thread of an event is the root that its tags name, else its own id; its author is its
/// public key.
pub proof fn law_threads_and_authors(event: &Event, thread: String)
    requires
        call_ensures(Attention::thread_key, (event,), thread),
    ensures
        event.root_event_id is Some ==> thread@ == event.root_event_id->0@,
        event.root_event_id is None ==> thread@ == hex_of(event.id@),
        thread@ == event.thread(),
        event.author() == hex_of(event.pubkey@),
{
}

/// Whatever is answered about an event at some time: no agent's event wakes, and another's
/// does where its thread is engaged and not expired; what is known of agents stays.
pub proof fn law_answer_at_a_time(
    a: &mut Attention,
    channel_id: u128,
    event: &Event,
    now: u128,
    wake: bool,
)
    requires
        call_ensures(Attention::should_wake_at, (a, channel_id, event, now), wake),
    ensures
        ({
            let engaged = old(a).engaged();
            let thread = (channel_id, event.thread());
            let known = old(a).agents().contains(hex_of(event.pubkey@));
            &&& wake <==> !known && engaged.contains_key(thread) && elapsed(now, engaged[thread])
                < 2_700_000_000_000
            &&& final(a).engaged() == (if !known && engaged.contains_key(thread) && !wake {
                engaged.remove(thread)
            } else {
                engaged
            })
            &&& final(a).agents() == old(a).agents()
            &&& final(a).refreshed() == old(a).refreshed()
        }),
{
}

/// Whatever is answered about an event: it is the answer for a reading of the same clock by
/// which engagements are recorded. Where every such reading is 45 minutes or more after the
/// thread was last accepted, the answer is no; where every one is less, and the author is no
/// agent, it is yes.
pub proof fn law_answer_is_by_the_clock(
    a: &mut Attention,
    channel_id: u128,
    event: &Event,
    wake: bool,
)
    requires
        call_ensures(Attention::should_wake, (a, channel_id, event), wake),
    ensures
        ({
            let engaged = old(a).engaged();
            let thread = (channel_id, event.thread());
            let known = old(a).agents().contains(hex_of(event.pubkey@));
            &&& exists|now: u128|
                {
                    &&& #[trigger] is_reading(old(a).clock(), now)
                    &&& wake <==> !known && engaged.contains_key(thread) && elapsed(
                        now,
                        engaged[thread],
                    ) < 2_700_000_000_000
                }
            &&& (forall|now: u128| #[trigger]
                is_reading(old(a).clock(), now) ==> elapsed(now, engaged[thread])
                    >= 2_700_000_000_000) ==> !wake && !(final(a).engaged().contains_key(thread)
                && !known)
            &&& !known && engaged.contains_key(thread) && (forall|now: u128| #[trigger]
                is_reading(old(a).clock(), now) ==> elapsed(now, engaged[thread])
                    < 2_700_000_000_000) ==> wake && final(a).engaged() == engaged
            &&& known || !engaged.contains_key(thread) ==> !wake && final(a).engaged() == engaged
            &&& final(a).clock() == old(a).clock()
        }),
{
}

/// Accepting an event records a reading of the clock for its thread, and from that clock the
/// later answers are made.
pub proof fn law_acceptance_is_by_the_clock(a: &mut Attention, channel_id: u128, event: &Event)
    requires
        call_ensures(Attention::engage, (a, channel_id, event), ()),
    ensures
        ({
            let thread = (channel_id, event.thread());
            let next = final(a).engaged();
            &&& next.contains_key(thread)
            &&& is_reading(old(a).clock(), next[thread])
            &&& next == engaged_after(old(a).engaged(), thread, next[thread])
            &&& final(a).clock() == old(a).clock()
            &&& final(a).agents() == old(a).agents()
            &&& final(a).refreshed() == old(a).refreshed()
        }),
{
}

/// The other changes: at a given time an event is accepted and expired threads are swept out,
/// and the agents made known take the place of those known before.
pub proof fn law_changes_at_a_time(
    a: &mut Attention,
    channel_id: u128,
    event: &Event,
    b: &mut Attention,
    c: &mut Attention,
    agents: Vec<String>,
    now: u128,
    i: int,
    key: Seq<char>,
)
    requires
        call_ensures(Attention::engage_at, (a, channel_id, event, now), ()),
        call_ensures(Attention::sweep_at, (b, now), ()),
        call_ensures(Attention::set_agents_at, (c, agents, now), ()),
    ensures
        final(a).engaged() == engaged_after(
            old(a).engaged(),
            (channel_id, event.thread()),
            now,
        ),
        final(b).engaged() == swept(old(b).engaged(), now),
        final(c).engaged() == old(c).engaged(),
        final(c).refreshed() == Some(now),
        0 <= i < agents@.len() ==> final(c).agents().contains(agents@[i]@),
        final(c).agents().contains(key) ==> exists|j: int|
            0 <= j < agents@.len() && (#[trigger] agents@[j])@ == key,
{
    let all = texts(agents@);
    if 0 <= i < agents@.len() {
        assert(all[i] == agents@[i]@);
        assert(all.contains(all[i]));
    }
    if final(c).agents().contains(key) {
        assert(all.contains(key));
        let j = choose|j: int| 0 <= j < all.len() && all[j] == key;
        assert(agents@[j]@ == key);
    }
}

/// A roster made known now is dated by the clock, and whether it is due for a refresh is
/// answered for a reading of that clock: it is, where it was never made known or where that
/// was 15 minutes ago or more.
pub proof fn law_roster_is_dated_by_the_clock(
    a: &mut Attention,
    agents: Vec<String>,
    b: &Attention,
    stale: bool,
    now: u128,
    stale_now: bool,
    fresh: Attention,
)
    requires
        call_ensures(Attention::set_agents, (a, agents), ()),
        call_ensures(Attention::agent_roster_stale, (b,), stale),
        call_ensures(Attention::agent_roster_stale_at, (b, now), stale_now),
        call_ensures(Attention::new, (), fresh),
    ensures
        final(a).refreshed() is Some,
        is_reading(old(a).clock(), final(a).refreshed()->0),
        final(a).clock() == old(a).clock(),
        final(a).engaged() == old(a).engaged(),
        final(a).agents() == texts(agents@).to_set(),
        b.refreshed() is None ==> stale && stale_now,
        b.refreshed() is Some ==> (stale_now <==> elapsed(now, b.refreshed()->0)
            >= 900_000_000_000),
        b.refreshed() is Some ==> exists|t: u128| #[trigger]
            is_reading(b.clock(), t) && (stale <==> elapsed(t, b.refreshed()->0)
                >= 900_000_000_000),
        fresh.refreshed() is None,
        forall|k: (u128, Seq<char>)| !#[trigger] fresh.engaged().contains_key(k),
        forall|k: Seq<char>| !#[trigger] fresh.agents().contains(k),
{
}

/// The public keys that were found are kept, each once.
pub proof fn law_found_pubkeys_are_kept(
    found: &Vec<Option<String>>,
    keys: Vec<String>,
    i: int,
    j: int,
    other: int,
)
    requires
        call_ensures(distinct_pubkeys, (found,), keys),
    ensures
        0 <= i < found@.len() && found@[i] is Some ==> exists|k: int|
            0 <= k < keys@.len() && (#[trigger] keys@[k])@ == found@[i]->0@,
        0 <= j < keys@.len() ==> exists|k: int|
            0 <= k < found@.len() && (#[trigger] found@[k]) is Some && found@[k]->0@ == keys@[j]@,
        0 <= j < other < keys@.len() ==> keys@[j]@ != keys@[other]@,
{
    let all = texts(keys@);
    if 0 <= i < found@.len() && found@[i] is Some {
        assert(present(found@).contains(found@[i]->0@));
        assert(all.contains(found@[i]->0@));
        let k = choose|k: int| 0 <= k < all.len() && all[k] == found@[i]->0@;
        assert(keys@[k]@ == found@[i]->0@);
    }
    if 0 <= j < keys@.len() {
        assert(all[j] == keys@[j]@);
        assert(all.contains(all[j]));
        assert(present(found@).contains(keys@[j]@));
    }
    if 0 <= j < other < keys@.len() {
        assert(all[j] == keys@[j]@ && all[other] == keys@[other]@);
    }
}

/// An engagement lasts 45 minutes and a roster 15; 256 threads are tracked before a sweep;
/// agents register themselves in events of kind 10100, of which 500 are asked for.
pub proof fn law_bounds_of_attention()
    ensures
        ENGAGEMENT_TTL == 2_700_000_000_000,
        AGENT_ROSTER_REFRESH == 900_000_000_000,
        MAX_TRACKED == 256,
        AGENT_PROFILE_KIND == 10100,
        AGENT_ROSTER_LIMIT == 500,
{
}

} // verus!
