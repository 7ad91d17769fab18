//! The mapping from scopes to sessions, kept across a restart.
//!
//! The agent's transcript outlives the harness; only the pointer to it would be lost.
//! So the store keeps the pointer: one entry for each live scope, in a small JSON file
//! that a human can read and delete. A file that cannot be read is an empty mapping,
//! never a failure.
//!
//! The store itself does no file access. What it is opened with is the text of the file,
//! and what changes it returns the steps that write the file anew.

use crate::json::flagged_map;
use crate::json::has_repeat;
use crate::json::json_elements;
use crate::json::json_flag;
use crate::json::json_listed;
use crate::json::json_members;
use crate::json::json_pretty;
use crate::json::json_string;
use crate::json::json_strings;
use crate::json::list_members;
use crate::json::member;
use crate::json::pairs_list;
use crate::json::pairs_map;
use crate::json::read_bool;
use crate::json::read_elements;
use crate::json::read_members;
use crate::json::read_string;
use crate::json::read_strings;
use crate::json::reads_back;
use crate::json::repeats;
use crate::json::value_of;
use crate::json::write_pretty;
use crate::scope::key_of;
use crate::scope::law_scopes_do_not_collide;
use crate::scope::scope_key;
use crate::scope::SessionScope;
use crate::table::keys_distinct;
use crate::table::lemma_map_has_row;
use crate::table::lemma_push;
use crate::table::lemma_row_in_map;
use crate::table::rows_map;
use crate::table::Table;
use crate::text::same_text;
use crate::text::text_of;
use vstd::prelude::*;
use vstd::string::*;

verus! {

/// What is remembered of one resumable session.
///
/// `primed` tells whether the session has received its standing context. An agent that
/// gets it as a user message has sessions without it, and to resume such a session as if
/// it were primed would leave the agent without instructions.
#[derive(Debug, Clone)]
pub struct StoredSession {
    pub id: String,
    pub primed: bool,
}

impl View for StoredSession {
    type V = (Seq<char>, bool);

    open spec fn view(&self) -> (Seq<char>, bool) {
        (self.id@, self.primed)
    }
}

/// The sessions of a store: under each key, a session id and whether it is primed.
pub type Sessions = Map<Seq<char>, (Seq<char>, bool)>;

/// One field of an entry as it was found in a file.
pub enum Field<T> {
    /// The entry does not have the field.
    Missing,
    /// The entry has the field, with a value of the wrong type.
    Invalid,
    /// The entry has the field.
    Value(T),
}

/// The session that an entry's two fields make: it needs an id, and without a flag it is
/// not primed.
pub open spec fn session_from(id: Field<Seq<char>>, primed: Field<bool>) -> Option<
    (Seq<char>, bool),
> {
    match (id, primed) {
        (Field::Value(id), Field::Value(primed)) => Some((id, primed)),
        (Field::Value(id), Field::Missing) => Some((id, false)),
        _ => None,
    }
}

/// A string field by its characters.
pub open spec fn field_text(field: Field<String>) -> Field<Seq<char>> {
    match field {
        Field::Missing => Field::Missing,
        Field::Invalid => Field::Invalid,
        Field::Value(s) => Field::Value(s@),
    }
}

/// A string field, read from its JSON text.
pub open spec fn string_field(text: Option<Seq<char>>) -> Field<Seq<char>> {
    match text {
        None => Field::Missing,
        Some(text) => match json_string(text) {
            None => Field::Invalid,
            Some(s) => Field::Value(s),
        },
    }
}

/// A boolean field, read from its JSON text.
pub open spec fn flag_field(text: Option<Seq<char>>) -> Field<bool> {
    match text {
        None => Field::Missing,
        Some(text) => match json_flag(text) {
            None => Field::Invalid,
            Some(b) => Field::Value(b),
        },
    }
}

/// The element at position `i`, if there is one.
pub open spec fn element(elements: Seq<Seq<char>>, i: int) -> Option<Seq<char>> {
    if i < elements.len() {
        Some(elements[i])
    } else {
        None
    }
}

/// The session that an entry's JSON text stands for: an object with the members `id` and
/// `primed`, neither of them twice, or the array of their values. Other members are passed
/// over.
pub open spec fn session_of(text: Seq<char>) -> Option<(Seq<char>, bool)> {
    match json_members(text) {
        Some(members) => if repeats(json_listed(text), "id"@) || repeats(
            json_listed(text),
            "primed"@,
        ) {
            None
        } else {
            session_from(
                string_field(value_of(members, "id"@)),
                flag_field(value_of(members, "primed"@)),
            )
        },
        None => match json_elements(text) {
            Some(elements) => if elements.len() <= 2 {
                session_from(
                    string_field(element(elements, 0)),
                    flag_field(element(elements, 1)),
                )
            } else {
                None
            },
            None => None,
        },
    }
}

/// Every id as a session that is not primed.
pub open spec fn unprimed(ids: Map<Seq<char>, Seq<char>>) -> Sessions {
    ids.map_values(|id: Seq<char>| (id, false))
}

/// All the sessions, if each of them could be read.
pub open spec fn all_of(read: Map<Seq<char>, Option<(Seq<char>, bool)>>) -> Option<Sessions> {
    if forall|k: Seq<char>| #[trigger] read.contains_key(k) ==> read[k] is Some {
        Some(read.map_values(|s: Option<(Seq<char>, bool)>| s->0))
    } else {
        None
    }
}

/// Whether each of the listed entries stands for a session.
pub open spec fn every_entry_reads(list: Seq<(Seq<char>, Seq<char>)>) -> bool {
    forall|i: int| 0 <= i < list.len() ==> session_of((#[trigger] list[i]).1) is Some
}

/// The sessions that the text of a file stands for. A file from before sessions could be
/// primed holds bare ids, which are read as not primed: to send standing context twice
/// wastes tokens, to skip it leaves an agent without instructions. In any other file every
/// entry has to be readable, also one whose key a later entry has; the last entry of a key
/// counts.
pub open spec fn sessions_of(text: Seq<char>) -> Option<Sessions> {
    match json_strings(text) {
        Some(ids) => Some(unprimed(ids)),
        None => match json_members(text) {
            Some(entries) => if every_entry_reads(json_listed(text)) {
                all_of(entries.map_values(|entry: Seq<char>| session_of(entry)))
            } else {
                None
            },
            None => None,
        },
    }
}

/// The sessions that a store starts with: those of its file, or none where there is no
/// file or it cannot be read.
pub open spec fn opened(text: Option<Seq<char>>) -> Sessions {
    match text {
        Some(text) => match sessions_of(text) {
            Some(sessions) => sessions,
            None => Map::empty(),
        },
        None => Map::empty(),
    }
}

/// The view of a table of sessions.
pub open spec fn viewed(entries: Map<Seq<char>, StoredSession>) -> Sessions {
    entries.map_values(|s: StoredSession| s@)
}

/// The view of rows that may lack a session.
pub open spec fn viewed_rows(rows: Seq<(String, Option<StoredSession>)>) -> Map<
    Seq<char>,
    Option<(Seq<char>, bool)>,
> {
    rows_map(rows).map_values(
        |s: Option<StoredSession>|
            match s {
                Some(s) => Some(s@),
                None => None,
            },
    )
}

/// The session that an entry's two fields make.
pub fn session_from_fields(id: Field<String>, primed: Field<bool>) -> (made: Option<StoredSession>)
    ensures
        match made {
            Some(s) => session_from(field_text(id), primed) == Some(s@),
            None => session_from(field_text(id), primed) is None,
        },
{
    match id {
        Field::Value(id) => match primed {
            Field::Value(primed) => Some(StoredSession { id, primed }),
            Field::Missing => Some(StoredSession { id, primed: false }),
            Field::Invalid => None,
        },
        _ => None,
    }
}

/// Bare ids as sessions that are not primed.
pub fn legacy_sessions(ids: &Vec<(String, String)>) -> (entries: Table<String, StoredSession>)
    requires
        keys_distinct(ids@),
    ensures
        entries.wf(),
        viewed(entries@) == unprimed(pairs_map(ids@)),
{
    let mut entries: Table<String, StoredSession> = Table::new();
    let n: usize = ids.len();
    let mut i: usize = 0;
    proof {
        assert(ids@.take(0) =~= Seq::<(String, String)>::empty());
        assert(viewed(entries@) =~= unprimed(pairs_map(ids@.take(0))));
    }
    while i < n
        invariant
            keys_distinct(ids@),
            n == ids@.len(),
            i <= n,
            entries.wf(),
            viewed(entries@) == unprimed(pairs_map(ids@.take(i as int))),
        decreases n - i,
    {
        let ghost before = entries@;
        let key = ids[i].0.clone();
        entries.insert(key, StoredSession { id: ids[i].1.clone(), primed: false });
        proof {
            lemma_take_next(ids@, i as int);
            assert(viewed(entries@) =~= viewed(before).insert(key@, (ids@[i as int].1@, false)));
            assert(unprimed(pairs_map(ids@.take(i + 1))) =~= unprimed(
                pairs_map(ids@.take(i as int)),
            ).insert(key@, (ids@[i as int].1@, false)));
        }
        i += 1;
    }
    assert(ids@.take(n as int) =~= ids@);
    entries
}

/// One more row adds its key to the mapping of the rows before it.
proof fn lemma_take_next<V>(rows: Seq<(String, V)>, i: int)
    requires
        keys_distinct(rows),
        0 <= i < rows.len(),
    ensures
        keys_distinct(rows.take(i)),
        rows_map(rows.take(i + 1)) == rows_map(rows.take(i)).insert(rows[i].0@, rows[i].1),
{
    let head = rows.take(i);
    assert forall|a: int, b: int|
        0 <= a < head.len() && 0 <= b < head.len() && (#[trigger] head[a]).0@ == (
        #[trigger] head[b]).0@ implies a == b by {
        assert(head[a] == rows[a]);
        assert(head[b] == rows[b]);
    }
    if rows_map(head).contains_key(rows[i].0@) {
        let j = lemma_map_has_row(head, rows[i].0@);
        assert(head[j] == rows[j]);
        assert(rows[j].0@ == rows[i].0@);
    }
    assert(rows.take(i + 1) =~= head.push((rows[i].0, rows[i].1)));
    lemma_push(head, rows[i].0, rows[i].1);
}

/// All the sessions, if each of them could be read.
pub fn all_sessions(rows: &Vec<(String, Option<StoredSession>)>) -> (entries: Option<
    Table<String, StoredSession>,
>)
    requires
        keys_distinct(rows@),
    ensures
        match entries {
            Some(entries) => entries.wf() && all_of(viewed_rows(rows@)) == Some(viewed(entries@)),
            None => all_of(viewed_rows(rows@)) is None,
        },
{
    let mut entries: Table<String, StoredSession> = Table::new();
    let n: usize = rows.len();
    let mut i: usize = 0;
    proof {
        assert(rows@.take(0) =~= Seq::<(String, Option<StoredSession>)>::empty());
        assert(viewed(entries@) =~= viewed_rows(rows@.take(0)).map_values(
            |s: Option<(Seq<char>, bool)>| s->0,
        ));
    }
    while i < n
        invariant
            keys_distinct(rows@),
            n == rows@.len(),
            i <= n,
            entries.wf(),
            all_of(viewed_rows(rows@.take(i as int))) == Some(viewed(entries@)),
        decreases n - i,
    {
        let ghost head = viewed_rows(rows@.take(i as int));
        let ghost before = entries@;
        let key = rows[i].0.clone();
        match &rows[i].1 {
            Some(s) => {
                entries.insert(key, StoredSession { id: s.id.clone(), primed: s.primed });
                proof {
                    lemma_take_next(rows@, i as int);
                    let next = viewed_rows(rows@.take(i + 1));
                    assert(next =~= head.insert(key@, Some(s@)));
                    assert forall|k: Seq<char>| #[trigger] next.contains_key(k) implies next[k]
                        is Some by {
                        assert(k != key@ ==> head.contains_key(k));
                    }
                    assert(viewed(entries@) =~= viewed(before).insert(key@, s@));
                    assert(next.map_values(|s: Option<(Seq<char>, bool)>| s->0) =~= viewed(
                        entries@,
                    ));
                }
            },
            None => {
                proof {
                    lemma_row_in_map(rows@, i as int);
                    assert(viewed_rows(rows@).contains_key(key@));
                    assert(viewed_rows(rows@)[key@] is None);
                }
                return None;
            },
        }
        i += 1;
    }
    assert(rows@.take(n as int) =~= rows@);
    Some(entries)
}

/// Reads a string field.
fn read_string_field(text: Option<&String>) -> (field: Field<String>)
    ensures
        field_text(field) == string_field(
            match text {
                Some(text) => Some(text@),
                None => None,
            },
        ),
{
    match text {
        None => Field::Missing,
        Some(text) => match read_string(text.as_str()) {
            Some(s) => Field::Value(s),
            None => Field::Invalid,
        },
    }
}

/// Reads a boolean field.
fn read_flag_field(text: Option<&String>) -> (field: Field<bool>)
    ensures
        field == flag_field(
            match text {
                Some(text) => Some(text@),
                None => None,
            },
        ),
{
    match text {
        None => Field::Missing,
        Some(text) => match read_bool(text.as_str()) {
            Some(b) => Field::Value(b),
            None => Field::Invalid,
        },
    }
}

/// The session that an entry's JSON text stands for.
pub fn read_session(text: &str) -> (session: Option<StoredSession>)
    ensures
        match session {
            Some(s) => session_of(text@) == Some(s@),
            None => session_of(text@) is None,
        },
{
    match read_members(text) {
        Some(members) => {
            let list = list_members(text);
            if has_repeat(&list, "id") || has_repeat(&list, "primed") {
                return None;
            }
            let id = read_string_field(member(&members, "id"));
            let primed = read_flag_field(member(&members, "primed"));
            session_from_fields(id, primed)
        },
        None => match read_elements(text) {
            Some(elements) => {
                if elements.len() > 2 {
                    return None;
                }
                let first = if elements.len() > 0 {
                    Some(&elements[0])
                } else {
                    None
                };
                let second = if elements.len() > 1 {
                    Some(&elements[1])
                } else {
                    None
                };
                session_from_fields(read_string_field(first), read_flag_field(second))
            },
            None => None,
        },
    }
}

/// Whether each of the listed entries stands for a session.
fn read_every_entry(list: &Vec<(String, String)>) -> (all: bool)
    ensures
        all == every_entry_reads(pairs_list(list@)),
{
    let ghost entries = pairs_list(list@);
    let n: usize = list.len();
    let mut i: usize = 0;
    while i < n
        invariant
            n == list@.len(),
            i <= n,
            entries == pairs_list(list@),
            forall|j: int| 0 <= j < i ==> session_of((#[trigger] entries[j]).1) is Some,
        decreases n - i,
    {
        if read_session(list[i].1.as_str()).is_none() {
            assert(session_of(entries[i as int].1) is None);
            return false;
        }
        i += 1;
    }
    true
}

/// One step of writing the file: it is written beside its place and then moved there.
#[derive(Debug)]
pub enum FlushStep {
    /// Create the temporary file, or empty it.
    CreateTemp,
    /// Append to the temporary file.
    WriteTemp(String),
    /// Make the temporary file durable.
    SyncTemp,
    /// Move the temporary file to the place of the file.
    Replace,
    /// Delete the temporary file.
    RemoveTemp,
}

/// What a step does, by the characters that it writes.
pub enum FlushAction {
    CreateTemp,
    WriteTemp(Seq<char>),
    SyncTemp,
    Replace,
    RemoveTemp,
}

impl View for FlushStep {
    type V = FlushAction;

    open spec fn view(&self) -> FlushAction {
        match self {
            FlushStep::CreateTemp => FlushAction::CreateTemp,
            FlushStep::WriteTemp(text) => FlushAction::WriteTemp(text@),
            FlushStep::SyncTemp => FlushAction::SyncTemp,
            FlushStep::Replace => FlushAction::Replace,
            FlushStep::RemoveTemp => FlushAction::RemoveTemp,
        }
    }
}

/// What the steps do, in order.
pub open spec fn actions(steps: Seq<FlushStep>) -> Seq<FlushAction> {
    Seq::new(steps.len(), |i: int| steps[i]@)
}

/// The texts of the file and of the temporary file, where they exist.
pub struct Disk {
    pub file: Option<Seq<char>>,
    pub temp: Option<Seq<char>>,
}

/// The disk after one action.
pub open spec fn after(disk: Disk, action: FlushAction) -> Disk {
    match action {
        FlushAction::CreateTemp => Disk { temp: Some(Seq::empty()), ..disk },
        FlushAction::WriteTemp(text) => match disk.temp {
            Some(before) => Disk { temp: Some(before + text), ..disk },
            None => disk,
        },
        FlushAction::SyncTemp => disk,
        FlushAction::Replace => match disk.temp {
            Some(text) => Disk { file: Some(text), temp: None },
            None => disk,
        },
        FlushAction::RemoveTemp => Disk { temp: None, ..disk },
    }
}

/// The disk after these actions, in order.
pub open spec fn run(disk: Disk, actions: Seq<FlushAction>) -> Disk
    decreases actions.len(),
{
    if actions.len() == 0 {
        disk
    } else {
        after(run(disk, actions.drop_last()), actions.last())
    }
}

/// The actions that write `text` and a line feed as the file.
pub open spec fn flush_actions(text: Seq<char>) -> Seq<FlushAction> {
    seq![
        FlushAction::CreateTemp,
        FlushAction::WriteTemp(text),
        FlushAction::WriteTemp("\n"@),
        FlushAction::SyncTemp,
        FlushAction::Replace,
    ]
}

/// Whether these actions leave a file that stands for `sessions`, whatever the disk held.
pub open spec fn saves(actions: Seq<FlushAction>, sessions: Sessions) -> bool {
    forall|disk: Disk|
        {
            &&& (#[trigger] run(disk, actions)).file is Some
            &&& sessions_of(run(disk, actions).file->0) == Some(sessions)
        }
}

/// The JSON text of these sessions.
pub open spec fn json_of(sessions: Sessions) -> Seq<char> {
    json_pretty(sessions, "id"@, "primed"@)
}

/// The actions owed after a change: to write the sessions, in a store that has a file.
pub open spec fn flush_of(has_file: bool, sessions: Sessions) -> Seq<FlushAction> {
    if has_file {
        flush_actions(json_of(sessions))
    } else {
        Seq::empty()
    }
}

/// Whether `steps` are the writing of `sessions` that is owed after a change: a file
/// written by them is read back as `sessions`.
pub open spec fn flushes(steps: Seq<FlushStep>, has_file: bool, sessions: Sessions) -> bool {
    &&& actions(steps) == flush_of(has_file, sessions)
    &&& has_file ==> saves(actions(steps), sessions)
}

/// Where each prefix of the steps leaves the disk.
proof fn lemma_flush_prefix(text: Seq<char>, disk: Disk, n: int)
    requires
        0 <= n <= 5,
    ensures
        n < 5 ==> run(disk, flush_actions(text).take(n)).file == disk.file,
        n == 5 ==> run(disk, flush_actions(text).take(n)) == (Disk {
            file: Some(text.push('\n')),
            temp: None,
        }),
        n == 1 ==> run(disk, flush_actions(text).take(n)).temp == Some(Seq::<char>::empty()),
        n == 2 ==> run(disk, flush_actions(text).take(n)).temp == Some(text),
        n == 3 || n == 4 ==> run(disk, flush_actions(text).take(n)).temp == Some(
            text.push('\n'),
        ),
    decreases n,
{
    let all = flush_actions(text);
    if n > 0 {
        lemma_flush_prefix(text, disk, n - 1);
        assert(all.take(n).drop_last() =~= all.take(n - 1));
        assert(all.take(n).last() == all[n - 1]);
        reveal_strlit("\n");
        assert(Seq::<char>::empty() + text =~= text);
        assert(text + "\n"@ =~= text.push('\n'));
    }
}

/// A text that reads back as some sessions stands for them.
proof fn lemma_reads_back(text: Seq<char>, sessions: Sessions)
    requires
        reads_back(text, sessions, "id"@, "primed"@),
    ensures
        sessions_of(text) == Some(sessions),
{
    if sessions.dom() == Set::<Seq<char>>::empty() {
        assert(unprimed(Map::empty()) =~= sessions);
    } else {
        let entries = json_members(text)->0;
        let read = entries.map_values(|entry: Seq<char>| session_of(entry));
        assert forall|k: Seq<char>| #[trigger] read.contains_key(k) implies read[k] == Some(
            sessions[k],
        ) by {
            assert(sessions.contains_key(k));
        }
        assert(read.map_values(|s: Option<(Seq<char>, bool)>| s->0) =~= sessions);
        let list = json_listed(text);
        assert forall|i: int| 0 <= i < list.len() implies session_of((#[trigger] list[i]).1)
            is Some by {
            assert(read.contains_key(list[i].0));
        }
    }
}

/// The steps that write `text` and a line feed as the file.
pub fn flush_steps(text: String) -> (steps: Vec<FlushStep>)
    ensures
        actions(steps@) == flush_actions(text@),
{
    let steps = vec![
        FlushStep::CreateTemp,
        FlushStep::WriteTemp(text),
        FlushStep::WriteTemp("\n".to_owned()),
        FlushStep::SyncTemp,
        FlushStep::Replace,
    ];
    assert(actions(steps@) =~= flush_actions(text@));
    steps
}

/// The step owed after one that writes the file has failed.
pub fn flush_failed() -> (step: FlushStep)
    ensures
        step@ == FlushAction::RemoveTemp,
{
    FlushStep::RemoveTemp
}

/// What is to be done after one of the steps that write the file.
#[derive(Debug, Clone, Copy)]
pub enum NextStep {
    /// Carry out the step at this position.
    Step(usize),
    /// Carry out the step owed after a failure, and no other.
    CleanUp,
    /// Nothing: the file is written.
    Finished,
}

/// What is to be done after step `done` of `total`: where it failed, no later step may be
/// carried out, since the last one would put a cut-off file in place.
pub open spec fn next_of(total: usize, done: usize, ok: bool) -> NextStep {
    if !ok {
        NextStep::CleanUp
    } else if done + 1 < total {
        NextStep::Step((done + 1) as usize)
    } else {
        NextStep::Finished
    }
}

/// What is to be done after step `done` of `total`, which succeeded or failed.
pub fn after_step(total: usize, done: usize, ok: bool) -> (next: NextStep)
    requires
        done < total,
    ensures
        next == next_of(total, done, ok),
{
    if !ok {
        NextStep::CleanUp
    } else if done + 1 < total {
        NextStep::Step(done + 1)
    } else {
        NextStep::Finished
    }
}

/// The disk after an action that failed: of a write, some text may have been written.
pub open spec fn after_failure(disk: Disk, action: FlushAction, torn: Seq<char>) -> Disk {
    match action {
        FlushAction::WriteTemp(_) => after(disk, FlushAction::WriteTemp(torn)),
        _ => disk,
    }
}

/// The disk after the actions from position `at` on were carried out as [`next_of`]
/// says, where `ok` tells which of them succeed.
pub open spec fn carried_out(
    disk: Disk,
    actions: Seq<FlushAction>,
    at: usize,
    ok: Seq<bool>,
    torn: Seq<char>,
) -> Disk
    decreases actions.len() - at,
{
    let reached = if ok[at as int] {
        after(disk, actions[at as int])
    } else {
        after_failure(disk, actions[at as int], torn)
    };
    match next_of(actions.len() as usize, at, ok[at as int]) {
        NextStep::Step(next) => if at < next < actions.len() {
            carried_out(reached, actions, next, ok, torn)
        } else {
            reached
        },
        NextStep::CleanUp => after(reached, FlushAction::RemoveTemp),
        NextStep::Finished => reached,
    }
}

/// The sessions after `id` was recorded under `key`: a new session is not primed, and
/// recording the same id again changes nothing.
pub open spec fn recorded(sessions: Sessions, key: Seq<char>, id: Seq<char>) -> Sessions {
    if sessions.contains_key(key) && sessions[key].0 == id {
        sessions
    } else {
        sessions.insert(key, (id, false))
    }
}

/// The sessions after session `id` of `key` was found to be primed: only the session that
/// is recorded there can be.
pub open spec fn primed_in(sessions: Sessions, key: Seq<char>, id: Seq<char>) -> Sessions {
    if sessions.contains_key(key) && sessions[key].0 == id {
        sessions.insert(key, (id, true))
    } else {
        sessions
    }
}

/// A resumable mapping from scopes to sessions.
#[derive(Debug)]
pub struct SessionStore {
    path: Option<String>,
    entries: Table<String, StoredSession>,
}

impl View for SessionStore {
    type V = Sessions;

    closed spec fn view(&self) -> Sessions {
        viewed(self.entries@)
    }
}

impl Default for SessionStore {
    /// A store without a file, which remembers nothing beyond this run.
    fn default() -> (store: Self)
        ensures
            store.wf(),
            store@ == Map::<Seq<char>, (Seq<char>, bool)>::empty(),
            store.path_text() is None,
    {
        let store = SessionStore { path: None, entries: Table::new() };
        assert(store@ =~= Map::<Seq<char>, (Seq<char>, bool)>::empty());
        store
    }
}

impl SessionStore {
    /// No key occurs twice.
    pub closed spec fn wf(&self) -> bool {
        self.entries.wf()
    }

    /// Where the file of the store is, if it has one.
    pub closed spec fn path_text(&self) -> Option<Seq<char>> {
        match self.path {
            Some(path) => Some(path@),
            None => None,
        }
    }

    /// The sessions that the text of a file stands for; `None` where it cannot be read.
    pub fn read(text: &str) -> (entries: Option<Table<String, StoredSession>>)
        ensures
            match entries {
                Some(entries) => entries.wf() && sessions_of(text@) == Some(viewed(entries@)),
                None => sessions_of(text@) is None,
            },
    {
        if let Some(ids) = read_strings(text) {
            return Some(legacy_sessions(&ids));
        }
        let members = match read_members(text) {
            Some(members) => members,
            None => {
                return None;
            },
        };
        if !read_every_entry(&list_members(text)) {
            return None;
        }
        let n: usize = members.len();
        let mut rows: Vec<(String, Option<StoredSession>)> = Vec::new();
        let mut i: usize = 0;
        while i < n
            invariant
                n == members@.len(),
                i <= n,
                rows@.len() == i,
                forall|j: int|
                    0 <= j < i ==> (#[trigger] rows@[j]).0@ == members@[j].0@ && session_of(
                        members@[j].1@,
                    ) == (match rows@[j].1 {
                        Some(s) => Some(s@),
                        None => None,
                    }),
            decreases n - i,
        {
            let session = read_session(members[i].1.as_str());
            rows.push((members[i].0.clone(), session));
            i += 1;
        }
        proof {
            assert forall|a: int, b: int|
                0 <= a < rows@.len() && 0 <= b < rows@.len() && (#[trigger] rows@[a]).0@ == (
                #[trigger] rows@[b]).0@ implies a == b by {
                assert(members@[a].0@ == members@[b].0@);
            }
            let read = pairs_map(members@).map_values(|entry: Seq<char>| session_of(entry));
            let seen = viewed_rows(rows@);
            assert forall|k: Seq<char>| seen.contains_key(k) == read.contains_key(k) by {
                if seen.contains_key(k) {
                    let a = lemma_map_has_row(rows@, k);
                    lemma_row_in_map(members@, a);
                }
                if read.contains_key(k) {
                    let a = lemma_map_has_row(members@, k);
                    assert(rows@[a].0@ == k);
                    lemma_row_in_map(rows@, a);
                }
            }
            assert forall|k: Seq<char>| seen.contains_key(k) implies seen[k] == read[k] by {
                let a = lemma_map_has_row(rows@, k);
                lemma_row_in_map(rows@, a);
                lemma_row_in_map(members@, a);
            }
            assert(seen =~= read);
        }
        all_sessions(&rows)
    }

    /// Opens the store whose file is at `path` and holds `text`, if it could be read.
    pub fn open_at(path: String, text: Option<&str>) -> (store: Self)
        ensures
            store.wf(),
            store@ == opened(text_of(text)),
            store.path_text() == Some(path@),
    {
        let entries = match text {
            Some(text) => Self::read(text),
            None => None,
        };
        match entries {
            Some(entries) => SessionStore { path: Some(path), entries },
            None => {
                let store = SessionStore { path: Some(path), entries: Table::new() };
                assert(store@ =~= Map::<Seq<char>, (Seq<char>, bool)>::empty());
                store
            },
        }
    }

    /// Opens the store of an agent: at `path` where a usable place was found, with the text
    /// of its file if it could be read; else a store that remembers nothing beyond this run.
    pub fn open(path: Option<String>, text: Option<&str>) -> (store: Self)
        ensures
            store.wf(),
            store@ == (match path {
                Some(_) => opened(text_of(text)),
                None => Map::empty(),
            }),
            store.path_text() == (match path {
                Some(path) => Some(path@),
                None => None,
            }),
    {
        match path {
            Some(path) => Self::open_at(path, text),
            None => SessionStore::default(),
        }
    }

    /// How many sessions are remembered.
    pub fn len(&self) -> (n: usize)
        requires
            self.wf(),
        ensures
            n == self@.len(),
    {
        assert(self@.dom() =~= self.entries@.dom());
        self.entries.len()
    }

    /// What is known of a scope's session, if anything.
    pub fn get(&self, scope: &SessionScope) -> (found: Option<&StoredSession>)
        requires
            self.wf(),
        ensures
            match found {
                Some(s) => self@.contains_key(key_of(scope@)) && s@ == self@[key_of(scope@)],
                None => !self@.contains_key(key_of(scope@)),
            },
    {
        self.entries.get(&scope_key(scope))
    }

    /// Records a scope's session; the steps write the file where anything changed.
    pub fn insert(&mut self, scope: &SessionScope, session_id: &str) -> (steps: Vec<FlushStep>)
        requires
            old(self).wf(),
        ensures
            final(self).wf(),
            final(self).path_text() == old(self).path_text(),
            final(self)@ == recorded(old(self)@, key_of(scope@), session_id@),
            if old(self)@.contains_key(key_of(scope@)) && old(self)@[key_of(scope@)].0
                == session_id@ {
                steps@.len() == 0
            } else {
                flushes(steps@, final(self).path_text() is Some, final(self)@)
            },
    {
        let key = scope_key(scope);
        if let Some(entry) = self.entries.get(&key) {
            if same_text(entry.id.as_str(), session_id) {
                return Vec::new();
            }
        }
        self.entries.insert(key, StoredSession { id: session_id.to_owned(), primed: false });
        assert(self@ =~= old(self)@.insert(key@, (session_id@, false)));
        self.flush()
    }

    /// Records that a scope's session has received its standing context; the steps write
    /// the file where anything changed.
    pub fn mark_primed(&mut self, scope: &SessionScope, session_id: &str) -> (steps: Vec<
        FlushStep,
    >)
        requires
            old(self).wf(),
        ensures
            final(self).wf(),
            final(self).path_text() == old(self).path_text(),
            final(self)@ == primed_in(old(self)@, key_of(scope@), session_id@),
            if final(self)@ == old(self)@ {
                steps@.len() == 0
            } else {
                flushes(steps@, final(self).path_text() is Some, final(self)@)
            },
    {
        let key = scope_key(scope);
        let id = match self.entries.get(&key) {
            Some(entry) => {
                if !same_text(entry.id.as_str(), session_id) {
                    return Vec::new();
                }
                if entry.primed {
                    assert(self@ =~= self@.insert(key@, (session_id@, true)));
                    return Vec::new();
                }
                entry.id.clone()
            },
            None => {
                return Vec::new();
            },
        };
        self.entries.insert(key, StoredSession { id, primed: true });
        proof {
            assert(self@ =~= old(self)@.insert(key@, (session_id@, true)));
            assert(self@[key@] != old(self)@[key@]);
        }
        self.flush()
    }

    /// Forgets a scope, so that its next turn starts a fresh session; the steps write the
    /// file where anything changed.
    pub fn remove(&mut self, scope: &SessionScope) -> (steps: Vec<FlushStep>)
        requires
            old(self).wf(),
        ensures
            final(self).wf(),
            final(self).path_text() == old(self).path_text(),
            final(self)@ == old(self)@.remove(key_of(scope@)),
            if old(self)@.contains_key(key_of(scope@)) {
                flushes(steps@, final(self).path_text() is Some, final(self)@)
            } else {
                steps@.len() == 0
            },
    {
        let key = scope_key(scope);
        let removed = self.entries.remove(&key);
        assert(self@ =~= old(self)@.remove(key@));
        if removed {
            self.flush()
        } else {
            Vec::new()
        }
    }

    /// Forgets everything; the steps write the file where anything changed.
    pub fn clear(&mut self) -> (steps: Vec<FlushStep>)
        requires
            old(self).wf(),
        ensures
            final(self).wf(),
            final(self).path_text() == old(self).path_text(),
            final(self)@ == Map::<Seq<char>, (Seq<char>, bool)>::empty(),
            if old(self)@ == Map::<Seq<char>, (Seq<char>, bool)>::empty() {
                steps@.len() == 0
            } else {
                flushes(steps@, final(self).path_text() is Some, final(self)@)
            },
    {
        if self.entries.len() == 0 {
            proof {
                assert(self.entries@.dom() =~= Set::empty());
                assert(self@ =~= Map::<Seq<char>, (Seq<char>, bool)>::empty());
            }
            return Vec::new();
        }
        proof {
            if old(self)@ == Map::<Seq<char>, (Seq<char>, bool)>::empty() {
                assert(self.entries@.dom() =~= old(self)@.dom());
            }
        }
        self.entries.clear();
        assert(self@ =~= Map::<Seq<char>, (Seq<char>, bool)>::empty());
        self.flush()
    }

    /// The steps that write the sessions to the file; none where the store has no file.
    ///
    /// The text is written beside the file and then moved to its place, so that a crash
    /// cannot leave half a mapping, which would strand every thread on the next start.
    pub fn flush(&self) -> (steps: Vec<FlushStep>)
        requires
            self.wf(),
        ensures
            flushes(steps@, self.path_text() is Some, self@),
    {
        if self.path.is_none() {
            let steps: Vec<FlushStep> = Vec::new();
            assert(actions(steps@) =~= Seq::empty());
            return steps;
        }
        let n: usize = self.entries.len();
        let mut rows: Vec<(String, (String, bool))> = Vec::new();
        let mut i: usize = 0;
        while i < n
            invariant
                n == self.entries.rows().len(),
                i <= n,
                rows@.len() == i,
                forall|j: int|
                    0 <= j < i ==> (#[trigger] rows@[j]).0@ == self.entries.rows()[j].0@ && (
                    rows@[j].1.0@, rows@[j].1.1) == self.entries.rows()[j].1@,
            decreases n - i,
        {
            let row = self.entries.row(i);
            rows.push((row.0.clone(), (row.1.id.clone(), row.1.primed)));
            i += 1;
        }
        proof {
            let entries = self.entries.rows();
            self.entries.lemma_view();
            assert forall|a: int, b: int|
                0 <= a < rows@.len() && 0 <= b < rows@.len() && (#[trigger] rows@[a]).0@ == (
                #[trigger] rows@[b]).0@ implies a == b by {
                assert(entries[a].0@ == entries[b].0@);
            }
            assert forall|k: Seq<char>|
                flagged_map(rows@).contains_key(k) == self@.contains_key(k) by {
                if flagged_map(rows@).contains_key(k) {
                    let a = lemma_map_has_row(rows@, k);
                    lemma_row_in_map(entries, a);
                }
                if self@.contains_key(k) {
                    let a = lemma_map_has_row(entries, k);
                    assert(rows@[a].0@ == k);
                    lemma_row_in_map(rows@, a);
                }
            }
            assert forall|k: Seq<char>| self@.contains_key(k) implies flagged_map(rows@)[k]
                == self@[k] by {
                let a = lemma_map_has_row(entries, k);
                assert(rows@[a].0@ == k);
                lemma_row_in_map(rows@, a);
                lemma_row_in_map(entries, a);
            }
            assert(flagged_map(rows@) =~= self@);
            reveal_strlit("id");
            reveal_strlit("primed");
            assert("id"@.len() != "primed"@.len());
        }
        match write_pretty(&rows, "id", "primed") {
            Some(text) => {
                let steps = flush_steps(text);
                proof {
                    lemma_reads_back(text@.push('\n'), self@);
                    let all = flush_actions(text@);
                    assert forall|disk: Disk|
                        (#[trigger] run(disk, all)).file is Some && sessions_of(
                            run(disk, all).file->0,
                        ) == Some(self@) by {
                        lemma_flush_prefix(text@, disk, 5);
                        assert(all.take(5) =~= all);
                    }
                }
                steps
            },
            None => Vec::new(),
        }
    }
}

/// A mapping survives a restart: a store opened on the file that a flush has written
/// holds the sessions that were flushed.
pub proof fn law_mapping_survives_reopening(disk: Disk, steps: Seq<FlushStep>, sessions: Sessions)
    requires
        flushes(steps, true, sessions),
    ensures
        opened(run(disk, actions(steps)).file) == sessions,
{
}

/// A file that stood for a store's sessions before a change stands for its sessions after
/// the change, once the steps that the change returned are done: either it changed
/// nothing and there are none, or they write the new sessions.
pub proof fn law_file_follows_store(
    disk: Disk,
    steps: Seq<FlushStep>,
    before: Sessions,
    changed: Sessions,
)
    requires
        opened(disk.file) == before,
        (changed == before && steps.len() == 0) || flushes(steps, true, changed),
    ensures
        opened(run(disk, actions(steps)).file) == changed,
{
}

/// A crash at any point of a flush, also in the middle of a write, leaves the file as it
/// was; once the last step is done the file is whole.
pub proof fn law_crash_leaves_a_whole_file(
    disk: Disk,
    text: Seq<char>,
    done: int,
    partly_written: Seq<char>,
)
    requires
        0 <= done <= flush_actions(text).len(),
    ensures
        ({
            let reached = run(disk, flush_actions(text).take(done));
            let torn = after(reached, FlushAction::WriteTemp(partly_written));
            if done < flush_actions(text).len() {
                reached.file == disk.file && torn.file == disk.file
            } else {
                reached.file == Some(text.push('\n'))
            }
        }),
{
    lemma_flush_prefix(text, disk, done);
}

/// A flush that fails, and is followed by the step owed then, leaves the file as it was
/// and no temporary file.
pub proof fn law_failed_flush_changes_nothing(disk: Disk, text: Seq<char>, done: int)
    requires
        0 <= done < flush_actions(text).len(),
    ensures
        after(run(disk, flush_actions(text).take(done)), FlushAction::RemoveTemp) == (Disk {
            file: disk.file,
            temp: None,
        }),
{
    lemma_flush_prefix(text, disk, done);
}

/// However the steps of a flush succeed or fail, the file is either written whole, where
/// all of them succeed, or left as it was; and no temporary file is left.
pub proof fn law_flush_is_all_or_nothing(
    disk: Disk,
    text: Seq<char>,
    ok: Seq<bool>,
    torn: Seq<char>,
)
    requires
        ok.len() == flush_actions(text).len(),
    ensures
        carried_out(disk, flush_actions(text), 0, ok, torn) == (Disk {
            file: if forall|i: int| 0 <= i < ok.len() ==> ok[i] {
                Some(text.push('\n'))
            } else {
                disk.file
            },
            temp: None,
        }),
{
    reveal_with_fuel(carried_out, 5);
    reveal_strlit("\n");
    assert(Seq::<char>::empty() + text =~= text);
    assert(text + "\n"@ =~= text.push('\n'));
    assert((forall|i: int| 0 <= i < ok.len() ==> ok[i]) <==> ok[0] && ok[1] && ok[2] && ok[3]
        && ok[4]);
}

/// A file that is missing or cannot be read is an empty mapping.
pub proof fn law_unreadable_file_is_empty(text: Seq<char>)
    ensures
        opened(None) == Map::<Seq<char>, (Seq<char>, bool)>::empty(),
        sessions_of(text) is None ==> opened(Some(text)) == Map::<
            Seq<char>,
            (Seq<char>, bool),
        >::empty(),
{
}

/// A file of bare ids holds just those sessions, none of them primed.
pub proof fn law_bare_ids_are_unprimed(text: Seq<char>, ids: Map<Seq<char>, Seq<char>>)
    requires
        json_strings(text) == Some(ids),
    ensures
        opened(Some(text)).dom() == ids.dom(),
        forall|k: Seq<char>| #[trigger]
            ids.contains_key(k) ==> opened(Some(text))[k] == (ids[k], false),
{
    assert(opened(Some(text)).dom() =~= ids.dom());
}

/// A recorded session is found; it is not primed unless it was recorded and primed before.
pub proof fn law_recorded_is_found(sessions: Sessions, key: Seq<char>, id: Seq<char>)
    ensures
        recorded(sessions, key, id).contains_key(key),
        recorded(sessions, key, id)[key].0 == id,
        recorded(sessions, key, id)[key].1 ==> sessions.contains_key(key) && sessions[key] == (
            id,
            true,
        ),
{
}

/// Recording a session a second time changes nothing.
pub proof fn law_recording_twice_is_once(sessions: Sessions, key: Seq<char>, id: Seq<char>)
    ensures
        recorded(recorded(sessions, key, id), key, id) == recorded(sessions, key, id),
{
}

/// Priming marks the session that is recorded, and no other: with a stale session id it
/// changes nothing.
pub proof fn law_priming(sessions: Sessions, key: Seq<char>, id: Seq<char>)
    ensures
        primed_in(recorded(sessions, key, id), key, id)[key] == (id, true),
        !(sessions.contains_key(key) && sessions[key].0 == id) ==> primed_in(sessions, key, id)
            == sessions,
        primed_in(primed_in(sessions, key, id), key, id) == primed_in(sessions, key, id),
{
    let once = primed_in(sessions, key, id);
    assert(primed_in(once, key, id) =~= once);
}

/// A session that takes the place of another is not primed, whatever the other was.
pub proof fn law_replacing_clears_primed(
    sessions: Sessions,
    key: Seq<char>,
    earlier: Seq<char>,
    later: Seq<char>,
)
    requires
        sessions.contains_key(key),
        sessions[key].0 == earlier,
        earlier != later,
    ensures
        recorded(sessions, key, later)[key] == (later, false),
        recorded(primed_in(sessions, key, earlier), key, later)[key] == (later, false),
{
}

/// What is done to one scope's session leaves every other scope's session as it was.
pub proof fn law_other_scopes_are_untouched(
    sessions: Sessions,
    scope: (u128, Option<Seq<char>>),
    other: (u128, Option<Seq<char>>),
    id: Seq<char>,
)
    requires
        scope != other,
    ensures
        ({
            let key = key_of(scope);
            let bystander = key_of(other);
            forall|next: Sessions|
                next == recorded(sessions, key, id) || next == primed_in(sessions, key, id) || next
                    == sessions.remove(key) ==> #[trigger] next.contains_key(bystander)
                    == sessions.contains_key(bystander) && (sessions.contains_key(bystander)
                    ==> next[bystander] == sessions[bystander])
        }),
{
    if key_of(scope) == key_of(other) {
        law_scopes_do_not_collide(scope, other);
    }
}

/// A session needs an id; its flag may be missing, which is as good as unset, but not wrong.
pub proof fn law_fields_of_a_session(
    id: Field<String>,
    primed: Field<bool>,
    made: Option<StoredSession>,
)
    requires
        call_ensures(session_from_fields, (id, primed), made),
    ensures
        made is Some <==> id is Value && primed !is Invalid,
        made is Some ==> made->0.id@ == id->Value_0@,
        made is Some && primed is Value ==> made->0.primed == primed->Value_0,
        made is Some && primed is Missing ==> !made->0.primed,
{
}

/// An entry that is an object stands for the session of its members `id` and `primed`, where
/// neither occurs twice and both are of their type; it may lack `primed`, and then the
/// session is not primed.
pub proof fn law_entry_as_an_object(
    text: Seq<char>,
    members: Map<Seq<char>, Seq<char>>,
    id: Seq<char>,
    primed: bool,
)
    requires
        json_members(text) == Some(members),
    ensures
        session_of(text) == Some((id, primed)) <==> {
            &&& !repeats(json_listed(text), "id"@)
            &&& !repeats(json_listed(text), "primed"@)
            &&& members.contains_key("id"@)
            &&& json_string(members["id"@]) == Some(id)
            &&& if members.contains_key("primed"@) {
                json_flag(members["primed"@]) == Some(primed)
            } else {
                !primed
            }
        },
{
}

/// An entry that is an array stands for the session of its first element, the id, and its
/// second, the flag, which it may lack; it has no third. An entry that is neither an object
/// nor an array stands for none.
pub proof fn law_entry_as_an_array(
    text: Seq<char>,
    elements: Seq<Seq<char>>,
    id: Seq<char>,
    primed: bool,
)
    requires
        json_members(text) is None,
    ensures
        json_elements(text) is None ==> session_of(text) is None,
        json_elements(text) == Some(elements) ==> (session_of(text) == Some((id, primed)) <==> {
            &&& 1 <= elements.len() <= 2
            &&& json_string(elements[0]) == Some(id)
            &&& if elements.len() == 2 {
                json_flag(elements[1]) == Some(primed)
            } else {
                !primed
            }
        }),
{
}

/// A file that is not of bare ids stands for the session of each of its entries under the
/// entry's key, where every entry that it lists can be read; else it cannot be read.
pub proof fn law_file_of_entries(
    text: Seq<char>,
    entries: Map<Seq<char>, Seq<char>>,
    sessions: Sessions,
)
    requires
        json_strings(text) is None,
    ensures
        json_members(text) is None ==> sessions_of(text) is None,
        json_members(text) == Some(entries) ==> (sessions_of(text) == Some(sessions) <==> {
            &&& forall|i: int|
                0 <= i < json_listed(text).len() ==> session_of((#[trigger] json_listed(text)[i]).1)
                    is Some
            &&& sessions.dom() == entries.dom()
            &&& forall|k: Seq<char>| #[trigger]
                entries.contains_key(k) ==> session_of(entries[k]) == Some(sessions[k])
        }),
{
    if json_members(text) == Some(entries) {
        let read = entries.map_values(|entry: Seq<char>| session_of(entry));
        let made = read.map_values(|s: Option<(Seq<char>, bool)>| s->0);
        assert(read.dom() =~= entries.dom());
        if sessions_of(text) == Some(sessions) {
            assert(sessions == made);
            assert(sessions.dom() =~= entries.dom());
            assert forall|k: Seq<char>| #[trigger] entries.contains_key(k) implies session_of(
                entries[k],
            ) == Some(sessions[k]) by {
                assert(read.contains_key(k));
            }
        }
        if (forall|i: int|
            0 <= i < json_listed(text).len() ==> session_of((#[trigger] json_listed(text)[i]).1)
                is Some) && sessions.dom() == entries.dom() && (forall|k: Seq<char>| #[trigger]
            entries.contains_key(k) ==> session_of(entries[k]) == Some(sessions[k])) {
            assert forall|k: Seq<char>| #[trigger] read.contains_key(k) implies read[k] is Some by {
                assert(entries.contains_key(k));
            }
            assert(every_entry_reads(json_listed(text)));
            assert(made =~= sessions) by {
                assert forall|k: Seq<char>| #[trigger] made.contains_key(k) implies made[k]
                    == sessions[k] by {
                    assert(entries.contains_key(k));
                }
                assert(made.dom() =~= sessions.dom());
            }
        }
    }
}

/// What the reading functions return is what the texts stand for.
pub proof fn law_reading_functions(
    entry: &str,
    session: Option<StoredSession>,
    text: &str,
    entries: Option<Table<String, StoredSession>>,
    key: Seq<char>,
)
    requires
        call_ensures(read_session, (entry,), session),
        call_ensures(SessionStore::read, (text,), entries),
    ensures
        session is Some ==> session_of(entry@) == Some((session->0.id@, session->0.primed)),
        session is None ==> session_of(entry@) is None,
        entries is None <==> sessions_of(text@) is None,
        entries is Some ==> entries->0@.contains_key(key) == sessions_of(text@)->0.contains_key(
            key,
        ),
        entries is Some && entries->0@.contains_key(key) ==> sessions_of(text@)->0[key] == (
            entries->0@[key].id@,
            entries->0@[key].primed,
        ),
{
    if entries is Some {
        assert(viewed(entries->0@).contains_key(key) == entries->0@.contains_key(key));
    }
}

/// A store opens on what its file stands for, and on nothing where there is none or it cannot
/// be read; without a place there is no file to open on.
pub proof fn law_store_opens_on_its_file(
    path: String,
    text: Option<&str>,
    at: SessionStore,
    place: Option<String>,
    opened_store: SessionStore,
    fresh: SessionStore,
)
    requires
        call_ensures(SessionStore::open_at, (path, text), at),
        call_ensures(SessionStore::open, (place, text), opened_store),
        call_ensures(SessionStore::default, (), fresh),
    ensures
        text is Some && sessions_of(text->0@) is Some ==> at@ == sessions_of(text->0@)->0,
        text is None || sessions_of(text->0@) is None ==> at@.dom() == Set::<Seq<char>>::empty(),
        at.path_text() == Some(path@),
        place is Some ==> opened_store@ == at@ && opened_store.path_text() == Some(place->0@),
        place is None ==> opened_store@.dom() == Set::<Seq<char>>::empty()
            && opened_store.path_text() is None,
        fresh@.dom() == Set::<Seq<char>>::empty() && fresh.path_text() is None,
{
}

/// What is asked of a store is what it holds.
pub proof fn law_store_answers(
    store: &SessionStore,
    scope: &SessionScope,
    found: Option<&StoredSession>,
    n: usize,
)
    requires
        call_ensures(SessionStore::get, (store, scope), found),
        call_ensures(SessionStore::len, (store,), n),
    ensures
        found is Some <==> store@.contains_key(key_of(scope@)),
        found is Some ==> (found->0.id@, found->0.primed) == store@[key_of(scope@)],
        n == store@.dom().len(),
{
}

/// Recording a session puts it under its scope's key, not primed, unless it is there already:
/// then nothing changes, its flag included. Whatever else is remembered stays. Exactly a
/// change is written to the file.
pub proof fn law_recording_a_session(
    store: &mut SessionStore,
    scope: &SessionScope,
    id: &str,
    steps: Vec<FlushStep>,
    other: Seq<char>,
)
    requires
        call_ensures(SessionStore::insert, (store, scope, id), steps),
        other != key_of(scope@),
    ensures
        ({
            let key = key_of(scope@);
            let before = old(store)@;
            let next = final(store)@;
            let there = before.contains_key(key) && before[key].0 == id@;
            &&& next.contains_key(key) && next[key].0 == id@
            &&& there ==> next == before && steps@.len() == 0
            &&& !there ==> !next[key].1 && flushes(
                steps@,
                old(store).path_text() is Some,
                next,
            )
            &&& next.contains_key(other) == before.contains_key(other)
            &&& before.contains_key(other) ==> next[other] == before[other]
            &&& final(store).path_text() == old(store).path_text()
        }),
{
}

/// Priming sets the flag of the session that is recorded under the scope's key, where it is
/// the one that is named and its flag is not set; in any other case nothing changes. Exactly
/// a change is written to the file.
pub proof fn law_priming_a_session(
    store: &mut SessionStore,
    scope: &SessionScope,
    id: &str,
    steps: Vec<FlushStep>,
    other: Seq<char>,
)
    requires
        call_ensures(SessionStore::mark_primed, (store, scope, id), steps),
        other != key_of(scope@),
    ensures
        ({
            let key = key_of(scope@);
            let before = old(store)@;
            let next = final(store)@;
            let due = before.contains_key(key) && before[key] == (id@, false);
            &&& due ==> next.contains_key(key) && next[key] == (id@, true) && flushes(
                steps@,
                old(store).path_text() is Some,
                next,
            )
            &&& !due ==> next == before && steps@.len() == 0
            &&& next.contains_key(other) == before.contains_key(other)
            &&& before.contains_key(other) ==> next[other] == before[other]
            &&& final(store).path_text() == old(store).path_text()
        }),
{
    let key = key_of(scope@);
    let before = old(store)@;
    if before.contains_key(key) && before[key] == (id@, true) {
        assert(before.insert(key, (id@, true)) =~= before);
    }
    if before.contains_key(key) && before[key] == (id@, false) {
        assert(before.insert(key, (id@, true))[key] != before[key]);
    }
}

/// Forgetting a scope takes away its session and no other, and forgetting everything takes
/// away all of them. Exactly a change is written to the file.
pub proof fn law_forgetting(
    store: &mut SessionStore,
    scope: &SessionScope,
    steps: Vec<FlushStep>,
    cleared: &mut SessionStore,
    clearing: Vec<FlushStep>,
    other: Seq<char>,
)
    requires
        call_ensures(SessionStore::remove, (store, scope), steps),
        call_ensures(SessionStore::clear, (cleared,), clearing),
        other != key_of(scope@),
    ensures
        ({
            let key = key_of(scope@);
            let before = old(store)@;
            let next = final(store)@;
            &&& !next.contains_key(key)
            &&& next.contains_key(other) == before.contains_key(other)
            &&& before.contains_key(other) ==> next[other] == before[other]
            &&& before.contains_key(key) ==> flushes(
                steps@,
                old(store).path_text() is Some,
                next,
            )
            &&& !before.contains_key(key) ==> next == before && steps@.len() == 0
            &&& final(store).path_text() == old(store).path_text()
        }),
        !final(cleared)@.contains_key(other),
        final(cleared)@.dom() == Set::<Seq<char>>::empty(),
        old(cleared)@.contains_key(other) ==> flushes(
            clearing@,
            old(cleared).path_text() is Some,
            final(cleared)@,
        ),
        old(cleared)@ == Map::<Seq<char>, (Seq<char>, bool)>::empty() ==> clearing@.len() == 0,
        final(cleared).path_text() == old(cleared).path_text(),
{
    if !old(store)@.contains_key(key_of(scope@)) {
        assert(old(store)@.remove(key_of(scope@)) =~= old(store)@);
    }
}

/// A store without a file writes nothing; one with a file writes its sessions and a line
/// feed: into the temporary file, which is made durable before it takes the file's place as
/// the last thing that is done.
pub proof fn law_flush_writes_then_syncs_then_moves(
    store: &SessionStore,
    steps: Vec<FlushStep>,
    disk: Disk,
    i: int,
    j: int,
)
    requires
        call_ensures(SessionStore::flush, (store,), steps),
    ensures
        store.path_text() is None ==> steps@.len() == 0,
        store.path_text() is Some ==> {
            let done = actions(steps@);
            let written = run(disk, done);
            &&& steps@.len() > 0
            &&& steps@.last() is Replace
            &&& written.temp is None
            &&& written.file == Some(json_of(store@).push('\n'))
            &&& sessions_of(written.file->0) == Some(store@)
            &&& exists|sync: int|
                0 <= sync < steps@.len() && (#[trigger] steps@[sync]) is SyncTemp
            &&& 0 <= i < steps@.len() && steps@[i] is Replace ==> i == steps@.len() - 1
            &&& 0 <= i < steps@.len() && 0 <= j < steps@.len() && steps@[i] is SyncTemp && (
            steps@[j] is WriteTemp || steps@[j] is CreateTemp) ==> j < i
        },
{
    let done = actions(steps@);
    assert(done.len() == steps@.len());
    if store.path_text() is Some {
        let all = flush_actions(json_of(store@));
        assert(done == all);
        lemma_flush_prefix(json_of(store@), disk, 5);
        assert(all.take(5) =~= all);
        assert(done[0] == steps@[0]@ && done[1] == steps@[1]@ && done[2] == steps@[2]@);
        assert(done[3] == steps@[3]@ && done[4] == steps@[4]@);
        assert(steps@[3] is SyncTemp);
        assert(done[i] == all[i] && done[j] == all[j]);
        if 0 <= i < steps@.len() {
            assert(done[i] == steps@[i]@);
        }
        if 0 <= j < steps@.len() {
            assert(done[j] == steps@[j]@);
        }
        assert(done.last() == all[4]);
    }
}

/// A step is seen as what it does, with the characters that it writes.
pub proof fn law_steps_are_seen_as_they_are(step: FlushStep, steps: Seq<FlushStep>, i: int)
    ensures
        step is CreateTemp <==> step@ is CreateTemp,
        step is WriteTemp <==> step@ is WriteTemp,
        step is SyncTemp <==> step@ is SyncTemp,
        step is Replace <==> step@ is Replace,
        step is RemoveTemp <==> step@ is RemoveTemp,
        step is WriteTemp ==> step@->WriteTemp_0 == step->WriteTemp_0@,
        actions(steps).len() == steps.len(),
        0 <= i < steps.len() ==> actions(steps)[i] == steps[i]@,
{
}

/// What a step does to the disk, so far as the model of it goes: only a move changes the
/// file, to what the temporary file holds, which is then gone.
pub proof fn law_steps_on_the_disk(disk: Disk, action: FlushAction, actions: Seq<FlushAction>)
    ensures
        action !is Replace ==> after(disk, action).file == disk.file,
        action is Replace && disk.temp is Some ==> after(disk, action) == (Disk {
            file: disk.temp,
            temp: None,
        }),
        action is Replace && disk.temp is None ==> after(disk, action) == disk,
        action is CreateTemp ==> after(disk, action).temp == Some(Seq::<char>::empty()),
        action is WriteTemp && disk.temp is Some ==> after(disk, action).temp == Some(
            disk.temp->0 + action->WriteTemp_0,
        ),
        action is WriteTemp && disk.temp is None ==> after(disk, action) == disk,
        action is SyncTemp ==> after(disk, action) == disk,
        action is RemoveTemp ==> after(disk, action).temp is None,
        run(disk, Seq::empty()) == disk,
        run(disk, actions.push(action)) == after(run(disk, actions), action),
{
    assert(actions.push(action).drop_last() =~= actions);
}

/// After a step that succeeded comes the next, after the last none; after one that failed the
/// temporary file is deleted and nothing else is done.
pub proof fn law_what_follows_a_step(
    total: usize,
    done: usize,
    ok: bool,
    next: NextStep,
    owed: FlushStep,
)
    requires
        done < total,
        call_ensures(after_step, (total, done, ok), next),
        call_ensures(flush_failed, (), owed),
    ensures
        !ok ==> next is CleanUp,
        ok && done == total - 1 ==> next is Finished,
        ok && done < total - 1 ==> next is Step && next->Step_0 == done + 1,
        owed is RemoveTemp,
        next == next_of(total, done, ok),
{
}

/// Bare ids become sessions that are not primed, and entries become sessions where each of
/// them could be read.
pub proof fn law_rows_become_sessions(
    ids: &Vec<(String, String)>,
    bare: Table<String, StoredSession>,
    rows: &Vec<(String, Option<StoredSession>)>,
    entries: Option<Table<String, StoredSession>>,
    i: int,
)
    requires
        keys_distinct(ids@),
        keys_distinct(rows@),
        call_ensures(legacy_sessions, (ids,), bare),
        call_ensures(all_sessions, (rows,), entries),
    ensures
        0 <= i < ids@.len() ==> bare@.contains_key(ids@[i].0@) && bare@[ids@[i].0@]@ == (
            ids@[i].1@,
            false,
        ),
        0 <= i < rows@.len() && rows@[i].1 is None ==> entries is None,
        entries is Some && 0 <= i < rows@.len() ==> entries->0@.contains_key(rows@[i].0@)
            && entries->0@[rows@[i].0@]@ == rows@[i].1->0@,
        entries is None ==> exists|j: int|
            0 <= j < rows@.len() && (#[trigger] rows@[j]).1 is None,
{
    if 0 <= i < ids@.len() {
        lemma_row_in_map(ids@, i);
        let k = ids@[i].0@;
        assert(unprimed(pairs_map(ids@)).contains_key(k));
        assert(viewed(bare@).contains_key(k));
        assert(viewed(bare@)[k] == (ids@[i].1@, false));
    }
    let seen = viewed_rows(rows@);
    if 0 <= i < rows@.len() {
        lemma_row_in_map(rows@, i);
        assert(seen.contains_key(rows@[i].0@));
        if entries is Some {
            let k = rows@[i].0@;
            assert(seen[k] is Some);
            assert(viewed(entries->0@).contains_key(k));
            assert(viewed(entries->0@)[k] == seen[k]->0);
        }
    }
    if entries is None {
        let k = choose|k: Seq<char>| #[trigger] seen.contains_key(k) && seen[k] is None;
        let j = lemma_map_has_row(rows@, k);
        lemma_row_in_map(rows@, j);
        assert(rows@[j].1 is None);
    }
}

} // verus!
