//! When the log of a turn is shown: one message that is posted once there is something to
//! say, edited now and then, and closed at the end of the turn.
//!
//! The reporter decides; its caller talks to the relay and tells it what became of that.
//! A turn without activity posts nothing, and a post that fails ends the reporting: it
//! must never take down a turn.

use crate::clock::elapsed;
use crate::clock::since;
use crate::clock::NANOS_PER_SEC;
use crate::hex::bytes_of_hex;
use crate::hex::digit_value;
use crate::hex::event_id_from_text;
use crate::hex::hex_of;
use crate::hex::is_hex;
use crate::hex::law_bytes_keep_their_digits;
use crate::hex::law_hex_reads_back;
use crate::hex::Bytes32;
use crate::progress::blank_log;
use crate::progress::flushed;
use crate::progress::ingested;
use crate::progress::is_text_kind;
use crate::progress::law_action_closes_narration;
use crate::progress::line_of;
use crate::progress::rendered;
use crate::progress::Log;
use crate::progress::LogView;
use crate::progress::ProgressEvent;
use crate::text::text_of;
use crate::text::trimmed;
use vstd::prelude::*;

verus! {

/// How long the message is left alone after it was posted or edited.
pub const THROTTLE: u128 = 10 * NANOS_PER_SEC;

/// How long the relay is given to take an event.
pub const POST_TIMEOUT: u128 = 5 * NANOS_PER_SEC;

/// Where in a thread a message goes. Threads are flat: the parent is the root.
#[derive(Debug, Clone, Copy)]
pub struct ThreadRef {
    pub root_event_id: Bytes32,
    pub parent_event_id: Bytes32,
}

/// The root and the parent of a message that goes to the thread of this root: both are
/// that event. There is no thread in a direct message, nor where the root is no event id.
pub open spec fn thread_of(root_hex: Option<Seq<char>>) -> Option<(Seq<u8>, Seq<u8>)> {
    match root_hex {
        Some(hex) => if hex.len() == 64 && is_hex(hex) {
            Some((bytes_of_hex(hex), bytes_of_hex(hex)))
        } else {
            None
        },
        None => None,
    }
}

/// The bytes of the two ids.
pub open spec fn thread_bytes(thread: Option<ThreadRef>) -> Option<(Seq<u8>, Seq<u8>)> {
    match thread {
        Some(thread) => Some((thread.root_event_id@, thread.parent_event_id@)),
        None => None,
    }
}

/// Where a message goes that belongs to the thread of this root.
pub fn reply_thread(thread_root_hex: Option<&str>) -> (thread: Option<ThreadRef>)
    ensures
        thread_bytes(thread) == thread_of(text_of(thread_root_hex)),
{
    match thread_root_hex {
        Some(hex) => match event_id_from_text(hex) {
            Some(id) => Some(ThreadRef { root_event_id: id, parent_event_id: id }),
            None => None,
        },
        None => None,
    }
}

/// What became of an event that was to be sent to the relay.
#[derive(Debug, Clone, Copy)]
pub enum Submission {
    /// It could not be signed.
    NotSigned,
    /// The relay took it.
    Accepted { id: Bytes32 },
    /// The relay refused it, or could not be reached.
    Failed { id: Bytes32 },
    /// The relay did not answer in time.
    TimedOut { id: Bytes32 },
}

/// The id of an event that the relay has taken.
pub fn submitted(submission: Submission) -> (id: Option<Bytes32>)
    ensures
        id == (match submission {
            Submission::Accepted { id } => Some(id),
            _ => None,
        }),
{
    match submission {
        Submission::Accepted { id } => Some(id),
        _ => None,
    }
}

/// How far the reporting of a turn has come.
#[derive(Debug, Clone, Copy)]
pub enum Phase {
    /// There was no activity yet.
    Waiting,
    /// There was activity, and no message yet.
    Silent { started: u128 },
    /// There is a message, last posted or edited at `edited`.
    Live { started: u128, message: Bytes32, edited: u128 },
    /// There is nothing more to be done.
    Stopped,
}

/// What is to be done next.
#[derive(Debug)]
pub enum Action {
    /// Wait for the next event.
    Wait,
    /// Post a message with this content, and tell the reporter what became of it.
    Post { content: String },
    /// Give the message this content, and tell the reporter when that was tried.
    Edit { message: Bytes32, content: String },
    /// Give the message this content, and stop.
    Finish { message: Bytes32, content: String },
    /// Stop.
    Stop,
}

/// What is to be done next, by the characters of the content.
pub enum ActionView {
    Wait,
    Post { content: Seq<char> },
    Edit { message: Bytes32, content: Seq<char> },
    Finish { message: Bytes32, content: Seq<char> },
    Stop,
}

impl View for Action {
    type V = ActionView;

    open spec fn view(&self) -> ActionView {
        match self {
            Action::Wait => ActionView::Wait,
            Action::Post { content } => ActionView::Post { content: content@ },
            Action::Edit { message, content } => ActionView::Edit {
                message: *message,
                content: content@,
            },
            Action::Finish { message, content } => ActionView::Finish {
                message: *message,
                content: content@,
            },
            Action::Stop => ActionView::Stop,
        }
    }
}

/// What a reporter knows.
#[verifier::ext_equal]
pub struct ReporterView {
    pub phase: Phase,
    pub log: LogView,
}

/// The reporter after an event, and what is to be done: the first event only starts the
/// log; while there is no message, it is posted as soon as the log has a line; then it is
/// edited by an event that comes a throttle's time or more after the last change.
pub open spec fn heard(
    r: ReporterView,
    kind: Seq<char>,
    title: Seq<char>,
    now: u128,
) -> (ReporterView, ActionView) {
    let log = ingested(r.log, kind, title);
    match r.phase {
        Phase::Waiting => (
            ReporterView { phase: Phase::Silent { started: now }, log },
            ActionView::Wait,
        ),
        Phase::Silent { started } => (
            ReporterView { phase: r.phase, log },
            if log.lines.len() == 0 {
                ActionView::Wait
            } else {
                ActionView::Post { content: rendered(log, elapsed(now, started) as nat, false) }
            },
        ),
        Phase::Live { started, message, edited } => (
            ReporterView { phase: r.phase, log },
            if elapsed(now, edited) >= THROTTLE {
                ActionView::Edit {
                    message,
                    content: rendered(log, elapsed(now, started) as nat, false),
                }
            } else {
                ActionView::Wait
            },
        ),
        Phase::Stopped => (r, ActionView::Stop),
    }
}

/// The reporter after its message was posted under `id`, or could not be.
pub open spec fn posted(r: ReporterView, id: Option<Bytes32>, now: u128) -> ReporterView {
    match r.phase {
        Phase::Silent { started } => ReporterView {
            phase: match id {
                Some(message) => Phase::Live { started, message, edited: now },
                None => Phase::Stopped,
            },
            log: r.log,
        },
        _ => r,
    }
}

/// The reporter after an edit was tried, whatever became of it.
pub open spec fn edit_tried(r: ReporterView, now: u128) -> ReporterView {
    match r.phase {
        Phase::Live { started, message, .. } => ReporterView {
            phase: Phase::Live { started, message, edited: now },
            log: r.log,
        },
        _ => r,
    }
}

/// The reporter after the turn is over, and what is to be done: where there is a message,
/// it gets its last content, with the text that was still accumulated.
pub open spec fn closed(r: ReporterView, now: u128) -> (ReporterView, ActionView) {
    let log = flushed(r.log);
    match r.phase {
        Phase::Live { started, message, .. } => (
            ReporterView { phase: Phase::Stopped, log },
            ActionView::Finish {
                message,
                content: rendered(log, elapsed(now, started) as nat, true),
            },
        ),
        Phase::Stopped => (r, ActionView::Stop),
        _ => (ReporterView { phase: Phase::Stopped, log }, ActionView::Stop),
    }
}

/// Decides when the log of one turn is shown.
pub struct Reporter {
    phase: Phase,
    log: Log,
}

impl View for Reporter {
    type V = ReporterView;

    closed spec fn view(&self) -> ReporterView {
        ReporterView { phase: self.phase, log: self.log@ }
    }
}

impl Reporter {
    /// The reporter of a turn that has not begun.
    pub fn new() -> (reporter: Self)
        ensures
            reporter@ == (ReporterView { phase: Phase::Waiting, log: blank_log() }),
    {
        Reporter { phase: Phase::Waiting, log: Log::new() }
    }

    /// The number of steps in the log.
    pub fn steps(&self) -> (n: usize)
        ensures
            n == self@.log.steps,
    {
        self.log.steps()
    }

    /// Takes in one event.
    pub fn on_event(&mut self, e: &ProgressEvent, now: u128) -> (action: Action)
        requires
            heard(old(self)@, e.kind@, e.title@, now).0.log.steps <= usize::MAX,
        ensures
            (final(self)@, action@) == heard(old(self)@, e.kind@, e.title@, now),
    {
        match self.phase {
            Phase::Waiting => {
                self.phase = Phase::Silent { started: now };
                self.log.ingest(e);
                Action::Wait
            },
            Phase::Silent { started } => {
                self.log.ingest(e);
                if self.log.is_empty() {
                    Action::Wait
                } else {
                    Action::Post { content: self.log.render(since(now, started), false) }
                }
            },
            Phase::Live { started, message, edited } => {
                self.log.ingest(e);
                if since(now, edited) >= THROTTLE {
                    Action::Edit {
                        message,
                        content: self.log.render(since(now, started), false),
                    }
                } else {
                    Action::Wait
                }
            },
            Phase::Stopped => Action::Stop,
        }
    }

    /// Learns the id under which the message was posted, if it was.
    pub fn on_posted(&mut self, id: Option<Bytes32>, now: u128)
        ensures
            final(self)@ == posted(old(self)@, id, now),
    {
        if let Phase::Silent { started } = self.phase {
            self.phase = match id {
                Some(message) => Phase::Live { started, message, edited: now },
                None => Phase::Stopped,
            };
        }
    }

    /// Learns that an edit was tried, whatever became of it.
    pub fn on_edited(&mut self, now: u128)
        ensures
            final(self)@ == edit_tried(old(self)@, now),
    {
        if let Phase::Live { started, message, edited: _ } = self.phase {
            self.phase = Phase::Live { started, message, edited: now };
        }
    }

    /// Learns that the turn is over.
    pub fn on_closed(&mut self, now: u128) -> (action: Action)
        requires
            closed(old(self)@, now).0.log.steps <= usize::MAX,
        ensures
            (final(self)@, action@) == closed(old(self)@, now),
    {
        match self.phase {
            Phase::Live { started, message, edited: _ } => {
                self.log.flush();
                self.phase = Phase::Stopped;
                Action::Finish { message, content: self.log.render(since(now, started), true) }
            },
            Phase::Stopped => Action::Stop,
            _ => {
                self.log.flush();
                self.phase = Phase::Stopped;
                Action::Stop
            },
        }
    }
}

/// The reply goes to the root itself.
pub proof fn law_threads_are_flat(root_hex: Option<Seq<char>>)
    ensures
        thread_of(root_hex) is Some ==> (thread_of(root_hex)->0).0 == (thread_of(root_hex)->0).1,
{
}

/// A message is posted only while there is none, and only with a line to show.
pub proof fn law_post_has_something_to_say(
    r: ReporterView,
    kind: Seq<char>,
    title: Seq<char>,
    now: u128,
)
    ensures
        heard(r, kind, title, now).1 is Post ==> r.phase is Silent && heard(
            r,
            kind,
            title,
            now,
        ).0.log.lines.len() > 0,
{
}

/// A turn in which nothing happens posts nothing, and neither does one with a single event.
pub proof fn law_quick_turn_is_silent(
    r: ReporterView,
    kind: Seq<char>,
    title: Seq<char>,
    now: u128,
    later: u128,
)
    requires
        r.phase is Waiting,
    ensures
        closed(r, now).1 is Stop,
        heard(r, kind, title, now).1 is Wait,
        closed(heard(r, kind, title, now).0, later).1 is Stop,
{
}

/// Less than a throttle's time after the message was posted or edited it is not touched,
/// and it is edited by the first event after that.
pub proof fn law_edits_are_throttled(
    r: ReporterView,
    kind: Seq<char>,
    title: Seq<char>,
    changed: u128,
    now: u128,
)
    requires
        r.phase is Live,
    ensures
        heard(edit_tried(r, changed), kind, title, now).1 is Edit <==> elapsed(now, changed)
            >= THROTTLE,
        heard(edit_tried(r, changed), kind, title, now).1 is Wait <==> elapsed(now, changed)
            < THROTTLE,
{
}

/// A turn has one message: it is the one that was posted, and whatever is heard or tried
/// while there is one, every change goes to that message, until the turn is over.
pub proof fn law_one_message_for_a_turn(
    r: ReporterView,
    id: Bytes32,
    other: Option<Bytes32>,
    kind: Seq<char>,
    title: Seq<char>,
    now: u128,
)
    ensures
        r.phase is Silent ==> posted(r, Some(id), now).phase is Live && posted(
            r,
            Some(id),
            now,
        ).phase->message == id,
        r.phase is Live && r.phase->message == id ==> ({
            let (next, action) = heard(r, kind, title, now);
            &&& next.phase is Live && next.phase->message == id
            &&& action is Wait || (action is Edit && action->Edit_message == id)
            &&& edit_tried(r, now).phase is Live && edit_tried(r, now).phase->message == id
            &&& posted(r, other, now) == r
            &&& closed(r, now).1 is Finish && closed(r, now).1->Finish_message == id
        }),
{
}

/// After a post that failed, and after the end of the turn, nothing more is done.
pub proof fn law_stopped_stays_stopped(
    r: ReporterView,
    kind: Seq<char>,
    title: Seq<char>,
    id: Option<Bytes32>,
    now: u128,
)
    ensures
        r.phase is Silent ==> posted(r, None, now).phase is Stopped,
        closed(r, now).0.phase is Stopped,
        r.phase is Stopped ==> heard(r, kind, title, now) == (r, ActionView::Stop) && closed(r, now)
            == (r, ActionView::Stop) && posted(r, id, now) == r && edit_tried(r, now) == r,
{
}

/// The last content of a message shows the whole narration: nothing is left accumulated.
pub proof fn law_final_message_is_complete(r: ReporterView, now: u128)
    requires
        r.phase is Live,
    ensures
        closed(r, now).0.log.pending is None,
        closed(r, now).1->Finish_content == rendered(
            flushed(r.log),
            elapsed(now, r.phase->Live_started) as nat,
            true,
        ),
{
}

/// What a caller is told is what the reporter decided, with the same characters.
pub proof fn law_actions_are_seen_as_they_are(action: Action)
    ensures
        action is Wait <==> action@ is Wait,
        action is Post <==> action@ is Post,
        action is Edit <==> action@ is Edit,
        action is Finish <==> action@ is Finish,
        action is Stop <==> action@ is Stop,
        action is Post ==> action->Post_content@ == action@->Post_content,
        action is Edit ==> action->Edit_message == action@->Edit_message
            && action->Edit_content@ == action@->Edit_content,
        action is Finish ==> action->Finish_message == action@->Finish_message
            && action->Finish_content@ == action@->Finish_content,
{
}

/// Every event goes into the log, until the turn is over, and the first one starts the time
/// of the turn.
pub proof fn law_every_event_is_logged(
    r: ReporterView,
    kind: Seq<char>,
    title: Seq<char>,
    now: u128,
)
    ensures
        r.phase !is Stopped ==> heard(r, kind, title, now).0.log == ingested(r.log, kind, title),
        r.phase is Waiting ==> heard(r, kind, title, now).0.phase == (Phase::Silent {
            started: now,
        }) && heard(r, kind, title, now).1 is Wait,
        r.phase !is Waiting ==> heard(r, kind, title, now).0.phase == r.phase,
{
}

/// While there is no message, it is posted by the very event after which the log has a line,
/// however long the turn has lasted, with what the log then shows; and it is waited for
/// exactly as long as the log has none.
pub proof fn law_first_line_is_posted(
    r: ReporterView,
    started: u128,
    kind: Seq<char>,
    title: Seq<char>,
    now: u128,
)
    requires
        r.phase == (Phase::Silent { started }),
    ensures
        ({
            let (next, action) = heard(r, kind, title, now);
            &&& next.log == ingested(r.log, kind, title)
            &&& next.log.lines.len() > 0 ==> action is Post && action->Post_content == rendered(
                next.log,
                elapsed(now, started) as nat,
                false,
            )
            &&& action is Wait <==> next.log.lines.len() == 0
        }),
{
}

/// An action that is not blank is reported at once where there is no message yet but was an
/// event: the message is posted, with the action's line last.
pub proof fn law_action_is_reported_at_once(
    r: ReporterView,
    kind: Seq<char>,
    title: Seq<char>,
    now: u128,
)
    requires
        r.phase is Silent,
        !is_text_kind(kind),
        trimmed(title).len() > 0,
    ensures
        heard(r, kind, title, now).1 is Post,
        heard(r, kind, title, now).0.log.lines.len() > 0,
        heard(r, kind, title, now).0.log.lines.last() == line_of(kind, title),
{
    law_action_closes_narration(r.log, kind, title);
}

/// An edit shows the whole log as it is after the event, with the time since the first event.
pub proof fn law_edit_shows_the_log(
    r: ReporterView,
    started: u128,
    message: Bytes32,
    edited: u128,
    kind: Seq<char>,
    title: Seq<char>,
    now: u128,
)
    requires
        r.phase == (Phase::Live { started, message, edited }),
    ensures
        ({
            let (next, action) = heard(r, kind, title, now);
            &&& elapsed(now, edited) >= 10_000_000_000 ==> action == (ActionView::Edit {
                message,
                content: rendered(next.log, elapsed(now, started) as nat, false),
            })
            &&& elapsed(now, edited) < 10_000_000_000 ==> action is Wait
        }),
{
}

/// What became of a post or an edit changes only what it must: the time of the last change,
/// and with a post the message; the log and the start of the turn stay.
pub proof fn law_outcomes_move_the_throttle(
    r: ReporterView,
    id: Bytes32,
    started: u128,
    message: Bytes32,
    edited: u128,
    now: u128,
)
    ensures
        posted(r, Some(id), now).log == r.log,
        posted(r, None, now).log == r.log,
        edit_tried(r, now).log == r.log,
        r.phase == (Phase::Silent { started }) ==> posted(r, Some(id), now).phase == (Phase::Live {
            started,
            message: id,
            edited: now,
        }) && posted(r, None, now).phase is Stopped,
        r.phase !is Silent ==> posted(r, Some(id), now) == r && posted(r, None, now) == r,
        r.phase == (Phase::Live { started, message, edited }) ==> edit_tried(r, now).phase == (
        Phase::Live { started, message, edited: now }),
        r.phase !is Live ==> edit_tried(r, now) == r,
{
}

/// The end of a turn settles the log and stops the reporter; there is something left to do
/// only where there is a message.
pub proof fn law_end_of_turn(r: ReporterView, now: u128)
    ensures
        closed(r, now).0.phase is Stopped,
        r.phase !is Stopped ==> closed(r, now).0.log == flushed(r.log),
        r.phase is Live ==> closed(r, now).1 == (ActionView::Finish {
            message: r.phase->message,
            content: rendered(flushed(r.log), elapsed(now, r.phase->Live_started) as nat, true),
        }),
        r.phase !is Live ==> closed(r, now).1 is Stop,
{
}

/// A reply belongs to the thread whose root's id its text is: 64 digits, of which each one
/// is a digit of that id. Any other text names no thread.
pub proof fn law_thread_is_the_roots(root_hex: Seq<char>, id: Seq<u8>)
    ensures
        thread_of(None) is None,
        thread_of(Some(root_hex)) is Some <==> root_hex.len() == 64 && is_hex(root_hex),
        thread_of(Some(root_hex)) is Some ==> ({
            let (root, parent) = thread_of(Some(root_hex))->0;
            &&& root == parent
            &&& root.len() == 32
            &&& forall|i: int|
                0 <= i < 64 ==> digit_value(#[trigger] hex_of(root)[i]) == digit_value(root_hex[i])
        }),
        id.len() == 32 ==> thread_of(Some(hex_of(id))) == Some((id, id)),
{
    if root_hex.len() == 64 && is_hex(root_hex) {
        law_bytes_keep_their_digits(root_hex);
    }
    law_hex_reads_back(id);
}

/// What the functions of this module return: a thread by the bytes of its root, and an id
/// only of an event that the relay has taken.
pub proof fn law_replies_and_submissions(
    root: Option<&str>,
    thread: Option<ThreadRef>,
    submission: Submission,
    id: Option<Bytes32>,
)
    requires
        call_ensures(reply_thread, (root,), thread),
        call_ensures(submitted, (submission,), id),
    ensures
        root is None ==> thread is None,
        thread is Some <==> root is Some && root->0@.len() == 64 && is_hex(root->0@),
        thread is Some ==> thread->0.root_event_id@ == bytes_of_hex(root->0@)
            && thread->0.parent_event_id@ == bytes_of_hex(root->0@),
        id is Some <==> submission is Accepted,
        submission is Accepted ==> id == Some(submission->Accepted_id),
{
}

/// Whatever the reporter answers to an event: it is logged, and a turn that has no message
/// gets it with the first line of its log, and a message is edited ten seconds or more after
/// it was last changed.
pub proof fn law_reporter_answers(r: &mut Reporter, e: &ProgressEvent, now: u128, action: Action)
    requires
        call_ensures(Reporter::on_event, (r, e, now), action),
    ensures
        ({
            let before = old(r)@;
            let next = final(r)@;
            &&& before.phase !is Stopped ==> next.log == ingested(before.log, e.kind@, e.title@)
            &&& before.phase is Waiting ==> action is Wait && next.phase == (Phase::Silent {
                started: now,
            })
            &&& before.phase is Silent ==> {
                &&& next.phase == before.phase
                &&& action is Wait <==> next.log.lines.len() == 0
                &&& action is Post <==> next.log.lines.len() > 0
                &&& action is Post ==> action->Post_content@ == rendered(
                    next.log,
                    elapsed(now, before.phase->Silent_started) as nat,
                    false,
                )
            }
            &&& before.phase is Live ==> {
                &&& next.phase == before.phase
                &&& action is Edit <==> elapsed(now, before.phase->edited) >= 10_000_000_000
                &&& action is Wait <==> elapsed(now, before.phase->edited) < 10_000_000_000
                &&& action is Edit ==> action->Edit_message == before.phase->message
                    && action->Edit_content@ == rendered(
                    next.log,
                    elapsed(now, before.phase->Live_started) as nat,
                    false,
                )
            }
            &&& before.phase is Stopped ==> action is Stop && next == before
        }),
{
}

/// Whatever the reporter answers at the end of a turn, and what it makes of the outcomes of
/// a post and an edit.
pub proof fn law_reporter_ends(
    r: &mut Reporter,
    now: u128,
    action: Action,
    silent: &mut Reporter,
    id: Option<Bytes32>,
    live: &mut Reporter,
    fresh: Reporter,
    counted: &Reporter,
    steps: usize,
)
    requires
        call_ensures(Reporter::on_closed, (r, now), action),
        call_ensures(Reporter::on_posted, (silent, id, now), ()),
        call_ensures(Reporter::on_edited, (live, now), ()),
        call_ensures(Reporter::new, (), fresh),
        call_ensures(Reporter::steps, (counted,), steps),
    ensures
        final(r)@.phase is Stopped,
        old(r)@.phase is Live ==> action is Finish && action->Finish_message
            == old(r)@.phase->message && action->Finish_content@ == rendered(
            flushed(old(r)@.log),
            elapsed(now, old(r)@.phase->Live_started) as nat,
            true,
        ),
        old(r)@.phase !is Live ==> action is Stop,
        final(silent)@ == posted(old(silent)@, id, now),
        final(live)@ == edit_tried(old(live)@, now),
        fresh@.phase is Waiting && fresh@.log == blank_log(),
        steps == counted@.log.steps,
{
}

/// A message is left alone for ten seconds, and the relay has five to take an event.
pub proof fn law_times_of_reporting()
    ensures
        THROTTLE == 10_000_000_000,
        POST_TIMEOUT == 5_000_000_000,
{
}

} // verus!
