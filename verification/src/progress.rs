//! The working narrative of a long turn: what the agent thinks, says and does, as the
//! last few lines of a log.
//!
//! Text arrives token by token. It is accumulated, and becomes one line when the agent
//! turns to something else or the turn ends; otherwise one sentence would become dozens
//! of one-token lines.

use crate::clock::NANOS_PER_SEC;
use crate::text::decimal;
use crate::text::decimal_text;
use crate::text::is_numeral_of;
use crate::text::law_decimal_is_the_numeral;
use crate::text::same_text;
use crate::text::trim;
use crate::text::trimmed;
use std::collections::VecDeque;
use vstd::prelude::*;
use vstd::string::*;

verus! {

/// One sighting of activity. `kind` is the kind of a tool (`read`, `edit`, `execute` and
/// so on) for an action, `think` for a summary of reasoning, `say` for prose.
pub struct ProgressEvent {
    pub title: String,
    pub kind: String,
}

/// How many lines are shown.
pub const SHOWN: usize = 8;

/// How many characters of a line are shown.
pub const MAX_LINE: usize = 160;

/// The sign in front of a line of this kind.
pub open spec fn glyph_of(kind: Seq<char>) -> Seq<char> {
    if kind == "read"@ {
        "📖"@
    } else if kind == "edit"@ || kind == "delete"@ || kind == "move"@ {
        "✏️"@
    } else if kind == "execute"@ {
        "💻"@
    } else if kind == "search"@ || kind == "fetch"@ {
        "🔍"@
    } else if kind == "think"@ {
        "💭"@
    } else if kind == "say"@ {
        "💬"@
    } else {
        "·"@
    }
}

/// Whether events of this kind are streamed text.
pub open spec fn is_text_kind(kind: Seq<char>) -> bool {
    kind == "think"@ || kind == "say"@
}

/// The line that a text of this kind makes: its sign and the text without white space at
/// its ends, cut off with an ellipsis where that is too long.
pub open spec fn line_of(kind: Seq<char>, text: Seq<char>) -> Seq<char> {
    let full = glyph_of(kind) + " "@ + trimmed(text);
    if full.len() > MAX_LINE {
        full.take(MAX_LINE as int) + "…"@
    } else {
        full
    }
}

/// What a log holds: the lines that are shown, how many steps there were, and streamed
/// text that is no line yet, with its kind.
#[verifier::ext_equal]
pub struct LogView {
    pub lines: Seq<Seq<char>>,
    pub steps: nat,
    pub pending: Option<(Seq<char>, Seq<char>)>,
}

/// A log before any activity.
pub open spec fn blank_log() -> LogView {
    LogView { lines: Seq::empty(), steps: 0, pending: None }
}

/// The lines with one more, of which the oldest leaves where there would be too many. A
/// line that repeats the last one is not added, since chatty tools repeat titles.
pub open spec fn with_line(lines: Seq<Seq<char>>, line: Seq<char>) -> Seq<Seq<char>> {
    if lines.len() > 0 && lines.last() == line {
        lines
    } else if lines.len() + 1 > SHOWN {
        lines.push(line).drop_first()
    } else {
        lines.push(line)
    }
}

/// The log after a step of this kind, which a blank text is not.
pub open spec fn emitted(log: LogView, kind: Seq<char>, text: Seq<char>) -> LogView {
    if trimmed(text).len() == 0 {
        log
    } else {
        LogView {
            lines: with_line(log.lines, line_of(kind, text)),
            steps: log.steps + 1,
            pending: log.pending,
        }
    }
}

/// The log after its accumulated text was made a line.
pub open spec fn flushed(log: LogView) -> LogView {
    match log.pending {
        Some((kind, text)) => emitted(LogView { pending: None, ..log }, kind, text),
        None => log,
    }
}

/// The log after one event. Text of the kind that is being accumulated is added to it,
/// until that is twice as long as a line; text of another kind starts anew, after the
/// text before it became a line; an action is a line at once, after the text before it.
pub open spec fn ingested(log: LogView, kind: Seq<char>, title: Seq<char>) -> LogView {
    if is_text_kind(kind) {
        if log.pending is Some && (log.pending->0).0 == kind {
            if (log.pending->0).1.len() < MAX_LINE * 2 {
                LogView { pending: Some((kind, (log.pending->0).1 + title)), ..log }
            } else {
                log
            }
        } else {
            LogView { pending: Some((kind, title)), ..flushed(log) }
        }
    } else {
        emitted(flushed(log), kind, title)
    }
}

/// Each line on a line of its own, behind a mark.
pub open spec fn body_of(lines: Seq<Seq<char>>) -> Seq<char>
    decreases lines.len(),
{
    if lines.len() == 0 {
        Seq::empty()
    } else {
        body_of(lines.drop_last()) + "\n› "@ + lines.last()
    }
}

/// The message that shows a log after `nanos` nanoseconds: a headline with the number of
/// steps and of whole seconds, and the lines.
pub open spec fn rendered(log: LogView, nanos: nat, done: bool) -> Seq<char> {
    (if done {
        "✅ **done** — "@
    } else {
        "⚙️ **working…** — "@
    }) + decimal(log.steps) + " steps · "@ + decimal(nanos / NANOS_PER_SEC as nat) + "s"@ + body_of(log.lines)
}

/// The sign in front of a line of this kind.
pub fn glyph(kind: &str) -> (sign: &'static str)
    ensures
        sign@ == glyph_of(kind@),
{
    if same_text(kind, "read") {
        "📖"
    } else if same_text(kind, "edit") || same_text(kind, "delete") || same_text(kind, "move") {
        "✏️"
    } else if same_text(kind, "execute") {
        "💻"
    } else if same_text(kind, "search") || same_text(kind, "fetch") {
        "🔍"
    } else if same_text(kind, "think") {
        "💭"
    } else if same_text(kind, "say") {
        "💬"
    } else {
        "·"
    }
}

/// Whether events of this kind are streamed text.
pub fn is_text(kind: &str) -> (text: bool)
    ensures
        text == is_text_kind(kind@),
{
    same_text(kind, "think") || same_text(kind, "say")
}

/// A rolling log of activity.
pub struct Log {
    lines: VecDeque<String>,
    steps: usize,
    pending: Option<(String, String)>,
}

impl View for Log {
    type V = LogView;

    closed spec fn view(&self) -> LogView {
        LogView {
            lines: Seq::new(self.lines@.len(), |i: int| self.lines@[i]@),
            steps: self.steps as nat,
            pending: match self.pending {
                Some((kind, text)) => Some((kind@, text@)),
                None => None,
            },
        }
    }
}

impl Log {
    /// A log before any activity.
    pub fn new() -> (log: Self)
        ensures
            log@ == blank_log(),
    {
        let log = Log { lines: VecDeque::new(), steps: 0, pending: None };
        assert(log@ =~= blank_log());
        log
    }

    /// Whether the log has no line yet.
    pub fn is_empty(&self) -> (empty: bool)
        ensures
            empty == (self@.lines.len() == 0),
    {
        self.lines.len() == 0
    }

    /// The number of steps.
    pub fn steps(&self) -> (n: usize)
        ensures
            n == self@.steps,
    {
        self.steps
    }

    /// Adds a step of this kind; a blank text is none.
    pub fn emit(&mut self, kind: &str, text: &str)
        requires
            emitted(old(self)@, kind@, text@).steps <= usize::MAX,
        ensures
            final(self)@ == emitted(old(self)@, kind@, text@),
    {
        let t = trim(text);
        if t.is_empty() {
            return;
        }
        let mut line = glyph(kind).to_owned();
        line.append(" ");
        line.append(t);
        if line.as_str().unicode_len() > MAX_LINE {
            let mut cut = line.as_str().substring_char(0, MAX_LINE).to_owned();
            cut.append("…");
            line = cut;
        }
        assert(line@ =~= line_of(kind@, text@));
        let n: usize = self.lines.len();
        if n == 0 || !same_text(self.lines[n - 1].as_str(), line.as_str()) {
            let ghost before = self@.lines;
            self.lines.push_back(line);
            assert(self@.lines =~= before.push(line@));
            if self.lines.len() > SHOWN {
                let ghost longer = self@.lines;
                let _ = self.lines.pop_front();
                assert(self@.lines =~= longer.drop_first());
            }
        }
        self.steps = self.steps + 1;
        assert(self@ =~= emitted(old(self)@, kind@, text@));
    }

    /// Makes the accumulated text a line.
    pub fn flush(&mut self)
        requires
            flushed(old(self)@).steps <= usize::MAX,
        ensures
            final(self)@ == flushed(old(self)@),
    {
        if let Some((kind, text)) = self.pending.take() {
            assert(self@ =~= (LogView { pending: None, ..old(self)@ }));
            self.emit(kind.as_str(), text.as_str());
        }
    }

    /// Takes in one event.
    pub fn ingest(&mut self, e: &ProgressEvent)
        requires
            ingested(old(self)@, e.kind@, e.title@).steps <= usize::MAX,
        ensures
            final(self)@ == ingested(old(self)@, e.kind@, e.title@),
    {
        if is_text(e.kind.as_str()) {
            let same = match &self.pending {
                Some((kind, _)) => same_text(kind.as_str(), e.kind.as_str()),
                None => false,
            };
            if same {
                if let Some((kind, text)) = self.pending.take() {
                    let mut text = text;
                    if text.as_str().unicode_len() < MAX_LINE * 2 {
                        text.append(e.title.as_str());
                    }
                    self.pending = Some((kind, text));
                }
            } else {
                self.flush();
                self.pending = Some((e.kind.clone(), e.title.clone()));
            }
        } else {
            self.flush();
            self.emit(e.kind.as_str(), e.title.as_str());
        }
        assert(self@ =~= ingested(old(self)@, e.kind@, e.title@));
    }

    /// The message that shows the log after `elapsed` nanoseconds.
    pub fn render(&self, elapsed: u128, done: bool) -> (message: String)
        ensures
            message@ == rendered(self@, elapsed as nat, done),
    {
        let mut s = if done {
            "✅ **done** — ".to_owned()
        } else {
            "⚙️ **working…** — ".to_owned()
        };
        s.append(decimal_text(self.steps as u128).as_str());
        s.append(" steps · ");
        s.append(decimal_text(elapsed / NANOS_PER_SEC).as_str());
        s.append("s");
        let ghost head = s@;
        let n: usize = self.lines.len();
        let mut i: usize = 0;
        proof {
            assert(self@.lines.take(0) =~= Seq::<Seq<char>>::empty());
            assert(head + body_of(self@.lines.take(0)) =~= head);
        }
        while i < n
            invariant
                n == self.lines@.len(),
                i <= n,
                s@ == head + body_of(self@.lines.take(i as int)),
            decreases n - i,
        {
            s.append("\n› ");
            s.append(self.lines[i].as_str());
            proof {
                let more = self@.lines.take(i + 1);
                assert(more.drop_last() =~= self@.lines.take(i as int));
                assert(s@ =~= head + body_of(more));
            }
            i += 1;
        }
        assert(self@.lines.take(n as int) =~= self@.lines);
        s
    }
}

/// Whether a line begins with the sign of some kind and a space.
pub open spec fn is_signed(line: Seq<char>) -> bool {
    exists|kind: Seq<char>| (#[trigger] glyph_of(kind) + " "@).is_prefix_of(line)
}

/// What holds of every log: it shows at most [`SHOWN`] lines, each behind a sign and of at
/// most [`MAX_LINE`] characters and an ellipsis, and no line twice in a row; there is a
/// step for each line, and no line only where there was no step; only streamed text is
/// accumulated.
pub open spec fn well_kept(log: LogView) -> bool {
    &&& log.lines.len() <= SHOWN
    &&& log.lines.len() <= log.steps
    &&& log.lines.len() == 0 <==> log.steps == 0
    &&& log.pending is Some ==> is_text_kind((log.pending->0).0)
    &&& forall|i: int| 0 <= i < log.lines.len() ==> is_signed(#[trigger] log.lines[i])
    &&& forall|i: int| 0 <= i < log.lines.len() ==> (#[trigger] log.lines[i]).len() <= MAX_LINE + 1
    &&& forall|i: int, j: int|
        #![trigger log.lines[i], log.lines[j]]
        0 <= i < log.lines.len() && j == i + 1 && j < log.lines.len() ==> log.lines[i]
            != log.lines[j]
}

/// Every line begins with its sign and a space, also one that is cut off.
proof fn lemma_line_is_signed(kind: Seq<char>, text: Seq<char>)
    ensures
        is_signed(line_of(kind, text)),
{
    reveal_strlit(" ");
    reveal_strlit("📖");
    reveal_strlit("✏️");
    reveal_strlit("💻");
    reveal_strlit("🔍");
    reveal_strlit("💭");
    reveal_strlit("💬");
    reveal_strlit("·");
    let sign = glyph_of(kind) + " "@;
    let line = line_of(kind, text);
    assert(sign.len() <= 3);
    assert(line.subrange(0, sign.len() as int) =~= sign);
    assert(sign.is_prefix_of(line));
}

proof fn lemma_emitted_well_kept(log: LogView, kind: Seq<char>, text: Seq<char>)
    requires
        well_kept(log),
    ensures
        well_kept(emitted(log, kind, text)),
{
    reveal_strlit("…");
    lemma_line_is_signed(kind, text);
    let line = line_of(kind, text);
    let next = with_line(log.lines, line);
    let pushed = log.lines.push(line);
    if next.len() > 0 && next != log.lines {
        let cut = next.len() < pushed.len();
        assert forall|i: int| 0 <= i < next.len() implies (#[trigger] next[i]).len() <= MAX_LINE
            + 1 && is_signed(next[i]) by {
            let p = if cut {
                i + 1
            } else {
                i
            };
            assert(next[i] == pushed[p]);
            assert(p < log.lines.len() ==> pushed[p] == log.lines[p]);
        }
        assert forall|i: int, j: int|
            #![trigger next[i], next[j]]
            0 <= i < next.len() && j == i + 1 && j < next.len() implies next[i] != next[j] by {
            let p = if cut {
                i + 1
            } else {
                i
            };
            assert(next[i] == pushed[p]);
            assert(next[j] == pushed[p + 1]);
            assert(pushed[p] == log.lines[p]);
            assert(p + 1 < log.lines.len() ==> pushed[p + 1] == log.lines[p + 1]);
        }
    }
}

/// Every log is well kept, whatever it takes in.
pub proof fn law_log_is_well_kept(log: LogView, kind: Seq<char>, title: Seq<char>)
    ensures
        well_kept(blank_log()),
        well_kept(log) ==> well_kept(ingested(log, kind, title)),
        well_kept(log) ==> well_kept(flushed(log)),
        well_kept(log) ==> well_kept(emitted(log, kind, title)),
{
    if well_kept(log) {
        lemma_emitted_well_kept(log, kind, title);
        if log.pending is Some {
            let bare = LogView { pending: None, ..log };
            assert(well_kept(bare));
            lemma_emitted_well_kept(bare, (log.pending->0).0, (log.pending->0).1);
        }
        assert(well_kept(flushed(log)));
        lemma_emitted_well_kept(flushed(log), kind, title);
    }
}

/// The log after text of one kind arrived in these chunks.
pub open spec fn ingested_all(log: LogView, kind: Seq<char>, chunks: Seq<Seq<char>>) -> LogView
    decreases chunks.len(),
{
    if chunks.len() == 0 {
        log
    } else {
        ingested(ingested_all(log, kind, chunks.drop_last()), kind, chunks.last())
    }
}

/// The text that chunks make together.
pub open spec fn joined(chunks: Seq<Seq<char>>) -> Seq<char>
    decreases chunks.len(),
{
    if chunks.len() == 0 {
        Seq::empty()
    } else {
        joined(chunks.drop_last()) + chunks.last()
    }
}

/// How a text is cut into chunks does not matter: the log is as if it had come in one
/// piece, as long as what came before the last chunk is shorter than two lines or all of
/// it is not longer. No line and no step comes of it yet, but for the text of the other
/// kind before it, and a flush then makes the whole text one step: at most one line more.
pub proof fn law_chunks_make_one_text(log: LogView, kind: Seq<char>, chunks: Seq<Seq<char>>)
    requires
        is_text_kind(kind),
        chunks.len() > 0,
        !(log.pending is Some && (log.pending->0).0 == kind),
        joined(chunks.drop_last()).len() < MAX_LINE * 2 || joined(chunks).len() <= MAX_LINE * 2,
    ensures
        ({
            let all = ingested_all(log, kind, chunks);
            let before = flushed(log);
            &&& all == ingested(log, kind, joined(chunks))
            &&& all == (LogView { pending: Some((kind, joined(chunks))), ..before })
            &&& log.pending is None ==> before == log
            &&& flushed(all) == emitted(before, kind, joined(chunks))
            &&& flushed(all).lines.len() <= before.lines.len() + 1
            &&& flushed(all).steps <= before.steps + 1
        }),
    decreases chunks.len(),
{
    let before = chunks.drop_last();
    assert(joined(chunks) == joined(before) + chunks.last());
    if before.len() == 0 {
        assert(joined(before) + chunks.last() =~= chunks.last());
    } else {
        law_chunks_make_one_text(log, kind, before);
        if joined(before).len() >= MAX_LINE * 2 {
            assert(joined(before) + chunks.last() =~= joined(before));
        }
    }
    let all = ingested_all(log, kind, chunks);
    assert(all == ingested(ingested_all(log, kind, before), kind, chunks.last()));
    assert(all =~= (LogView { pending: Some((kind, joined(chunks))), ..flushed(log) }));
    assert((LogView { pending: None, ..all }) =~= flushed(log));
}

/// An action closes the narration before it: nothing is left to be made a line, and its
/// own line is the last.
pub proof fn law_action_closes_narration(log: LogView, kind: Seq<char>, title: Seq<char>)
    requires
        !is_text_kind(kind),
    ensures
        ingested(log, kind, title).pending is None,
        trimmed(title).len() > 0 ==> ingested(log, kind, title).lines.len() > 0 && ingested(
            log,
            kind,
            title,
        ).lines.last() == line_of(kind, title),
{
}

/// Turning from one kind of text to the other makes the first one a line.
pub proof fn law_switch_closes_narration(
    log: LogView,
    kind: Seq<char>,
    text: Seq<char>,
    next: Seq<char>,
    title: Seq<char>,
)
    requires
        log.pending == Some((kind, text)),
        is_text_kind(next),
        next != kind,
        trimmed(text).len() > 0,
    ensures
        ingested(log, next, title).lines.len() > 0,
        ingested(log, next, title).lines.last() == line_of(kind, text),
        ingested(log, next, title).pending == Some((next, title)),
{
}

/// A flush leaves nothing pending, and a second one changes nothing.
pub proof fn law_flush_settles(log: LogView)
    ensures
        flushed(log).pending is None,
        flushed(flushed(log)) == flushed(log),
{
}

/// A step that repeats the last line is counted and not shown again.
pub proof fn law_repeats_are_counted_once_shown(
    log: LogView,
    kind: Seq<char>,
    title: Seq<char>,
)
    requires
        trimmed(title).len() > 0,
    ensures
        ({
            let once = emitted(log, kind, title);
            let twice = emitted(once, kind, title);
            twice.lines == once.lines && twice.steps == once.steps + 1
        }),
{
}

/// Streamed text alone shows no line before the agent turns to something else.
pub proof fn law_text_alone_shows_nothing(kind: Seq<char>, chunks: Seq<Seq<char>>)
    requires
        is_text_kind(kind),
    ensures
        ingested_all(blank_log(), kind, chunks).lines.len() == 0,
        ingested_all(blank_log(), kind, chunks).steps == 0,
        chunks.len() > 0 ==> ingested_all(blank_log(), kind, chunks).pending is Some && (
        ingested_all(blank_log(), kind, chunks).pending->0).0 == kind,
    decreases chunks.len(),
{
    if chunks.len() > 0 {
        law_text_alone_shows_nothing(kind, chunks.drop_last());
    }
}

/// Each kind has its sign, any other kind a dot; thoughts and speech are streamed text, and
/// nothing else is.
pub proof fn law_kinds_have_their_signs(kind: Seq<char>)
    ensures
        kind == "read"@ ==> glyph_of(kind) == "📖"@,
        kind == "edit"@ || kind == "delete"@ || kind == "move"@ ==> glyph_of(kind) == "✏️"@,
        kind == "execute"@ ==> glyph_of(kind) == "💻"@,
        kind == "search"@ || kind == "fetch"@ ==> glyph_of(kind) == "🔍"@,
        kind == "think"@ ==> glyph_of(kind) == "💭"@,
        kind == "say"@ ==> glyph_of(kind) == "💬"@,
        glyph_of(kind) != "·"@ ==> kind == "read"@ || kind == "edit"@ || kind == "delete"@ || kind
            == "move"@ || kind == "execute"@ || kind == "search"@ || kind == "fetch"@ || kind
            == "think"@ || kind == "say"@,
        is_text_kind(kind) <==> kind == "think"@ || kind == "say"@,
{
    reveal_strlit("read");
    reveal_strlit("edit");
    reveal_strlit("delete");
    reveal_strlit("move");
    reveal_strlit("execute");
    reveal_strlit("search");
    reveal_strlit("fetch");
    reveal_strlit("think");
    reveal_strlit("say");
    assert("read"@[0] == 'r' && "edit"@[1] == 'd' && "delete"@[0] == 'd' && "move"@[0] == 'm');
    assert("edit"@[0] == 'e' && "execute"@[0] == 'e' && "execute"@[1] == 'x');
    assert("search"@[0] == 's' && "search"@[1] == 'e' && "fetch"@[0] == 'f');
    assert("think"@[0] == 't' && "say"@[0] == 's' && "say"@[1] == 'a');
}

/// The line of a step is the sign, a space and the text without white space at its ends,
/// from its first character on: the whole of it up to 160 characters, and of a longer one
/// the first 160 and an ellipsis.
pub proof fn law_line_shows_the_beginning(log: LogView, kind: Seq<char>, text: Seq<char>)
    requires
        trimmed(text).len() > 0,
    ensures
        ({
            let whole = glyph_of(kind) + " "@ + trimmed(text);
            let lines = emitted(log, kind, text).lines;
            let line = lines.last();
            &&& lines.len() > 0
            &&& whole.len() <= 160 ==> line == whole
            &&& whole.len() > 160 ==> {
                &&& line.len() == 161
                &&& forall|i: int| 0 <= i < 160 ==> #[trigger] line[i] == whole[i]
                &&& line[160] == '…'
            }
        }),
{
    reveal_strlit("…");
}

/// A step that is not blank counts as one; its line stands last, behind the latest lines
/// before it, of which there are eight at most with it; where it repeats the last line
/// nothing more is shown. A blank text is no step, and what is accumulated is not touched.
pub proof fn law_step_is_added_at_the_end(log: LogView, kind: Seq<char>, text: Seq<char>)
    ensures
        ({
            let next = emitted(log, kind, text);
            let line = next.lines.last();
            &&& next.pending == log.pending
            &&& trimmed(text).len() == 0 ==> next == log
            &&& trimmed(text).len() > 0 ==> {
                &&& next.steps == log.steps + 1
                &&& next.lines.len() > 0
                &&& line == line_of(kind, text)
                &&& log.lines.len() > 0 && log.lines.last() == line ==> next.lines == log.lines
                &&& !(log.lines.len() > 0 && log.lines.last() == line) ==> {
                    &&& log.lines.len() < 8 ==> next.lines == log.lines.push(line)
                    &&& log.lines.len() >= 8 ==> next.lines == log.lines.skip(1).push(line)
                }
            }
        }),
{
    if log.lines.len() >= 8 {
        let line = line_of(kind, text);
        assert(log.lines.push(line).drop_first() =~= log.lines.skip(1).push(line));
    }
}

/// A flush makes the accumulated text one step of its kind; without any it does nothing.
pub proof fn law_flush_is_one_step(log: LogView, kind: Seq<char>, text: Seq<char>)
    ensures
        log.pending is None ==> flushed(log) == log,
        log.pending == Some((kind, text)) ==> {
            &&& flushed(log).pending is None
            &&& flushed(log).lines == emitted(log, kind, text).lines
            &&& flushed(log).steps == emitted(log, kind, text).steps
        },
{
}

/// What becomes of one event. Text of the kind that is accumulated is added behind it, up to
/// 320 characters before it, and is then left out; other text starts anew behind a flush;
/// an action is a step of its own behind a flush.
pub proof fn law_every_event_is_taken_in(
    log: LogView,
    kind: Seq<char>,
    title: Seq<char>,
    before: Seq<char>,
)
    ensures
        ({
            let next = ingested(log, kind, title);
            let settled = flushed(log);
            &&& !is_text_kind(kind) ==> next == emitted(settled, kind, title)
            &&& is_text_kind(kind) && log.pending == Some((kind, before)) ==> {
                &&& next.lines == log.lines
                &&& next.steps == log.steps
                &&& before.len() < 320 ==> next.pending == Some((kind, before + title))
                &&& before.len() >= 320 ==> next.pending == Some((kind, before))
            }
            &&& is_text_kind(kind) && !(log.pending is Some && (log.pending->0).0 == kind) ==> {
                &&& next.lines == settled.lines
                &&& next.steps == settled.steps
                &&& next.pending == Some((kind, title))
            }
        }),
{
}

/// The log after these steps, each a kind and a text.
pub open spec fn emitted_all(log: LogView, steps: Seq<(Seq<char>, Seq<char>)>) -> LogView
    decreases steps.len(),
{
    if steps.len() == 0 {
        log
    } else {
        emitted(emitted_all(log, steps.drop_last()), steps.last().0, steps.last().1)
    }
}

/// Whether a message begins with the headline of so many steps and seconds, and goes on with
/// `rest`.
pub open spec fn has_headline(
    message: Seq<char>,
    steps: int,
    secs: int,
    done: bool,
    rest: Seq<char>,
) -> bool {
    exists|a: Seq<char>, b: Seq<char>|
        {
            &&& #[trigger] is_numeral_of(a, steps)
            &&& #[trigger] is_numeral_of(b, secs)
            &&& message == (if done {
                "✅ **done** — "@
            } else {
                "⚙️ **working…** — "@
            }) + a + " steps · "@ + b + "s"@ + rest
        }
}

/// The headline of a message holds the numerals of the steps and of the whole seconds,
/// whatever lines follow it and whatever is accumulated.
pub proof fn law_headline_counts_steps(log: LogView, nanos: nat, secs: int, done: bool)
    requires
        secs * 1_000_000_000 <= nanos < (secs + 1) * 1_000_000_000,
    ensures
        has_headline(
            rendered(LogView { lines: Seq::empty(), ..log }, nanos, done),
            log.steps as int,
            secs,
            done,
            Seq::empty(),
        ),
        exists|rest: Seq<char>|
            #[trigger] has_headline(
                rendered(log, nanos, done),
                log.steps as int,
                secs,
                done,
                rest,
            ),
        forall|other: LogView| #[trigger] rendered(other, nanos, done) == rendered(
            log,
            nanos,
            done,
        ) <== other.steps == log.steps && other.lines == log.lines,
{
    let a = decimal(log.steps);
    let b = decimal(nanos / 1_000_000_000);
    assert(nanos / 1_000_000_000 == secs);
    law_decimal_is_the_numeral(log.steps);
    law_decimal_is_the_numeral(nanos / 1_000_000_000);
    let bare = rendered(LogView { lines: Seq::empty(), ..log }, nanos, done);
    assert(is_numeral_of(a, log.steps as int) && is_numeral_of(b, secs));
    assert(has_headline(bare, log.steps as int, secs, done, Seq::empty()));
    assert(has_headline(
        rendered(log, nanos, done),
        log.steps as int,
        secs,
        done,
        body_of(log.lines),
    ));
}

/// After any number of steps that are not blank the headline counts them all, also those
/// whose lines are no longer shown or were shown once for several.
pub proof fn law_headline_counts_every_step(
    log: LogView,
    steps: Seq<(Seq<char>, Seq<char>)>,
    nanos: nat,
    secs: int,
    done: bool,
)
    requires
        forall|i: int| 0 <= i < steps.len() ==> trimmed((#[trigger] steps[i]).1).len() > 0,
        secs * 1_000_000_000 <= nanos < (secs + 1) * 1_000_000_000,
    ensures
        emitted_all(log, steps).steps == log.steps + steps.len(),
        exists|rest: Seq<char>|
            #[trigger] has_headline(
                rendered(emitted_all(log, steps), nanos, done),
                (log.steps + steps.len()) as int,
                secs,
                done,
                rest,
            ),
    decreases steps.len(),
{
    if steps.len() > 0 {
        let fewer = steps.drop_last();
        assert forall|i: int| 0 <= i < fewer.len() implies trimmed((#[trigger] fewer[i]).1).len()
            > 0 by {
            assert(fewer[i] == steps[i]);
        }
        law_headline_counts_every_step(log, fewer, nanos, secs, done);
        assert(steps.last() == steps[steps.len() - 1]);
    }
    law_headline_counts_steps(emitted_all(log, steps), nanos, secs, done);
}

/// Each line of the log is a line of the message, in order: one more line adds a line feed,
/// a mark and that line at the end.
pub proof fn law_each_line_is_shown(log: LogView, line: Seq<char>, nanos: nat, done: bool)
    ensures
        rendered(LogView { lines: log.lines.push(line), ..log }, nanos, done) == rendered(
            log,
            nanos,
            done,
        ) + "\n› "@ + line,
{
    let longer = log.lines.push(line);
    assert(longer.drop_last() =~= log.lines);
    assert(body_of(longer) == body_of(log.lines) + "\n› "@ + line);
    assert(rendered(LogView { lines: longer, ..log }, nanos, done) =~= rendered(log, nanos, done)
        + "\n› "@ + line);
}

/// A new log is blank, and what is asked of a log is what it holds.
pub proof fn law_log_answers(
    fresh: Log,
    log: &Log,
    steps: usize,
    empty: bool,
    nanos: u128,
    done: bool,
    message: String,
)
    requires
        call_ensures(Log::new, (), fresh),
        call_ensures(Log::steps, (log,), steps),
        call_ensures(Log::is_empty, (log,), empty),
        call_ensures(Log::render, (log, nanos, done), message),
    ensures
        fresh@.lines.len() == 0 && fresh@.steps == 0 && fresh@.pending is None,
        steps == log@.steps,
        empty <==> log@.lines.len() == 0,
        message@ == rendered(log@, nanos as nat, done),
{
}

/// What is done to a log, as it is seen afterwards.
pub proof fn law_log_changes(
    taken: &mut Log,
    e: &ProgressEvent,
    added: &mut Log,
    kind: &str,
    text: &str,
    settled: &mut Log,
)
    requires
        call_ensures(Log::ingest, (taken, e), ()),
        call_ensures(Log::emit, (added, kind, text), ()),
        call_ensures(Log::flush, (settled,), ()),
    ensures
        final(taken)@ == ingested(old(taken)@, e.kind@, e.title@),
        final(added)@ == emitted(old(added)@, kind@, text@),
        final(settled)@ == flushed(old(settled)@),
{
}

} // verus!
