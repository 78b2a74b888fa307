//! Following the progress file of a delegate while it grows.

use vstd::prelude::*;

use crate::progress::{
    dotless, file_name, file_name_async, files_of_others_are_not_found, find_progress_file,
    format_progress_lines, is_newest, progress_text, qualifies, text_only_grows,
    timestamp_is_read_back, ProgressEvent,
};
use crate::text::{texts, to_chars};

verus! {

/// How long to sleep between two looks at the disk.
pub const POLL_MS: u64 = 400;

/// How long to wait for the file to appear.
pub const FILE_WAIT_MS: u64 = 120_000;

/// How long to follow a delegate.
pub const RUN_MS: u64 = 1_800_000;

/// What a reading of a line gives: an event, or nothing for a line that is none.
pub type Line = Option<ProgressEvent>;

/// The event that says that the delegate is done stands on this line.
pub open spec fn is_done(line: Line) -> bool {
    line is Some && line->0 is Done
}

/// Some line says that the delegate is done.
pub open spec fn finishes(lines: Seq<Line>) -> bool {
    exists|i: int| 0 <= i < lines.len() && is_done(#[trigger] lines[i])
}

/// The events on `lines`, up to the first that says that the delegate is done.
pub open spec fn through_done(lines: Seq<Line>) -> Seq<ProgressEvent>
    decreases lines.len(),
{
    if lines.len() == 0 {
        Seq::empty()
    } else {
        match lines[0] {
            None => through_done(lines.skip(1)),
            Some(event) => if event is Done {
                seq![event]
            } else {
                seq![event] + through_done(lines.skip(1))
            },
        }
    }
}

proof fn finishes_step(lines: Seq<Line>)
    requires
        lines.len() > 0,
    ensures
        finishes(lines) == (is_done(lines[0]) || finishes(lines.skip(1))),
{
    if finishes(lines.skip(1)) {
        let i = choose|i: int|
            0 <= i < lines.skip(1).len() && is_done(#[trigger] lines.skip(1)[i]);
        assert(is_done(lines[i + 1]));
    }
    if finishes(lines) && !is_done(lines[0]) {
        let i = choose|i: int| 0 <= i < lines.len() && is_done(#[trigger] lines[i]);
        assert(is_done(lines.skip(1)[i - 1]));
    }
}

/// What is delivered of two batches in a row is what is delivered of both together.
pub proof fn two_batches_are_one(a: Seq<Line>, b: Seq<Line>)
    ensures
        through_done(a + b) == if finishes(a) {
            through_done(a)
        } else {
            through_done(a) + through_done(b)
        },
        finishes(a + b) == (finishes(a) || finishes(b)),
    decreases a.len(),
{
    if a.len() == 0 {
        assert(a + b =~= b);
        assert(through_done(a) + through_done(b) =~= through_done(b));
        assert(!finishes(a));
    } else {
        two_batches_are_one(a.skip(1), b);
        finishes_step(a);
        finishes_step(a + b);
        assert((a + b).skip(1) =~= a.skip(1) + b);
        assert((a + b)[0] == a[0]);
        match a[0] {
            None => {},
            Some(event) => {
                if !(event is Done) {
                    let first = seq![event];
                    assert(first + (through_done(a.skip(1)) + through_done(b)) =~= first
                        + through_done(a.skip(1)) + through_done(b));
                }
            },
        }
    }
}

/// Only the last event that is delivered can say that the delegate is done, and it does so if any
/// line does.
pub proof fn done_comes_last(lines: Seq<Line>)
    ensures
        forall|i: int|
            0 <= i < through_done(lines).len() - 1 ==> !((#[trigger] through_done(lines)[i]) is Done),
        finishes(lines) <==> through_done(lines).len() > 0 && through_done(lines).last() is Done,
    decreases lines.len(),
{
    if lines.len() > 0 {
        finishes_step(lines);
        done_comes_last(lines.skip(1));
        let rest = through_done(lines.skip(1));
        match lines[0] {
            None => {},
            Some(event) => {
                if !(event is Done) {
                    let all = seq![event] + rest;
                    assert forall|i: int| 0 <= i < all.len() - 1 implies !((
                    #[trigger] all[i]) is Done) by {
                        if i > 0 {
                            assert(all[i] == rest[i - 1]);
                        }
                    }
                    if rest.len() > 0 {
                        assert(all.last() == rest.last());
                    }
                }
            },
        }
    } else {
        assert(!finishes(lines));
    }
}

/// The events that are delivered of one batch after the other.
pub open spec fn delivered(batches: Seq<Seq<Line>>) -> Seq<ProgressEvent>
    decreases batches.len(),
{
    if batches.len() == 0 {
        Seq::empty()
    } else if finishes(batches[0]) {
        through_done(batches[0])
    } else {
        through_done(batches[0]) + delivered(batches.skip(1))
    }
}

/// The lines of all batches.
pub open spec fn all_lines(batches: Seq<Seq<Line>>) -> Seq<Line>
    decreases batches.len(),
{
    if batches.len() == 0 {
        Seq::empty()
    } else {
        batches[0] + all_lines(batches.skip(1))
    }
}

/// How the lines of a file are spread over batches has no influence on what is delivered: every
/// event up to the one that says that the delegate is done, each once and in order.
pub proof fn batching_is_irrelevant(batches: Seq<Seq<Line>>)
    ensures
        delivered(batches) == through_done(all_lines(batches)),
    decreases batches.len(),
{
    if batches.len() > 0 {
        batching_is_irrelevant(batches.skip(1));
        two_batches_are_one(batches[0], all_lines(batches.skip(1)));
    }
}

/// The lines of a file into which `events` were written.
pub open spec fn written(events: Seq<ProgressEvent>) -> Seq<Line> {
    events.map_values(|event: ProgressEvent| Some(event))
}

/// A reader of the file gets back what was written to it: every event, if only the last one says
/// that the delegate is done.
pub proof fn written_events_are_delivered(events: Seq<ProgressEvent>)
    requires
        forall|i: int| 0 <= i < events.len() - 1 ==> !((#[trigger] events[i]) is Done),
    ensures
        through_done(written(events)) == events,
    decreases events.len(),
{
    if events.len() > 0 {
        let rest = events.skip(1);
        assert forall|i: int| 0 <= i < rest.len() - 1 implies !((#[trigger] rest[i]) is Done) by {
            assert(rest[i] == events[i + 1]);
        }
        written_events_are_delivered(rest);
        assert(written(events).skip(1) =~= written(rest));
        assert(written(events)[0] == Some(events[0]));
        if events.len() == 1 {
            assert(events =~= seq![events[0]]);
            assert(rest =~= Seq::empty());
        }
        assert(events =~= seq![events[0]] + rest);
    }
}

// ── state ────────────────────────────────────────────────────────────────────
/// What a tailer is doing.
pub enum TailState {
    /// Waiting for the file to appear.
    Searching,
    /// Reading the file of that name, of which `offset` bytes have been read.
    Following { name: Seq<char>, offset: u64 },
    Stopped,
}

/// What becomes of a tailer at that time after its start.
pub open spec fn woken(state: TailState, elapsed_ms: u64) -> TailState {
    match state {
        TailState::Searching => if elapsed_ms >= FILE_WAIT_MS {
            TailState::Stopped
        } else {
            state
        },
        TailState::Following { .. } => if elapsed_ms >= RUN_MS {
            TailState::Stopped
        } else {
            state
        },
        TailState::Stopped => state,
    }
}

enum Phase {
    Searching,
    Following { name: String, offset: u64 },
    Stopped,
}

/// What a tailer asks its surroundings to do.
pub enum TailAction {
    /// Report the names in the directory.
    List,
    /// Read the file from that position to its end.
    Read { name: String, offset: u64 },
    /// Report the time at once.
    Look,
    /// Sleep, then report the time.
    Sleep { ms: u64 },
    /// Nothing more is to be done.
    Stop,
}

/// Follows the progress file of one delegate.
pub struct Tailer {
    key: String,
    not_before_ms: u64,
    phase: Phase,
}

impl Tailer {
    /// The delegate or task whose file is followed.
    pub closed spec fn key(&self) -> Seq<char> {
        self.key@
    }

    /// The earliest time at which the file may have been created.
    pub closed spec fn not_before(&self) -> u64 {
        self.not_before_ms
    }

    pub closed spec fn state(&self) -> TailState {
        match self.phase {
            Phase::Searching => TailState::Searching,
            Phase::Following { name, offset } => TailState::Following { name: name@, offset },
            Phase::Stopped => TailState::Stopped,
        }
    }

    /// Whether two tailers look for the same file.
    pub open spec fn same_target(&self, other: &Tailer) -> bool {
        self.key() == other.key() && self.not_before() == other.not_before()
    }

    pub fn new(key: String, not_before_ms: u64) -> (tailer: Self)
        ensures
            tailer.key() == key@,
            tailer.not_before() == not_before_ms,
            tailer.state() is Searching,
    {
        Tailer { key, not_before_ms, phase: Phase::Searching }
    }

    /// Takes note of the time since the start and says what to do next.
    pub fn wake(&mut self, elapsed_ms: u64) -> (action: TailAction)
        ensures
            final(self).same_target(old(self)),
            final(self).state() == woken(old(self).state(), elapsed_ms),
            match final(self).state() {
                TailState::Searching => action is List,
                TailState::Following { name, offset } => match action {
                    TailAction::Read { name: n, offset: o } => n@ == name && o == offset,
                    _ => false,
                },
                TailState::Stopped => action is Stop,
            },
    {
        let (limit, action) = match &self.phase {
            Phase::Searching => (FILE_WAIT_MS, TailAction::List),
            Phase::Following { name, offset } => (
                RUN_MS,
                TailAction::Read { name: name.clone(), offset: *offset },
            ),
            Phase::Stopped => (0, TailAction::Stop),
        };
        if elapsed_ms >= limit {
            self.phase = Phase::Stopped;
            return TailAction::Stop;
        }
        action
    }

    /// Takes note of the names in the directory. A listing that was not asked for changes nothing.
    pub fn listed(&mut self, names: &Vec<String>) -> (action: TailAction)
        ensures
            final(self).same_target(old(self)),
            match old(self).state() {
                TailState::Searching => match final(self).state() {
                    TailState::Following { name, offset } => {
                        &&& action is Look
                        &&& offset == 0
                        &&& exists|i: int|
                            #[trigger] is_newest(
                                texts(names@),
                                old(self).key(),
                                old(self).not_before(),
                                i,
                            ) && name == names@[i]@
                    },
                    TailState::Searching => {
                        &&& action == (TailAction::Sleep { ms: POLL_MS })
                        &&& forall|i: int|
                            0 <= i < names@.len() ==> !qualifies(
                                (#[trigger] names@[i])@,
                                old(self).key(),
                                old(self).not_before(),
                            )
                    },
                    TailState::Stopped => false,
                },
                _ => action is Look && final(self).state() == old(self).state(),
            },
    {
        match &self.phase {
            Phase::Searching => match find_progress_file(
                names,
                self.key.as_str(),
                self.not_before_ms,
            ) {
                Some(name) => {
                    self.phase = Phase::Following { name, offset: 0 };
                    assert(self.state() == (TailState::Following { name: name@, offset: 0 }));
                    TailAction::Look
                },
                None => TailAction::Sleep { ms: POLL_MS },
            },
            _ => TailAction::Look,
        }
    }

    /// Takes note of the lines that were read and of the position behind them, and gives the
    /// events to deliver. A reading that was not asked for changes nothing.
    pub fn read(&mut self, lines: Vec<Line>, position: Option<u64>) -> (result: (
        Vec<ProgressEvent>,
        TailAction,
    ))
        ensures
            final(self).same_target(old(self)),
            match old(self).state() {
                TailState::Following { name, offset } => {
                    &&& result.0@ == through_done(lines@)
                    &&& if finishes(lines@) {
                        result.1 is Stop && final(self).state() is Stopped
                    } else {
                        &&& result.1 == (TailAction::Sleep { ms: POLL_MS })
                        &&& final(self).state() == (TailState::Following {
                            name,
                            offset: match position {
                                Some(p) => p,
                                None => offset,
                            },
                        })
                    }
                },
                _ => {
                    &&& result.0@.len() == 0
                    &&& result.1 is Look
                    &&& final(self).state() == old(self).state()
                },
            },
    {
        match &mut self.phase {
            Phase::Following { name: _, offset } => {
                match position {
                    Some(p) => {
                        *offset = p;
                    },
                    None => {},
                }
            },
            _ => {
                return (Vec::new(), TailAction::Look);
            },
        }
        let (events, done) = events_through_done(lines);
        if done {
            self.phase = Phase::Stopped;
            (events, TailAction::Stop)
        } else {
            (events, TailAction::Sleep { ms: POLL_MS })
        }
    }

    /// Takes note that the file cannot be read.
    pub fn read_failed(&mut self) -> (action: TailAction)
        ensures
            final(self).same_target(old(self)),
            final(self).state() is Stopped,
            action is Stop,
    {
        self.phase = Phase::Stopped;
        TailAction::Stop
    }
}

/// The events on `lines` up to the first that says that the delegate is done, and whether there
/// is one.
pub fn events_through_done(lines: Vec<Line>) -> (result: (Vec<ProgressEvent>, bool))
    ensures
        result.0@ == through_done(lines@),
        result.1 == finishes(lines@),
{
    let mut events: Vec<ProgressEvent> = Vec::new();
    let mut done = false;
    let ghost all = lines@;
    for line in it: lines
        invariant
            it.seq() == all,
            0 <= it.index() <= all.len(),
            done == finishes(all.take(it.index() as int)),
            events@ == through_done(all.take(it.index() as int)),
    {
        let ghost n = it.index() as int;
        let ghost before = all.take(n);
        let ghost now = seq![line];
        proof {
            assert(all.take(n + 1) =~= before + now);
            two_batches_are_one(before, now);
            finishes_step(now);
            assert(now.skip(1) =~= Seq::<Line>::empty());
            assert(!finishes(Seq::<Line>::empty()));
            assert(through_done(Seq::<Line>::empty()) =~= Seq::empty());
        }
        if !done {
            match line {
                Some(event) => {
                    let ghost so_far = events@;
                    done = match &event {
                        ProgressEvent::Done { .. } => true,
                        _ => false,
                    };
                    events.push(event);
                    proof {
                        assert(through_done(now) =~= seq![event]);
                        assert(events@ =~= so_far + seq![event]);
                    }
                },
                None => {},
            }
        }
    }
    assert(all.take(all.len() as int) =~= all);
    (events, done)
}

/// Space as in Unicode's `White_Space`.
pub open spec fn is_whitespace(c: char) -> bool {
    ||| '\u{9}' <= c <= '\u{d}'
    ||| c == ' '
    ||| c == '\u{85}'
    ||| c == '\u{a0}'
    ||| c == '\u{1680}'
    ||| '\u{2000}' <= c <= '\u{200a}'
    ||| c == '\u{2028}'
    ||| c == '\u{2029}'
    ||| c == '\u{202f}'
    ||| c == '\u{205f}'
    ||| c == '\u{3000}'
}

/// Whether a line holds nothing but space.
pub fn is_blank_line(line: &str) -> (blank: bool)
    ensures
        blank == (forall|i: int| 0 <= i < line@.len() ==> is_whitespace(#[trigger] line@[i])),
{
    let chars = to_chars(line);
    let mut i: usize = 0;
    while i < chars.len()
        invariant
            chars@ == line@,
            i <= chars@.len(),
            forall|k: int| 0 <= k < i ==> is_whitespace(#[trigger] line@[k]),
        decreases chars@.len() - i,
    {
        let c = chars[i];
        if !(('\u{9}' <= c && c <= '\u{d}') || c == ' ' || c == '\u{85}' || c == '\u{a0}' || c
            == '\u{1680}' || ('\u{2000}' <= c && c <= '\u{200a}') || c == '\u{2028}' || c
            == '\u{2029}' || c == '\u{202f}' || c == '\u{205f}' || c == '\u{3000}') {
            assert(!is_whitespace(line@[i as int]));
            return false;
        }
        i = i + 1;
    }
    true
}

/// Collects the events of a delegate and renders them as text.
pub struct ProgressText {
    events: Vec<ProgressEvent>,
}

impl View for ProgressText {
    type V = Seq<ProgressEvent>;

    closed spec fn view(&self) -> Seq<ProgressEvent> {
        self.events@
    }
}

impl ProgressText {
    pub fn new() -> (text: Self)
        ensures
            text@ == Seq::<ProgressEvent>::empty(),
    {
        ProgressText { events: Vec::new() }
    }

    /// Adds an event. A tool call gives the text of all events so far.
    pub fn accept(&mut self, event: ProgressEvent) -> (text: Option<String>)
        ensures
            final(self)@ == old(self)@.push(event),
            match text {
                Some(t) => event is Tool && t@ == progress_text(final(self)@) && t@.len() > 0,
                None => !(event is Tool),
            },
    {
        let ghost before = self.events@;
        let is_tool = match &event {
            ProgressEvent::Tool { .. } => true,
            _ => false,
        };
        self.events.push(event);
        if !is_tool {
            return None;
        }
        proof {
            text_only_grows(before, event);
        }
        Some(format_progress_lines(self.events.as_slice()))
    }
}

/// Whatever a tailer is doing, it stops after half an hour, and after two minutes if no file has
/// appeared by then.
pub proof fn tailing_is_bounded(state: TailState, elapsed_ms: u64)
    ensures
        elapsed_ms >= 30 * 60 * 1000 ==> woken(state, elapsed_ms) is Stopped,
        elapsed_ms >= 2 * 60 * 1000 && state is Searching ==> woken(state, elapsed_ms) is Stopped,
        state is Stopped ==> woken(state, elapsed_ms) is Stopped,
{
}

/// A line that is no event gives nothing, and an event is delivered as it stands; it ends the
/// following exactly if it says that the delegate is done.
pub proof fn one_line_gives_its_event(line: Line)
    ensures
        line is None ==> through_done(seq![line]).len() == 0,
        line is Some ==> through_done(seq![line]) == seq![line->0],
        finishes(seq![line]) <==> line is Some && line->0 is Done,
        through_done(Seq::empty()).len() == 0,
        !finishes(Seq::empty()),
{
    assert(seq![line].skip(1) =~= Seq::<Line>::empty());
    assert(through_done(Seq::<Line>::empty()) =~= Seq::<ProgressEvent>::empty());
    finishes_step(seq![line]);
    if line is Some {
        assert(through_done(seq![line]) =~= seq![line->0]);
    }
}

/// A tailer goes on with what it was doing as long as its time is not up: two minutes for a file
/// that has not appeared, half an hour for one that it reads.
pub proof fn tailing_goes_on_in_time(state: TailState, elapsed_ms: u64)
    ensures
        state is Searching ==> (woken(state, elapsed_ms) == state <==> elapsed_ms < 2 * 60 * 1000),
        state is Following ==> (woken(state, elapsed_ms) == state <==> elapsed_ms < 30 * 60 * 1000),
        woken(state, elapsed_ms) == state || woken(state, elapsed_ms) is Stopped,
{
}

/// Batches in a row hold the lines of the one and then those of the other.
pub proof fn lines_of_both_batches(a: Seq<Seq<Line>>, b: Seq<Seq<Line>>, batch: Seq<Line>)
    ensures
        all_lines(a + b) == all_lines(a) + all_lines(b),
        all_lines(seq![batch]) == batch,
    decreases a.len(),
{
    assert(seq![batch].skip(1) =~= Seq::<Seq<Line>>::empty());
    assert(all_lines(Seq::<Seq<Line>>::empty()) =~= Seq::<Line>::empty());
    assert(batch + Seq::<Line>::empty() =~= batch);
    if a.len() == 0 {
        assert(a + b =~= b);
        assert(all_lines(a) + all_lines(b) =~= all_lines(b));
    } else {
        lines_of_both_batches(a.skip(1), b, batch);
        assert((a + b).skip(1) =~= a.skip(1) + b);
        assert(a[0] + (all_lines(a.skip(1)) + all_lines(b)) =~= a[0] + all_lines(a.skip(1))
            + all_lines(b));
    }
}

/// The space characters by their numbers.
pub proof fn whitespace_by_number(c: char)
    ensures
        is_whitespace(c) <==> {
            let n = c as u32;
            ||| 9 <= n <= 13
            ||| n == 32
            ||| n == 0x85
            ||| n == 0xa0
            ||| n == 0x1680
            ||| 0x2000 <= n <= 0x200a
            ||| n == 0x2028
            ||| n == 0x2029
            ||| n == 0x202f
            ||| n == 0x205f
            ||| n == 0x3000
        },
{
}

// ── what the operations do ───────────────────────────────────────────────────
/// A tailer that follows a file delivers every event that was written to it, each once and in
/// order, stops exactly if the last one says that the delegate is done, and else goes on behind
/// what it has read.
pub proof fn followed_events_are_delivered(
    before: Tailer,
    lines: Vec<Line>,
    position: Option<u64>,
    result: (Vec<ProgressEvent>, TailAction),
    after: Tailer,
    events: Seq<ProgressEvent>,
)
    requires
        before.state() is Following,
        lines@ == written(events),
        forall|i: int| 0 <= i < events.len() - 1 ==> !((#[trigger] events[i]) is Done),
        exists|t: &mut Tailer|
            *t == before && *final(t) == after && #[trigger] call_ensures(
                Tailer::read,
                (t, lines, position),
                result,
            ),
    ensures
        result.0@ == events,
        after.key() == before.key(),
        after.not_before() == before.not_before(),
        events.len() > 0 && events.last() is Done ==> after.state() is Stopped && result.1 is Stop,
        !(events.len() > 0 && events.last() is Done) ==> {
            &&& after.state() is Following
            &&& after.state()->name == before.state()->name
            &&& position is Some ==> after.state()->offset == position->0
            &&& position is None ==> after.state()->offset == before.state()->offset
            &&& result.1 == (TailAction::Sleep { ms: 400 })
        },
{
    written_events_are_delivered(events);
    done_comes_last(lines@);
}

/// A tailer that wakes in time goes on with what it was doing: it looks for its file, or reads it
/// from where it stopped. When its time is up, it stops.
pub proof fn waking_goes_on(before: Tailer, elapsed_ms: u64, action: TailAction, after: Tailer)
    requires
        exists|t: &mut Tailer|
            *t == before && *final(t) == after && #[trigger] call_ensures(
                Tailer::wake,
                (t, elapsed_ms),
                action,
            ),
    ensures
        before.state() is Searching && elapsed_ms < 120_000 ==> action is List && after.state()
            == before.state(),
        before.state() is Following && elapsed_ms < 1_800_000 ==> after.state() == before.state()
            && match action {
            TailAction::Read { name, offset } => name@ == before.state()->name && offset
                == before.state()->offset,
            _ => false,
        },
        before.state() is Searching && elapsed_ms >= 120_000 ==> action is Stop,
        elapsed_ms >= 1_800_000 || before.state() is Stopped ==> action is Stop && after.state()
            is Stopped,
        after.key() == before.key(),
        after.not_before() == before.not_before(),
{
    tailing_is_bounded(before.state(), elapsed_ms);
    tailing_goes_on_in_time(before.state(), elapsed_ms);
}

/// A tailer that looks for its file follows one of those that are listed, from its beginning, and
/// never the file of another delegate and another task.
pub proof fn followed_file_is_its_own(
    before: Tailer,
    names: &Vec<String>,
    action: TailAction,
    after: Tailer,
    key: Seq<char>,
    task: Seq<char>,
    ms: u64,
)
    requires
        before.state() is Searching,
        exists|t: &mut Tailer|
            *t == before && *final(t) == after && #[trigger] call_ensures(
                Tailer::listed,
                (t, names),
                action,
            ),
        after.state() is Following,
        dotless(key),
        dotless(task),
        dotless(before.key()),
    ensures
        texts(names@).contains(after.state()->name),
        after.state()->offset == 0,
        after.state()->name == file_name(key, ms) ==> before.key() == key && ms
            >= before.not_before(),
        after.state()->name == file_name_async(key, task, ms) ==> (before.key() == key
            || before.key() == task) && ms >= before.not_before(),
{
    let name = after.state()->name;
    let i = choose|i: int|
        #[trigger] is_newest(texts(names@), before.key(), before.not_before(), i) && name
            == names@[i]@;
    assert(texts(names@)[i] == name);
    files_of_others_are_not_found(key, task, before.key(), ms, before.not_before());
    timestamp_is_read_back(key, task, ms);
}

/// The text of a delegate's events grows by a line with every tool call, which shows at its end.
pub proof fn tool_calls_extend_the_text(
    before: ProgressText,
    event: ProgressEvent,
    text: Option<String>,
    after: ProgressText,
)
    requires
        exists|t: &mut ProgressText|
            *t == before && *final(t) == after && #[trigger] call_ensures(
                ProgressText::accept,
                (t, event),
                text,
            ),
    ensures
        after@ == before@.push(event),
        text is Some == event is Tool,
        text is Some ==> progress_text(before@).is_prefix_of(text->0@),
        text is Some ==> progress_text(before@).len() < text->0@.len(),
{
    text_only_grows(before@, event);
}

/// A tailer that does not find its file sleeps for a while and goes on looking; one whose file
/// cannot be read stops; and a listing that was not asked for changes nothing.
pub proof fn tailers_are_patient(
    before: Tailer,
    names: &Vec<String>,
    action: TailAction,
    after: Tailer,
    last: TailAction,
    end: Tailer,
)
    requires
        exists|t: &mut Tailer|
            *t == before && *final(t) == after && #[trigger] call_ensures(
                Tailer::listed,
                (t, names),
                action,
            ),
        exists|t: &mut Tailer|
            *t == after && *final(t) == end && #[trigger] call_ensures(
                Tailer::read_failed,
                (t,),
                last,
            ),
    ensures
        !(after.state() is Stopped) || before.state() is Stopped,
        before.state() is Searching && after.state() is Searching ==> action == (
        TailAction::Sleep { ms: 400 }),
        before.state() is Searching && after.state() is Following ==> action is Look,
        !(before.state() is Searching) ==> after.state() == before.state() && action is Look,
        end.state() is Stopped,
        last is Stop,
{
}

} // verus!
