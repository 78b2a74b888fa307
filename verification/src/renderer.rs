//! The renderer that keeps a block of status lines at the bottom of the terminal.
//!
//! The renderer decides; what it decides is a list of actions for whoever owns the terminal. Where
//! the output goes to no terminal, what happens to delegates is told on plain lines instead.

use std::time::Instant;

use vstd::prelude::*;

use crate::clock::{is_age_of, seconds_since};
use crate::decimal::{decimal, to_decimal};
use crate::delegate_status::{
    are_ages_of, compose_entry_line_at, compose_status_block_at, entry_line, measure_text_width, models,
    status_block, text_width, DelegateModel, DelegateState,
};
use crate::ordered_map::{
    distinct_keys, has_key, index_is_unique, index_of, key_at, lookup, lookup_after_with, lookup_after_without, mapped,
    mapped_commutes, mapped_commutes_with, with, without, OrderedMap,
};
use crate::text::texts;

verus! {

/// What the renderer can be told.
pub enum RendererCmd {
    /// A delegate started; it gets the given key.
    Register { key: String, name: String },
    /// The keyed delegate called a tool.
    ToolEvent {
        key: String,
        tool_name: String,
        tool_count: Option<u32>,
        turn_count: Option<u32>,
    },
    /// The keyed delegate should take this name if it only has a session id to show.
    AdoptName { key: String, name: String },
    /// The keyed delegate finished; `silent` leaves out the summary line.
    Done { key: String, silent: bool },
    /// Print a line above the block.
    PrintLine { text: String },
    /// Clear the block and do not draw it again yet.
    ClearNow,
}

/// The columns of a terminal whose width is unknown.
pub const DEFAULT_COLUMNS: usize = 80;

/// The columns to draw on.
pub fn drawing_width(columns: Option<u16>) -> (width: usize)
    ensures
        width == (match columns {
            Some(n) => n as usize,
            None => DEFAULT_COLUMNS,
        }),
{
    match columns {
        Some(n) => n as usize,
        None => DEFAULT_COLUMNS,
    }
}

/// What happens to the renderer.
pub enum RenderEvent {
    Command(RendererCmd),
    /// Time to advance the spinner.
    Tick,
    /// There will be no more commands.
    Closed,
}

/// The contents of a [`RenderEvent`].
pub enum EventModel {
    Register { key: Seq<char>, name: Seq<char> },
    ToolEvent {
        key: Seq<char>,
        tool_name: Seq<char>,
        tool_count: Option<u32>,
        turn_count: Option<u32>,
    },
    AdoptName { key: Seq<char>, name: Seq<char> },
    Done { key: Seq<char>, silent: bool },
    PrintLine { text: Seq<char> },
    ClearNow,
    Tick,
    Closed,
}

impl View for RenderEvent {
    type V = EventModel;

    open spec fn view(&self) -> EventModel {
        match self {
            RenderEvent::Command(cmd) => cmd@,
            RenderEvent::Tick => EventModel::Tick,
            RenderEvent::Closed => EventModel::Closed,
        }
    }
}

impl View for RendererCmd {
    type V = EventModel;

    open spec fn view(&self) -> EventModel {
        match self {
            RendererCmd::Register { key, name } => EventModel::Register {
                key: key@,
                name: name@,
            },
            RendererCmd::ToolEvent { key, tool_name, tool_count, turn_count } => {
                EventModel::ToolEvent {
                    key: key@,
                    tool_name: tool_name@,
                    tool_count: *tool_count,
                    turn_count: *turn_count,
                }
            },
            RendererCmd::AdoptName { key, name } => EventModel::AdoptName {
                key: key@,
                name: name@,
            },
            RendererCmd::Done { key, silent } => EventModel::Done { key: key@, silent: *silent },
            RendererCmd::PrintLine { text } => EventModel::PrintLine { text: text@ },
            RendererCmd::ClearNow => EventModel::ClearNow,
        }
    }
}

/// What is to be done to the terminal.
pub enum RenderAction {
    /// Erase the last lines, that many.
    ClearLines(usize),
    /// Print the lines of the block.
    PrintBlock(Vec<String>),
    /// Print an ordinary line.
    PrintLine(String),
    /// Print the summary line of a finished delegate.
    PrintSummary { name: String, stats: String },
    /// Tell whoever asked for it that the block is cleared.
    Acknowledge,
    /// Stop rendering.
    Stop,
}

/// The contents of a [`RenderAction`].
pub enum ActionModel {
    ClearLines(usize),
    PrintBlock(Seq<Seq<char>>),
    PrintLine(Seq<char>),
    PrintSummary { name: Seq<char>, stats: Seq<char> },
    Acknowledge,
    Stop,
}

impl View for RenderAction {
    type V = ActionModel;

    open spec fn view(&self) -> ActionModel {
        match self {
            RenderAction::ClearLines(n) => ActionModel::ClearLines(*n),
            RenderAction::PrintBlock(lines) => ActionModel::PrintBlock(texts(lines@)),
            RenderAction::PrintLine(text) => ActionModel::PrintLine(text@),
            RenderAction::PrintSummary { name, stats } => ActionModel::PrintSummary {
                name: name@,
                stats: stats@,
            },
            RenderAction::Acknowledge => ActionModel::Acknowledge,
            RenderAction::Stop => ActionModel::Stop,
        }
    }
}

/// The contents of a list of actions.
pub open spec fn action_models(actions: Seq<RenderAction>) -> Seq<ActionModel> {
    actions.map_values(|a: RenderAction| a@)
}

/// What is left to do for an event once the renderer's records are up to date.
pub enum Effect {
    /// Draw the block anew.
    Redraw,
    /// Show what became of the delegate under that key.
    Changed { key: String },
    /// A delegate finished, if there was one under that key.
    Finished { state: Option<DelegateState>, silent: bool },
    Print { text: String },
    Clear,
    Stop,
    Idle,
}

/// The contents of an [`Effect`].
pub enum EffectModel {
    Redraw,
    Changed { key: Seq<char> },
    Finished { state: Option<DelegateModel>, silent: bool },
    Print { text: Seq<char> },
    Clear,
    Stop,
    Idle,
}

impl View for Effect {
    type V = EffectModel;

    open spec fn view(&self) -> EffectModel {
        match self {
            Effect::Redraw => EffectModel::Redraw,
            Effect::Changed { key } => EffectModel::Changed { key: key@ },
            Effect::Finished { state, silent } => EffectModel::Finished {
                state: match state {
                    Some(s) => Some(s@),
                    None => None,
                },
                silent: *silent,
            },
            Effect::Print { text } => EffectModel::Print { text: text@ },
            Effect::Clear => EffectModel::Clear,
            Effect::Stop => EffectModel::Stop,
            Effect::Idle => EffectModel::Idle,
        }
    }
}

/// The state of a [`Renderer`].
pub struct RendererModel {
    /// The running delegates by key, in the order in which they started.
    pub delegates: Seq<(Seq<char>, DelegateModel)>,
    pub spinner_idx: usize,
    /// How many lines of the block are on the screen.
    pub lines_drawn: usize,
    pub is_tty: bool,
}

/// A delegate after one more tool call.
pub open spec fn after_tool(
    d: DelegateModel,
    tool_name: Seq<char>,
    tool_count: Option<u32>,
    turn_count: Option<u32>,
) -> DelegateModel {
    DelegateModel {
        current_tool: if tool_name.len() > 0 {
            Some(tool_name)
        } else {
            d.current_tool
        },
        tool_count: match tool_count {
            Some(n) => n as usize,
            None => (d.tool_count + 1) as usize,
        },
        turn_count: if turn_count is Some {
            turn_count
        } else {
            d.turn_count
        },
        ..d
    }
}

/// `line` with spaces after it up to the width of the terminal.
pub open spec fn padded(line: Seq<char>, width: usize) -> Seq<char> {
    if width > text_width(line) {
        line + Seq::new((width - text_width(line)) as nat, |i: int| ' ')
    } else {
        line
    }
}

/// Tool calls, turns if known, and seconds of a finished delegate.
pub open spec fn done_stats(d: DelegateModel, seconds: u64) -> Seq<char> {
    decimal(d.tool_count as nat) + " tools"@ + done_turns(d.turn_count) + " · "@ + decimal(
        seconds as nat,
    ) + "s"@
}

/// The part of the summary that tells the number of turns, if it is known.
pub open spec fn done_turns(turn_count: Option<u32>) -> Seq<char> {
    match turn_count {
        Some(turns) => " · "@ + decimal(turns as nat) + " turns"@,
        None => Seq::empty(),
    }
}

/// Erasing the `n` lines on the screen.
pub open spec fn clearing(n: usize) -> Seq<ActionModel> {
    if n > 0 {
        seq![ActionModel::ClearLines(n)]
    } else {
        Seq::empty()
    }
}

impl RendererModel {
    /// What always holds: no key occurs twice, and lines are on the screen only while there are
    /// delegates and a terminal to show them on.
    pub open spec fn valid(self) -> bool {
        &&& distinct_keys(self.delegates)
        &&& self.lines_drawn > 0 ==> self.is_tty && self.delegates.len() > 0
    }

    /// The delegates without their keys.
    pub open spec fn states(self) -> Seq<DelegateModel> {
        self.delegates.map_values(|e: (Seq<char>, DelegateModel)| e.1)
    }

    /// Counting the tool call of `event` does not run out of numbers.
    pub open spec fn can_count(self, event: EventModel) -> bool {
        match event {
            EventModel::ToolEvent { key, tool_name, tool_count, turn_count } => match lookup(
                self.delegates,
                key,
            ) {
                Some(d) => tool_count is None ==> d.tool_count < usize::MAX,
                None => true,
            },
            _ => true,
        }
    }

    /// The records after `event`.  `session_label` tells whether the delegate that it is about
    /// only shows a session id.
    pub open spec fn updated(
        self,
        event: EventModel,
        now: Instant,
        session_label: bool,
    ) -> RendererModel {
        match event {
            EventModel::Register { key, name } => if has_key(self.delegates, key) {
                self
            } else {
                RendererModel {
                    delegates: self.delegates.push(
                        (
                            key,
                            DelegateModel {
                                name,
                                current_tool: None,
                                tool_count: 0,
                                turn_count: None,
                                started_at: now,
                            },
                        ),
                    ),
                    ..self
                }
            },
            EventModel::ToolEvent { key, tool_name, tool_count, turn_count } => match lookup(
                self.delegates,
                key,
            ) {
                Some(d) => RendererModel {
                    delegates: with(
                        self.delegates,
                        key,
                        after_tool(d, tool_name, tool_count, turn_count),
                    ),
                    ..self
                },
                None => self,
            },
            EventModel::AdoptName { key, name } => match lookup(self.delegates, key) {
                Some(d) => if session_label {
                    RendererModel {
                        delegates: with(self.delegates, key, DelegateModel { name, ..d }),
                        ..self
                    }
                } else {
                    self
                },
                None => self,
            },
            EventModel::Done { key, silent } => RendererModel {
                delegates: without(self.delegates, key),
                ..self
            },
            EventModel::Tick => if self.is_tty && self.delegates.len() > 0 {
                RendererModel { spinner_idx: self.spinner_idx.wrapping_add(1), ..self }
            } else {
                self
            },
            _ => self,
        }
    }

    /// What is left to do for `event`, judged by the records before it.
    pub open spec fn effect(self, event: EventModel) -> EffectModel {
        match event {
            EventModel::Register { key, .. } => EffectModel::Changed { key },
            EventModel::ToolEvent { key, .. } => EffectModel::Changed { key },
            EventModel::AdoptName { key, .. } => EffectModel::Changed { key },
            EventModel::Done { key, silent } => EffectModel::Finished {
                state: lookup(self.delegates, key),
                silent,
            },
            EventModel::PrintLine { text } => EffectModel::Print { text },
            EventModel::ClearNow => EffectModel::Clear,
            EventModel::Tick => if self.delegates.len() > 0 {
                EffectModel::Redraw
            } else {
                EffectModel::Idle
            },
            EventModel::Closed => EffectModel::Stop,
        }
    }

    /// The lines of the block, padded to the width of the terminal.
    pub open spec fn block(self, ages: Seq<u64>, width: usize) -> Seq<Seq<char>> {
        status_block(self.states(), ages, self.spinner_idx, width).map_values(
            |line: Seq<char>| padded(line, width),
        )
    }

    /// Erasing what is drawn and drawing the block anew.
    pub open spec fn redrawing(self, ages: Seq<u64>, width: usize) -> Seq<ActionModel> {
        if !self.is_tty {
            Seq::empty()
        } else if self.delegates.len() == 0 {
            clearing(self.lines_drawn)
        } else {
            clearing(self.lines_drawn).push(ActionModel::PrintBlock(self.block(ages, width)))
        }
    }

    /// The line of the delegate under `key`, for output that goes to no terminal.
    pub open spec fn plain_line(self, key: Seq<char>, ages: Seq<u64>) -> Seq<char> {
        let i = index_of(self.delegates, key);
        entry_line(self.delegates[i].1, ages[i], self.spinner_idx, 0)
    }

    /// Showing what became of the delegate under `key`: in the block on a terminal, else on a line
    /// of its own.
    pub open spec fn announcing(
        self,
        key: Seq<char>,
        ages: Seq<u64>,
        width: usize,
    ) -> Seq<ActionModel> {
        if self.is_tty {
            self.redrawing(ages, width)
        } else if has_key(self.delegates, key) {
            seq![ActionModel::PrintLine(self.plain_line(key, ages))]
        } else {
            Seq::empty()
        }
    }

    /// `event` is the registration or a tool call of a delegate that is there afterwards.
    pub open spec fn concerns_delegate(self, event: EventModel) -> bool {
        match event {
            EventModel::Register { .. } => true,
            EventModel::ToolEvent { key, .. } => has_key(self.delegates, key),
            _ => false,
        }
    }

    /// What holds between the two halves of handling an event: no key occurs twice, and lines are
    /// on the screen only if there is a terminal.
    pub open spec fn drawable(self) -> bool {
        &&& distinct_keys(self.delegates)
        &&& self.lines_drawn > 0 ==> self.is_tty
    }

    /// Lines that are on the screen without a delegate to show are erased by `effect`.
    pub open spec fn settles(self, effect: EffectModel) -> bool {
        self.lines_drawn > 0 && self.delegates.len() == 0 ==> match effect {
            EffectModel::Idle => false,
            EffectModel::Finished { state, .. } => state is Some,
            _ => true,
        }
    }

    /// The state with nothing drawn.
    pub open spec fn cleared(self) -> RendererModel {
        RendererModel { lines_drawn: 0, ..self }
    }

    /// The state after drawing the block anew.
    pub open spec fn redrawn(self, ages: Seq<u64>, width: usize) -> RendererModel {
        if !self.is_tty {
            self
        } else {
            RendererModel {
                lines_drawn: if self.delegates.len() == 0 {
                    0
                } else {
                    self.block(ages, width).len() as usize
                },
                ..self
            }
        }
    }

    /// Drawing the block anew after it was cleared, if there is anything to draw.
    pub open spec fn restoring(self, ages: Seq<u64>, width: usize) -> Seq<ActionModel> {
        if self.delegates.len() > 0 {
            self.redrawing(ages, width)
        } else {
            Seq::empty()
        }
    }

    /// The state after [`Self::restoring`].
    pub open spec fn restored(self, ages: Seq<u64>, width: usize) -> RendererModel {
        if self.delegates.len() > 0 {
            self.redrawn(ages, width)
        } else {
            self
        }
    }

    /// What `effect` does to the terminal.  `ages` tells for how many seconds each delegate has
    /// run, `finished_age` the same of the one that finished.
    pub open spec fn actions(
        self,
        effect: EffectModel,
        ages: Seq<u64>,
        finished_age: u64,
        width: usize,
    ) -> Seq<ActionModel> {
        match effect {
            EffectModel::Redraw => self.redrawing(ages, width),
            EffectModel::Changed { key } => self.announcing(key, ages, width),
            EffectModel::Finished { state, silent } => match state {
                Some(d) => clearing(self.lines_drawn) + summary(d, silent, finished_age)
                    + self.cleared().restoring(ages, width),
                None => self.restoring(ages, width),
            },
            EffectModel::Print { text } => clearing(self.lines_drawn) + seq![
                ActionModel::PrintLine(text),
            ] + self.cleared().restoring(ages, width),
            EffectModel::Clear => clearing(self.lines_drawn) + seq![ActionModel::Acknowledge],
            EffectModel::Stop => clearing(self.lines_drawn) + seq![ActionModel::Stop],
            EffectModel::Idle => Seq::empty(),
        }
    }

    /// The state after `effect`.
    pub open spec fn after(self, effect: EffectModel, ages: Seq<u64>, width: usize) -> RendererModel {
        match effect {
            EffectModel::Redraw => self.redrawn(ages, width),
            EffectModel::Changed { key } => self.redrawn(ages, width),
            EffectModel::Finished { state, silent } => match state {
                Some(d) => self.cleared().restored(ages, width),
                None => self.restored(ages, width),
            },
            EffectModel::Print { text } => self.cleared().restored(ages, width),
            EffectModel::Clear => self.cleared(),
            EffectModel::Stop => self.cleared(),
            EffectModel::Idle => self,
        }
    }
}

/// The summary line of a finished delegate.
pub open spec fn summary(d: DelegateModel, silent: bool, seconds: u64) -> Seq<ActionModel> {
    if silent {
        Seq::empty()
    } else {
        seq![ActionModel::PrintSummary { name: d.name, stats: done_stats(d, seconds) }]
    }
}

/// Contents of a delegate, as a function.
pub open spec fn delegate_content() -> spec_fn(DelegateState) -> DelegateModel {
    |s: DelegateState| s@
}

/// Keeps track of the running delegates and of what is on the screen.
pub struct Renderer {
    delegates: OrderedMap<DelegateState>,
    spinner_idx: usize,
    lines_drawn: usize,
    is_tty: bool,
}

impl View for Renderer {
    type V = RendererModel;

    closed spec fn view(&self) -> RendererModel {
        RendererModel {
            delegates: mapped(self.delegates@, delegate_content()),
            spinner_idx: self.spinner_idx,
            lines_drawn: self.lines_drawn,
            is_tty: self.is_tty,
        }
    }
}

impl Renderer {
    /// The renderer is in a valid state.
    pub closed spec fn wf(&self) -> bool {
        &&& self.delegates.wf()
        &&& self@.valid()
    }

    /// A well-formed renderer is in a valid state.
    pub proof fn state_is_valid(&self)
        requires
            self.wf(),
        ensures
            self@.valid(),
    {
    }

    pub fn new(is_tty: bool) -> (renderer: Self)
        ensures
            renderer.wf(),
            renderer@ == (RendererModel {
                delegates: Seq::empty(),
                spinner_idx: 0,
                lines_drawn: 0,
                is_tty,
            }),
    {
        let renderer = Renderer {
            delegates: OrderedMap::new(),
            spinner_idx: 0,
            lines_drawn: 0,
            is_tty,
        };
        assert(renderer@.delegates =~= Seq::<(Seq<char>, DelegateModel)>::empty());
        renderer
    }

    /// The name shown for the delegate under `key`.
    pub fn label(&self, key: &str) -> (label: Option<String>)
        requires
            self.wf(),
        ensures
            match lookup(self@.delegates, key@) {
                Some(d) => label is Some && label->0@ == d.name,
                None => label is None,
            },
    {
        proof {
            mapped_commutes(self.delegates@, delegate_content(), key@);
        }
        match self.delegates.get(key) {
            Some(state) => Some(state.name.clone()),
            None => None,
        }
    }

    /// Whether counting the tool call of `event` stays within the range of numbers.
    pub fn can_count(&self, event: &RenderEvent) -> (can: bool)
        requires
            self.wf(),
        ensures
            can == self@.can_count(event@),
    {
        match event {
            RenderEvent::Command(RendererCmd::ToolEvent { key, tool_count, .. }) => {
                proof {
                    mapped_commutes(self.delegates@, delegate_content(), key@);
                }
                match self.delegates.get(key.as_str()) {
                    Some(state) => tool_count.is_some() || state.tool_count < usize::MAX,
                    None => true,
                }
            },
            _ => true,
        }
    }

    /// Brings the records up to date with `event`, which happens at `now`, and returns what is
    /// left to do.  `session_label` tells whether the delegate that the event is about only shows
    /// a session id.
    pub fn update(&mut self, event: RenderEvent, now: Instant, session_label: bool) -> (effect:
        Effect)
        requires
            old(self).wf(),
            old(self)@.can_count(event@),
        ensures
            final(self)@ == old(self)@.updated(event@, now, session_label),
            effect@ == old(self)@.effect(event@),
            final(self)@.drawable(),
            final(self)@.settles(effect@),
    {
        let ghost before = self.delegates@;
        match event {
            RenderEvent::Command(cmd) => match cmd {
                RendererCmd::Register { key, name } => {
                    proof {
                        mapped_commutes(before, delegate_content(), key@);
                    }
                    if self.delegates.get(key.as_str()).is_none() {
                        let state = DelegateState {
                            name,
                            current_tool: None,
                            tool_count: 0,
                            turn_count: None,
                            started_at: now,
                        };
                        proof {
                            mapped_commutes_with(before, delegate_content(), key@, state);
                        }
                        self.delegates.insert(key.clone(), state);
                    }
                    proof {
                        mapped_commutes(self.delegates@, delegate_content(), key@);
                    }
                    Effect::Changed { key }
                },
                RendererCmd::ToolEvent { key, tool_name, tool_count, turn_count } => {
                    proof {
                        mapped_commutes(before, delegate_content(), key@);
                    }
                    match self.delegates.get_mut(key.as_str()) {
                        Some(state) => {
                            if !tool_name.as_str().is_empty() {
                                state.current_tool = Some(tool_name);
                            }
                            state.tool_count = match tool_count {
                                Some(n) => n as usize,
                                None => state.tool_count + 1,
                            };
                            if turn_count.is_some() {
                                state.turn_count = turn_count;
                            }
                            proof {
                                mapped_commutes_with(before, delegate_content(), key@, *state);
                            }
                        },
                        None => {},
                    }
                    proof {
                        mapped_commutes(self.delegates@, delegate_content(), key@);
                    }
                    Effect::Changed { key }
                },
                RendererCmd::AdoptName { key, name } => {
                    proof {
                        mapped_commutes(before, delegate_content(), key@);
                    }
                    if session_label {
                        match self.delegates.get_mut(key.as_str()) {
                            Some(state) => {
                                state.name = name;
                                proof {
                                    mapped_commutes_with(
                                        before,
                                        delegate_content(),
                                        key@,
                                        *state,
                                    );
                                }
                            },
                            None => {},
                        }
                    }
                    proof {
                        mapped_commutes(self.delegates@, delegate_content(), key@);
                    }
                    Effect::Changed { key }
                },
                RendererCmd::Done { key, silent } => {
                    proof {
                        mapped_commutes(before, delegate_content(), key@);
                        lookup_after_without(self@.delegates, key@, key@);
                    }
                    let state = self.delegates.remove(key.as_str());
                    Effect::Finished { state, silent }
                },
                RendererCmd::PrintLine { text } => Effect::Print { text },
                RendererCmd::ClearNow => Effect::Clear,
            },
            RenderEvent::Tick => {
                if self.delegates.len() > 0 {
                    if self.is_tty {
                        self.spinner_idx = self.spinner_idx.wrapping_add(1);
                    }
                    Effect::Redraw
                } else {
                    Effect::Idle
                }
            },
            RenderEvent::Closed => Effect::Stop,
        }
    }

    /// For how many seconds each delegate has run.
    fn ages(&self) -> (ages: Vec<u64>)
        ensures
            ages@.len() == self@.delegates.len(),
            are_ages_of(self@.states(), ages@),
    {
        let mut ages: Vec<u64> = Vec::new();
        let mut i: usize = 0;
        while i < self.delegates.len()
            invariant
                i <= self.delegates@.len(),
                ages@.len() == i,
                are_ages_of(self@.states(), ages@),
            decreases self.delegates@.len() - i,
        {
            ages.push(seconds_since(&self.delegates.value(i).started_at));
            i = i + 1;
        }
        ages
    }

    /// The lines of the block, padded to the width of the terminal.
    fn compose_block(&self, ages: &Vec<u64>, width: usize) -> (lines: Vec<String>)
        requires
            ages@.len() == self@.delegates.len(),
        ensures
            texts(lines@) == self@.block(ages@, width),
    {
        let mut states: Vec<&DelegateState> = Vec::new();
        let mut i: usize = 0;
        while i < self.delegates.len()
            invariant
                i <= self.delegates@.len(),
                states@.len() == i,
                forall|k: int|
                    0 <= k < i ==> *(#[trigger] states@[k]) == self.delegates@[k].1,
            decreases self.delegates@.len() - i,
        {
            states.push(self.delegates.value(i));
            i = i + 1;
        }
        assert(models(states@) =~= self@.states());
        let block = compose_status_block_at(states.as_slice(), ages, self.spinner_idx, width);
        let ghost plain = texts(block@);
        let mut lines: Vec<String> = Vec::new();
        let mut j: usize = 0;
        while j < block.len()
            invariant
                j <= block@.len(),
                plain == texts(block@),
                texts(lines@) == plain.take(j as int).map_values(
                    |line: Seq<char>| padded(line, width),
                ),
            decreases block@.len() - j,
        {
            let ghost before = texts(lines@);
            let line = pad(&block[j], width);
            assert(plain[j as int] == block@[j as int]@);
            lines.push(line);
            assert(texts(lines@) =~= before.push(line@));
            j = j + 1;
            assert(texts(lines@) =~= plain.take(j as int).map_values(
                |line: Seq<char>| padded(line, width),
            ));
        }
        assert(plain.take(plain.len() as int) =~= plain);
        lines
    }

    /// Erases what is drawn, if anything is.
    fn clear(&mut self, actions: &mut Vec<RenderAction>)
        ensures
            final(self)@ == old(self)@.cleared(),
            action_models(final(actions)@) == action_models(old(actions)@) + clearing(
                old(self)@.lines_drawn,
            ),
    {
        let ghost before = action_models(actions@);
        if self.lines_drawn > 0 {
            actions.push(RenderAction::ClearLines(self.lines_drawn));
            self.lines_drawn = 0;
        }
        assert(action_models(actions@) =~= before + clearing(old(self)@.lines_drawn));
    }

    /// Erases what is drawn and draws the block anew.
    fn redraw_block(&mut self, ages: &Vec<u64>, width: usize, actions: &mut Vec<RenderAction>)
        requires
            ages@.len() == old(self)@.delegates.len(),
            old(self)@.lines_drawn > 0 ==> old(self)@.is_tty,
        ensures
            final(self)@ == old(self)@.redrawn(ages@, width),
            action_models(final(actions)@) == action_models(old(actions)@) + old(self)@.redrawing(
                ages@,
                width,
            ),
    {
        let ghost before = action_models(actions@);
        if self.is_tty {
            self.clear(actions);
            let ghost cleared = action_models(actions@);
            if self.delegates.len() > 0 {
                let lines = self.compose_block(ages, width);
                assert(self@.block(ages@, width) == old(self)@.block(ages@, width));
                self.lines_drawn = lines.len();
                actions.push(RenderAction::PrintBlock(lines));
                assert(action_models(actions@) =~= cleared.push(
                    ActionModel::PrintBlock(old(self)@.block(ages@, width)),
                ));
                assert(cleared.push(ActionModel::PrintBlock(old(self)@.block(ages@, width)))
                    =~= before + old(self)@.redrawing(ages@, width));
            }
        } else {
            assert(action_models(actions@) =~= before + old(self)@.redrawing(ages@, width));
        }
    }

    /// Draws the block anew if there are delegates to show.
    fn restore(&mut self, ages: &Vec<u64>, width: usize, actions: &mut Vec<RenderAction>)
        requires
            ages@.len() == old(self)@.delegates.len(),
            old(self)@.lines_drawn > 0 ==> old(self)@.is_tty,
        ensures
            final(self)@ == old(self)@.restored(ages@, width),
            action_models(final(actions)@) == action_models(old(actions)@) + old(self)@.restoring(
                ages@,
                width,
            ),
    {
        if self.delegates.len() > 0 {
            self.redraw_block(ages, width, actions);
        } else {
            assert(action_models(actions@) =~= action_models(old(actions)@) + old(self)@.restoring(
                ages@,
                width,
            ));
        }
    }

    /// Shows what became of the delegate under `key`.
    fn announce(
        &mut self,
        key: &str,
        ages: &Vec<u64>,
        width: usize,
        actions: &mut Vec<RenderAction>,
    )
        requires
            ages@.len() == old(self)@.delegates.len(),
            old(self)@.drawable(),
        ensures
            final(self)@ == old(self)@.redrawn(ages@, width),
            action_models(final(actions)@) == action_models(old(actions)@) + old(self)@.announcing(
                key@,
                ages@,
                width,
            ),
    {
        let ghost before = action_models(actions@);
        if self.is_tty {
            self.redraw_block(ages, width, actions);
            return;
        }
        match self.delegates.position(key) {
            Some(i) => {
                proof {
                    assert(key_at(self@.delegates, key@, i as int));
                    index_is_unique(self@.delegates, key@, i as int);
                }
                let line = compose_entry_line_at(
                    self.delegates.value(i),
                    ages[i],
                    self.spinner_idx,
                    0,
                );
                assert(line@ == self@.plain_line(key@, ages@));
                actions.push(RenderAction::PrintLine(line));
                assert(action_models(actions@) =~= before + seq![ActionModel::PrintLine(line@)]);
            },
            None => {
                proof {
                    if has_key(self@.delegates, key@) {
                        let i = index_of(self@.delegates, key@);
                        assert(key_at(self@.delegates, key@, i));
                        assert(key_at(self.delegates@, key@, i));
                    }
                }
                assert(action_models(actions@) =~= before + Seq::<ActionModel>::empty());
            },
        }
    }

    /// Decides what `effect` does to a terminal of that width.  `ages` tells for how many seconds
    /// each delegate has run, `finished_age` the same of the one that finished.
    pub fn render(
        &mut self,
        effect: Effect,
        ages: &Vec<u64>,
        finished_age: u64,
        width: usize,
    ) -> (actions: Vec<RenderAction>)
        requires
            ages@.len() == old(self)@.delegates.len(),
            old(self)@.drawable(),
        ensures
            final(self)@ == old(self)@.after(effect@, ages@, width),
            action_models(actions@) == old(self)@.actions(effect@, ages@, finished_age, width),
            old(self)@.settles(effect@) ==> final(self).wf(),
    {
        let mut actions: Vec<RenderAction> = Vec::new();
        let ghost m = self@;
        assert(action_models(actions@) =~= Seq::<ActionModel>::empty());
        match effect {
            Effect::Redraw => {
                self.redraw_block(ages, width, &mut actions);
            },
            Effect::Changed { key } => {
                self.announce(key.as_str(), ages, width, &mut actions);
            },
            Effect::Finished { state, silent } => {
                match state {
                    Some(state) => {
                        self.clear(&mut actions);
                        let ghost cleared = action_models(actions@);
                        if !silent {
                            let stats = done_text(&state, finished_age);
                            actions.push(RenderAction::PrintSummary { name: state.name, stats });
                        }
                        assert(action_models(actions@) =~= cleared + summary(
                            state@,
                            silent,
                            finished_age,
                        ));
                        self.restore(ages, width, &mut actions);
                    },
                    None => {
                        self.restore(ages, width, &mut actions);
                    },
                }
            },
            Effect::Print { text } => {
                self.clear(&mut actions);
                let ghost cleared = action_models(actions@);
                actions.push(RenderAction::PrintLine(text));
                assert(action_models(actions@) =~= cleared + seq![ActionModel::PrintLine(text@)]);
                self.restore(ages, width, &mut actions);
            },
            Effect::Clear => {
                self.clear(&mut actions);
                let ghost cleared = action_models(actions@);
                actions.push(RenderAction::Acknowledge);
                assert(action_models(actions@) =~= cleared + seq![ActionModel::Acknowledge]);
            },
            Effect::Stop => {
                self.clear(&mut actions);
                let ghost cleared = action_models(actions@);
                actions.push(RenderAction::Stop);
                assert(action_models(actions@) =~= cleared + seq![ActionModel::Stop]);
            },
            Effect::Idle => {},
        }
        proof {
            mapped_commutes_back(self.delegates@);
        }
        actions
    }

    /// Handles `event` as of now on a terminal of that width, and returns what is to be done to
    /// the terminal.
    pub fn step(&mut self, event: RenderEvent, session_label: bool, width: usize) -> (actions: Vec<
        RenderAction,
    >)
        requires
            old(self).wf(),
            old(self)@.can_count(event@),
        ensures
            final(self).wf(),
            exists|now: Instant, ages: Seq<u64>, finished_age: u64|
                handled(
                    old(self)@,
                    event@,
                    now,
                    session_label,
                    ages,
                    finished_age,
                    width,
                    final(self)@,
                    action_models(actions@),
                ),
            old(self)@.concerns_delegate(event@) ==> has_key(
                final(self)@.delegates,
                event_key(event@)->0,
            ),
            !old(self)@.is_tty && old(self)@.concerns_delegate(event@) ==> action_models(
                actions@,
            ).len() == 1 && action_models(actions@)[0] is PrintLine,
    {
        let now = Instant::now();
        let ghost m = self@;
        let ghost ev = event@;
        let effect = self.update(event, now, session_label);
        let ages = self.ages();
        let finished_age: u64 = match &effect {
            Effect::Finished { state: Some(state), .. } => seconds_since(&state.started_at),
            _ => 0,
        };
        let actions = self.render(effect, &ages, finished_age, width);
        proof {
            if m.concerns_delegate(ev) {
                delegate_is_there(m, ev, now, session_label);
                if !m.is_tty {
                    plain_output_tells_events(
                        m,
                        ev,
                        now,
                        session_label,
                        ages@,
                        finished_age,
                        width,
                    );
                }
            }
            assert(handled(
                m,
                ev,
                now,
                session_label,
                ages@,
                finished_age,
                width,
                self@,
                action_models(actions@),
            ));
        }
        actions
    }
}

/// Handling `event` in state `before` leads to state `after` and to `actions`, with the given
/// readings of the clock.
pub open spec fn handled(
    before: RendererModel,
    event: EventModel,
    now: Instant,
    session_label: bool,
    ages: Seq<u64>,
    finished_age: u64,
    width: usize,
    after: RendererModel,
    actions: Seq<ActionModel>,
) -> bool {
    let updated = before.updated(event, now, session_label);
    let effect = before.effect(event);
    &&& ages.len() == updated.delegates.len()
    &&& are_ages_of(updated.states(), ages)
    &&& match effect {
        EffectModel::Finished { state: Some(d), .. } => is_age_of(d.started_at, finished_age),
        _ => true,
    }
    &&& after == updated.after(effect, ages, width)
    &&& actions == updated.actions(effect, ages, finished_age, width)
}

proof fn mapped_commutes_back(s: Seq<(Seq<char>, DelegateState)>)
    requires
        distinct_keys(mapped(s, delegate_content())),
    ensures
        distinct_keys(s),
{
    let t = mapped(s, delegate_content());
    assert forall|i: int, j: int|
        0 <= i < s.len() && 0 <= j < s.len() && i != j implies (#[trigger] s[i]).0 != (
    #[trigger] s[j]).0 by {
        assert(t[i].0 != t[j].0);
    }
}

fn pad(line: &String, width: usize) -> (out: String)
    ensures
        out@ == padded(line@, width),
{
    let measured: usize = measure_text_width(line.as_str());
    let mut out = line.clone();
    if width > measured {
        let n: usize = width - measured;
        let mut i: usize = 0;
        while i < n
            invariant
                i <= n,
                out@ == line@ + Seq::new(i as nat, |k: int| ' '),
            decreases n - i,
        {
            out.push(' ');
            i = i + 1;
            assert(out@ =~= line@ + Seq::new(i as nat, |k: int| ' '));
        }
    }
    out
}

fn done_text(state: &DelegateState, elapsed: u64) -> (out: String)
    ensures
        out@ == done_stats(state@, elapsed),
{
    let turns = match state.turn_count {
        Some(turns) => {
            let mut out = " · ".to_string();
            out.append(to_decimal(turns as u64).as_str());
            out.append(" turns");
            out
        },
        None => String::new(),
    };
    let mut out = to_decimal(state.tool_count as u64);
    out.append(" tools");
    out.append(turns.as_str());
    out.append(" · ");
    out.append(to_decimal(elapsed).as_str());
    out.append("s");
    out
}

/// Handling an event leads from a valid state to a valid one.
pub proof fn validity_is_kept(
    m: RendererModel,
    event: EventModel,
    now: Instant,
    session_label: bool,
    ages: Seq<u64>,
    width: usize,
)
    requires
        m.valid(),
    ensures
        m.updated(event, now, session_label).after(m.effect(event), ages, width).valid(),
{
    let updated = m.updated(event, now, session_label);
    match event {
        EventModel::Register { key, name } => {
            if !has_key(m.delegates, key) {
                lookup_after_with(m.delegates, key, updated.delegates.last().1, key);
            }
        },
        EventModel::ToolEvent { key, tool_name, tool_count, turn_count } => {
            if let Some(d) = lookup(m.delegates, key) {
                lookup_after_with(
                    m.delegates,
                    key,
                    after_tool(d, tool_name, tool_count, turn_count),
                    key,
                );
            }
        },
        EventModel::AdoptName { key, name } => {
            if let Some(d) = lookup(m.delegates, key) {
                lookup_after_with(m.delegates, key, DelegateModel { name, ..d }, key);
            }
        },
        EventModel::Done { key, silent } => {
            lookup_after_without(m.delegates, key, key);
        },
        _ => {},
    }
}

/// How many lines of the block are at the bottom of the screen after `actions`, if there were
/// `drawn` before.  `None` means that the screen got mixed up: lines were erased that do not
/// belong to the block, or something was printed below it.
pub open spec fn screen(actions: Seq<ActionModel>, drawn: nat) -> Option<nat>
    decreases actions.len(),
{
    if actions.len() == 0 {
        Some(drawn)
    } else {
        match screen(actions.drop_last(), drawn) {
            None => None,
            Some(n) => match actions.last() {
                ActionModel::ClearLines(k) => if k == n {
                    Some(0)
                } else {
                    None
                },
                ActionModel::PrintBlock(lines) => if n == 0 {
                    Some(lines.len())
                } else {
                    None
                },
                _ => if n == 0 {
                    Some(0)
                } else {
                    None
                },
            },
        }
    }
}

proof fn screen_after(a: Seq<ActionModel>, b: Seq<ActionModel>, drawn: nat)
    ensures
        screen(a + b, drawn) == (match screen(a, drawn) {
            Some(n) => screen(b, n),
            None => None,
        }),
    decreases b.len(),
{
    if b.len() == 0 {
        assert(a + b =~= a);
    } else {
        screen_after(a, b.drop_last(), drawn);
        assert((a + b).drop_last() =~= a + b.drop_last());
    }
}

proof fn screen_of_one(a: ActionModel, drawn: nat)
    ensures
        screen(seq![a], drawn) == (match a {
            ActionModel::ClearLines(k) => if k == drawn {
                Some(0nat)
            } else {
                None
            },
            ActionModel::PrintBlock(lines) => if drawn == 0 {
                Some(lines.len())
            } else {
                None
            },
            _ => if drawn == 0 {
                Some(0nat)
            } else {
                None
            },
        }),
{
    assert(seq![a].drop_last() =~= Seq::<ActionModel>::empty());
    assert(screen(seq![a].drop_last(), drawn) == Some(drawn));
}

proof fn screen_clearing(drawn: usize)
    ensures
        screen(clearing(drawn), drawn as nat) == Some(0nat),
{
    if drawn > 0 {
        screen_of_one(ActionModel::ClearLines(drawn), drawn as nat);
    }
}

proof fn screen_redrawing(m: RendererModel, ages: Seq<u64>, width: usize)
    requires
        m.lines_drawn > 0 ==> m.is_tty,
        m.delegates.len() == ages.len(),
    ensures
        screen(m.redrawing(ages, width), m.lines_drawn as nat) == Some(
            m.redrawn(ages, width).lines_drawn as nat,
        ),
        screen(m.restoring(ages, width), m.lines_drawn as nat) == Some(
            m.restored(ages, width).lines_drawn as nat,
        ),
{
    screen_clearing(m.lines_drawn);
    if m.is_tty && m.delegates.len() > 0 {
        let a = ActionModel::PrintBlock(m.block(ages, width));
        screen_of_one(a, 0);
        screen_after(clearing(m.lines_drawn), seq![a], m.lines_drawn as nat);
        assert(clearing(m.lines_drawn).push(a) =~= clearing(m.lines_drawn) + seq![a]);
        assert(m.block(ages, width).len() <= 8);
    }
}

/// Whatever happens, the renderer erases exactly the lines that it drew, prints ordinary lines
/// only when the block is off the screen, and knows how many lines are on the screen afterwards.
pub proof fn screen_stays_in_order(
    m: RendererModel,
    event: EventModel,
    now: Instant,
    session_label: bool,
    ages: Seq<u64>,
    finished_age: u64,
    width: usize,
)
    requires
        m.valid(),
        ages.len() == m.updated(event, now, session_label).delegates.len(),
    ensures
        ({
            let updated = m.updated(event, now, session_label);
            let effect = m.effect(event);
            screen(updated.actions(effect, ages, finished_age, width), m.lines_drawn as nat)
                == Some(updated.after(effect, ages, width).lines_drawn as nat)
        }),
{
    let u = m.updated(event, now, session_label);
    let drawn = m.lines_drawn;
    assert(u.lines_drawn == drawn);
    screen_clearing(drawn);
    screen_redrawing(u, ages, width);
    screen_redrawing(u.cleared(), ages, width);
    let rest = u.cleared().restoring(ages, width);
    match m.effect(event) {
        EffectModel::Finished { state, silent } => {
            if let Some(d) = state {
                let line = summary(d, silent, finished_age);
                if !silent {
                    screen_of_one(line[0], 0);
                    assert(line =~= seq![line[0]]);
                }
                screen_after(clearing(drawn), line, drawn as nat);
                screen_after(clearing(drawn) + line, rest, drawn as nat);
            }
        },
        EffectModel::Print { text } => {
            let line = seq![ActionModel::PrintLine(text)];
            screen_of_one(ActionModel::PrintLine(text), 0);
            screen_after(clearing(drawn), line, drawn as nat);
            screen_after(clearing(drawn) + line, rest, drawn as nat);
        },
        EffectModel::Changed { key } => {
            screen_of_one(ActionModel::PrintLine(u.plain_line(key, ages)), 0);
        },
        EffectModel::Clear => {
            screen_of_one(ActionModel::Acknowledge, 0);
            screen_after(clearing(drawn), seq![ActionModel::Acknowledge], drawn as nat);
        },
        EffectModel::Stop => {
            screen_of_one(ActionModel::Stop, 0);
            screen_after(clearing(drawn), seq![ActionModel::Stop], drawn as nat);
        },
        _ => {},
    }
}

/// Without a terminal nothing is ever erased and no block is drawn: all that is printed are plain
/// lines.
pub proof fn plain_output_only_appends(
    m: RendererModel,
    event: EventModel,
    now: Instant,
    session_label: bool,
    ages: Seq<u64>,
    finished_age: u64,
    width: usize,
)
    requires
        m.valid(),
        !m.is_tty,
    ensures
        ({
            let actions = m.updated(event, now, session_label).actions(
                m.effect(event),
                ages,
                finished_age,
                width,
            );
            forall|i: int|
                0 <= i < actions.len() ==> !(#[trigger] actions[i] is ClearLines) && !(
                actions[i] is PrintBlock)
        }),
{
}

/// Without a terminal, a registration and a tool call of a registered delegate are each told on
/// one line, which shows the delegate as it is afterwards.
pub proof fn plain_output_tells_events(
    m: RendererModel,
    event: EventModel,
    now: Instant,
    session_label: bool,
    ages: Seq<u64>,
    finished_age: u64,
    width: usize,
)
    requires
        m.valid(),
        !m.is_tty,
        m.concerns_delegate(event),
    ensures
        ({
            let updated = m.updated(event, now, session_label);
            let key = event_key(event)->0;
            &&& has_key(updated.delegates, key)
            &&& updated.actions(m.effect(event), ages, finished_age, width) == seq![
                ActionModel::PrintLine(
                    entry_line(
                        lookup(updated.delegates, key)->0,
                        ages[index_of(updated.delegates, key)],
                        updated.spinner_idx,
                        0,
                    ),
                ),
            ]
        }),
{
    delegate_is_there(m, event, now, session_label);
}

/// A delegate that registers or calls a tool is there afterwards.
proof fn delegate_is_there(m: RendererModel, event: EventModel, now: Instant, session_label: bool)
    requires
        m.valid(),
        m.concerns_delegate(event),
    ensures
        has_key(m.updated(event, now, session_label).delegates, event_key(event)->0),
{
    let updated = m.updated(event, now, session_label);
    let key = event_key(event)->0;
    match event {
        EventModel::Register { name, .. } => {
            if !has_key(m.delegates, key) {
                assert(key_at(updated.delegates, key, m.delegates.len() as int));
            }
        },
        EventModel::ToolEvent { tool_name, tool_count, turn_count, .. } => {
            let d = lookup(m.delegates, key)->0;
            lookup_after_with(
                m.delegates,
                key,
                after_tool(d, tool_name, tool_count, turn_count),
                key,
            );
        },
        _ => {},
    }
}

/// An event about one delegate changes nothing about another.
pub proof fn other_delegates_are_untouched(
    m: RendererModel,
    event: EventModel,
    now: Instant,
    session_label: bool,
    other: Seq<char>,
)
    requires
        m.valid(),
        event_key(event) != Some(other),
    ensures
        lookup(m.updated(event, now, session_label).delegates, other) == lookup(
            m.delegates,
            other,
        ),
{
    match event {
        EventModel::Register { key, name } => {
            if !has_key(m.delegates, key) {
                let d = DelegateModel {
                    name,
                    current_tool: None,
                    tool_count: 0,
                    turn_count: None,
                    started_at: now,
                };
                lookup_after_with(m.delegates, key, d, other);
            }
        },
        EventModel::ToolEvent { key, tool_name, tool_count, turn_count } => {
            if let Some(d) = lookup(m.delegates, key) {
                lookup_after_with(
                    m.delegates,
                    key,
                    after_tool(d, tool_name, tool_count, turn_count),
                    other,
                );
            }
        },
        EventModel::AdoptName { key, name } => {
            if let Some(d) = lookup(m.delegates, key) {
                lookup_after_with(m.delegates, key, DelegateModel { name, ..d }, other);
            }
        },
        EventModel::Done { key, silent } => {
            lookup_after_without(m.delegates, key, other);
        },
        _ => {},
    }
}

/// The delegate that an event is about.
pub open spec fn event_key(event: EventModel) -> Option<Seq<char>> {
    match event {
        EventModel::Register { key, .. } => Some(key),
        EventModel::ToolEvent { key, .. } => Some(key),
        EventModel::AdoptName { key, .. } => Some(key),
        EventModel::Done { key, .. } => Some(key),
        _ => None,
    }
}

/// A delegate that registers is there afterwards, one that was there keeps its record, and one
/// that is done is gone.
pub proof fn registering_and_finishing(
    m: RendererModel,
    key: Seq<char>,
    name: Seq<char>,
    silent: bool,
    now: Instant,
    session_label: bool,
)
    requires
        m.valid(),
    ensures
        ({
            let after = m.updated(EventModel::Register { key, name }, now, session_label);
            &&& lookup(after.delegates, key) is Some
            &&& has_key(m.delegates, key) ==> after == m
            &&& !has_key(m.delegates, key) ==> after.delegates.drop_last() == m.delegates
                && lookup(after.delegates, key)->0.name == name
        }),
        lookup(
            m.updated(EventModel::Done { key, silent }, now, session_label).delegates,
            key,
        ) is None,
{
    let d = DelegateModel {
        name,
        current_tool: None,
        tool_count: 0,
        turn_count: None,
        started_at: now,
    };
    lookup_after_with(m.delegates, key, d, key);
    lookup_after_without(m.delegates, key, key);
    assert(m.delegates.push((key, d)).drop_last() =~= m.delegates);
}

// ── what events do to the records ────────────────────────────────────────────
/// A tool call of a registered delegate brings its record up to date: what the event reports
/// replaces what was known, whatever that was, and what it does not report stays, but for the
/// number of tool calls, which then goes up by one. Nothing else changes, and the delegates keep
/// their order.
pub proof fn tool_calls_are_recorded(
    m: RendererModel,
    key: Seq<char>,
    tool_name: Seq<char>,
    tool_count: Option<u32>,
    turn_count: Option<u32>,
    now: Instant,
    session_label: bool,
    i: int,
)
    requires
        m.valid(),
        key_at(m.delegates, key, i),
        tool_count is None ==> m.delegates[i].1.tool_count < usize::MAX,
    ensures
        ({
            let event = EventModel::ToolEvent { key, tool_name, tool_count, turn_count };
            let u = m.updated(event, now, session_label);
            let before = m.delegates[i].1;
            let after = u.delegates[i].1;
            &&& m.can_count(event)
            &&& u.delegates.len() == m.delegates.len()
            &&& u.delegates[i].0 == key
            &&& forall|j: int|
                0 <= j < m.delegates.len() && j != i ==> u.delegates[j] == #[trigger] m.delegates[j]
            &&& lookup(u.delegates, key) == Some(after)
            &&& turn_count is Some ==> after.turn_count == turn_count
            &&& turn_count is None ==> after.turn_count == before.turn_count
            &&& tool_count is Some ==> after.tool_count == tool_count->0
            &&& tool_count is None ==> after.tool_count == before.tool_count + 1
            &&& tool_name.len() > 0 ==> after.current_tool == Some(tool_name)
            &&& tool_name.len() == 0 ==> after.current_tool == before.current_tool
            &&& after.name == before.name
            &&& after.started_at == before.started_at
            &&& u.spinner_idx == m.spinner_idx
            &&& u.lines_drawn == m.lines_drawn
            &&& u.is_tty == m.is_tty
        }),
{
    index_is_unique(m.delegates, key, i);
    let d = m.delegates[i].1;
    let after = after_tool(d, tool_name, tool_count, turn_count);
    lookup_after_with(m.delegates, key, after, key);
}

/// A tool call of a delegate that is not registered is not recorded, and can always be counted;
/// counting fails only where a call without a number meets the largest number.
pub proof fn unknown_tool_calls_are_dropped(
    m: RendererModel,
    key: Seq<char>,
    tool_name: Seq<char>,
    tool_count: Option<u32>,
    turn_count: Option<u32>,
    now: Instant,
    session_label: bool,
)
    requires
        forall|i: int| 0 <= i < m.delegates.len() ==> (#[trigger] m.delegates[i]).0 != key,
    ensures
        ({
            let event = EventModel::ToolEvent { key, tool_name, tool_count, turn_count };
            &&& m.can_count(event)
            &&& m.updated(event, now, session_label) == m
        }),
{
    assert(!has_key(m.delegates, key));
}

/// The renderer's records after `events`, one after the other.
pub open spec fn replayed(m: RendererModel, events: Seq<EventModel>, now: Instant) -> RendererModel
    decreases events.len(),
{
    if events.len() == 0 {
        m
    } else {
        replayed(m, events.drop_last(), now).updated(events.last(), now, false)
    }
}

/// The number of turns that the last of `events` to report one for `key` reports, or `known` if
/// none does.
pub open spec fn last_reported_turns(
    events: Seq<EventModel>,
    key: Seq<char>,
    known: Option<u32>,
) -> Option<u32>
    decreases events.len(),
{
    if events.len() == 0 {
        known
    } else {
        match events.last() {
            EventModel::ToolEvent { key: k, turn_count: Some(turns), .. } => if k == key {
                Some(turns)
            } else {
                last_reported_turns(events.drop_last(), key, known)
            },
            _ => last_reported_turns(events.drop_last(), key, known),
        }
    }
}

/// However many events there are, a delegate that has not finished shows the number of turns that
/// was reported last, and has the name and the start that it had.
pub proof fn last_report_shows(
    m: RendererModel,
    events: Seq<EventModel>,
    key: Seq<char>,
    now: Instant,
)
    requires
        m.valid(),
        has_key(m.delegates, key),
        forall|i: int|
            0 <= i < events.len() ==> !(#[trigger] events[i] is Done && event_key(events[i]) == Some(
                key,
            )),
    ensures
        distinct_keys(replayed(m, events, now).delegates),
        has_key(replayed(m, events, now).delegates, key),
        lookup(replayed(m, events, now).delegates, key)->0.turn_count == last_reported_turns(
            events,
            key,
            lookup(m.delegates, key)->0.turn_count,
        ),
        lookup(replayed(m, events, now).delegates, key)->0.name == lookup(m.delegates, key)->0.name,
        lookup(replayed(m, events, now).delegates, key)->0.started_at == lookup(
            m.delegates,
            key,
        )->0.started_at,
    decreases events.len(),
{
    if events.len() > 0 {
        let rest = events.drop_last();
        assert forall|i: int| 0 <= i < rest.len() implies !(#[trigger] rest[i] is Done && event_key(
            rest[i],
        ) == Some(key)) by {
            assert(rest[i] == events[i]);
        }
        last_report_shows(m, rest, key, now);
        let before = replayed(m, rest, now).cleared();
        let event = events.last();
        validity_is_kept(before, event, now, false, Seq::empty(), 0);
        assert(events[events.len() - 1] == event);
        match event {
            EventModel::Register { key: k, name } => {
                registering_and_finishing(before, k, name, false, now, false);
                if k != key {
                    other_delegates_are_untouched(before, event, now, false, key);
                }
            },
            EventModel::ToolEvent { key: k, tool_name, tool_count, turn_count } => {
                if k != key {
                    other_delegates_are_untouched(before, event, now, false, key);
                } else {
                    let d = lookup(before.delegates, key)->0;
                    let after = after_tool(d, tool_name, tool_count, turn_count);
                    lookup_after_with(before.delegates, key, after, key);
                }
            },
            EventModel::AdoptName { key: k, name } => {},
            EventModel::Done { key: k, silent } => {
                other_delegates_are_untouched(before, event, now, false, key);
            },
            _ => {},
        }
        assert(replayed(m, events, now).delegates == before.updated(event, now, false).delegates);
    }
}

/// A delegate that only shows a session id takes the name that is offered, and nothing but its
/// name changes; any other delegate keeps its name.
pub proof fn names_are_adopted(
    m: RendererModel,
    key: Seq<char>,
    name: Seq<char>,
    now: Instant,
    i: int,
)
    requires
        m.valid(),
        key_at(m.delegates, key, i),
    ensures
        ({
            let u = m.updated(EventModel::AdoptName { key, name }, now, true);
            let before = m.delegates[i].1;
            let after = u.delegates[i].1;
            &&& u.delegates.len() == m.delegates.len()
            &&& u.delegates[i].0 == key
            &&& forall|j: int|
                0 <= j < m.delegates.len() && j != i ==> u.delegates[j] == #[trigger] m.delegates[j]
            &&& after.name == name
            &&& after.current_tool == before.current_tool
            &&& after.tool_count == before.tool_count
            &&& after.turn_count == before.turn_count
            &&& after.started_at == before.started_at
            &&& u.spinner_idx == m.spinner_idx
            &&& u.lines_drawn == m.lines_drawn
            &&& u.is_tty == m.is_tty
        }),
        m.updated(EventModel::AdoptName { key, name }, now, false) == m,
{
    index_is_unique(m.delegates, key, i);
}

/// A delegate starts last in the order, at that moment, with no tool call and no turns known.
pub proof fn delegates_start_afresh(
    m: RendererModel,
    key: Seq<char>,
    name: Seq<char>,
    now: Instant,
    session_label: bool,
)
    requires
        forall|i: int| 0 <= i < m.delegates.len() ==> (#[trigger] m.delegates[i]).0 != key,
    ensures
        ({
            let u = m.updated(EventModel::Register { key, name }, now, session_label);
            let (k, d) = u.delegates.last();
            &&& u.delegates.len() == m.delegates.len() + 1
            &&& u.delegates.drop_last() == m.delegates
            &&& k == key
            &&& d.name == name
            &&& d.current_tool is None
            &&& d.tool_count == 0
            &&& d.turn_count is None
            &&& d.started_at == now
            &&& u.spinner_idx == m.spinner_idx
            &&& u.lines_drawn == m.lines_drawn
            &&& u.is_tty == m.is_tty
        }),
{
    assert(!has_key(m.delegates, key));
    let u = m.updated(EventModel::Register { key, name }, now, session_label);
    assert(u.delegates.drop_last() =~= m.delegates);
}

/// A delegate that is done leaves; the others stay as they are, in their order.
pub proof fn finished_delegates_leave(
    m: RendererModel,
    key: Seq<char>,
    silent: bool,
    now: Instant,
    session_label: bool,
    i: int,
)
    requires
        m.valid(),
        key_at(m.delegates, key, i),
    ensures
        ({
            let u = m.updated(EventModel::Done { key, silent }, now, session_label);
            &&& u.delegates == m.delegates.take(i) + m.delegates.skip(i + 1)
            &&& u.spinner_idx == m.spinner_idx
            &&& u.lines_drawn == m.lines_drawn
            &&& u.is_tty == m.is_tty
        }),
{
    index_is_unique(m.delegates, key, i);
    let u = m.updated(EventModel::Done { key, silent }, now, session_label);
    assert(u.delegates =~= m.delegates.take(i) + m.delegates.skip(i + 1));
}

/// The spinner moves on by one on a terminal with delegates to show, from the largest number to
/// zero; nothing else does, and what concerns no delegate leaves the records alone.
pub proof fn only_ticks_turn_the_spinner(
    m: RendererModel,
    event: EventModel,
    now: Instant,
    session_label: bool,
)
    ensures
        ({
            let u = m.updated(EventModel::Tick, now, session_label);
            &&& m.is_tty && m.delegates.len() > 0 && m.spinner_idx < usize::MAX ==> u.spinner_idx
                == m.spinner_idx + 1
            &&& m.is_tty && m.delegates.len() > 0 && m.spinner_idx == usize::MAX ==> u.spinner_idx
                == 0
            &&& !m.is_tty || m.delegates.len() == 0 ==> u == m
            &&& u.delegates == m.delegates
            &&& u.lines_drawn == m.lines_drawn
            &&& u.is_tty == m.is_tty
        }),
        !(event is Tick) ==> m.updated(event, now, session_label).spinner_idx == m.spinner_idx,
        event is PrintLine || event is ClearNow || event is Closed ==> m.updated(
            event,
            now,
            session_label,
        ) == m,
{
}

// ── what is shown ────────────────────────────────────────────────────────────
/// Of `actions`, those that say something, that is all but the erasing and the drawing of blocks.
pub open spec fn messages(actions: Seq<ActionModel>) -> Seq<ActionModel> {
    actions.filter(|a: ActionModel| !(a is ClearLines) && !(a is PrintBlock))
}

proof fn messages_of_both(a: Seq<ActionModel>, b: Seq<ActionModel>)
    ensures
        messages(a + b) == messages(a) + messages(b),
{
    let p = |a: ActionModel| !(a is ClearLines) && !(a is PrintBlock);
    Seq::filter_distributes_over_add(a, b, p);
}

proof fn messages_of_one(a: ActionModel)
    ensures
        messages(seq![a]) == (if !(a is ClearLines) && !(a is PrintBlock) {
            seq![a]
        } else {
            Seq::empty()
        }),
{
    reveal(Seq::filter);
    let p = |a: ActionModel| !(a is ClearLines) && !(a is PrintBlock);
    assert(seq![a].drop_last() =~= Seq::<ActionModel>::empty());
    assert(Seq::<ActionModel>::empty().filter(p) =~= Seq::<ActionModel>::empty());
    assert(Seq::<ActionModel>::empty().push(a) =~= seq![a]);
}

proof fn drawing_says_nothing(m: RendererModel, ages: Seq<u64>, width: usize)
    ensures
        messages(clearing(m.lines_drawn)) == Seq::<ActionModel>::empty(),
        messages(m.redrawing(ages, width)) == Seq::<ActionModel>::empty(),
        messages(m.restoring(ages, width)) == Seq::<ActionModel>::empty(),
{
    reveal(Seq::filter);
    let c = clearing(m.lines_drawn);
    messages_of_one(ActionModel::ClearLines(m.lines_drawn));
    assert(messages(Seq::<ActionModel>::empty()) =~= Seq::<ActionModel>::empty());
    if m.is_tty && m.delegates.len() > 0 {
        let b = ActionModel::PrintBlock(m.block(ages, width));
        messages_of_one(b);
        messages_of_both(c, seq![b]);
        assert(c.push(b) =~= c + seq![b]);
    }
}

/// What is said for an event: an ordinary line as it was given, one summary for a delegate that
/// finished, with its name, its tool calls, its turns if known and its seconds, nothing for one
/// that finished silently or was not there, an answer to whoever asked for a cleared block, and
/// the end once there are no more commands. Other events say nothing on a terminal.
pub proof fn what_is_said(
    m: RendererModel,
    event: EventModel,
    now: Instant,
    session_label: bool,
    ages: Seq<u64>,
    finished_age: u64,
    width: usize,
)
    requires
        m.valid(),
    ensures
        ({
            let said = messages(
                m.updated(event, now, session_label).actions(
                    m.effect(event),
                    ages,
                    finished_age,
                    width,
                ),
            );
            match event {
                EventModel::PrintLine { text } => said == seq![ActionModel::PrintLine(text)],
                EventModel::ClearNow => said == seq![ActionModel::Acknowledge],
                EventModel::Closed => said == seq![ActionModel::Stop],
                EventModel::Tick => said.len() == 0,
                EventModel::Done { key, silent } => if silent || !has_key(m.delegates, key) {
                    said.len() == 0
                } else {
                    let d = lookup(m.delegates, key)->0;
                    let tools = decimal(d.tool_count as nat) + " tools"@;
                    let seconds = " · "@ + decimal(finished_age as nat) + "s"@;
                    &&& said.len() == 1
                    &&& said[0] is PrintSummary
                    &&& said[0]->name == d.name
                    &&& d.turn_count is None ==> said[0]->stats == tools + seconds
                    &&& d.turn_count is Some ==> said[0]->stats == tools + (" · "@ + decimal(
                        d.turn_count->0 as nat,
                    ) + " turns"@) + seconds
                },
                _ => m.is_tty ==> said.len() == 0,
            }
        }),
{
    let u = m.updated(event, now, session_label);
    drawing_says_nothing(u, ages, width);
    drawing_says_nothing(u.cleared(), ages, width);
    assert(messages(Seq::<ActionModel>::empty()) =~= Seq::<ActionModel>::empty()) by {
        reveal(Seq::filter);
    }
    let c = clearing(u.lines_drawn);
    let rest = u.cleared().restoring(ages, width);
    match event {
        EventModel::PrintLine { text } => {
            let line = seq![ActionModel::PrintLine(text)];
            messages_of_one(ActionModel::PrintLine(text));
            messages_of_both(c, line);
            messages_of_both(c + line, rest);
            assert(messages(c + line + rest) =~= line);
        },
        EventModel::ClearNow => {
            messages_of_one(ActionModel::Acknowledge);
            messages_of_both(c, seq![ActionModel::Acknowledge]);
        },
        EventModel::Closed => {
            messages_of_one(ActionModel::Stop);
            messages_of_both(c, seq![ActionModel::Stop]);
        },
        EventModel::Done { key, silent } => {
            if let Some(d) = lookup(m.delegates, key) {
                let line = summary(d, silent, finished_age);
                messages_of_both(c, line);
                messages_of_both(c + line, rest);
                assert(messages(c + line + rest) =~= messages(line));
                if !silent {
                    messages_of_one(line[0]);
                    let tools = decimal(d.tool_count as nat) + " tools"@;
                    let seconds = " · "@ + decimal(finished_age as nat) + "s"@;
                    assert(done_stats(d, finished_age) =~= tools + done_turns(d.turn_count)
                        + seconds);
                    assert(d.turn_count is None ==> tools + done_turns(d.turn_count) =~= tools);
                }
            }
        },
        _ => {},
    }
}

/// On a terminal, the block is what is drawn last and stays on the screen while there are
/// delegates, unless it was to be cleared; without delegates no block is drawn. What was on the
/// screen is erased before anything else is done, and only that.
pub proof fn block_is_drawn_last(
    m: RendererModel,
    event: EventModel,
    now: Instant,
    session_label: bool,
    ages: Seq<u64>,
    finished_age: u64,
    width: usize,
)
    requires
        m.valid(),
        m.is_tty,
    ensures
        ({
            let u = m.updated(event, now, session_label);
            let actions = u.actions(m.effect(event), ages, finished_age, width);
            let shows = u.delegates.len() > 0 && !(event is ClearNow) && !(event is Closed);
            &&& shows ==> actions.len() > 0 && actions.last() == ActionModel::PrintBlock(
                u.block(ages, width),
            )
            &&& forall|i: int|
                0 <= i < actions.len() && #[trigger] actions[i] is PrintBlock ==> shows && i
                    == actions.len() - 1
            &&& m.lines_drawn > 0 ==> actions.len() > 0 && actions[0] == ActionModel::ClearLines(
                m.lines_drawn,
            )
            &&& forall|i: int|
                0 <= i < actions.len() && #[trigger] actions[i] is ClearLines ==> i == 0
                    && m.lines_drawn > 0
        }),
{
    if event is Done {
        let key = event_key(event)->0;
        lookup_after_without(m.delegates, key, key);
    }
}

/// The lines of the block are those of the delegates in their order, each followed by as many
/// spaces as the terminal has columns left.
pub proof fn block_fills_the_width(m: RendererModel, ages: Seq<u64>, width: usize, i: int)
    requires
        0 <= i < m.block(ages, width).len(),
    ensures
        ({
            let states = Seq::new(m.delegates.len(), |j: int| m.delegates[j].1);
            let lines = status_block(states, ages, m.spinner_idx, width);
            let line = m.block(ages, width)[i];
            &&& m.block(ages, width).len() == lines.len()
            &&& line.take(lines[i].len() as int) == lines[i]
            &&& forall|j: int| lines[i].len() <= j < line.len() ==> #[trigger] line[j] == ' '
            &&& text_width(lines[i]) < width ==> line.len() - lines[i].len() == width - text_width(
                lines[i],
            )
            &&& text_width(lines[i]) >= width ==> line == lines[i]
        }),
{
    let states = Seq::new(m.delegates.len(), |j: int| m.delegates[j].1);
    assert(states =~= m.states());
    let lines = status_block(states, ages, m.spinner_idx, width);
    assert(m.block(ages, width)[i].take(lines[i].len() as int) =~= lines[i]);
}

/// Commands hold what they were made of.
pub proof fn commands_hold_what_they_say(
    key: String,
    text: String,
    tool_count: Option<u32>,
    turn_count: Option<u32>,
    silent: bool,
)
    ensures
        (RendererCmd::Register { key, name: text })@ == (EventModel::Register {
            key: key@,
            name: text@,
        }),
        (RendererCmd::ToolEvent { key, tool_name: text, tool_count, turn_count })@ == (
        EventModel::ToolEvent { key: key@, tool_name: text@, tool_count, turn_count }),
        (RendererCmd::AdoptName { key, name: text })@ == (EventModel::AdoptName {
            key: key@,
            name: text@,
        }),
        (RendererCmd::Done { key, silent })@ == (EventModel::Done { key: key@, silent }),
        (RendererCmd::PrintLine { text })@ == (EventModel::PrintLine { text: text@ }),
{
}

/// What a tool call reports is what the renderer knows of the delegate afterwards, whatever was
/// reported before; what it does not report stays as it was, but for the number of tool calls,
/// which goes up by one.
pub proof fn reports_replace_what_was_known(
    before: Renderer,
    key: String,
    tool_name: String,
    tool_count: Option<u32>,
    turn_count: Option<u32>,
    now: Instant,
    session_label: bool,
    effect: Effect,
    after: Renderer,
)
    requires
        before.wf(),
        has_key(before@.delegates, key@),
        tool_count is None ==> lookup(before@.delegates, key@)->0.tool_count < usize::MAX,
        exists|r: &mut Renderer|
            *r == before && *final(r) == after && #[trigger] call_ensures(
                Renderer::update,
                (
                    r,
                    RenderEvent::Command(
                        RendererCmd::ToolEvent { key, tool_name, tool_count, turn_count },
                    ),
                    now,
                    session_label,
                ),
                effect,
            ),
    ensures
        has_key(after@.delegates, key@),
        ({
            let old_state = lookup(before@.delegates, key@)->0;
            let new_state = lookup(after@.delegates, key@)->0;
            &&& turn_count is Some ==> new_state.turn_count == turn_count
            &&& turn_count is None ==> new_state.turn_count == old_state.turn_count
            &&& tool_count is Some ==> new_state.tool_count == tool_count->0
            &&& tool_count is None ==> new_state.tool_count == old_state.tool_count + 1
            &&& tool_name@.len() > 0 ==> new_state.current_tool == Some(tool_name@)
            &&& tool_name@.len() == 0 ==> new_state.current_tool == old_state.current_tool
            &&& new_state.name == old_state.name
            &&& new_state.started_at == old_state.started_at
        }),
{
    before.state_is_valid();
    let i = index_of(before@.delegates, key@);
    assert(key_at(before@.delegates, key@, i));
    tool_calls_are_recorded(
        before@,
        key@,
        tool_name@,
        tool_count,
        turn_count,
        now,
        session_label,
        i,
    );
}

/// Whatever happens to a renderer, it says what is to be said and nothing else, erases exactly what
/// it drew, and knows what is on the screen afterwards.
pub proof fn steps_say_what_happened(
    before: Renderer,
    event: RenderEvent,
    session_label: bool,
    width: usize,
    actions: Vec<RenderAction>,
    after: Renderer,
)
    requires
        before.wf(),
        exists|r: &mut Renderer|
            *r == before && *final(r) == after && #[trigger] call_ensures(
                Renderer::step,
                (r, event, session_label, width),
                actions,
            ),
    ensures
        screen(action_models(actions@), before@.lines_drawn as nat) == Some(
            after@.lines_drawn as nat,
        ),
        ({
            let said = messages(action_models(actions@));
            match event@ {
                EventModel::PrintLine { text } => said == seq![ActionModel::PrintLine(text)],
                EventModel::ClearNow => said == seq![ActionModel::Acknowledge],
                EventModel::Closed => said == seq![ActionModel::Stop],
                EventModel::Tick => said.len() == 0,
                EventModel::Done { key, silent } => if silent || !has_key(before@.delegates, key) {
                    said.len() == 0
                } else {
                    &&& said.len() == 1
                    &&& said[0] is PrintSummary
                    &&& said[0]->name == lookup(before@.delegates, key)->0.name
                },
                _ => before@.is_tty ==> said.len() == 0,
            }
        }),
        event@ is ClearNow || event@ is Closed ==> after@.lines_drawn == 0,
{
    before.state_is_valid();
    let (now, ages, finished_age) = choose|now: Instant, ages: Seq<u64>, finished_age: u64|
        handled(
            before@,
            event@,
            now,
            session_label,
            ages,
            finished_age,
            width,
            after@,
            action_models(actions@),
        );
    what_is_said(before@, event@, now, session_label, ages, finished_age, width);
    screen_stays_in_order(before@, event@, now, session_label, ages, finished_age, width);
}

/// A tool call that a renderer handles is on record afterwards as it was reported.
pub proof fn steps_record_reports(
    before: Renderer,
    event: RenderEvent,
    session_label: bool,
    width: usize,
    actions: Vec<RenderAction>,
    after: Renderer,
)
    requires
        before.wf(),
        before@.can_count(event@),
        exists|r: &mut Renderer|
            *r == before && *final(r) == after && #[trigger] call_ensures(
                Renderer::step,
                (r, event, session_label, width),
                actions,
            ),
    ensures
        after@.is_tty == before@.is_tty,
        match event@ {
            EventModel::Register { key, name } => {
                &&& has_key(after@.delegates, key)
                &&& !has_key(before@.delegates, key) ==> lookup(after@.delegates, key)->0.name
                    == name
                &&& has_key(before@.delegates, key) ==> lookup(after@.delegates, key) == lookup(
                    before@.delegates,
                    key,
                )
            },
            EventModel::ToolEvent { key, tool_name, tool_count, turn_count } => has_key(
                before@.delegates,
                key,
            ) ==> {
                let d = lookup(after@.delegates, key)->0;
                &&& has_key(after@.delegates, key)
                &&& turn_count is Some ==> d.turn_count == turn_count
                &&& tool_count is Some ==> d.tool_count == tool_count->0
                &&& tool_name.len() > 0 ==> d.current_tool == Some(tool_name)
            },
            EventModel::AdoptName { key, name } => has_key(before@.delegates, key) ==> {
                &&& session_label ==> lookup(after@.delegates, key)->0.name == name
                &&& !session_label ==> lookup(after@.delegates, key) == lookup(
                    before@.delegates,
                    key,
                )
            },
            EventModel::Done { key, .. } => !has_key(after@.delegates, key),
            _ => after@.delegates == before@.delegates,
        },
{
    before.state_is_valid();
    let m = before@;
    let (now, ages, finished_age) = choose|now: Instant, ages: Seq<u64>, finished_age: u64|
        handled(
            before@,
            event@,
            now,
            session_label,
            ages,
            finished_age,
            width,
            after@,
            action_models(actions@),
        );
    match event@ {
        EventModel::Register { key, name } => {
            registering_and_finishing(m, key, name, false, now, session_label);
        },
        EventModel::ToolEvent { key, tool_name, tool_count, turn_count } => {
            if has_key(m.delegates, key) {
                let i = index_of(m.delegates, key);
                assert(key_at(m.delegates, key, i));
                index_is_unique(m.delegates, key, i);
                tool_calls_are_recorded(
                    m,
                    key,
                    tool_name,
                    tool_count,
                    turn_count,
                    now,
                    session_label,
                    i,
                );
            }
        },
        EventModel::AdoptName { key, name } => {
            if has_key(m.delegates, key) {
                let d = lookup(m.delegates, key)->0;
                lookup_after_with(m.delegates, key, DelegateModel { name, ..d }, key);
            }
        },
        EventModel::Done { key, silent } => {
            lookup_after_without(m.delegates, key, key);
        },
        _ => {},
    }
}

/// The columns to draw on are those of the terminal, or eighty where they are unknown.
pub proof fn unknown_terminals_have_eighty_columns(columns: Option<u16>, width: usize)
    requires
        call_ensures(drawing_width, (columns,), width),
    ensures
        columns is Some ==> width == columns->0,
        columns is None ==> width == 80,
{
}

/// Events and actions hold what they were made of.
pub proof fn views_hold_what_they_say(cmd: RendererCmd, text: String, stats: String, n: usize)
    ensures
        RenderEvent::Command(cmd)@ == cmd@,
        RenderEvent::Tick@ is Tick,
        RenderEvent::Closed@ is Closed,
        RendererCmd::ClearNow@ is ClearNow,
        RenderAction::ClearLines(n)@ == ActionModel::ClearLines(n),
        RenderAction::PrintLine(text)@ == ActionModel::PrintLine(text@),
        (RenderAction::PrintSummary { name: text, stats })@ == (ActionModel::PrintSummary {
            name: text@,
            stats: stats@,
        }),
        RenderAction::Acknowledge@ is Acknowledge,
        RenderAction::Stop@ is Stop,
{
}

/// The name that shows for a delegate is the one on record, and none shows for others.
pub proof fn labels_are_names(renderer: &Renderer, key: &str, label: Option<String>)
    requires
        renderer.wf(),
        call_ensures(Renderer::label, (renderer, key), label),
    ensures
        label is Some == has_key(renderer@.delegates, key@),
        label is Some ==> label->0@ == lookup(renderer@.delegates, key@)->0.name,
{
}

} // verus!
