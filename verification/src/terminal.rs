//! Terminals that run commands on behalf of an agent.
//!
//! The manager numbers the terminals, captures their output under a cap, and keeps the output of
//! released terminals so that references to them can still be replaced by text.

use vstd::prelude::*;
use vstd::utf8::*;

use crate::decimal::{
    decimal, decimal_denotes, parsed_u64, parsing_undoes_decimal, signed_decimal, to_decimal,
    to_signed_decimal,
};
use crate::ordered_map::{
    distinct_keys, has_key, index_is_unique, index_of, key_at, lookup, lookup_after_with, lookup_after_without,
    mapped, mapped_commutes, mapped_commutes_with, with, without, OrderedMap,
};
use crate::terminal_buffer::{
    capped, capped_is_short_suffix, captured_text, end_of_text_is_shown, output_encodes_data,
    printed_text_is_shown, utf8_lossy, TerminalBuffer,
};

verus! {

/// Output cap of a terminal for which the agent does not request one.
pub const DEFAULT_OUTPUT_BYTE_LIMIT: usize = 1048576;

/// Number of released terminals whose output is kept.
pub const RETAINED_CAP: usize = 256;

/// How a command ended.
pub struct TerminalExitStatus {
    pub exit_code: Option<u32>,
    pub signal: Option<String>,
}

/// The contents of a [`TerminalExitStatus`].
pub struct ExitModel {
    pub exit_code: Option<u32>,
    pub signal: Option<Seq<char>>,
}

impl View for TerminalExitStatus {
    type V = ExitModel;

    open spec fn view(&self) -> ExitModel {
        ExitModel {
            exit_code: self.exit_code,
            signal: match self.signal {
                Some(s) => Some(s@),
                None => None,
            },
        }
    }
}

impl TerminalExitStatus {
    fn duplicate(&self) -> (copy: Self)
        ensures
            copy@ == self@,
    {
        TerminalExitStatus {
            exit_code: self.exit_code,
            signal: match &self.signal {
                Some(s) => Some(s.clone()),
                None => None,
            },
        }
    }
}

/// What the operating system reports of a process that ended.
pub struct ProcessStatus {
    pub code: Option<i32>,
    pub signal: Option<i32>,
}

/// `code` read as an unsigned number of the same width.
pub open spec fn unsigned_code(code: i32) -> u32 {
    if code >= 0 {
        code as u32
    } else {
        (code + 0x1_0000_0000) as u32
    }
}

/// The exit status reported for a process; `None` stands for a process that could not be waited
/// for.
pub fn to_exit_status(status: Option<ProcessStatus>) -> (exit: TerminalExitStatus)
    ensures
        exit@ == (match status {
            Some(s) => ExitModel {
                exit_code: match s.code {
                    Some(c) => Some(unsigned_code(c)),
                    None => None,
                },
                signal: match s.signal {
                    Some(n) => Some(signed_decimal(n as int)),
                    None => None,
                },
            },
            None => ExitModel { exit_code: None, signal: None },
        }),
{
    match status {
        None => TerminalExitStatus { exit_code: None, signal: None },
        Some(s) => {
            let exit_code = match s.code {
                Some(c) => {
                    let code: u32 = c as u32;
                    assert(c >= 0 ==> c as u32 == c) by (bit_vector);
                    assert(c < 0 ==> c as u32 == c + 0x1_0000_0000) by (bit_vector);
                    Some(code)
                },
                None => None,
            };
            let signal = match s.signal {
                Some(n) => Some(to_signed_decimal(n)),
                None => None,
            };
            TerminalExitStatus { exit_code, signal }
        },
    }
}

/// A terminal whose command was started.
pub struct TerminalSession {
    pub buffer: TerminalBuffer,
    pub exit_status: Option<TerminalExitStatus>,
}

/// The contents of a [`TerminalSession`].
pub struct SessionModel {
    pub data: Seq<u8>,
    pub truncated: bool,
    pub byte_limit: usize,
    pub exit_status: Option<ExitModel>,
}

impl View for TerminalSession {
    type V = SessionModel;

    open spec fn view(&self) -> SessionModel {
        SessionModel {
            data: self.buffer.data@,
            truncated: self.buffer.truncated,
            byte_limit: self.buffer.byte_limit,
            exit_status: match self.exit_status {
                Some(e) => Some(e@),
                None => None,
            },
        }
    }
}

/// The output of a terminal and how its command ended.
pub struct TerminalOutputResponse {
    pub output: String,
    pub truncated: bool,
    pub exit_status: Option<TerminalExitStatus>,
}

/// The last `n` entries of `s`.
pub open spec fn latest<V>(s: Seq<V>, n: nat) -> Seq<V> {
    if s.len() > n {
        s.skip(s.len() - n)
    } else {
        s
    }
}

/// The output of released terminals, oldest first.
pub struct RetainedOutputs {
    entries: OrderedMap<String>,
}

/// Contents of a string, as a function.
pub open spec fn content() -> spec_fn(String) -> Seq<char> {
    |s: String| s@
}

impl View for RetainedOutputs {
    type V = Seq<(Seq<char>, Seq<char>)>;

    closed spec fn view(&self) -> Seq<(Seq<char>, Seq<char>)> {
        mapped(self.entries@, content())
    }
}

impl RetainedOutputs {
    /// Every terminal occurs once, and there are at most [`RETAINED_CAP`].
    pub closed spec fn wf(&self) -> bool {
        &&& self.entries.wf()
        &&& self.entries@.len() <= RETAINED_CAP
    }

    pub fn new() -> (retained: Self)
        ensures
            retained.wf(),
            retained@ == Seq::<(Seq<char>, Seq<char>)>::empty(),
    {
        let retained = RetainedOutputs { entries: OrderedMap::new() };
        assert(retained@ =~= Seq::<(Seq<char>, Seq<char>)>::empty());
        retained
    }

    /// Keeps `output` for `id`; beyond the cap the oldest output goes.
    pub fn insert(&mut self, id: String, output: String)
        requires
            old(self).wf(),
        ensures
            final(self).wf(),
            final(self)@ == latest(with(old(self)@, id@, output@), RETAINED_CAP as nat),
            final(self)@.len() <= RETAINED_CAP,
    {
        proof {
            mapped_commutes_with(self.entries@, content(), id@, output);
        }
        let ghost before = self.entries@;
        let ghost grown = with(before, id@, output);
        self.entries.insert(id, output);
        if self.entries.len() > RETAINED_CAP {
            self.entries.drop_oldest();
            assert(self@ =~= latest(mapped(grown, content()), RETAINED_CAP as nat));
        }
    }

    /// The output kept for `id`.
    pub fn get(&self, id: &str) -> (output: Option<String>)
        requires
            self.wf(),
        ensures
            match output {
                Some(s) => lookup(self@, id@) == Some(s@),
                None => lookup(self@, id@) is None,
            },
    {
        proof {
            mapped_commutes(self.entries@, content(), id@);
        }
        match self.entries.get(id) {
            Some(s) => Some(s.clone()),
            None => None,
        }
    }
}

/// What an agent asks to run.
pub struct CreateTerminalRequest {
    pub command: String,
    pub args: Vec<String>,
    pub env: Vec<(String, String)>,
    pub cwd: Option<String>,
    pub output_byte_limit: Option<u64>,
}

/// A process to start for a request.
pub struct LaunchPlan {
    pub command: String,
    pub args: Vec<String>,
    pub env: Vec<(String, String)>,
    pub cwd: String,
    pub byte_limit: usize,
}

/// The output cap for a request: what it asks for, at least one byte, else the default.
pub open spec fn requested_limit(asked: Option<u64>) -> usize {
    match asked {
        Some(n) => if n as usize == 0 {
            1
        } else {
            n as usize
        },
        None => DEFAULT_OUTPUT_BYTE_LIMIT,
    }
}

/// A piece of a tool call's content; what is not a terminal is carried through as it is.
pub enum ToolCallContent<T> {
    Terminal { terminal_id: String },
    Text(String),
    Other(T),
}

/// How far a terminal's command is.
pub enum ExitWait {
    /// There is no such terminal.
    Unknown,
    /// The command has not ended.
    Running,
    Exited(TerminalExitStatus),
}

/// The state of a [`TerminalManager`].
pub struct ManagerModel {
    pub sessions: Seq<(Seq<char>, SessionModel)>,
    pub retained: Seq<(Seq<char>, Seq<char>)>,
    pub next_id: u64,
    pub work_dir: Seq<char>,
}

/// The id of terminal number `n`.
pub open spec fn terminal_id(n: u64) -> Seq<char> {
    "term-"@ + decimal(n as nat)
}

/// `id` is the id of a terminal with a number below `n`.
pub open spec fn numbered_below(id: Seq<char>, n: u64) -> bool {
    exists|k: u64| k < n && id == #[trigger] terminal_id(k)
}

impl ManagerModel {
    /// The state in which a terminal with that output cap was added.
    pub open spec fn created(self, byte_limit: usize) -> ManagerModel {
        ManagerModel {
            sessions: with(
                self.sessions,
                terminal_id(self.next_id),
                SessionModel {
                    data: Seq::empty(),
                    truncated: false,
                    byte_limit,
                    exit_status: None,
                },
            ),
            next_id: self.next_id.wrapping_add(1),
            ..self
        }
    }

    /// The state in which `bytes` were printed to terminal `id`.
    pub open spec fn printed(self, id: Seq<char>, bytes: Seq<u8>) -> ManagerModel {
        match lookup(self.sessions, id) {
            Some(s) => ManagerModel {
                sessions: with(
                    self.sessions,
                    id,
                    SessionModel {
                        data: capped(s.data + bytes, s.byte_limit as nat),
                        truncated: s.truncated || s.data.len() + bytes.len() > s.byte_limit,
                        ..s
                    },
                ),
                ..self
            },
            None => self,
        }
    }

    /// The state in which the command of terminal `id` ended.
    pub open spec fn exited(self, id: Seq<char>, exit: ExitModel) -> ManagerModel {
        match lookup(self.sessions, id) {
            Some(s) => ManagerModel {
                sessions: with(self.sessions, id, SessionModel { exit_status: Some(exit), ..s }),
                ..self
            },
            None => self,
        }
    }

    /// The state in which terminal `id` was released.
    pub open spec fn released(self, id: Seq<char>) -> ManagerModel {
        match lookup(self.sessions, id) {
            Some(s) => ManagerModel {
                sessions: without(self.sessions, id),
                retained: latest(
                    with(self.retained, id, captured_text(s.data)),
                    RETAINED_CAP as nat,
                ),
                ..self
            },
            None => self,
        }
    }

    /// Every terminal's id carries a number that was already given out.
    pub open spec fn numbered(self) -> bool {
        forall|i: int|
            0 <= i < self.sessions.len() ==> numbered_below(
                (#[trigger] self.sessions[i]).0,
                self.next_id,
            )
    }

    /// No terminal holds more output than its cap allows.
    pub open spec fn within_caps(self) -> bool {
        forall|i: int|
            0 <= i < self.sessions.len() ==> (#[trigger] self.sessions[i]).1.data.len()
                <= self.sessions[i].1.byte_limit
    }

    /// What always holds: no id is in use twice, and the kept outputs are under their cap.
    pub open spec fn valid(self) -> bool {
        &&& distinct_keys(self.sessions)
        &&& distinct_keys(self.retained)
        &&& self.retained.len() <= RETAINED_CAP
    }

    /// The text that stands for terminal `id`: its output, or the output kept after release.
    pub open spec fn resolved(self, id: Seq<char>) -> Option<Seq<char>> {
        match lookup(self.sessions, id) {
            Some(s) => Some(captured_text(s.data)),
            None => lookup(self.retained, id),
        }
    }
}

/// Runs terminals and keeps what they printed.
pub struct TerminalManager {
    sessions: OrderedMap<TerminalSession>,
    retained: RetainedOutputs,
    next_id: u64,
    work_dir: String,
}

/// Contents of a session, as a function.
pub open spec fn session_content() -> spec_fn(TerminalSession) -> SessionModel {
    |s: TerminalSession| s@
}

impl View for TerminalManager {
    type V = ManagerModel;

    closed spec fn view(&self) -> ManagerModel {
        ManagerModel {
            sessions: mapped(self.sessions@, session_content()),
            retained: self.retained@,
            next_id: self.next_id,
            work_dir: self.work_dir@,
        }
    }
}

impl TerminalManager {
    /// No id is in use twice, and the kept outputs are under their cap.
    pub closed spec fn wf(&self) -> bool {
        &&& self.sessions.wf()
        &&& self.retained.wf()
    }

    /// A well-formed manager is in a valid state.
    pub proof fn state_is_valid(&self)
        requires
            self.wf(),
        ensures
            self@.valid(),
    {
        mapped_commutes(self.sessions@, session_content(), Seq::empty());
        mapped_commutes(self.retained.entries@, content(), Seq::empty());
    }

    pub fn new(work_dir: String) -> (manager: Self)
        ensures
            manager.wf(),
            manager@ == (ManagerModel {
                sessions: Seq::empty(),
                retained: Seq::empty(),
                next_id: 0,
                work_dir: work_dir@,
            }),
    {
        let manager = TerminalManager {
            sessions: OrderedMap::new(),
            retained: RetainedOutputs::new(),
            next_id: 0,
            work_dir,
        };
        assert(manager@.sessions =~= Seq::<(Seq<char>, SessionModel)>::empty());
        manager
    }

    /// The process to start for `request`: in its directory, else the manager's, with its output
    /// cap.
    pub fn plan(&self, request: CreateTerminalRequest) -> (plan: LaunchPlan)
        ensures
            plan.command == request.command,
            plan.args == request.args,
            plan.env == request.env,
            plan.cwd@ == (match request.cwd {
                Some(dir) => dir@,
                None => self@.work_dir,
            }),
            plan.byte_limit == requested_limit(request.output_byte_limit),
            plan.byte_limit >= 1,
    {
        let cwd = match request.cwd {
            Some(dir) => dir,
            None => self.work_dir.clone(),
        };
        let asked: usize = match request.output_byte_limit {
            Some(n) => n as usize,
            None => DEFAULT_OUTPUT_BYTE_LIMIT,
        };
        let byte_limit: usize = if asked == 0 { 1 } else { asked };
        LaunchPlan {
            command: request.command,
            args: request.args,
            env: request.env,
            cwd,
            byte_limit,
        }
    }

    /// Adds the terminal whose process was started for `plan`, and returns its id.
    pub fn create(&mut self, plan: &LaunchPlan) -> (id: String)
        requires
            old(self).wf(),
        ensures
            final(self).wf(),
            id@ == terminal_id(old(self)@.next_id),
            final(self)@ == old(self)@.created(plan.byte_limit),
    {
        let mut id = String::new();
        id.append("term-");
        let number = to_decimal(self.next_id);
        id.append(number.as_str());
        assert(id@ =~= terminal_id(self.next_id));
        let session = TerminalSession {
            buffer: TerminalBuffer {
                data: Vec::new(),
                truncated: false,
                byte_limit: plan.byte_limit,
            },
            exit_status: None,
        };
        proof {
            mapped_commutes_with(self.sessions@, session_content(), id@, session);
            assert(session@.data =~= Seq::<u8>::empty());
        }
        self.next_id = self.next_id.wrapping_add(1);
        self.sessions.insert(id.clone(), session);
        id
    }

    /// Records one read from the process of terminal `id`: the bytes that came, none at the end
    /// of its output or when reading failed.  Returns whether to read on.
    pub fn pump(&mut self, id: &str, read: Option<&[u8]>) -> (more: bool)
        requires
            old(self).wf(),
        ensures
            final(self).wf(),
            more == (read is Some && read->0@.len() > 0),
            final(self)@ == (if more {
                old(self)@.printed(id@, read->0@)
            } else {
                old(self)@
            }),
    {
        match read {
            None => false,
            Some(bytes) => {
                if bytes.len() == 0 {
                    return false;
                }
                proof {
                    mapped_commutes(self.sessions@, session_content(), id@);
                }
                let ghost before = self.sessions@;
                match self.sessions.get_mut(id) {
                    Some(session) => {
                        session.buffer.append(bytes);
                        proof {
                            mapped_commutes_with(before, session_content(), id@, *session);
                        }
                    },
                    None => {},
                }
                true
            },
        }
    }

    /// Records that the process of terminal `id` ended.
    pub fn finish(&mut self, id: &str, exit: TerminalExitStatus)
        requires
            old(self).wf(),
        ensures
            final(self).wf(),
            final(self)@ == old(self)@.exited(id@, exit@),
    {
        proof {
            mapped_commutes(self.sessions@, session_content(), id@);
        }
        let ghost before = self.sessions@;
        match self.sessions.get_mut(id) {
            Some(session) => {
                session.exit_status = Some(exit);
                proof {
                    mapped_commutes_with(before, session_content(), id@, *session);
                }
            },
            None => {},
        }
    }

    /// The output of terminal `id` so far; `None` if there is no such terminal.
    pub fn output(&self, id: &str) -> (response: Option<TerminalOutputResponse>)
        requires
            self.wf(),
        ensures
            match lookup(self@.sessions, id@) {
                Some(s) => {
                    &&& response is Some
                    &&& response->0.output@ == captured_text(s.data)
                    &&& response->0.truncated == s.truncated
                    &&& s.exit_status == (match response->0.exit_status {
                        Some(e) => Some(e@),
                        None => None,
                    })
                },
                None => response is None,
            },
    {
        proof {
            mapped_commutes(self.sessions@, session_content(), id@);
        }
        match self.sessions.get(id) {
            Some(session) => Some(
                TerminalOutputResponse {
                    output: session.buffer.output(),
                    truncated: session.buffer.truncated,
                    exit_status: match &session.exit_status {
                        Some(e) => Some(e.duplicate()),
                        None => None,
                    },
                },
            ),
            None => None,
        }
    }

    /// How far the command of terminal `id` is.
    pub fn wait_for_exit(&self, id: &str) -> (state: ExitWait)
        requires
            self.wf(),
        ensures
            match lookup(self@.sessions, id@) {
                Some(s) => match s.exit_status {
                    Some(exit) => state is Exited && state->0@ == exit,
                    None => state is Running,
                },
                None => state is Unknown,
            },
    {
        proof {
            mapped_commutes(self.sessions@, session_content(), id@);
        }
        match self.sessions.get(id) {
            Some(session) => match &session.exit_status {
                Some(e) => ExitWait::Exited(e.duplicate()),
                None => ExitWait::Running,
            },
            None => ExitWait::Unknown,
        }
    }

    /// Whether there is a terminal `id` whose process is to be killed.
    pub fn kill(&self, id: &str) -> (kill: bool)
        requires
            self.wf(),
        ensures
            kill == (lookup(self@.sessions, id@) is Some),
    {
        proof {
            mapped_commutes(self.sessions@, session_content(), id@);
        }
        self.sessions.get(id).is_some()
    }

    /// Drops terminal `id` and keeps its output.  Returns whether there was one, whose process is
    /// then to be killed.
    pub fn release(&mut self, id: &str) -> (kill: bool)
        requires
            old(self).wf(),
        ensures
            final(self).wf(),
            kill == (lookup(old(self)@.sessions, id@) is Some),
            final(self)@ == old(self)@.released(id@),
    {
        proof {
            mapped_commutes(self.sessions@, session_content(), id@);
        }
        match self.sessions.remove(id) {
            Some(session) => {
                let output = session.buffer.output();
                self.retained.insert(id.to_string(), output);
                true
            },
            None => {
                assert(self@.sessions =~= old(self)@.sessions);
                false
            },
        }
    }

    /// The text that stands for terminal `id`.
    pub fn resolve_output(&self, id: &str) -> (text: Option<String>)
        requires
            self.wf(),
        ensures
            self@.resolved(id@) == (match text {
                Some(t) => Some(t@),
                None => None,
            }),
    {
        proof {
            mapped_commutes(self.sessions@, session_content(), id@);
        }
        match self.sessions.get(id) {
            Some(session) => Some(session.buffer.output()),
            None => self.retained.get(id),
        }
    }

    /// Replaces every reference to a terminal by the text that stands for it, which is empty for
    /// an unknown one.  Other content stays as it is.
    pub fn resolve_content<T>(&self, content: Vec<ToolCallContent<T>>) -> (resolved: Vec<
        ToolCallContent<T>,
    >)
        requires
            self.wf(),
        ensures
            resolved@.len() == content@.len(),
            forall|i: int|
                0 <= i < content@.len() ==> resolves(self@, content@[i], #[trigger] resolved@[i])
                    && resolved@[i] !is Terminal,
    {
        let mut resolved: Vec<ToolCallContent<T>> = Vec::new();
        for block in it: content
            invariant
                self.wf(),
                it.seq() == content@,
                resolved@.len() == it.index(),
                forall|i: int|
                    0 <= i < resolved@.len() ==> resolves(
                        self@,
                        content@[i],
                        #[trigger] resolved@[i],
                    ) && resolved@[i] !is Terminal,
        {
            let replacement = match block {
                ToolCallContent::Terminal { terminal_id } => {
                    let text = match self.resolve_output(terminal_id.as_str()) {
                        Some(t) => t,
                        None => String::new(),
                    };
                    ToolCallContent::Text(text)
                },
                other => other,
            };
            resolved.push(replacement);
        }
        resolved
    }
}

/// `after` is what `before` is replaced by in state `m`.
pub open spec fn resolves<T>(
    m: ManagerModel,
    before: ToolCallContent<T>,
    after: ToolCallContent<T>,
) -> bool {
    match before {
        ToolCallContent::Terminal { terminal_id } => {
            &&& after is Text
            &&& after->Text_0@ == (match m.resolved(terminal_id@) {
                Some(t) => t,
                None => Seq::empty(),
            })
        },
        _ => after == before,
    }
}

/// Different numbers give different ids.
pub proof fn ids_differ(a: u64, b: u64)
    requires
        terminal_id(a) == terminal_id(b),
    ensures
        a == b,
{
    let prefix = "term-"@;
    assert(terminal_id(a).skip(prefix.len() as int) =~= decimal(a as nat));
    assert(terminal_id(b).skip(prefix.len() as int) =~= decimal(b as nat));
    decimal_denotes(a as nat);
    decimal_denotes(b as nat);
}

/// A new terminal gets an id that no other terminal has, as long as the numbers last.
pub proof fn new_id_is_fresh(m: ManagerModel, byte_limit: usize)
    requires
        m.numbered(),
    ensures
        !has_key(m.sessions, terminal_id(m.next_id)),
        m.next_id < u64::MAX ==> m.created(byte_limit).numbered(),
{
    let id = terminal_id(m.next_id);
    if has_key(m.sessions, id) {
        let i = index_of(m.sessions, id);
        assert(key_at(m.sessions, id, i));
        assert(numbered_below(m.sessions[i].0, m.next_id));
        let k = choose|k: u64| k < m.next_id && id == #[trigger] terminal_id(k);
        ids_differ(k, m.next_id);
    }
    if m.next_id < u64::MAX {
        let after = m.created(byte_limit);
        assert forall|i: int| 0 <= i < after.sessions.len() implies numbered_below(
            (#[trigger] after.sessions[i]).0,
            after.next_id,
        ) by {
            if i < m.sessions.len() {
                assert(numbered_below(m.sessions[i].0, m.next_id));
                let k = choose|k: u64|
                    k < m.next_id && m.sessions[i].0 == #[trigger] terminal_id(k);
                assert(k < after.next_id && after.sessions[i].0 == terminal_id(k));
            } else {
                assert(m.next_id < after.next_id && after.sessions[i].0 == terminal_id(m.next_id));
            }
        }
    }
}

/// Printing, exiting and releasing keep the ids numbered.
pub proof fn numbering_is_kept(m: ManagerModel, id: Seq<char>, bytes: Seq<u8>, exit: ExitModel)
    requires
        m.numbered(),
    ensures
        m.printed(id, bytes).numbered(),
        m.exited(id, exit).numbered(),
        m.released(id).numbered(),
{
    if has_key(m.sessions, id) {
        let p = index_of(m.sessions, id);
        assert(key_at(m.sessions, id, p));
        assert(numbered_below(m.sessions[p].0, m.next_id));
        let r = m.released(id);
        assert forall|i: int| 0 <= i < r.sessions.len() implies numbered_below(
            (#[trigger] r.sessions[i]).0,
            r.next_id,
        ) by {
            let a = if i < p { i } else { i + 1 };
            assert(numbered_below(m.sessions[a].0, m.next_id));
        }
    }
}

/// No operation lets a terminal hold more than its cap.
pub proof fn caps_are_kept(
    m: ManagerModel,
    id: Seq<char>,
    byte_limit: usize,
    bytes: Seq<u8>,
    exit: ExitModel,
)
    requires
        m.within_caps(),
    ensures
        m.created(byte_limit).within_caps(),
        m.printed(id, bytes).within_caps(),
        m.exited(id, exit).within_caps(),
        m.released(id).within_caps(),
{
    if has_key(m.sessions, terminal_id(m.next_id)) {
        assert(key_at(
            m.sessions,
            terminal_id(m.next_id),
            index_of(m.sessions, terminal_id(m.next_id)),
        ));
    }
    if has_key(m.sessions, id) {
        let p = index_of(m.sessions, id);
        assert(key_at(m.sessions, id, p));
        let s = m.sessions[p].1;
        assert(s.data.len() <= s.byte_limit);
        capped_is_short_suffix(s.data + bytes, s.byte_limit as nat);
        let r = m.released(id);
        assert forall|i: int| 0 <= i < r.sessions.len() implies (
        #[trigger] r.sessions[i]).1.data.len() <= r.sessions[i].1.byte_limit by {
            let a = if i < p { i } else { i + 1 };
            assert(m.sessions[a].1.data.len() <= m.sessions[a].1.byte_limit);
        }
    }
}

/// Every operation leads from a valid state to a valid one.
pub proof fn validity_is_kept(
    m: ManagerModel,
    id: Seq<char>,
    byte_limit: usize,
    bytes: Seq<u8>,
    exit: ExitModel,
)
    requires
        m.valid(),
    ensures
        m.created(byte_limit).valid(),
        m.printed(id, bytes).valid(),
        m.exited(id, exit).valid(),
        m.released(id).valid(),
{
    let fresh = SessionModel {
        data: Seq::empty(),
        truncated: false,
        byte_limit,
        exit_status: None,
    };
    lookup_after_with(m.sessions, terminal_id(m.next_id), fresh, id);
    lookup_after_without(m.sessions, id, id);
    if let Some(s) = lookup(m.sessions, id) {
        lookup_after_with(
            m.sessions,
            id,
            SessionModel {
                data: capped(s.data + bytes, s.byte_limit as nat),
                truncated: s.truncated || s.data.len() + bytes.len() > s.byte_limit,
                ..s
            },
            id,
        );
        lookup_after_with(m.sessions, id, SessionModel { exit_status: Some(exit), ..s }, id);
        retaining_keeps_latest(m.retained, id, captured_text(s.data), id);
    }
}

/// Keeping an output for `id` pushes out the one of `other`: the cap is reached, and that one is
/// the oldest.
pub open spec fn pushes_out(
    retained: Seq<(Seq<char>, Seq<char>)>,
    id: Seq<char>,
    other: Seq<char>,
) -> bool {
    &&& retained.len() == RETAINED_CAP
    &&& !has_key(retained, id)
    &&& retained[0].0 == other
}

/// Keeping an output makes it the one found under its id, keeps the number of outputs under the
/// cap, and leaves the others alone, apart from the one that it pushes out.
pub proof fn retaining_keeps_latest(
    retained: Seq<(Seq<char>, Seq<char>)>,
    id: Seq<char>,
    output: Seq<char>,
    other: Seq<char>,
)
    requires
        distinct_keys(retained),
        retained.len() <= RETAINED_CAP,
    ensures
        ({
            let after = latest(with(retained, id, output), RETAINED_CAP as nat);
            &&& distinct_keys(after)
            &&& after.len() <= RETAINED_CAP
            &&& lookup(after, id) == Some(output)
            &&& other != id && !pushes_out(retained, id, other) ==> lookup(after, other) == lookup(
                retained,
                other,
            )
        }),
{
    let grown = with(retained, id, output);
    let after = latest(grown, RETAINED_CAP as nat);
    lookup_after_with(retained, id, output, other);
    if grown.len() > RETAINED_CAP {
        assert(!has_key(retained, id));
        assert forall|i: int, j: int|
            0 <= i < after.len() && 0 <= j < after.len() && i != j implies (
        #[trigger] after[i]).0 != (#[trigger] after[j]).0 by {
            assert(grown[i + 1].0 != grown[j + 1].0);
        }
        assert(key_at(after, id, after.len() - 1));
        index_is_unique(after, id, after.len() - 1);
        if other != id && retained[0].0 != other {
            if has_key(grown, other) {
                let i = index_of(grown, other);
                assert(key_at(grown, other, i));
                assert(key_at(after, other, i - 1));
                index_is_unique(after, other, i - 1);
            } else if has_key(after, other) {
                let i = index_of(after, other);
                assert(key_at(after, other, i));
                assert(key_at(grown, other, i + 1));
            }
        }
    }
}

/// What is kept after those outputs were handed in one after the other.
pub open spec fn retained_after(outputs: Seq<(Seq<char>, Seq<char>)>) -> Seq<
    (Seq<char>, Seq<char>),
>
    decreases outputs.len(),
{
    if outputs.len() == 0 {
        Seq::empty()
    } else {
        latest(
            with(retained_after(outputs.drop_last()), outputs.last().0, outputs.last().1),
            RETAINED_CAP as nat,
        )
    }
}

/// Of the outputs of different terminals the latest ones are kept, as many as the cap allows.
pub proof fn latest_outputs_are_kept(outputs: Seq<(Seq<char>, Seq<char>)>)
    requires
        distinct_keys(outputs),
    ensures
        retained_after(outputs) == latest(outputs, RETAINED_CAP as nat),
    decreases outputs.len(),
{
    if outputs.len() > 0 {
        let rest = outputs.drop_last();
        let (id, output) = outputs.last();
        assert forall|i: int, j: int|
            0 <= i < rest.len() && 0 <= j < rest.len() && i != j implies (#[trigger] rest[i]).0
            != (#[trigger] rest[j]).0 by {
            assert(outputs[i].0 != outputs[j].0);
        }
        latest_outputs_are_kept(rest);
        let kept = latest(rest, RETAINED_CAP as nat);
        if has_key(kept, id) {
            let i = index_of(kept, id);
            assert(key_at(kept, id, i));
            let k = i + rest.len() - kept.len();
            assert(outputs[k].0 != outputs[outputs.len() - 1].0);
        }
        assert(latest(kept.push((id, output)), RETAINED_CAP as nat) =~= latest(
            outputs,
            RETAINED_CAP as nat,
        ));
    }
}

/// Releasing a terminal takes it away and keeps the text that stands for it.
pub proof fn release_keeps_output(m: ManagerModel, id: Seq<char>)
    requires
        m.valid(),
        lookup(m.sessions, id) is Some,
    ensures
        lookup(m.released(id).sessions, id) is None,
        m.released(id).resolved(id) == m.resolved(id),
{
    lookup_after_without(m.sessions, id, id);
    retaining_keeps_latest(m.retained, id, captured_text(lookup(m.sessions, id)->0.data), id);
}

/// Releasing a terminal leaves every other one that is in use as it is, and releasing one that is
/// not in use changes nothing.
pub proof fn release_leaves_terminals(m: ManagerModel, id: Seq<char>, other: Seq<char>)
    requires
        m.valid(),
        other != id,
    ensures
        lookup(m.released(id).sessions, other) == lookup(m.sessions, other),
        lookup(m.sessions, id) is None ==> m.released(id) == m,
{
    lookup_after_without(m.sessions, id, other);
}

/// The id of a terminal tells its number.
pub proof fn id_tells_number(n: u64)
    ensures
        terminal_id(n).len() >= 5,
        terminal_id(n).take(5) == seq!['t', 'e', 'r', 'm', '-'],
        parsed_u64(terminal_id(n).skip(5)) == Some(n),
{
    reveal_strlit("term-");
    parsing_undoes_decimal(n);
    assert(terminal_id(n).skip(5) =~= decimal(n as nat));
    assert(terminal_id(n).take(5) =~= seq!['t', 'e', 'r', 'm', '-']);
}

/// A new terminal has printed nothing, has not ended, and is the only thing that changes.
pub proof fn creating_adds_one(m: ManagerModel, byte_limit: usize, other: Seq<char>)
    requires
        m.valid(),
        other != terminal_id(m.next_id),
    ensures
        ({
            let after = m.created(byte_limit);
            let new = lookup(after.sessions, terminal_id(m.next_id));
            &&& new is Some
            &&& new->0.data.len() == 0
            &&& !new->0.truncated
            &&& new->0.byte_limit == byte_limit
            &&& new->0.exit_status is None
            &&& lookup(after.sessions, other) == lookup(m.sessions, other)
            &&& after.retained == m.retained
            &&& after.work_dir == m.work_dir
            &&& m.next_id < u64::MAX ==> after.next_id == m.next_id + 1
        }),
{
    let fresh = SessionModel {
        data: Seq::empty(),
        truncated: false,
        byte_limit,
        exit_status: None,
    };
    lookup_after_with(m.sessions, terminal_id(m.next_id), fresh, other);
}

/// What a terminal prints is added to what it printed before. All of it is kept as long as it fits
/// under the cap; else the end is kept, and that something was dropped is remembered. Nothing else
/// changes.
pub proof fn printing_adds(m: ManagerModel, id: Seq<char>, bytes: Seq<u8>, other: Seq<char>)
    requires
        m.valid(),
        lookup(m.sessions, id) is Some,
        other != id,
    ensures
        ({
            let before = lookup(m.sessions, id)->0;
            let after = lookup(m.printed(id, bytes).sessions, id)->0;
            let fits = before.data.len() + bytes.len() <= before.byte_limit;
            &&& lookup(m.printed(id, bytes).sessions, id) is Some
            &&& fits ==> after.data == before.data + bytes && after.truncated == before.truncated
            &&& !fits ==> after.truncated && after.data.is_suffix_of(before.data + bytes)
                && after.data.len() <= before.byte_limit
            &&& after.byte_limit == before.byte_limit
            &&& after.exit_status == before.exit_status
            &&& lookup(m.printed(id, bytes).sessions, other) == lookup(m.sessions, other)
            &&& m.printed(id, bytes).retained == m.retained
            &&& m.printed(id, bytes).next_id == m.next_id
        }),
{
    let s = lookup(m.sessions, id)->0;
    capped_is_short_suffix(s.data + bytes, s.byte_limit as nat);
    lookup_after_with(
        m.sessions,
        id,
        SessionModel {
            data: capped(s.data + bytes, s.byte_limit as nat),
            truncated: s.truncated || s.data.len() + bytes.len() > s.byte_limit,
            ..s
        },
        other,
    );
}

/// Text that a new terminal prints under its cap is what stands for the terminal, also after its
/// release.
pub proof fn text_of_new_terminal(m: ManagerModel, byte_limit: usize, text: Seq<char>)
    requires
        m.valid(),
        encode_utf8(text).len() <= byte_limit,
    ensures
        ({
            let id = terminal_id(m.next_id);
            let after = m.created(byte_limit).printed(id, encode_utf8(text));
            &&& after.resolved(id) == Some(text)
            &&& after.released(id).resolved(id) == Some(text)
        }),
{
    let id = terminal_id(m.next_id);
    let other = id.push('x');
    assert(other.len() != id.len());
    let exit = ExitModel { exit_code: None, signal: None };
    creating_adds_one(m, byte_limit, other);
    validity_is_kept(m, id, byte_limit, encode_utf8(text), exit);
    let new = m.created(byte_limit);
    printing_adds(new, id, encode_utf8(text), other);
    validity_is_kept(new, id, byte_limit, encode_utf8(text), exit);
    let after = new.printed(id, encode_utf8(text));
    assert(lookup(new.sessions, id)->0.data + encode_utf8(text) =~= encode_utf8(text));
    encode_utf8_valid_utf8(text);
    encode_utf8_decode_utf8(text);
    release_keeps_output(after, id);
}

/// The end of a command is recorded with its terminal and changes nothing else; in particular the
/// text of every terminal stays.
pub proof fn ending_is_recorded(
    m: ManagerModel,
    id: Seq<char>,
    exit: ExitModel,
    other: Seq<char>,
)
    requires
        m.valid(),
        lookup(m.sessions, id) is Some,
    ensures
        ({
            let before = lookup(m.sessions, id)->0;
            let after = lookup(m.exited(id, exit).sessions, id)->0;
            &&& lookup(m.exited(id, exit).sessions, id) is Some
            &&& after.exit_status == Some(exit)
            &&& after.data == before.data
            &&& after.truncated == before.truncated
            &&& after.byte_limit == before.byte_limit
            &&& m.exited(id, exit).resolved(other) == m.resolved(other)
            &&& other != id ==> lookup(m.exited(id, exit).sessions, other) == lookup(
                m.sessions,
                other,
            )
            &&& m.exited(id, exit).retained == m.retained
        }),
{
    let s = lookup(m.sessions, id)->0;
    lookup_after_with(m.sessions, id, SessionModel { exit_status: Some(exit), ..s }, other);
}

/// The text that stands for a terminal is all that it printed and still holds, or what it held
/// when it was released; there is none for other ids.
pub proof fn text_of_terminal(m: ManagerModel, id: Seq<char>)
    ensures
        match m.resolved(id) {
            Some(text) => match lookup(m.sessions, id) {
                Some(s) => (valid_utf8(s.data) ==> encode_utf8(text) == s.data) && (!valid_utf8(
                    s.data,
                ) ==> text == utf8_lossy(s.data)),
                None => lookup(m.retained, id) == Some(text),
            },
            None => lookup(m.sessions, id) is None && lookup(m.retained, id) is None,
        },
{
    if let Some(s) = lookup(m.sessions, id) {
        output_encodes_data(s.data);
    }
}

/// A reference to a terminal is replaced by its text, or by nothing for an unknown one; all else
/// is left as it is.
pub proof fn references_become_text<T>(
    m: ManagerModel,
    before: ToolCallContent<T>,
    after: ToolCallContent<T>,
)
    requires
        resolves(m, before, after),
    ensures
        match before {
            ToolCallContent::Terminal { terminal_id } => match after {
                ToolCallContent::Text(text) => match m.resolved(terminal_id@) {
                    Some(t) => text@ == t,
                    None => text@.len() == 0,
                },
                _ => false,
            },
            ToolCallContent::Text(text) => after == ToolCallContent::<T>::Text(text),
            ToolCallContent::Other(other) => after == ToolCallContent::<T>::Other(other),
        },
{
}

/// The cap is what the request asks for, but never zero.
pub proof fn cap_is_as_requested(asked: Option<u64>)
    ensures
        requested_limit(asked) >= 1,
        asked is Some && 1 <= asked->0 <= usize::MAX ==> requested_limit(asked) == asked->0,
        asked == Some(0u64) ==> requested_limit(asked) == 1,
        asked is None ==> requested_limit(asked) == 1024 * 1024,
{
}

/// Exit codes are the same modulo the width of the number, and codes that are not negative stay.
pub proof fn codes_keep_their_value(code: i32)
    ensures
        code >= 0 ==> unsigned_code(code) == code,
        code < 0 ==> unsigned_code(code) == code + 0x1_0000_0000,
{
}

/// One thing that happens to a manager.
pub enum ManagerStep {
    Created { byte_limit: usize },
    Printed { id: Seq<char>, bytes: Seq<u8> },
    Exited { id: Seq<char>, exit: ExitModel },
    Released { id: Seq<char> },
}

impl ManagerModel {
    /// The state after one step.
    pub open spec fn stepped(self, step: ManagerStep) -> ManagerModel {
        match step {
            ManagerStep::Created { byte_limit } => self.created(byte_limit),
            ManagerStep::Printed { id, bytes } => self.printed(id, bytes),
            ManagerStep::Exited { id, exit } => self.exited(id, exit),
            ManagerStep::Released { id } => self.released(id),
        }
    }

    /// The state after those steps.
    pub open spec fn after_steps(self, steps: Seq<ManagerStep>) -> ManagerModel
        decreases steps.len(),
    {
        if steps.len() == 0 {
            self
        } else {
            self.after_steps(steps.drop_last()).stepped(steps.last())
        }
    }
}

/// How many of the steps release a terminal.
pub open spec fn releases(steps: Seq<ManagerStep>) -> nat
    decreases steps.len(),
{
    if steps.len() == 0 {
        0
    } else {
        releases(steps.drop_last()) + if steps.last() is Released {
            1nat
        } else {
            0
        }
    }
}

/// How many of the steps create a terminal.
pub open spec fn creations(steps: Seq<ManagerStep>) -> nat
    decreases steps.len(),
{
    if steps.len() == 0 {
        0
    } else {
        creations(steps.drop_last()) + if steps.last() is Created {
            1nat
        } else {
            0
        }
    }
}

/// Terminal `id` is not in use, its output is kept, and at most `newer` outputs are newer.
pub open spec fn kept_among_latest(
    m: ManagerModel,
    id: Seq<char>,
    output: Seq<char>,
    newer: nat,
) -> bool {
    &&& m.valid()
    &&& lookup(m.sessions, id) is None
    &&& exists|p: int|
        key_at(m.retained, id, p) && m.retained[p].1 == output && m.retained.len() - 1 - p <= newer
}

/// Keeping one more output leaves an output alone that is not the oldest under the cap.
proof fn one_more_output(
    retained: Seq<(Seq<char>, Seq<char>)>,
    id: Seq<char>,
    p: int,
    other: Seq<char>,
    output: Seq<char>,
) -> (q: int)
    requires
        distinct_keys(retained),
        retained.len() <= RETAINED_CAP,
        key_at(retained, id, p),
        other != id,
        retained.len() - 1 - p < RETAINED_CAP - 1,
    ensures
        ({
            let after = latest(with(retained, other, output), RETAINED_CAP as nat);
            &&& key_at(after, id, q)
            &&& after[q].1 == retained[p].1
            &&& after.len() - 1 - q <= retained.len() - p
        }),
{
    if has_key(retained, other) {
        assert(key_at(retained, other, index_of(retained, other)));
        p
    } else if retained.len() < RETAINED_CAP {
        p
    } else {
        p - 1
    }
}

proof fn output_is_tracked(
    m: ManagerModel,
    id: Seq<char>,
    output: Seq<char>,
    steps: Seq<ManagerStep>,
)
    requires
        kept_among_latest(m, id, output, 0),
        numbered_below(id, m.next_id),
        releases(steps) < RETAINED_CAP,
        m.next_id + creations(steps) <= u64::MAX,
    ensures
        kept_among_latest(m.after_steps(steps), id, output, releases(steps)),
        m.after_steps(steps).next_id == m.next_id + creations(steps),
    decreases steps.len(),
{
    if steps.len() > 0 {
        let rest = steps.drop_last();
        output_is_tracked(m, id, output, rest);
        let before = m.after_steps(rest);
        let after = m.after_steps(steps);
        let p = choose|p: int|
            key_at(before.retained, id, p) && before.retained[p].1 == output
                && before.retained.len() - 1 - p <= releases(rest);
        match steps.last() {
            ManagerStep::Created { byte_limit } => {
                let fresh = SessionModel {
                    data: Seq::empty(),
                    truncated: false,
                    byte_limit,
                    exit_status: None,
                };
                let k = choose|k: u64| k < m.next_id && id == #[trigger] terminal_id(k);
                if terminal_id(before.next_id) == id {
                    ids_differ(k, before.next_id);
                }
                lookup_after_with(before.sessions, terminal_id(before.next_id), fresh, id);
                assert(key_at(after.retained, id, p));
            },
            ManagerStep::Printed { id: printed, bytes } => {
                if let Some(s) = lookup(before.sessions, printed) {
                    lookup_after_with(
                        before.sessions,
                        printed,
                        SessionModel {
                            data: capped(s.data + bytes, s.byte_limit as nat),
                            truncated: s.truncated || s.data.len() + bytes.len() > s.byte_limit,
                            ..s
                        },
                        id,
                    );
                }
                assert(key_at(after.retained, id, p));
            },
            ManagerStep::Exited { id: exited, exit } => {
                if let Some(s) = lookup(before.sessions, exited) {
                    lookup_after_with(
                        before.sessions,
                        exited,
                        SessionModel { exit_status: Some(exit), ..s },
                        id,
                    );
                }
                assert(key_at(after.retained, id, p));
            },
            ManagerStep::Released { id: released } => {
                if let Some(s) = lookup(before.sessions, released) {
                    lookup_after_without(before.sessions, released, id);
                    let q = one_more_output(
                        before.retained,
                        id,
                        p,
                        released,
                        captured_text(s.data),
                    );
                    assert(key_at(after.retained, id, q));
                } else {
                    assert(key_at(after.retained, id, p));
                }
            },
        }
        step_keeps_validity(before, steps.last());
    }
}

/// Every step leads from a valid state to a valid one.
pub proof fn step_keeps_validity(m: ManagerModel, step: ManagerStep)
    requires
        m.valid(),
    ensures
        m.stepped(step).valid(),
{
    let exit = ExitModel { exit_code: None, signal: None };
    match step {
        ManagerStep::Created { byte_limit } => {
            validity_is_kept(m, Seq::empty(), byte_limit, Seq::empty(), exit);
        },
        ManagerStep::Printed { id, bytes } => {
            validity_is_kept(m, id, 0, bytes, exit);
        },
        ManagerStep::Exited { id, exit } => {
            validity_is_kept(m, id, 0, Seq::empty(), exit);
        },
        ManagerStep::Released { id } => {
            validity_is_kept(m, id, 0, Seq::empty(), exit);
        },
    }
}

/// The text of a released terminal stays what it was, and the terminal stays gone, whatever
/// happens until as many more terminals are released as outputs are kept, and as long as the
/// numbers last.
pub proof fn released_text_stays(m: ManagerModel, id: Seq<char>, steps: Seq<ManagerStep>)
    requires
        m.valid(),
        lookup(m.sessions, id) is Some,
        !has_key(m.retained, id),
        numbered_below(id, m.next_id),
        releases(steps) < 256,
        m.next_id + creations(steps) <= u64::MAX,
    ensures
        m.released(id).after_steps(steps).resolved(id) == m.resolved(id),
        lookup(m.released(id).after_steps(steps).sessions, id) is None,
{
    let output = captured_text(lookup(m.sessions, id)->0.data);
    let start = m.released(id);
    lookup_after_without(m.sessions, id, id);
    step_keeps_validity(m, ManagerStep::Released { id });
    assert(key_at(start.retained, id, start.retained.len() - 1));
    output_is_tracked(start, id, output, steps);
    let end = start.after_steps(steps);
    let p = choose|p: int|
        key_at(end.retained, id, p) && end.retained[p].1 == output && end.retained.len() - 1 - p
            <= releases(steps);
    index_is_unique(end.retained, id, p);
}

/// Releasing a terminal leaves the text of every other one alone, unless that was released long
/// before and has to make room.
pub proof fn release_leaves_others(m: ManagerModel, id: Seq<char>, other: Seq<char>)
    requires
        m.valid(),
        other != id,
        has_key(m.sessions, other) || !pushes_out(m.retained, id, other),
    ensures
        m.released(id).resolved(other) == m.resolved(other),
{
    if let Some(s) = lookup(m.sessions, id) {
        lookup_after_without(m.sessions, id, other);
        retaining_keeps_latest(m.retained, id, captured_text(s.data), other);
    }
}

/// The output of 256 released terminals is kept, and of no more: one more pushes out the oldest.
pub proof fn outputs_kept_are_counted(
    retained: Seq<(Seq<char>, Seq<char>)>,
    id: Seq<char>,
    output: Seq<char>,
    m: ManagerModel,
)
    requires
        retained.len() <= 256,
        !has_key(retained, id),
    ensures
        m.valid() ==> m.retained.len() <= 256,
        ({
            let after = latest(with(retained, id, output), RETAINED_CAP as nat);
            &&& after.last() == (id, output)
            &&& retained.len() < 256 ==> after == retained.push((id, output))
            &&& retained.len() == 256 ==> after == retained.skip(1).push((id, output))
        }),
{
    let grown = retained.push((id, output));
    if retained.len() == 256 {
        assert(grown.skip(1) =~= retained.skip(1).push((id, output)));
    }
}

/// Steps that happen counted out: every release counts once, every creation counts once, and
/// nothing else does.
pub proof fn steps_are_counted(a: Seq<ManagerStep>, b: Seq<ManagerStep>, step: ManagerStep)
    ensures
        releases(a + b) == releases(a) + releases(b),
        creations(a + b) == creations(a) + creations(b),
        releases(seq![step]) == (if step is Released {
            1nat
        } else {
            0
        }),
        creations(seq![step]) == (if step is Created {
            1nat
        } else {
            0
        }),
    decreases b.len(),
{
    assert(seq![step].drop_last() =~= Seq::<ManagerStep>::empty());
    assert(releases(Seq::<ManagerStep>::empty()) == 0);
    assert(creations(Seq::<ManagerStep>::empty()) == 0);
    if b.len() == 0 {
        assert(a + b =~= a);
    } else {
        steps_are_counted(a, b.drop_last(), step);
        assert((a + b).drop_last() =~= a + b.drop_last());
        assert((a + b).last() == b.last());
    }
}

// ── what the operations do ───────────────────────────────────────────────────
/// A new terminal is there under its id, which carries the next number, and has printed nothing
/// and not ended yet.
pub proof fn new_terminals_are_there(
    before: TerminalManager,
    plan: &LaunchPlan,
    id: String,
    after: TerminalManager,
    asked: &str,
    response: Option<TerminalOutputResponse>,
    state: ExitWait,
)
    requires
        before.wf(),
        exists|m: &mut TerminalManager|
            *m == before && *final(m) == after && #[trigger] call_ensures(
                TerminalManager::create,
                (m, plan),
                id,
            ),
        asked@ == id@,
        call_ensures(TerminalManager::output, (&after, asked), response),
        call_ensures(TerminalManager::wait_for_exit, (&after, asked), state),
    ensures
        id@ == "term-"@ + decimal(before@.next_id as nat),
        before@.next_id < u64::MAX ==> after@.next_id == before@.next_id + 1,
        after@.work_dir == before@.work_dir,
        response is Some,
        response->0.output@.len() == 0,
        !response->0.truncated,
        response->0.exit_status is None,
        state is Running,
{
    before.state_is_valid();
    let s = SessionModel {
        data: Seq::empty(),
        truncated: false,
        byte_limit: plan.byte_limit,
        exit_status: None,
    };
    lookup_after_with(before@.sessions, id@, s, id@);
    output_encodes_data(s.data);
    encode_utf8_valid_utf8(Seq::<char>::empty());
    assert(encode_utf8(Seq::<char>::empty()) =~= Seq::<u8>::empty());
    encode_utf8_decode_utf8(Seq::<char>::empty());
}

/// What a new terminal prints comes out as it was printed, all of it, if it fits under the cap of
/// the terminal; of more the end comes out, and it is told that some is missing.
pub proof fn printed_text_comes_out(
    before: TerminalManager,
    plan: &LaunchPlan,
    id: String,
    between: TerminalManager,
    asked: &str,
    printed: Seq<char>,
    bytes: &[u8],
    more: bool,
    after: TerminalManager,
    response: Option<TerminalOutputResponse>,
)
    requires
        before.wf(),
        exists|m: &mut TerminalManager|
            *m == before && *final(m) == between && #[trigger] call_ensures(
                TerminalManager::create,
                (m, plan),
                id,
            ),
        asked@ == id@,
        bytes@ == encode_utf8(printed),
        exists|m: &mut TerminalManager|
            *m == between && *final(m) == after && #[trigger] call_ensures(
                TerminalManager::pump,
                (m, asked, Some(bytes)),
                more,
            ),
        call_ensures(TerminalManager::output, (&after, asked), response),
    ensures
        more == (bytes@.len() > 0),
        response is Some,
        bytes@.len() <= plan.byte_limit ==> response->0.output@ == printed
            && !response->0.truncated,
        bytes@.len() > plan.byte_limit ==> response->0.output@.is_suffix_of(printed)
            && response->0.truncated,
{
    before.state_is_valid();
    let limit = plan.byte_limit as nat;
    let fresh = SessionModel {
        data: Seq::empty(),
        truncated: false,
        byte_limit: plan.byte_limit,
        exit_status: None,
    };
    lookup_after_with(before@.sessions, id@, fresh, id@);
    assert(lookup(between@.sessions, id@) == Some(fresh));
    assert(fresh.data + bytes@ =~= bytes@);
    end_of_text_is_shown(printed, limit);
    if bytes@.len() <= limit {
        printed_text_is_shown(printed, limit);
    }
    if more {
        let grown = SessionModel {
            data: capped(fresh.data + bytes@, limit),
            truncated: bytes@.len() > plan.byte_limit,
            ..fresh
        };
        lookup_after_with(between@.sessions, id@, grown, id@);
        assert(lookup(after@.sessions, id@) == Some(grown));
    } else {
        assert(bytes@ =~= fresh.data);
    }
}

/// Once the command of a terminal has ended, whoever waits is told how, and the output stays.
pub proof fn endings_are_told(
    before: TerminalManager,
    id: &str,
    exit: TerminalExitStatus,
    after: TerminalManager,
    state: ExitWait,
    text: Option<String>,
    same_text: Option<String>,
)
    requires
        before.wf(),
        exists|m: &mut TerminalManager|
            *m == before && *final(m) == after && #[trigger] call_ensures(
                TerminalManager::finish,
                (m, id, exit),
                (),
            ),
        call_ensures(TerminalManager::wait_for_exit, (&after, id), state),
        call_ensures(TerminalManager::resolve_output, (&before, id), text),
        call_ensures(TerminalManager::resolve_output, (&after, id), same_text),
    ensures
        has_key(before@.sessions, id@) ==> state is Exited && state->0@ == exit@,
        !has_key(before@.sessions, id@) ==> state is Unknown,
        text is Some == same_text is Some,
        text is Some ==> text->0@ == same_text->0@,
{
    before.state_is_valid();
    if has_key(before@.sessions, id@) {
        ending_is_recorded(before@, id@, exit@, id@);
    }
}

/// A terminal that is released is gone, but its text stays what it was.
pub proof fn released_terminals_keep_their_text(
    before: TerminalManager,
    id: &str,
    kill: bool,
    after: TerminalManager,
    response: Option<TerminalOutputResponse>,
    state: ExitWait,
    text: Option<String>,
    kept: Option<String>,
    again: bool,
)
    requires
        before.wf(),
        exists|m: &mut TerminalManager|
            *m == before && *final(m) == after && #[trigger] call_ensures(
                TerminalManager::release,
                (m, id),
                kill,
            ),
        call_ensures(TerminalManager::resolve_output, (&before, id), text),
        call_ensures(TerminalManager::resolve_output, (&after, id), kept),
        call_ensures(TerminalManager::output, (&after, id), response),
        call_ensures(TerminalManager::wait_for_exit, (&after, id), state),
        call_ensures(TerminalManager::kill, (&after, id), again),
    ensures
        kill == has_key(before@.sessions, id@),
        response is None,
        state is Unknown,
        !again,
        text is Some == kept is Some,
        text is Some ==> text->0@ == kept->0@,
{
    before.state_is_valid();
    lookup_after_without(before@.sessions, id@, id@);
    if has_key(before@.sessions, id@) {
        release_keeps_output(before@, id@);
    }
}

/// The text that stands for a terminal is its output; nothing stands for a terminal that never was.
pub proof fn text_is_output(
    manager: &TerminalManager,
    id: &str,
    response: Option<TerminalOutputResponse>,
    text: Option<String>,
)
    requires
        manager.wf(),
        call_ensures(TerminalManager::output, (manager, id), response),
        call_ensures(TerminalManager::resolve_output, (manager, id), text),
    ensures
        response is Some ==> text is Some && text->0@ == response->0.output@,
        text is Some ==> has_key(manager@.sessions, id@) || has_key(manager@.retained, id@),
{
}

/// A process is started with what was asked for, in the directory that was asked for or else in
/// that of the manager, with at least one byte of room for its output.
pub proof fn plans_follow_requests(
    manager: &TerminalManager,
    request: CreateTerminalRequest,
    plan: LaunchPlan,
)
    requires
        call_ensures(TerminalManager::plan, (manager, request), plan),
    ensures
        plan.command@ == request.command@,
        plan.args@ == request.args@,
        plan.env@ == request.env@,
        request.cwd is Some ==> plan.cwd@ == request.cwd->0@,
        request.cwd is None ==> plan.cwd@ == manager@.work_dir,
        plan.byte_limit >= 1,
        request.output_byte_limit is None ==> plan.byte_limit == 1024 * 1024,
        request.output_byte_limit is Some && 1 <= request.output_byte_limit->0 <= usize::MAX
            ==> plan.byte_limit == request.output_byte_limit->0,
{
}

/// How a process ended is told by its code and its signal, as far as they are known.
pub proof fn exits_are_told(status: Option<ProcessStatus>, exit: TerminalExitStatus)
    requires
        call_ensures(to_exit_status, (status,), exit),
    ensures
        status is None ==> exit.exit_code is None && exit.signal is None,
        status is Some ==> {
            let s = status->0;
            &&& exit.exit_code is Some == s.code is Some
            &&& exit.signal is Some == s.signal is Some
            &&& s.code is Some && s.code->0 >= 0 ==> exit.exit_code->0 == s.code->0
            &&& s.code is Some && s.code->0 < 0 ==> exit.exit_code->0 == s.code->0 + 0x1_0000_0000
            &&& s.signal is Some && s.signal->0 >= 0 ==> exit.signal->0@ == decimal(
                s.signal->0 as nat,
            )
            &&& s.signal is Some && s.signal->0 < 0 ==> exit.signal->0@ == seq!['-'] + decimal(
                (-s.signal->0) as nat,
            )
        },
{
}

/// An output that is kept for a terminal can be got back, and is the latest one.
pub proof fn kept_outputs_come_back(
    before: RetainedOutputs,
    id: String,
    output: String,
    after: RetainedOutputs,
    asked: &str,
    got: Option<String>,
)
    requires
        before.wf(),
        exists|r: &mut RetainedOutputs|
            *r == before && *final(r) == after && #[trigger] call_ensures(
                RetainedOutputs::insert,
                (r, id, output),
                (),
            ),
        asked@ == id@,
        call_ensures(RetainedOutputs::get, (&after, asked), got),
    ensures
        got is Some,
        got->0@ == output@,
        after@.len() <= 256,
{
    mapped_commutes(before.entries@, content(), id@);
    retaining_keeps_latest(before@, id@, output@, id@);
}

/// Every reference to a terminal is replaced by the text that stands for it, or by nothing where
/// none does; all other content is left as it is, in its place.
pub proof fn content_is_resolved<T>(
    manager: &TerminalManager,
    content: Vec<ToolCallContent<T>>,
    resolved: Vec<ToolCallContent<T>>,
    i: int,
    id: &str,
    text: Option<String>,
)
    requires
        manager.wf(),
        call_ensures(TerminalManager::resolve_content::<T>, (manager, content), resolved),
        call_ensures(TerminalManager::resolve_output, (manager, id), text),
        0 <= i < content@.len(),
    ensures
        resolved@.len() == content@.len(),
        match content@[i] {
            ToolCallContent::Terminal { terminal_id } => terminal_id@ == id@ ==> {
                &&& resolved@[i] is Text
                &&& text is Some ==> resolved@[i]->Text_0@ == text->0@
                &&& text is None ==> resolved@[i]->Text_0@.len() == 0
            },
            _ => resolved@[i] == content@[i],
        },
{
    assert(resolves(manager@, content@[i], resolved@[i]));
}

} // verus!
