//! Handles through which the rest of the program talks to the renderer.

use vstd::prelude::*;

use crate::renderer::{EventModel, Renderer, RendererCmd, RendererModel};

verus! {

/// How many milliseconds a caller waits for the block to be cleared.
pub const ACK_WAIT_MS: u128 = 10;

/// Where a line of ordinary output goes.
pub enum LineRoute {
    /// Through the renderer.
    Render(RendererCmd),
    /// Straight to standard output.
    Print(String),
}

/// A handle that routes commands to the renderer through `tx`.
///
/// Each method returns the command to send.
pub struct DelegateStatusRenderer<S> {
    pub tx: S,
    pub is_tty: bool,
}

impl<S> DelegateStatusRenderer<S> {
    /// A renderer for a terminal, or for plain output, and the handle to it.
    pub fn spawn(tx: S, is_tty: bool) -> (pair: (Self, Renderer))
        ensures
            pair.0 == (DelegateStatusRenderer { tx, is_tty }),
            pair.1.wf(),
            pair.1@ == (RendererModel {
                delegates: Seq::empty(),
                spinner_idx: 0,
                lines_drawn: 0,
                is_tty,
            }),
    {
        (DelegateStatusRenderer { tx, is_tty }, Renderer::new(is_tty))
    }

    pub fn register(&self, key: String, name: String) -> (cmd: RendererCmd)
        ensures
            cmd@ == (EventModel::Register { key: key@, name: name@ }),
    {
        RendererCmd::Register { key, name }
    }

    pub fn tool_event(
        &self,
        key: String,
        tool_name: String,
        tool_count: Option<u32>,
        turn_count: Option<u32>,
    ) -> (cmd: RendererCmd)
        ensures
            cmd@ == (EventModel::ToolEvent {
                key: key@,
                tool_name: tool_name@,
                tool_count,
                turn_count,
            }),
    {
        RendererCmd::ToolEvent { key, tool_name, tool_count, turn_count }
    }

    /// Suggests a name for a delegate that only has a session id to show.
    pub fn adopt_name(&self, key: String, name: String) -> (cmd: RendererCmd)
        ensures
            cmd@ == (EventModel::AdoptName { key: key@, name: name@ }),
    {
        RendererCmd::AdoptName { key, name }
    }

    pub fn delegate_done(&self, key: String) -> (cmd: RendererCmd)
        ensures
            cmd@ == (EventModel::Done { key: key@, silent: false }),
    {
        RendererCmd::Done { key, silent: false }
    }

    /// Marks a delegate done without a summary line.
    pub fn delegate_done_silent(&self, key: String) -> (cmd: RendererCmd)
        ensures
            cmd@ == (EventModel::Done { key: key@, silent: true }),
    {
        RendererCmd::Done { key, silent: true }
    }

    /// Routes a line of ordinary output so that it appears above the block.
    pub fn print_line(&self, text: String) -> (route: LineRoute)
        ensures
            match route {
                LineRoute::Render(cmd) => self.is_tty && cmd@ == (EventModel::PrintLine {
                    text: text@,
                }),
                LineRoute::Print(t) => !self.is_tty && t == text,
            },
    {
        if self.is_tty {
            LineRoute::Render(RendererCmd::PrintLine { text })
        } else {
            LineRoute::Print(text)
        }
    }

    /// Asks for the block to be cleared; there is nothing to ask without a terminal.
    pub fn clear_now(&self) -> (cmd: Option<RendererCmd>)
        ensures
            cmd is Some == self.is_tty,
            cmd is Some ==> cmd->0@ == EventModel::ClearNow,
    {
        if self.is_tty {
            Some(RendererCmd::ClearNow)
        } else {
            None
        }
    }
}

/// Whether a caller goes on waiting for the block to be cleared.
pub fn keep_waiting(acknowledged: bool, waited_ms: u128) -> (wait: bool)
    ensures
        wait == (!acknowledged && waited_ms <= ACK_WAIT_MS),
{
    !acknowledged && waited_ms <= ACK_WAIT_MS
}

/// The place where the handle of the current turn's renderer is kept.
pub struct GlobalRenderer<S> {
    pub current: Option<DelegateStatusRenderer<S>>,
}

impl<S> GlobalRenderer<S> {
    pub fn new() -> (cell: Self)
        ensures
            cell.current is None,
    {
        GlobalRenderer { current: None }
    }
}

/// Installs `renderer`.
pub fn set_global_renderer<S>(cell: &mut GlobalRenderer<S>, renderer: DelegateStatusRenderer<S>)
    ensures
        final(cell).current == Some(renderer),
{
    cell.current = Some(renderer);
}

/// Removes the handle.
pub fn clear_global_renderer<S>(cell: &mut GlobalRenderer<S>)
    ensures
        final(cell).current is None,
{
    cell.current = None;
}

/// What to send, and through which handle, so that the block is cleared: nothing without an
/// installed handle or without a terminal.
pub fn clear_status_line<S>(cell: &GlobalRenderer<S>) -> (send: Option<
    (&DelegateStatusRenderer<S>, RendererCmd),
>)
    ensures
        match send {
            Some((renderer, cmd)) => cell.current == Some(*renderer) && renderer.is_tty && cmd@
                == EventModel::ClearNow,
            None => cell.current is None || !cell.current->0.is_tty,
        },
{
    match &cell.current {
        Some(renderer) => match renderer.clear_now() {
            Some(cmd) => Some((renderer, cmd)),
            None => None,
        },
        None => None,
    }
}

/// What a handle sends is what it was told.
pub proof fn handles_send_what_they_are_told<S>(
    handle: &DelegateStatusRenderer<S>,
    key: String,
    name: String,
    tool_count: Option<u32>,
    turn_count: Option<u32>,
    commands: (RendererCmd, RendererCmd, RendererCmd, RendererCmd, RendererCmd),
)
    requires
        call_ensures(DelegateStatusRenderer::<S>::register, (handle, key, name), commands.0),
        call_ensures(
            DelegateStatusRenderer::<S>::tool_event,
            (handle, key, name, tool_count, turn_count),
            commands.1,
        ),
        call_ensures(DelegateStatusRenderer::<S>::adopt_name, (handle, key, name), commands.2),
        call_ensures(DelegateStatusRenderer::<S>::delegate_done, (handle, key), commands.3),
        call_ensures(DelegateStatusRenderer::<S>::delegate_done_silent, (handle, key), commands.4),
    ensures
        commands.0@ == (EventModel::Register { key: key@, name: name@ }),
        commands.1@ == (EventModel::ToolEvent {
            key: key@,
            tool_name: name@,
            tool_count,
            turn_count,
        }),
        commands.2@ == (EventModel::AdoptName { key: key@, name: name@ }),
        commands.3@ == (EventModel::Done { key: key@, silent: false }),
        commands.4@ == (EventModel::Done { key: key@, silent: true }),
{
}

/// A line goes through the renderer on a terminal and straight out otherwise, and clearing the
/// block is asked for on a terminal only.
pub proof fn only_terminals_are_rendered<S>(
    handle: &DelegateStatusRenderer<S>,
    text: String,
    route: LineRoute,
    cmd: Option<RendererCmd>,
)
    requires
        call_ensures(DelegateStatusRenderer::<S>::print_line, (handle, text), route),
        call_ensures(DelegateStatusRenderer::<S>::clear_now, (handle,), cmd),
    ensures
        handle.is_tty ==> match route {
            LineRoute::Render(cmd) => cmd@ == (EventModel::PrintLine { text: text@ }),
            LineRoute::Print(_) => false,
        },
        !handle.is_tty ==> route == LineRoute::Print(text),
        handle.is_tty ==> cmd is Some && cmd->0@ is ClearNow,
        !handle.is_tty ==> cmd is None,
{
}

/// A caller waits for the block to be cleared until it is, ten milliseconds at most.
pub proof fn waiting_is_short(acknowledged: bool, waited_ms: u128, wait: bool)
    requires
        call_ensures(keep_waiting, (acknowledged, waited_ms), wait),
    ensures
        wait <==> !acknowledged && waited_ms <= 10,
{
}

/// Once a handle is installed, the block is cleared through that handle, if there is a terminal;
/// once it is removed, there is nothing to clear.
pub proof fn installed_handles_clear<S>(
    before: GlobalRenderer<S>,
    handle: DelegateStatusRenderer<S>,
    installed: GlobalRenderer<S>,
    removed: GlobalRenderer<S>,
    first: Option<(&DelegateStatusRenderer<S>, RendererCmd)>,
    second: Option<(&DelegateStatusRenderer<S>, RendererCmd)>,
)
    requires
        exists|c: &mut GlobalRenderer<S>|
            *c == before && *final(c) == installed && #[trigger] call_ensures(
                set_global_renderer::<S>,
                (c, handle),
                (),
            ),
        exists|c: &mut GlobalRenderer<S>|
            *c == installed && *final(c) == removed && #[trigger] call_ensures(
                clear_global_renderer::<S>,
                (c,),
                (),
            ),
        call_ensures(clear_status_line::<S>, (&installed,), first),
        call_ensures(clear_status_line::<S>, (&removed,), second),
    ensures
        first is Some == handle.is_tty,
        match first {
            Some((through, cmd)) => *through == handle && cmd@ is ClearNow,
            None => true,
        },
        second is None,
{
}

} // verus!
