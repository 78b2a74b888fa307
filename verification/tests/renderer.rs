use std::time::Instant;

use goose::delegate_status::DelegateState;
use goose::renderer::{Effect, RenderAction, RenderEvent, Renderer, RendererCmd};
use goose::renderer_handle::{
    clear_global_renderer, clear_status_line, keep_waiting, set_global_renderer,
    DelegateStatusRenderer, GlobalRenderer, LineRoute,
};

fn register(key: &str, name: &str) -> RenderEvent {
    RenderEvent::Command(RendererCmd::Register { key: key.to_string(), name: name.to_string() })
}

fn tool(key: &str, name: &str, tools: Option<u32>, turns: Option<u32>) -> RenderEvent {
    RenderEvent::Command(RendererCmd::ToolEvent {
        key: key.to_string(),
        tool_name: name.to_string(),
        tool_count: tools,
        turn_count: turns,
    })
}

fn done(key: &str, silent: bool) -> RenderEvent {
    RenderEvent::Command(RendererCmd::Done { key: key.to_string(), silent })
}

fn print(text: &str) -> RenderEvent {
    RenderEvent::Command(RendererCmd::PrintLine { text: text.to_string() })
}

/// One line per action, with the numbers of seconds left out.
fn shown(actions: &[RenderAction]) -> Vec<String> {
    actions
        .iter()
        .map(|a| match a {
            RenderAction::ClearLines(n) => format!("clear {}", n),
            RenderAction::PrintBlock(lines) => {
                let lines: Vec<&str> = lines.iter().map(|l| l.trim_end()).collect();
                format!("block {}", lines.join("|"))
            }
            RenderAction::PrintLine(text) => format!("line {}", text),
            RenderAction::PrintSummary { name, stats } => format!("summary {}: {}", name, stats),
            RenderAction::Acknowledge => "ack".to_string(),
            RenderAction::Stop => "stop".to_string(),
        })
        .collect()
}

fn play(renderer: &mut Renderer, event: RenderEvent) -> Vec<String> {
    shown(&renderer.step(event, false, 80))
}

#[test]
fn a_block_is_cleared_before_anything_else_is_printed() {
    let mut r = Renderer::new(true);
    assert_eq!(play(&mut r, register("a", "A")), vec!["block ⠋ A: · 0 tools · 0s"]);
    assert_eq!(
        play(&mut r, register("b", "B")),
        vec!["clear 1", "block ⠋ A: · 0 tools · 0s|⠋ B: · 0 tools · 0s"]
    );
    assert_eq!(
        play(&mut r, print("hello")),
        vec!["clear 2", "line hello", "block ⠋ A: · 0 tools · 0s|⠋ B: · 0 tools · 0s"]
    );
    assert_eq!(
        play(&mut r, RenderEvent::Command(RendererCmd::ClearNow)),
        vec!["clear 2", "ack"]
    );
    assert_eq!(play(&mut r, RenderEvent::Command(RendererCmd::ClearNow)), vec!["ack"]);
    assert_eq!(
        play(&mut r, RenderEvent::Tick),
        vec!["block ⠙ A: · 0 tools · 0s|⠙ B: · 0 tools · 0s"]
    );
    assert_eq!(play(&mut r, RenderEvent::Closed), vec!["clear 2", "stop"]);
}

#[test]
fn a_finished_delegate_leaves_a_summary() {
    let mut r = Renderer::new(true);
    play(&mut r, register("a", "A"));
    play(&mut r, tool("a", "Grep", Some(3), Some(2)));
    assert_eq!(
        play(&mut r, done("a", false)),
        vec!["clear 1", "summary A: 3 tools · 2 turns · 0s"]
    );
    assert_eq!(play(&mut r, done("a", false)), Vec::<String>::new());
    assert_eq!(r.label("a"), None);
    play(&mut r, register("b", "B"));
    play(&mut r, register("c", "C"));
    assert_eq!(
        play(&mut r, done("b", true)),
        vec!["clear 2", "block ⠋ C: · 0 tools · 0s"]
    );
}

#[test]
fn tool_calls_are_counted() {
    let mut r = Renderer::new(true);
    play(&mut r, register("a", "A"));
    assert_eq!(
        play(&mut r, tool("a", "Grep", None, None)),
        vec!["clear 1", "block ⠋ A: \"Grep\" · 1 tool · 0s"]
    );
    assert_eq!(
        play(&mut r, tool("a", "", None, Some(1))),
        vec!["clear 1", "block ⠋ A: \"Grep\" · 2 tools · 1 turn · 0s"]
    );
    assert_eq!(
        play(&mut r, tool("a", "Read", Some(9), None)),
        vec!["clear 1", "block ⠋ A: \"Read\" · 9 tools · 1 turn · 0s"]
    );
    assert!(r.can_count(&tool("a", "x", None, None)));
}

#[test]
fn a_second_registration_changes_nothing() {
    let mut r = Renderer::new(true);
    play(&mut r, register("a", "A"));
    play(&mut r, tool("a", "Grep", Some(3), None));
    assert_eq!(
        play(&mut r, register("a", "other")),
        vec!["clear 1", "block ⠋ A: \"Grep\" · 3 tools · 0s"]
    );
}

#[test]
fn only_a_session_id_gives_way_to_a_name() {
    let mut r = Renderer::new(true);
    play(&mut r, register("a", "20260611_130"));
    let adopt = |name: &str| {
        RenderEvent::Command(RendererCmd::AdoptName { key: "a".to_string(), name: name.to_string() })
    };
    assert_eq!(r.label("a"), Some("20260611_130".to_string()));
    r.step(adopt("file-locator"), true, 80);
    assert_eq!(r.label("a"), Some("file-locator".to_string()));
    r.step(adopt("other"), false, 80);
    assert_eq!(r.label("a"), Some("file-locator".to_string()));
}

#[test]
fn without_a_terminal_lines_are_only_appended() {
    let mut r = Renderer::new(false);
    assert_eq!(play(&mut r, register("a", "A")), vec!["line ⠋ A: · 0 tools · 0s"]);
    assert_eq!(
        play(&mut r, tool("a", "Grep", None, None)),
        vec!["line ⠋ A: \"Grep\" · 1 tool · 0s"]
    );
    assert!(play(&mut r, tool("unknown", "Grep", None, None)).is_empty());
    assert!(play(&mut r, RenderEvent::Tick).is_empty());
    assert_eq!(play(&mut r, print("x")), vec!["line x"]);
    assert_eq!(play(&mut r, done("a", false)), vec!["summary A: 1 tools · 0s"]);
    assert_eq!(play(&mut r, RenderEvent::Closed), vec!["stop"]);
}

#[test]
fn plain_lines_are_not_cut() {
    let mut r = Renderer::new(false);
    let name = "n".repeat(100);
    let effect = r.update(register("a", &name), Instant::now(), false);
    let actions = r.render(effect, &vec![7], 0, 20);
    assert_eq!(shown(&actions), vec![format!("line ⠋ {}: · 0 tools · 7s", name)]);
}

#[test]
fn lines_are_padded_to_the_width_of_the_terminal() {
    let mut r = Renderer::new(true);
    match &r.step(register("a", "A"), false, 30)[..] {
        [RenderAction::PrintBlock(lines)] => {
            assert_eq!(lines.len(), 1);
            assert_eq!(console::measure_text_width(&lines[0]), 30);
        }
        _ => panic!("expected a block"),
    }
}

#[test]
fn an_idle_spinner_does_not_move() {
    let mut r = Renderer::new(true);
    assert!(play(&mut r, RenderEvent::Tick).is_empty());
    assert_eq!(play(&mut r, register("a", "A")), vec!["block ⠋ A: · 0 tools · 0s"]);
}

#[test]
fn updates_and_drawing_can_be_told_the_time() {
    let mut r = Renderer::new(true);
    let effect = r.update(register("a", "A"), Instant::now(), false);
    assert!(matches!(&effect, Effect::Changed { key } if key == "a"));
    let actions = r.render(effect, &vec![61], 0, 40);
    assert_eq!(shown(&actions), vec!["block ⠋ A: · 0 tools · 61s"]);
    let effect = r.update(done("a", false), Instant::now(), false);
    match &effect {
        Effect::Finished { state: Some(DelegateState { name, .. }), silent: false } => {
            assert_eq!(name, "A")
        }
        _ => panic!("expected a finished delegate"),
    }
    let actions = r.render(effect, &vec![], 62, 40);
    assert_eq!(shown(&actions), vec!["clear 1", "summary A: 0 tools · 62s"]);
}

#[test]
fn handles_name_the_commands_to_send() {
    let (handle, mut renderer) = DelegateStatusRenderer::spawn(1u8, true);
    assert_eq!(handle.tx, 1);
    assert!(matches!(
        handle.register("k".into(), "n".into()),
        RendererCmd::Register { key, name } if key == "k" && name == "n"
    ));
    assert!(matches!(
        handle.tool_event("k".into(), "t".into(), Some(1), None),
        RendererCmd::ToolEvent { tool_count: Some(1), turn_count: None, .. }
    ));
    assert!(matches!(
        handle.adopt_name("k".into(), "n".into()),
        RendererCmd::AdoptName { .. }
    ));
    assert!(matches!(handle.delegate_done("k".into()), RendererCmd::Done { silent: false, .. }));
    assert!(matches!(
        handle.delegate_done_silent("k".into()),
        RendererCmd::Done { silent: true, .. }
    ));
    assert!(matches!(handle.print_line("x".into()), LineRoute::Render(_)));
    assert!(matches!(handle.clear_now(), Some(RendererCmd::ClearNow)));
    assert!(play(&mut renderer, RenderEvent::Tick).is_empty());
    let (handle, _) = DelegateStatusRenderer::spawn(1u8, false);
    assert!(matches!(handle.print_line("x".into()), LineRoute::Print(t) if t == "x"));
    assert!(handle.clear_now().is_none());
}

#[test]
fn the_installed_handle_clears_the_block() {
    let mut cell: GlobalRenderer<u8> = GlobalRenderer::new();
    assert!(clear_status_line(&cell).is_none());
    let (handle, _) = DelegateStatusRenderer::spawn(7u8, true);
    set_global_renderer(&mut cell, handle);
    match clear_status_line(&cell) {
        Some((handle, cmd)) => {
            assert_eq!(handle.tx, 7);
            assert!(matches!(cmd, RendererCmd::ClearNow));
        }
        None => panic!("expected a command"),
    }
    clear_global_renderer(&mut cell);
    assert!(clear_status_line(&cell).is_none());
    let (handle, _) = DelegateStatusRenderer::spawn(7u8, false);
    set_global_renderer(&mut cell, handle);
    assert!(clear_status_line(&cell).is_none());
}

#[test]
fn waiting_for_the_block_to_clear_is_short() {
    assert!(keep_waiting(false, 0));
    assert!(keep_waiting(false, 10));
    assert!(!keep_waiting(false, 11));
    assert!(!keep_waiting(true, 0));
}
