use goose::terminal::{
    to_exit_status, CreateTerminalRequest, ExitWait, ProcessStatus, RetainedOutputs,
    TerminalExitStatus, TerminalManager, ToolCallContent, DEFAULT_OUTPUT_BYTE_LIMIT, RETAINED_CAP,
};
use goose::terminal_buffer::TerminalBuffer;

fn buffer(byte_limit: usize) -> TerminalBuffer {
    TerminalBuffer { data: Vec::new(), truncated: false, byte_limit }
}

fn request(command: &str, limit: Option<u64>) -> CreateTerminalRequest {
    CreateTerminalRequest {
        command: command.to_string(),
        args: vec!["-c".to_string(), "true".to_string()],
        env: vec![("K".to_string(), "v".to_string())],
        cwd: None,
        output_byte_limit: limit,
    }
}

fn start(manager: &mut TerminalManager) -> String {
    let plan = manager.plan(request("sh", None));
    manager.create(&plan)
}

fn exit(code: i32) -> TerminalExitStatus {
    to_exit_status(Some(ProcessStatus { code: Some(code), signal: None }))
}

#[test]
fn buffer_truncates_from_front() {
    let mut buffer = TerminalBuffer {
        data: Vec::new(),
        truncated: false,
        byte_limit: 4,
    };
    buffer.append(b"abcdef");
    assert_eq!(buffer.output(), "cdef");
    assert!(buffer.truncated);
}

#[test]
fn buffer_truncates_to_utf8_boundary() {
    let mut buffer = TerminalBuffer {
        data: Vec::new(),
        truncated: false,
        byte_limit: 4,
    };
    buffer.append("ééé".as_bytes());
    assert_eq!(buffer.output(), "éé");
    assert!(buffer.truncated);
}

#[test]
fn buffer_drops_the_rest_of_a_cut_character() {
    let mut b = buffer(5);
    b.append("ééé".as_bytes());
    assert_eq!(b.output(), "éé");
    let mut b = buffer(3);
    b.append("日本".as_bytes());
    assert_eq!(b.output(), "本");
    let mut b = buffer(2);
    b.append("日本".as_bytes());
    assert_eq!(b.output(), "");
    assert!(b.data.is_empty());
}

#[test]
fn buffer_within_its_limit_keeps_everything() {
    let mut b = buffer(4);
    b.append(b"ab");
    b.append(b"cd");
    assert_eq!(b.output(), "abcd");
    assert!(!b.truncated);
    b.append(b"e");
    assert_eq!(b.output(), "bcde");
    assert!(b.truncated);
}

#[test]
fn broken_characters_are_replaced_in_the_output() {
    let mut b = buffer(100);
    b.append(&[97, 0xff, 98]);
    assert_eq!(b.output(), "a\u{fffd}b");
    assert_eq!(b.data, vec![97, 0xff, 98]);
}

#[test]
fn output_in_pieces_is_kept_like_output_at_once() {
    let text = "aé日b".as_bytes();
    for limit in 3..8 {
        for cut in 0..=text.len() {
            let mut pieces = buffer(limit);
            pieces.append(&text[..cut]);
            if pieces.truncated && pieces.data.is_empty() {
                // Nothing is left to tell where the next piece goes on.
                continue;
            }
            pieces.append(&text[cut..]);
            let mut whole = buffer(limit);
            whole.append(text);
            assert_eq!(pieces.data, whole.data);
        }
    }
}

#[test]
fn text_in_pieces_is_kept_like_text_at_once() {
    let text = "aé日b";
    for limit in 1..9 {
        for (cut, _) in text.char_indices() {
            let mut pieces = buffer(limit);
            pieces.append(text[..cut].as_bytes());
            pieces.append(text[cut..].as_bytes());
            let mut whole = buffer(limit);
            whole.append(text.as_bytes());
            assert_eq!(pieces.data, whole.data);
        }
    }
}

#[test]
fn released_text_stays_for_a_while() {
    let mut manager = TerminalManager::new(".".to_string());
    let id = start(&mut manager);
    manager.pump(&id, Some(b"kept"));
    assert!(manager.release(&id));
    for _ in 0..RETAINED_CAP - 1 {
        let other = start(&mut manager);
        manager.pump(&other, Some(b"x"));
        assert!(manager.release(&other));
        assert!(!manager.release(&other));
    }
    assert_eq!(manager.resolve_output(&id).as_deref(), Some("kept"));
    assert!(manager.output(&id).is_none());
    let last = start(&mut manager);
    manager.release(&last);
    assert_eq!(manager.resolve_output(&id), None);
}

#[test]
fn exit_status_tells_code_or_signal() {
    assert_eq!(exit(0).exit_code, Some(0));
    assert_eq!(exit(-1).exit_code, Some(4294967295));
    let killed = to_exit_status(Some(ProcessStatus { code: None, signal: Some(9) }));
    assert_eq!(killed.exit_code, None);
    assert_eq!(killed.signal, Some("9".to_string()));
    let unknown = to_exit_status(None);
    assert_eq!(unknown.exit_code, None);
    assert_eq!(unknown.signal, None);
}

#[test]
fn captures_output_and_exit_status() {
    let mut manager = TerminalManager::new(".".to_string());
    let id = start(&mut manager);
    assert!(matches!(manager.wait_for_exit(&id), ExitWait::Running));
    assert!(manager.pump(&id, Some(b"hel")));
    assert!(manager.pump(&id, Some(b"lo")));
    assert!(!manager.pump(&id, Some(b"")));
    assert!(!manager.pump(&id, None));
    manager.finish(&id, exit(0));

    match manager.wait_for_exit(&id) {
        ExitWait::Exited(status) => assert_eq!(status.exit_code, Some(0)),
        _ => panic!("expected an exit status"),
    }
    let output = manager.output(&id).unwrap();
    assert_eq!(output.output, "hello");
    assert!(!output.truncated);
    assert_eq!(output.exit_status.unwrap().exit_code, Some(0));
}

#[test]
fn nonzero_exit_code_is_reported() {
    let mut manager = TerminalManager::new(".".to_string());
    let id = start(&mut manager);
    manager.finish(&id, exit(3));
    match manager.wait_for_exit(&id) {
        ExitWait::Exited(status) => assert_eq!(status.exit_code, Some(3)),
        _ => panic!("expected an exit status"),
    }
}

#[test]
fn resolves_embedded_terminal_to_text() {
    let mut manager = TerminalManager::new(".".to_string());
    let id = start(&mut manager);
    manager.pump(&id, Some(b"done"));
    manager.finish(&id, exit(0));
    let content: Vec<ToolCallContent<u8>> = vec![
        ToolCallContent::Other(7),
        ToolCallContent::Terminal { terminal_id: id },
        ToolCallContent::Terminal { terminal_id: "term-99".to_string() },
        ToolCallContent::Text("kept".to_string()),
    ];
    let resolved = manager.resolve_content(content);
    assert_eq!(resolved.len(), 4);
    assert!(matches!(&resolved[0], ToolCallContent::Other(7)));
    assert!(matches!(&resolved[1], ToolCallContent::Text(t) if t == "done"));
    assert!(matches!(&resolved[2], ToolCallContent::Text(t) if t.is_empty()));
    assert!(matches!(&resolved[3], ToolCallContent::Text(t) if t == "kept"));
}

#[test]
fn retains_output_after_release() {
    let mut manager = TerminalManager::new(".".to_string());
    let id = start(&mut manager);
    let other = start(&mut manager);
    manager.pump(&id, Some(b"kept"));
    manager.pump(&other, Some(b"mine"));
    assert!(manager.release(&id));
    assert!(manager.output(&id).is_none());
    assert_eq!(manager.resolve_output(&id).as_deref(), Some("kept"));
    assert!(!manager.release(&id));
    assert_eq!(manager.resolve_output(&other).as_deref(), Some("mine"));
}

#[test]
fn terminals_are_numbered_from_zero() {
    let mut manager = TerminalManager::new(".".to_string());
    assert_eq!(start(&mut manager), "term-0");
    assert_eq!(start(&mut manager), "term-1");
    manager.release("term-1");
    assert_eq!(start(&mut manager), "term-2");
}

#[test]
fn only_known_terminals_can_be_killed() {
    let mut manager = TerminalManager::new(".".to_string());
    let id = start(&mut manager);
    assert!(manager.kill(&id));
    assert!(!manager.kill("term-7"));
    assert!(matches!(manager.wait_for_exit("term-7"), ExitWait::Unknown));
}

#[test]
fn a_plan_fills_in_what_the_request_leaves_open() {
    let manager = TerminalManager::new("/work".to_string());
    let plan = manager.plan(request("ls", None));
    assert_eq!(plan.command, "ls");
    assert_eq!(plan.args, vec!["-c".to_string(), "true".to_string()]);
    assert_eq!(plan.env, vec![("K".to_string(), "v".to_string())]);
    assert_eq!(plan.cwd, "/work");
    assert_eq!(plan.byte_limit, DEFAULT_OUTPUT_BYTE_LIMIT);
    assert_eq!(DEFAULT_OUTPUT_BYTE_LIMIT, 1 << 20);
    assert_eq!(manager.plan(request("ls", Some(0))).byte_limit, 1);
    assert_eq!(manager.plan(request("ls", Some(12))).byte_limit, 12);
    let mut elsewhere = request("ls", None);
    elsewhere.cwd = Some("/tmp".to_string());
    assert_eq!(manager.plan(elsewhere).cwd, "/tmp");
}

#[test]
fn the_oldest_retained_output_goes_first() {
    let mut retained = RetainedOutputs::new();
    for i in 0..RETAINED_CAP + 2 {
        retained.insert(format!("t{}", i), format!("o{}", i));
    }
    assert_eq!(retained.get("t0"), None);
    assert_eq!(retained.get("t1"), None);
    assert_eq!(retained.get("t2").as_deref(), Some("o2"));
    // A new output for a known terminal replaces the old one in its place.
    retained.insert("t2".to_string(), "again".to_string());
    assert_eq!(retained.get("t2").as_deref(), Some("again"));
    assert_eq!(retained.get("t3").as_deref(), Some("o3"));
    retained.insert("new".to_string(), "n".to_string());
    assert_eq!(retained.get("t2"), None);
}
