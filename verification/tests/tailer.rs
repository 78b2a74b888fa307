use goose::clock::now_ms;
use goose::progress::{
    find_progress_file, format_progress_lines, ProgressEvent, ProgressWriter,
};
use goose::tailer::{events_through_done, is_blank_line, ProgressText, TailAction, Tailer};

fn tool(name: &str, summary: Option<&str>) -> ProgressEvent {
    ProgressEvent::tool(name.to_string(), summary.map(str::to_string), None, None)
}

fn names_of(events: &[ProgressEvent]) -> Vec<String> {
    events
        .iter()
        .map(|e| match e {
            ProgressEvent::Start { .. } => "start".to_string(),
            ProgressEvent::Tool { tool_name, .. } => tool_name.clone(),
            ProgressEvent::Done { .. } => "done".to_string(),
        })
        .collect()
}

fn following(name: &str) -> Tailer {
    let mut tailer = Tailer::new("k".to_string(), 10);
    assert!(matches!(tailer.wake(0), TailAction::List));
    assert!(matches!(tailer.listed(&vec![name.to_string()]), TailAction::Look));
    tailer
}

#[test]
fn generic_tailer_collects_progress() {
    let key = "deadbeef01234567";
    let ts = now_ms() - 500;
    let names = vec![format!("{}.{}.ndjson", key, ts)];
    let found = find_progress_file(&names, key, ts - 1);
    assert!(found.is_some(), "file should be discoverable");

    let mut text = ProgressText::new();
    assert_eq!(text.accept(ProgressEvent::start(None, None)), None);
    assert_eq!(
        text.accept(tool("shell", Some("echo hi"))),
        Some("→ shell: echo hi".to_string())
    );
    let all = text.accept(tool("text_editor", None)).unwrap();
    assert!(all.contains("→ shell: echo hi"));
    assert!(all.contains("→ text_editor"));
    assert_eq!(text.accept(ProgressEvent::done()), None);
    assert_eq!(
        all,
        format_progress_lines(&[tool("shell", Some("echo hi")), tool("text_editor", None)])
    );
}

#[test]
fn structured_tailer_delivers_one_callback_per_event() {
    let key = "cafebabe12345678";
    let ts = now_ms() - 100;
    let filename = format!("{}.{}.ndjson", key, ts);
    let not_before = ts - 1;
    let names = vec![filename.clone()];

    // The file is found, and what was written to it is read.
    let writer = ProgressWriter::new_at("dir", key, ts);
    assert_eq!(writer.path, format!("dir/{}", filename));
    let lines = vec![
        Some(writer.write_start(None, None).event),
        Some(writer.write_tool("shell", Some("ls"), None, None).event),
        Some(writer.write_tool("text_editor", None, None, None).event),
        Some(writer.write_done().event),
    ];
    let found = find_progress_file(&names, key, not_before);
    assert!(found.is_some(), "progress file must be found");
    assert_eq!(found, Some(filename.clone()));
    let (events, done) = events_through_done(lines);
    assert!(done);
    assert_eq!(events.len(), 4, "must parse exactly 4 events");
    assert!(matches!(events[0], ProgressEvent::Start { .. }));
    assert!(
        matches!(&events[1], ProgressEvent::Tool { tool_name, .. } if tool_name == "shell")
    );
    assert!(
        matches!(&events[2], ProgressEvent::Tool { tool_name, .. } if tool_name == "text_editor")
    );
    assert!(matches!(events[3], ProgressEvent::Done { .. }));

    // A tailer delivers the events of such a file, each once.
    let mut tailer = Tailer::new(key.to_string(), not_before);
    assert!(matches!(tailer.wake(0), TailAction::List));
    assert!(matches!(tailer.listed(&names), TailAction::Look));
    match tailer.wake(0) {
        TailAction::Read { name, offset } => {
            assert_eq!(name, filename);
            assert_eq!(offset, 0);
        }
        _ => panic!("expected a reading"),
    }
    let lines = vec![
        Some(writer.write_start(None, None).event),
        Some(writer.write_tool("grep", Some("pattern"), None, None).event),
        Some(writer.write_done().event),
    ];
    let (events, action) = tailer.read(lines, Some(99));
    assert!(matches!(action, TailAction::Stop));
    let mut names = Vec::new();
    for ev in events {
        if let ProgressEvent::Tool { tool_name, .. } = ev {
            names.push(tool_name);
        }
    }
    assert_eq!(
        names,
        vec!["grep"],
        "tailer must deliver exactly one Tool event callback"
    );
    assert!(matches!(tailer.wake(1), TailAction::Stop));
}

#[test]
fn nothing_is_delivered_after_done() {
    let lines = vec![
        None,
        Some(tool("a", None)),
        None,
        Some(ProgressEvent::done()),
        Some(tool("b", None)),
        Some(ProgressEvent::done()),
    ];
    let (events, done) = events_through_done(lines);
    assert!(done);
    assert_eq!(names_of(&events), vec!["a", "done"]);
    let (events, done) = events_through_done(vec![None, Some(tool("a", None))]);
    assert!(!done);
    assert_eq!(names_of(&events), vec!["a"]);
}

#[test]
fn a_tailer_reads_on_where_it_stopped() {
    let mut tailer = following("k.10.ndjson");
    match tailer.wake(5) {
        TailAction::Read { name, offset } => {
            assert_eq!(name, "k.10.ndjson");
            assert_eq!(offset, 0);
        }
        _ => panic!("expected a reading"),
    }
    let (events, action) = tailer.read(vec![Some(tool("a", None))], Some(30));
    assert_eq!(names_of(&events), vec!["a"]);
    assert!(matches!(action, TailAction::Sleep { ms: 400 }));
    assert!(matches!(tailer.wake(500), TailAction::Read { offset: 30, .. }));
    let (_, action) = tailer.read(vec![None], None);
    assert!(matches!(action, TailAction::Sleep { ms: 400 }));
    assert!(matches!(tailer.wake(900), TailAction::Read { offset: 30, .. }));
}

#[test]
fn a_tailer_waits_for_its_file() {
    let mut tailer = Tailer::new("k".to_string(), 10);
    assert!(matches!(tailer.wake(0), TailAction::List));
    let names = vec!["k.9.ndjson".to_string(), "other.10.ndjson".to_string()];
    assert!(matches!(tailer.listed(&names), TailAction::Sleep { ms: 400 }));
    assert!(matches!(tailer.wake(119_999), TailAction::List));
    assert!(matches!(tailer.wake(120_000), TailAction::Stop));
    assert!(matches!(tailer.wake(0), TailAction::Stop));
}

#[test]
fn a_tailer_stops_after_half_an_hour() {
    let mut tailer = following("k.10.ndjson");
    assert!(matches!(tailer.wake(1_799_999), TailAction::Read { .. }));
    assert!(matches!(tailer.wake(1_800_000), TailAction::Stop));
}

#[test]
fn a_tailer_stops_when_its_file_cannot_be_read() {
    let mut tailer = following("k.10.ndjson");
    assert!(matches!(tailer.read_failed(), TailAction::Stop));
    assert!(matches!(tailer.wake(0), TailAction::Stop));
}

#[test]
fn reports_that_were_not_asked_for_change_nothing() {
    let mut tailer = Tailer::new("k".to_string(), 10);
    let (events, action) = tailer.read(vec![Some(ProgressEvent::done())], Some(1));
    assert!(events.is_empty());
    assert!(matches!(action, TailAction::Look));
    assert!(matches!(tailer.wake(0), TailAction::List));
    let mut tailer = following("k.10.ndjson");
    assert!(matches!(tailer.listed(&vec!["k.99.ndjson".to_string()]), TailAction::Look));
    match tailer.wake(0) {
        TailAction::Read { name, .. } => assert_eq!(name, "k.10.ndjson"),
        _ => panic!("expected a reading"),
    }
}

#[test]
fn blank_lines_hold_only_space() {
    for line in ["", "\n", " \t\r\n", "\u{a0}\u{2003}\u{3000}\u{85}"] {
        assert!(is_blank_line(line));
        assert!(line.trim().is_empty());
    }
    for line in ["{}", " x ", "\u{200b}"] {
        assert!(!is_blank_line(line));
        assert!(!line.trim().is_empty());
    }
}

#[test]
fn blank_lines_are_those_that_trim_to_nothing() {
    for code in 0..0x3100u32 {
        if let Some(c) = char::from_u32(code) {
            let line = c.to_string();
            assert_eq!(is_blank_line(&line), line.trim().is_empty(), "{:?}", c);
        }
    }
}
