use goose::clock::{epoch_ms, now_ms};
use goose::progress::{
    file_timestamp, find_progress_file, format_progress_lines, join_path, progress_dir,
    progress_filename, progress_filename_async, progress_filename_async_at, progress_filename_at,
    sweep_old_files, sweep_old_files_at, ProgressEvent, ProgressWriter,
};

fn tool(name: &str, summary: Option<&str>) -> ProgressEvent {
    ProgressEvent::tool(name.to_string(), summary.map(str::to_string), None, None)
}

#[test]
fn writer_reader_round_trip() {
    let key = "testkey1234567890abcd";
    let writer = ProgressWriter::new_at("/state", key, 1000);
    assert_eq!(writer.path, "/state/testkey1234567890abcd.1000.ndjson");
    let records = vec![
        writer.write_start(Some("my-recipe".into()), Some("session-abc".into())),
        writer.write_tool("shell", Some("kubectl get pods"), Some(1), Some(1)),
        writer.write_tool("text_editor", None, Some(2), Some(1)),
        writer.write_done(),
    ];
    assert!(records.iter().all(|r| r.path == writer.path));
    let events: Vec<ProgressEvent> = records.into_iter().map(|r| r.event).collect();
    assert_eq!(events.len(), 4);
    assert!(matches!(events[0], ProgressEvent::Start { .. }));
    assert!(matches!(
        &events[1],
        ProgressEvent::Tool { tool_name, .. } if tool_name == "shell"
    ));
    assert!(matches!(events[3], ProgressEvent::Done { .. }));

    let text = format_progress_lines(&events);
    assert!(text.contains("→ shell: kubectl get pods"));
    assert!(text.contains("→ text_editor"));
    assert_eq!(text, "→ shell: kubectl get pods\n→ text_editor");
}

#[test]
fn events_carry_what_they_are_given() {
    let before = now_ms();
    match ProgressEvent::start(Some("file-locator".into()), Some("20260611_123".into())) {
        ProgressEvent::Start { ts, name, subagent_session_id } => {
            assert!(before <= ts && ts <= now_ms());
            assert_eq!(name.as_deref(), Some("file-locator"));
            assert_eq!(subagent_session_id.as_deref(), Some("20260611_123"));
        }
        _ => panic!("expected Start variant"),
    }
    match ProgressEvent::tool("grep".into(), Some("pattern".into()), Some(3), Some(2)) {
        ProgressEvent::Tool { ts, tool_name, summary, tool_count, turn_count } => {
            assert!(before <= ts && ts <= now_ms());
            assert_eq!(tool_name, "grep");
            assert_eq!(summary.as_deref(), Some("pattern"));
            assert_eq!(tool_count, Some(3));
            assert_eq!(turn_count, Some(2));
        }
        _ => panic!("expected Tool variant"),
    }
    match ProgressEvent::done() {
        ProgressEvent::Done { ts } => assert!(before <= ts && ts <= now_ms()),
        _ => panic!("expected Done variant"),
    }
    assert!(matches!(ProgressEvent::done_at(5), ProgressEvent::Done { ts: 5 }));
}

#[test]
fn summaries_are_written_on_one_line() {
    let writer = ProgressWriter::new_at("/state", "k", 1);
    match writer.write_tool("shell", Some("ls\n  -l\t"), None, None).event {
        ProgressEvent::Tool { summary, .. } => assert_eq!(summary.as_deref(), Some("ls -l")),
        _ => panic!("expected Tool variant"),
    }
}

#[test]
fn writers_name_their_files() {
    let before = now_ms();
    let writer = ProgressWriter::new("/state/", "k");
    assert!(writer.path.starts_with("/state/k."));
    assert!(writer.path.ends_with(".ndjson"));
    let name = writer.path.trim_start_matches("/state/").to_string();
    let ms = file_timestamp(&name).unwrap();
    assert!(before <= ms && ms <= now_ms());
    let writer = ProgressWriter::new_async("/state", "k", "t");
    assert!(writer.path.starts_with("/state/k.t."));
    assert_eq!(ProgressWriter::new_async_at("d", "k", "t", 7).path, "d/k.t.7.ndjson");
}

#[test]
fn names_hold_their_parts() {
    assert_eq!(progress_filename_at("abc", 42), "abc.42.ndjson");
    assert_eq!(progress_filename_async_at("abc", "t1", 0), "abc.t1.0.ndjson");
    assert!(progress_filename("abc").starts_with("abc."));
    assert!(progress_filename_async("abc", "t1").starts_with("abc.t1."));
}

#[test]
fn the_timestamp_is_read_back() {
    let max = u64::MAX;
    assert_eq!(file_timestamp(&progress_filename_at("a.b", max)), Some(max));
    assert_eq!(file_timestamp("k.12.ndjson"), Some(12));
    assert_eq!(file_timestamp("k.t.012.ndjson"), Some(12));
    assert_eq!(file_timestamp("k.+7.ndjson"), Some(7));
    assert_eq!(file_timestamp("99"), Some(99));
    assert_eq!(file_timestamp("99.ndjson"), Some(99));
    assert_eq!(file_timestamp("k.x.ndjson"), None);
    assert_eq!(file_timestamp("k..ndjson"), None);
    assert_eq!(file_timestamp("k.-1.ndjson"), None);
    assert_eq!(file_timestamp("k.18446744073709551616.ndjson"), None);
    assert_eq!(file_timestamp(".5"), Some(5));
    assert_eq!(file_timestamp(".."), None);
    assert_eq!(file_timestamp(""), None);
}

#[test]
fn find_progress_file_picks_newest() {
    let key = "aabbccdd11223344";
    let not_before = now_ms();
    let mut names = vec![format!("{}.100.ndjson", key), format!("{}.200.ndjson", key)];
    assert!(find_progress_file(&names, key, not_before).is_none());

    let ts = not_before + 1000;
    let name = format!("{}.{}.ndjson", key, ts);
    names.push(name.clone());
    let result = find_progress_file(&names, key, not_before);
    assert!(result.is_some());
    assert_eq!(result.unwrap(), name);
    assert_eq!(
        find_progress_file(&names[..2].to_vec(), key, 0),
        Some(format!("{}.200.ndjson", key))
    );
}

#[test]
fn find_progress_file_dual_key_async_format() {
    let corr_key = "aabbccdd11223344";
    let task_id = "20260611_130";
    let not_before = now_ms();
    let ts = not_before + 500;
    let filename = format!("{}.{}.{}.ndjson", corr_key, task_id, ts);
    let names = vec!["other.5.ndjson".to_string(), filename.clone()];

    let found = find_progress_file(&names, corr_key, not_before);
    assert!(
        found.is_some(),
        "should find by corr_key prefix: {filename}"
    );
    assert_eq!(found.unwrap(), filename);

    let found = find_progress_file(&names, task_id, not_before);
    assert!(found.is_some(), "should find by task_id infix: {filename}");
    assert_eq!(found.unwrap(), filename);
}

#[test]
fn files_of_others_are_not_found() {
    let names = vec![
        "keyed.5.ndjson".to_string(),
        "a.key.ndjson".to_string(),
        "key".to_string(),
        "key.x.ndjson".to_string(),
    ];
    assert_eq!(find_progress_file(&names, "key", 0), None);
    // A task is looked for in the stem only.
    let names = vec!["a.7.ndjson".to_string()];
    assert_eq!(find_progress_file(&names, "7", 0), None);
    // Of equally new files the first one counts.
    let names = vec!["key.7.ndjson".to_string(), "x.key.7.ndjson".to_string()];
    assert_eq!(find_progress_file(&names, "key", 7), Some("key.7.ndjson".to_string()));
    assert_eq!(find_progress_file(&names, "key", 8), None);
}

#[test]
fn files_older_than_an_hour_are_swept() {
    let hour = 3_600_000;
    let names = vec![
        "a.1000.ndjson".to_string(),
        "notes.txt".to_string(),
        "b.t.1001.ndjson".to_string(),
        "c.999.ndjson".to_string(),
    ];
    assert_eq!(sweep_old_files_at(&names, hour + 999), Vec::<String>::new());
    assert_eq!(sweep_old_files_at(&names, hour + 1000), vec!["c.999.ndjson".to_string()]);
    assert_eq!(
        sweep_old_files_at(&names, hour + 1001),
        vec!["a.1000.ndjson".to_string(), "c.999.ndjson".to_string()]
    );
    assert_eq!(sweep_old_files_at(&names, 5), Vec::<String>::new());
    assert_eq!(
        sweep_old_files(&vec!["old.1.ndjson".to_string(), progress_filename("new")]),
        vec!["old.1.ndjson".to_string()]
    );
}

#[test]
fn the_directory_follows_the_configuration() {
    assert_eq!(
        progress_dir(Some("/xdg"), Some("/home/u")),
        "/xdg/goose/subagent-progress"
    );
    assert_eq!(
        progress_dir(None, Some("/home/u")),
        "/home/u/.local/state/goose/subagent-progress"
    );
    assert_eq!(
        progress_dir(None, None),
        "/tmp/.local/state/goose/subagent-progress"
    );
    assert_eq!(progress_dir(Some(""), None), "goose/subagent-progress");
}

#[test]
fn paths_are_joined_as_the_system_does() {
    for (base, part) in [("/a", "b"), ("/a/", "b"), ("", "b"), ("/a", "/b"), ("a", ""), ("/", "x")] {
        let expected = std::path::Path::new(base).join(part);
        assert_eq!(join_path(base, part), expected.to_str().unwrap());
    }
}

#[test]
fn lines_are_formatted_for_tool_calls_only() {
    assert_eq!(format_progress_lines(&[]), "");
    let events = [
        ProgressEvent::start(None, None),
        tool("shell", Some("")),
        tool("grep", None),
        tool("ls", Some("x")),
        ProgressEvent::done(),
    ];
    assert_eq!(format_progress_lines(&events), "→ shell\n→ grep\n→ ls: x");
    assert_eq!(format_progress_lines(&events[..1]), "");
    assert_eq!(format!("{:?}", ProgressEvent::done_at(5)), "Done { ts: 5 }");
}

#[test]
fn clock_readings_become_milliseconds() {
    let time = std::time::UNIX_EPOCH + std::time::Duration::from_micros(1_234_999);
    assert_eq!(epoch_ms(time.duration_since(std::time::UNIX_EPOCH)), 1234);
    let before = std::time::UNIX_EPOCH - std::time::Duration::from_secs(1);
    assert_eq!(epoch_ms(before.duration_since(std::time::UNIX_EPOCH)), 0);
    assert!(now_ms() > 1_600_000_000_000);
    let start = std::time::Instant::now() - std::time::Duration::from_millis(2_900);
    assert_eq!(goose::clock::seconds_since(&start), 2);
}
