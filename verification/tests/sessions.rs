use goose::markdown::{export_session_to_markdown, ContentKind, ExportMessage, Role};
use goose::session::{
    describe, display_path_with_tilde, with_tilde, write_line_or_broken_pipe_ok, SessionInfo,
    WriteOutcome,
};
use goose::session_export::{
    export_format, export_target, format_line, handle_diagnostics, import_source, imported_lines,
    publication_lines, session_to_export, ExportFormat, ExportTarget, ImportFormat, ImportSource,
    TransferError,
};
use goose::session_list::{handle_session_list, order_sessions, ListOutput};
use goose::session_remove::{
    after_selection, announce_removal, compile_pattern, compiled_pattern,
    prompt_interactive_session_removal, remove_sessions, removal_request, require_sessions,
    select_by_id, select_by_name, select_by_pattern, sessions_matching, RemovalError, RemovalMenu,
    RemovalNext, RemovalPrompt, RemovalRequest, RemovalStep,
};
use goose::session_select::{
    max_rows, prompt_interactive_session_selection, selection, shown_sessions, MenuItem,
    NEW_SESSION_SELECTION,
};

fn session(id: &str, name: &str, dir: &str, key: i128) -> SessionInfo {
    SessionInfo {
        id: id.to_string(),
        name: name.to_string(),
        working_dir: dir.to_string(),
        updated_at: format!("t{}", key),
        updated_at_key: key,
    }
}

fn sessions() -> Vec<SessionInfo> {
    vec![
        session("20250101_1", "first", "/home/u/Work", 20),
        session("20250101_2", "second", "/srv/data", 30),
        session("20250102_1", "first", "/home/u/WORKSHOP", 10),
        session("x", "", "/home/u", 20),
    ]
}

fn home() -> Option<String> {
    Some("/home/u".to_string())
}

fn lines(output: ListOutput) -> Vec<String> {
    match output {
        ListOutput::Lines(lines) => lines,
        ListOutput::Json(_) => panic!("expected lines"),
    }
}

// ── listing ──────────────────────────────────────────────────────────────────

#[test]
fn sessions_are_listed_newest_first() {
    let shown = lines(handle_session_list(&sessions(), "text", false, None, None, &home()));
    assert_eq!(
        shown,
        vec![
            "Available sessions:",
            "20250101_2 - second - t30 - /srv/data",
            "20250101_1 - first - t20 - ~/Work",
            "x -  - t20 - ~/",
            "20250102_1 - first - t10 - ~/WORKSHOP",
        ]
    );
}

#[test]
fn sessions_are_listed_oldest_first_on_request() {
    match handle_session_list(&sessions(), "json", true, None, None, &home()) {
        ListOutput::Json(order) => assert_eq!(order, vec![2, 0, 3, 1]),
        ListOutput::Lines(_) => panic!("expected JSON"),
    }
    match handle_session_list(&sessions(), "json", true, None, Some(2), &home()) {
        ListOutput::Json(order) => assert_eq!(order, vec![2, 0]),
        ListOutput::Lines(_) => panic!("expected JSON"),
    }
}

#[test]
fn directories_are_matched_whatever_the_case() {
    match handle_session_list(&sessions(), "json", false, Some("wORk"), None, &home()) {
        ListOutput::Json(order) => assert_eq!(order, vec![0, 2]),
        ListOutput::Lines(_) => panic!("expected JSON"),
    }
    let shown = lines(handle_session_list(&sessions(), "", false, Some("nowhere"), None, &None));
    assert_eq!(shown, vec!["No sessions found"]);
    let shown = lines(handle_session_list(&sessions(), "", false, None, Some(0), &None));
    assert_eq!(shown, vec!["No sessions found"]);
}

#[test]
fn equal_times_keep_their_order() {
    let list: Vec<SessionInfo> = (0..6).map(|i| session(&format!("s{}", i), "", "", i % 2)).collect();
    let all = vec![true; 6];
    assert_eq!(order_sessions(&list, &all, true), vec![0, 2, 4, 1, 3, 5]);
    assert_eq!(order_sessions(&list, &all, false), vec![1, 3, 5, 0, 2, 4]);
    let some = vec![true, false, true, true, false, false];
    assert_eq!(order_sessions(&list, &some, false), vec![3, 0, 2]);
}

#[test]
fn paths_below_home_show_a_tilde() {
    assert_eq!(display_path_with_tilde("/home/u/a/b", &home()), "~/a/b");
    assert_eq!(display_path_with_tilde("/home/user", &home()), "/home/user");
    assert_eq!(display_path_with_tilde("/home/u", &None), "/home/u");
    assert_eq!(with_tilde("/x", &Some("y".to_string())), "~/y");
    assert_eq!(with_tilde("/x", &None), "/x");
}

#[test]
fn a_broken_pipe_ends_the_output_without_an_error() {
    assert_eq!(write_line_or_broken_pipe_ok::<u8>(WriteOutcome::Written), Ok(true));
    assert_eq!(write_line_or_broken_pipe_ok::<u8>(WriteOutcome::BrokenPipe), Ok(false));
    assert_eq!(write_line_or_broken_pipe_ok(WriteOutcome::Failed(5u8)), Err(5));
}

#[test]
fn a_session_without_a_name_is_described_as_such() {
    assert_eq!(describe(""), "(no name)");
    assert_eq!(describe("x"), "x");
}

// ── removal ──────────────────────────────────────────────────────────────────

#[test]
fn an_id_counts_before_a_name_and_a_name_before_a_pattern() {
    let s = |t: &str| Some(t.to_string());
    assert!(matches!(
        removal_request(s("i"), s("n"), s("r")),
        RemovalRequest::ById(id) if id == "i"
    ));
    assert!(matches!(
        removal_request(None, s("n"), s("r")),
        RemovalRequest::ByName(name) if name == "n"
    ));
    assert!(matches!(
        removal_request(None, None, s("r")),
        RemovalRequest::ByPattern(r) if r == "r"
    ));
    assert!(matches!(removal_request(None, None, None), RemovalRequest::Interactive));
}

#[test]
fn an_unknown_id_is_an_error() {
    assert!(matches!(select_by_id("a", Some(5u8)), Ok(5)));
    let error = select_by_id::<u8>("a", None).err().unwrap();
    assert!(matches!(error, RemovalError::IdNotFound(_)));
    assert_eq!(error.message(), "Session ID 'a' not found.");
}

#[test]
fn the_first_session_of_a_name_is_removed() {
    assert!(matches!(select_by_name("first", &sessions()), Ok(0)));
    assert!(matches!(select_by_name("second", &sessions()), Ok(1)));
    let error = select_by_name("third", &sessions()).err().unwrap();
    assert_eq!(error.message(), "Session with name 'third' not found.");
}

#[test]
fn patterns_are_matched_against_ids() {
    let found = |p: &str| select_by_pattern(p, &sessions()).ok().unwrap();
    assert_eq!(found("^20250101"), vec![0, 1]);
    assert_eq!(found("_1$"), vec![0, 2]);
    assert_eq!(found("first"), Vec::<usize>::new());
    let error = select_by_pattern("(", &sessions()).err().unwrap();
    assert!(matches!(error, RemovalError::InvalidPattern { .. }));
    assert_eq!(error.message(), "Invalid regex pattern '('");
    let re = compile_pattern("^x$").ok().unwrap();
    assert_eq!(re.as_str(), "^x$");
    assert_eq!(sessions_matching(&re, &sessions()), vec![3]);
    assert!(compiled_pattern("x", regex::Regex::new("x")).is_ok());
    match compiled_pattern("[", regex::Regex::new("[")) {
        Err(RemovalError::InvalidPattern { pattern, cause }) => {
            assert_eq!(pattern, "[");
            assert_eq!(cause, regex::Regex::new("[").unwrap_err());
        }
        _ => panic!("expected a refusal"),
    }
}

#[test]
fn nothing_selected_is_nothing_removed() {
    let request = RemovalRequest::ByPattern("zzz".to_string());
    assert!(matches!(
        after_selection(&request, 0),
        RemovalNext::Say(line) if line == "Regex string 'zzz' does not match any sessions"
    ));
    assert!(matches!(after_selection(&request, 1), RemovalNext::Confirm));
    assert!(matches!(after_selection(&RemovalRequest::Interactive, 0), RemovalNext::Stop));
    assert!(matches!(after_selection(&RemovalRequest::Interactive, 2), RemovalNext::Confirm));
}

#[test]
fn rows_of_the_menu_stand_for_sessions() {
    let list = sessions();
    let descs: Vec<String> = list.iter().map(|s| describe(&s.name)).collect();
    let menu = RemovalMenu::new(&list, &descs);
    let items = menu.items();
    assert_eq!(
        items,
        vec![
            "t20 - first (20250101_1)",
            "t30 - second (20250101_2)",
            "t10 - first (20250102_1)",
            "t20 - (no name) (x)",
        ]
    );
    let chosen = vec![items[3].clone(), "no such row".to_string(), items[0].clone()];
    assert_eq!(menu.pick(&chosen), vec![3, 0]);
    assert_eq!(menu.pick(&vec![]), Vec::<usize>::new());
    match prompt_interactive_session_removal(&list, &descs) {
        RemovalPrompt::Pick(menu) => assert_eq!(menu.items(), items),
        RemovalPrompt::Nothing(_) => panic!("expected a menu"),
    }
}

#[test]
fn without_sessions_there_is_nothing_to_remove() {
    assert!(matches!(
        prompt_interactive_session_removal(&vec![], &vec![]),
        RemovalPrompt::Nothing(line) if line == "No sessions to delete."
    ));
    assert!(RemovalMenu::new(&vec![], &vec![]).items().is_empty());
    assert!(require_sessions(&sessions()).is_ok());
    let error = require_sessions(&vec![]).err().unwrap();
    assert_eq!(error.message(), "No sessions found.");
}

#[test]
fn of_equal_rows_the_last_session_counts() {
    let list = vec![session("a", "n", "/x", 1), session("a", "n", "/y", 1)];
    let descs = vec!["n".to_string(), "n".to_string()];
    let menu = RemovalMenu::new(&list, &descs);
    assert_eq!(menu.items(), vec!["t1 - n (a)"]);
    assert_eq!(menu.pick(&menu.items()), vec![1]);
}

#[test]
fn sessions_are_removed_only_when_confirmed() {
    let list = sessions();
    assert_eq!(
        announce_removal(&list, &vec![0, 1, 2, 3]),
        vec![
            "The following sessions will be removed:",
            "- 20250101_1 first",
            "- 20250101_2 second",
            "- 20250102_1 first",
            "- x ",
        ]
    );
    let steps = remove_sessions(&list, &vec![3, 1], true);
    assert_eq!(steps.len(), 2);
    assert!(matches!(
        &steps[1],
        RemovalStep::Remove { id, .. } if id == "20250101_2"
    ));
    assert!(matches!(
        &steps[0],
        RemovalStep::Remove { id, then } if id == "x" && then == "Session `x` removed."
    ));
    let steps = remove_sessions(&list, &vec![3, 1], false);
    assert_eq!(steps.len(), 1);
    assert!(matches!(
        &steps[0],
        RemovalStep::Print(line) if line == "Skipping deletion of the sessions."
    ));
}

// ── export ───────────────────────────────────────────────────────────────────

fn message(role: Role, contents: Vec<ContentKind>, text: &str) -> ExportMessage {
    ExportMessage { role, contents, text: text.to_string() }
}

#[test]
fn a_session_without_messages_says_so() {
    assert_eq!(
        export_session_to_markdown(&vec![], "demo"),
        "# Session Export: demo\n\n*(This session has no messages)*\n"
    );
}

#[test]
fn messages_have_headings_unless_they_are_tool_responses() {
    let messages = vec![
        message(Role::User, vec![ContentKind::Other], "hi"),
        message(Role::Assistant, vec![ContentKind::Other, ContentKind::ToolRequest], "call"),
        message(Role::User, vec![ContentKind::ToolResponse, ContentKind::ToolResponse], "result"),
        message(Role::User, vec![ContentKind::ToolResponse], "more"),
        message(Role::User, vec![ContentKind::ToolResponse, ContentKind::Other], "mixed"),
        message(Role::Assistant, vec![ContentKind::ToolResponse], "odd"),
    ];
    assert_eq!(
        export_session_to_markdown(&messages, "demo"),
        "# Session Export: demo\n\n*Total messages: 6*\n\n---\n\n\
         ### User:\nhi\n\n---\n\n\
         ### Assistant:\ncall\n\n---\n\n\
         result\n\n---\n\n\
         more\n\n---\n\n\
         ### User:\nmixed\n\n---\n\n\
         ### Assistant:\nodd\n\n---\n\n"
    );
}

#[test]
fn export_formats_are_named() {
    assert!(matches!(export_format("json", false), Ok(ExportFormat::Json)));
    assert!(matches!(export_format("yaml", false), Ok(ExportFormat::Yaml)));
    assert!(matches!(export_format("markdown", true), Ok(ExportFormat::Markdown)));
    let error = export_format("markdown", false).err().unwrap();
    assert_eq!(error.message(), "Session has no messages");
    let error = export_format("xml", true).err().unwrap();
    assert_eq!(error.message(), "Unsupported format: xml");
    assert!(matches!(session_to_export("s", Ok(1u8)), Ok(1)));
    let error = session_to_export::<u8>("s", Err("gone".to_string())).err().unwrap();
    assert_eq!(error.message(), "Session 's' not found or failed to read: gone");
}

#[test]
fn only_json_is_published() {
    let json = ExportFormat::Json;
    assert!(matches!(export_target(json, None, true, true), Ok(ExportTarget::Publish)));
    let error = export_target(json, None, true, false).err().unwrap();
    assert_eq!(error.message(), "goose was not built with nostr support");
    let error = export_target(ExportFormat::Yaml, Some("f"), true, true).err().unwrap();
    assert_eq!(error.message(), "Nostr session sharing only supports --format json");
    let error = export_target(json, Some("f"), true, true).err().unwrap();
    assert_eq!(error.message(), "Nostr session sharing cannot be combined with --output");
    assert!(matches!(export_target(json, None, false, false), Ok(ExportTarget::Screen)));
    match export_target(ExportFormat::Markdown, Some("out.md"), false, true) {
        Ok(ExportTarget::File { path, then, failure }) => {
            assert_eq!(path, "out.md");
            assert_eq!(then, "Session exported to out.md");
            assert_eq!(failure, "Failed to write to output file: out.md");
        }
        _ => panic!("expected a file"),
    }
    assert_eq!(
        publication_lines(&vec!["wss://a".to_string(), "wss://b".to_string()], "link"),
        vec![
            "Session published to Nostr relays:",
            "- wss://a",
            "- wss://b",
            "\nShare link:",
            "link",
        ]
    );
}

#[test]
fn links_are_recognised_on_import() {
    assert!(matches!(
        import_source("goose://sessions/nostr?x", false, true),
        Ok(ImportSource::Link)
    ));
    assert!(matches!(import_source("file.json", true, true), Ok(ImportSource::Link)));
    assert!(matches!(
        import_source("goose://sessions/nostr", false, false),
        Err(TransferError::NoNostrSupport)
    ));
    match import_source("goose://sessions", false, false) {
        Ok(ImportSource::File { path, failure }) => {
            assert_eq!(path, "goose://sessions");
            assert_eq!(failure, "Failed to read session import file: goose://sessions");
        }
        _ => panic!("expected a file"),
    }
    assert_eq!(format_line(&ImportFormat::Goose), "Detected format: goose");
    assert_eq!(format_line(&ImportFormat::Codex), "Detected format: Codex");
    assert_eq!(format_line(&ImportFormat::Pi), "Detected format: Pi");
    let named = ImportFormat::Named("Other".to_string());
    assert_eq!(format_line(&named), "Detected format: Other");
    assert_eq!(imported_lines("s1", "demo"), vec!["Session imported:", "s1 - demo"]);
}

#[test]
fn diagnostics_go_to_a_file_of_the_session() {
    let plan = handle_diagnostics("s1", None);
    assert_eq!(plan.begin, "Generating diagnostics bundle for session 's1'...");
    assert_eq!(plan.path, "diagnostics_s1.zip");
    assert_eq!(
        plan.failure,
        "Failed to write to generate diagnostics bundle for session 's1'"
    );
    assert_eq!(plan.create_failure, "Failed to create output file: diagnostics_s1.zip");
    assert_eq!(plan.write_failure, "Failed to write diagnostics data");
    assert_eq!(plan.end, "Diagnostics bundle saved to: diagnostics_s1.zip");
    assert_eq!(handle_diagnostics("s1", Some("/tmp/d.zip")).path, "/tmp/d.zip");
}

// ── selection ────────────────────────────────────────────────────────────────

fn entries(items: &[MenuItem]) -> Vec<(String, String)> {
    items.iter().map(|i| (i.value.clone(), i.label.clone())).collect()
}

fn pair(value: &str, label: &str) -> (String, String) {
    (value.to_string(), label.to_string())
}

#[test]
fn the_menu_offers_sessions_and_a_way_out() {
    let list = vec![session("a", "one", "/home/u/x", 1), session("b", "", "/srv", 2)];
    let descs = vec!["one".to_string(), "(no name)".to_string()];
    let menu = prompt_interactive_session_selection(&list, &vec![0, 1], &descs, &None, false, &home(), Some(24));
    let menu = menu.ok().unwrap();
    assert_eq!(menu.max_rows, 18);
    assert_eq!(
        entries(&menu.items),
        vec![
            pair("a", "t1 - one - ~/x"),
            pair("b", "t2 - (no name) - /srv"),
            pair("cancel", "Cancel"),
        ]
    );
    let dir = Some("/srv".to_string());
    let menu = prompt_interactive_session_selection(&list, &vec![1], &descs, &dir, true, &home(), None);
    let menu = menu.ok().unwrap();
    assert_eq!(menu.max_rows, 10);
    assert_eq!(
        entries(&menu.items),
        vec![
            pair(NEW_SESSION_SELECTION, "Start a new session (in current directory)"),
            pair("b", "t2 - (no name)"),
            pair("cancel", "Cancel"),
        ]
    );
}

#[test]
fn an_empty_menu_is_an_error_unless_a_session_can_be_started() {
    let none: Vec<SessionInfo> = vec![];
    let menu = prompt_interactive_session_selection(&none, &vec![], &vec![], &None, false, &home(), None);
    assert_eq!(menu.err().unwrap(), "No sessions found");
    let dir = Some("/home/u/p".to_string());
    let menu = prompt_interactive_session_selection(&none, &vec![], &vec![], &dir, false, &home(), None);
    assert_eq!(
        menu.err().unwrap(),
        "No sessions found for ~/p. Use --all to pick from sessions in any directory."
    );
    let menu = prompt_interactive_session_selection(&none, &vec![], &vec![], &dir, true, &home(), None);
    assert_eq!(menu.ok().unwrap().items.len(), 2);
}

#[test]
fn the_menu_fits_the_terminal() {
    assert_eq!(max_rows(None), 10);
    assert_eq!(max_rows(Some(0)), 3);
    assert_eq!(max_rows(Some(8)), 3);
    assert_eq!(max_rows(Some(9)), 3);
    assert_eq!(max_rows(Some(10)), 4);
    assert_eq!(max_rows(Some(65535)), 65529);
}

#[test]
fn a_selection_can_be_canceled() {
    assert_eq!(selection("a".to_string()), Ok("a".to_string()));
    assert_eq!(selection("cancel".to_string()), Err("Selection canceled".to_string()));
    assert_eq!(NEW_SESSION_SELECTION, "\0new-session");
    assert_eq!(
        selection(NEW_SESSION_SELECTION.to_string()),
        Ok(NEW_SESSION_SELECTION.to_string())
    );
}

#[test]
fn sessions_are_found_by_their_directory() {
    let dirs = vec!["/a".to_string(), "/b".to_string(), "/a".to_string()];
    assert_eq!(shown_sessions(&dirs, Some("/a")), vec![0, 2]);
    assert_eq!(shown_sessions(&dirs, Some("/a/")), vec![0, 2]);
    assert_eq!(shown_sessions(&dirs, Some("/c")), Vec::<usize>::new());
    assert_eq!(shown_sessions(&dirs, None), vec![0, 1, 2]);
}
