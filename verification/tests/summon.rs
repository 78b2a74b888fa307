use goose::summon::{
    begin_server, call_allowed, is_nested, list_tools, nested_from, server_instructions, NamedTool, NestedFlag,
    SummonMcpServer, ToolPage,
};

#[test]
fn nested_from_none_means_not_nested() {
    assert!(!nested_from(None), "absent var must not be nested");
}

#[test]
fn nested_from_empty_means_not_nested() {
    assert!(!nested_from(Some("")), "empty value must not be nested");
}

#[test]
fn nested_from_zero_means_not_nested() {
    assert!(!nested_from(Some("0")), "value '0' must not be nested");
}

#[test]
fn nested_from_one_means_nested() {
    assert!(nested_from(Some("1")), "value '1' must be nested");
}

#[test]
fn nested_from_arbitrary_nonempty_means_nested() {
    assert!(
        nested_from(Some("yes")),
        "non-empty non-zero value must be nested"
    );
    assert!(
        nested_from(Some("true")),
        "non-empty non-zero value must be nested"
    );
}

#[test]
fn the_flag_is_read_once() {
    let mut flag = NestedFlag::new();
    assert!(!is_nested(&mut flag, None));
    assert!(!is_nested(&mut flag, Some("1")));
    let mut flag = NestedFlag::new();
    assert!(is_nested(&mut flag, Some("1")));
    assert!(is_nested(&mut flag, Some("0")));
}

#[test]
fn a_server_marks_its_children_and_not_itself() {
    let mut flag = NestedFlag::new();
    let setting = begin_server(&mut flag, None);
    assert_eq!(setting.variable, "GOOSE_SUMMON_NESTED");
    assert_eq!(setting.value, "1");
    assert!(!is_nested(&mut flag, Some(&setting.value)));
    let mut child = NestedFlag::new();
    assert!(is_nested(&mut child, Some(&setting.value)));
}

fn page() -> ToolPage<u8, u8> {
    ToolPage {
        tools: vec![
            NamedTool { name: "delegate".to_string(), tool: 1 },
            NamedTool { name: "load".to_string(), tool: 2 },
            NamedTool { name: "loader".to_string(), tool: 3 },
        ],
        next_cursor: Some("next".to_string()),
        meta: Some(9),
    }
}

#[test]
fn a_nested_server_offers_load_only() {
    let shown = list_tools(true, page());
    assert_eq!(shown.tools.len(), 1);
    assert_eq!(shown.tools[0].name, "load");
    assert_eq!(shown.tools[0].tool, 2);
    assert_eq!(shown.next_cursor, None);
    assert_eq!(shown.meta, None);
}

#[test]
fn a_nested_server_runs_load_only() {
    assert!(call_allowed(true, "load"));
    assert!(!call_allowed(true, "delegate"));
    assert!(!call_allowed(true, "loader"));
    assert!(call_allowed(false, "delegate"));
}

#[test]
fn a_top_server_offers_everything() {
    let shown = list_tools(false, page());
    let names: Vec<&str> = shown.tools.iter().map(|t| t.name.as_str()).collect();
    assert_eq!(names, vec!["delegate", "load", "loader"]);
    assert_eq!(shown.next_cursor, Some("next".to_string()));
    assert_eq!(shown.meta, Some(9));
}

#[test]
fn instructions_depend_on_nesting() {
    assert_eq!(
        server_instructions(true),
        "Goose summon extension (nested): delegation is unavailable at this depth — \
         use `load` to read available recipes/agents and do the work directly."
    );
    assert_eq!(
        server_instructions(false),
        "Goose summon extension: use `delegate` to run subagent tasks and \
         `load` to list/read available recipes and agents."
    );
}

#[test]
fn a_server_keeps_its_session() {
    let server = SummonMcpServer::new(5u8, "s1".to_string());
    assert_eq!(server.client, 5);
    assert_eq!(server.session_id, "s1");
}
