use agent_desktop::commands::AppTarget;
use agent_desktop::mcp::{line_step, LineStep, dispatch_tool, ensure_app_observed_mcp, key_shorthand, route_message, screenshot_reply, ArgValue, McpStep, ToolArg, ToolPlan};
use agent_desktop::platform::Os;
use agent_desktop::tools::tools_list;

fn arg(key: &str, value: ArgValue) -> ToolArg {
    ToolArg { key: key.to_string(), value }
}

fn text(key: &str, v: &str) -> ToolArg {
    arg(key, ArgValue::Text(v.to_string()))
}

#[test]
fn test_mcp_tools_list() {
    let tools = tools_list();
    assert!(!tools.is_empty());
    let names: Vec<&str> = tools.iter().map(|t| t.name.as_str()).collect();
    for expected in ["observe", "screenshot", "click", "type", "scroll", "key", "focus", "interact", "read", "wait"] {
        assert!(names.contains(&expected), "Expected tool '{}' not found in tools list: {:?}", expected, names);
    }
    for t in &tools {
        assert!(!t.description.is_empty(), "Tool '{}' missing description", t.name);
        assert!(!t.params.is_empty(), "Tool '{}' missing inputSchema", t.name);
    }
}

#[test]
fn tools_list_required_parameters() {
    let tools = tools_list();
    let required: Vec<(String, Vec<String>)> = tools.iter().map(|t| (t.name.clone(), t.required.clone())).collect();
    let want: Vec<(String, Vec<String>)> = [
        ("observe", vec![]),
        ("screenshot", vec![]),
        ("click", vec![]),
        ("type", vec!["text"]),
        ("scroll", vec!["direction"]),
        ("key", vec!["name"]),
        ("focus", vec![]),
        ("interact", vec!["action"]),
        ("read", vec![]),
        ("wait", vec!["query"]),
    ]
    .iter()
    .map(|(n, r)| (n.to_string(), r.iter().map(|s| s.to_string()).collect()))
    .collect();
    assert_eq!(required, want);
    let scale = tools[1].params.iter().find(|p| p.name == "scale").unwrap();
    assert_eq!(scale.kind, "number");
    assert_eq!(scale.description.as_deref(), Some("Scale factor (default: 0.5)"));
}

#[test]
fn every_listed_tool_is_dispatched() {
    for t in tools_list() {
        let mut args: Vec<ToolArg> = t.required.iter().map(|r| text(r, "v")).collect();
        args.push(text("unused", "x"));
        let plan = dispatch_tool(&t.name, &args);
        assert!(!matches!(plan, ToolPlan::Fail(_)), "tool {} was refused", t.name);
        for r in &t.required {
            let plan = dispatch_tool(&t.name, &vec![]);
            assert_eq!(plan, ToolPlan::Fail(format!("Missing required parameter: {}", r)));
        }
    }
}

#[test]
fn test_mcp_tools_call_missing_required_param() {
    match dispatch_tool("type", &vec![]) {
        ToolPlan::Fail(m) => assert!(m.contains("Missing"), "error message should mention the missing param; got: {}", m),
        other => panic!("should return isError: true, got {:?}", other),
    }
}

#[test]
fn test_mcp_unknown_method() {
    match route_message("unknown/method", true) {
        McpStep::Reject(m) => assert_eq!(m, "Method not found: unknown/method"),
        other => panic!("should return an error for unknown method, got {:?}", other),
    }
}

#[test]
fn route_known_methods() {
    assert_eq!(route_message("initialize", true), McpStep::Initialize);
    assert_eq!(route_message("notifications/initialized", false), McpStep::Ignore);
    assert_eq!(route_message("tools/list", true), McpStep::ListTools);
    assert_eq!(route_message("tools/call", true), McpStep::CallTool);
    assert_eq!(route_message("unknown/method", false), McpStep::Ignore);
    assert_eq!(route_message("", true), McpStep::Reject("Method not found: ".to_string()));
}

#[test]
fn unknown_tool() {
    assert_eq!(dispatch_tool("paint", &vec![]), ToolPlan::Fail("Unknown tool: paint".to_string()));
}

#[test]
fn observe_tool_defaults() {
    let p = dispatch_tool("observe", &vec![text("app", "Notes")]);
    assert_eq!(
        p,
        ToolPlan::Observe {
            app: Some("Notes".to_string()),
            pid: None,
            query: None,
            max_depth: None,
            max_elements: 100,
            format: "json".to_string(),
            visible_only: true,
        }
    );
    let p = dispatch_tool(
        "observe",
        &vec![arg("element", ArgValue::Integer(4)), text("format", "tree"), arg("include_hidden", ArgValue::Flag(true))],
    );
    assert_eq!(p, ToolPlan::ObserveElement { element: 4, format: "tree".to_string() });
    let p = dispatch_tool("observe", &vec![arg("include_hidden", ArgValue::Flag(true)), arg("max_elements", ArgValue::Integer(7))]);
    match p {
        ToolPlan::Observe { visible_only, max_elements, .. } => {
            assert!(!visible_only);
            assert_eq!(max_elements, 7);
        }
        other => panic!("unexpected {:?}", other),
    }
}

#[test]
fn integer_arguments_are_cut_like_casts() {
    // a pid above u32 keeps its low 32 bits; negative numbers are no u32
    let p = dispatch_tool("screenshot", &vec![arg("pid", ArgValue::Integer(0x1_0000_0005))]);
    assert_eq!(p, ToolPlan::Screenshot { app: None, pid: Some(5) });
    let p = dispatch_tool("screenshot", &vec![arg("pid", ArgValue::Integer(-5)), text("app", "x")]);
    assert_eq!(p, ToolPlan::Screenshot { app: Some("x".to_string()), pid: None });
    // a string where a number is expected is ignored
    let p = dispatch_tool("screenshot", &vec![text("pid", "12")]);
    assert_eq!(p, ToolPlan::Screenshot { app: None, pid: None });
}

#[test]
fn click_by_coordinates_or_element() {
    let p = dispatch_tool("click", &vec![arg("x", ArgValue::Integer(-20)), arg("y", ArgValue::Integer(30))]);
    assert_eq!(p, ToolPlan::ClickAt { app: None, pid: None, x: -20, y: 30 });
    let p = dispatch_tool("click", &vec![arg("x", ArgValue::Integer(1)), arg("element", ArgValue::Integer(9))]);
    assert_eq!(p, ToolPlan::ClickElement { app: None, pid: None, element: Some(9), query: None });
}

#[test]
fn key_tool_splits_shorthand() {
    let p = dispatch_tool("key", &vec![text("name", "cmd+shift+n"), arg("pid", ArgValue::Integer(3))]);
    assert_eq!(
        p,
        ToolPlan::Key { key: "n".to_string(), modifiers: Some("cmd,shift".to_string()), app: None, pid: Some(3) }
    );
    assert_eq!(key_shorthand("return"), ("return".to_string(), None));
    assert_eq!(key_shorthand("ctrl+c"), ("c".to_string(), Some("ctrl".to_string())));
}

#[test]
fn focus_tool_replies() {
    let p = dispatch_tool("focus", &vec![text("app", "Safari")]);
    assert_eq!(
        p,
        ToolPlan::Focus { app: Some("Safari".to_string()), pid: None, element: None, query: None, observe: false, reply: Some("Focused Safari".to_string()) }
    );
    let p = dispatch_tool("focus", &vec![arg("pid", ArgValue::Integer(44))]);
    match p {
        ToolPlan::Focus { reply, .. } => assert_eq!(reply, Some("Focused 44".to_string())),
        other => panic!("unexpected {:?}", other),
    }
    let p = dispatch_tool("focus", &vec![]);
    match p {
        ToolPlan::Focus { reply, observe, .. } => {
            assert_eq!(reply, Some("No target specified".to_string()));
            assert!(!observe);
        }
        other => panic!("unexpected {:?}", other),
    }
    let p = dispatch_tool("focus", &vec![text("app", "Safari"), text("query", "button")]);
    match p {
        ToolPlan::Focus { reply, observe, .. } => {
            assert_eq!(reply, None);
            assert!(observe);
        }
        other => panic!("unexpected {:?}", other),
    }
}

#[test]
fn read_and_wait_tools() {
    assert_eq!(dispatch_tool("read", &vec![arg("clipboard", ArgValue::Flag(true))]), ToolPlan::ReadClipboard);
    assert_eq!(
        dispatch_tool("read", &vec![arg("element", ArgValue::Integer(2))]),
        ToolPlan::ReadElement { element: Some(2), query: None }
    );
    assert_eq!(
        dispatch_tool("wait", &vec![text("query", "button"), arg("timeout", ArgValue::Integer(3))]),
        ToolPlan::Wait { query: "button".to_string(), app: None, pid: None, timeout: 3, interval: 500 }
    );
}

#[test]
fn interact_and_scroll_tools() {
    assert_eq!(
        dispatch_tool("interact", &vec![text("action", "press"), arg("element", ArgValue::Integer(5)), text("value", "v")]),
        ToolPlan::Interact { action: "press".to_string(), app: None, pid: None, element: Some(5), query: None, value: Some("v".to_string()) }
    );
    assert_eq!(
        dispatch_tool("scroll", &vec![text("direction", "up"), arg("amount", ArgValue::Integer(2))]),
        ToolPlan::Scroll { direction: "up".to_string(), app: None, pid: None, element: None, query: None, amount: Some(2) }
    );
    assert_eq!(dispatch_tool("scroll", &vec![]), ToolPlan::Fail("Missing required parameter: direction".to_string()));
    assert_eq!(dispatch_tool("interact", &vec![]), ToolPlan::Fail("Missing required parameter: action".to_string()));
    assert_eq!(dispatch_tool("wait", &vec![]), ToolPlan::Fail("Missing required parameter: query".to_string()));
    assert_eq!(dispatch_tool("key", &vec![]), ToolPlan::Fail("Missing required parameter: name".to_string()));
}

#[test]
fn screenshot_reply_is_a_data_url() {
    assert_eq!(screenshot_reply(&vec![1, 2, 3]), "data:image/png;base64,AQID");
    assert_eq!(screenshot_reply(&vec![0x89, b'P', b'N', b'G']), "data:image/png;base64,iVBORw==");
    assert_eq!(screenshot_reply(&vec![]), "data:image/png;base64,");
}

#[test]
fn nothing_to_observe_without_a_target() {
    assert_eq!(ensure_app_observed_mcp(Os::Linux, None, None, false, false), Ok(None));
    assert_eq!(ensure_app_observed_mcp(Os::Windows, None, None, false, false), Ok(None));
}

#[test]
fn a_named_app_is_focused_then_observed() {
    let (plan, req) = ensure_app_observed_mcp(Os::Linux, Some("firefox"), None, false, false).unwrap().unwrap();
    assert_eq!(plan.commands.len(), 1);
    assert_eq!(plan.commands[0].program, "xdotool");
    assert_eq!(plan.commands[0].args, vec!["search", "--name", "firefox", "windowactivate"]);
    assert_eq!(req.target, Some(AppTarget::ByName("firefox".to_string())));
    assert_eq!(req.options.max_depth, 10);
    assert_eq!(req.options.max_elements, 500);
    assert!(req.options.visible_only);
    // a process id is preferred for the observation
    let (_, req) = ensure_app_observed_mcp(Os::MacOs, Some("Safari"), Some(42), false, false).unwrap().unwrap();
    assert_eq!(req.target, Some(AppTarget::ByPid(42)));
}

#[test]
fn focus_refusals_reach_the_tool() {
    assert_eq!(
        ensure_app_observed_mcp(Os::Windows, Some("notepad"), None, false, false),
        Err("Focus not supported on this platform".to_string())
    );
    assert_eq!(
        ensure_app_observed_mcp(Os::Linux, Some("foot"), None, true, false),
        Err("Window focus on Wayland currently requires sway (swaymsg). Other compositors are not yet supported.".to_string())
    );
}

#[test]
fn lines_are_skipped_refused_or_routed() {
    assert_eq!(line_step("   ", None), LineStep::Skip);
    assert_eq!(line_step("{not json", None), LineStep::ParseError { code: -32700, message: "Parse error".to_string() });
    assert_eq!(line_step("{...}", Some(("tools/list", true))), LineStep::Route(McpStep::ListTools));
    assert_eq!(line_step("{...}", Some(("notifications/initialized", false))), LineStep::Route(McpStep::Ignore));
    assert_eq!(
        line_step("{...}", Some(("bogus", true))),
        LineStep::Route(McpStep::Reject("Method not found: bogus".to_string()))
    );
}

#[test]
fn screenshot_replies_pad_the_last_group() {
    assert_eq!(screenshot_reply(&vec![1]), "data:image/png;base64,AQ==");
    assert_eq!(screenshot_reply(&vec![1, 2]), "data:image/png;base64,AQI=");
    assert_eq!(screenshot_reply(&vec![255, 254, 253, 0]), "data:image/png;base64,//79AA==");
    assert_eq!(screenshot_reply(&vec![]), "data:image/png;base64,");
}
