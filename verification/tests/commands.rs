use agent_desktop::input::{checked_click_point, click_point, click_reply, clicked_element_reply, parse_offset};
use agent_desktop::roles::parse_role_filter;
use agent_desktop::tree::{Bounds, ElementRole};
use agent_desktop::commands::{
    action_failure_message, action_request, element_not_found_message, observe_request, perform_action,
    perform_refreshed_action, refresh_target, ActionStep, SavedQuery,
    run_interact, run_observe_silent, ActionRequest, AppTarget, QueryOptions,
};
use agent_desktop::input::{
    click_at, click_failure_message, get_block, run_scroll, scroll, scroll_point, type_message, type_text,
    InputAction,
};
use agent_desktop::snapshot::{get_tree, ElementCache, FoundApp};
use agent_desktop::tree::{PlatformRole, RawNode, TraversalOptions, ElementStates};
use agent_desktop::keys::{parse_key_name, parse_modifier, run_key, Key};
use agent_desktop::resolve::{
    pick_query_match, resolve_element, resolve_element_mcp, resolve_element_optional,
    resolve_element_optional_mcp, ElementRef,
};

#[test]
fn test_get_block() {
    let ids = vec![1u32];
    assert!(get_block(&ids, 1).is_ok());
    assert!(get_block(&ids, 99).is_err());
}

#[test]
fn get_block_reports_the_range() {
    let ids = vec![1u32, 2, 3];
    assert_eq!(get_block(&ids, 2), Ok(1));
    assert_eq!(get_block(&ids, 7), Err("Block 7 not found. Available blocks: 1-3".to_string()));
}

#[test]
fn test_scroll_invalid_direction() {
    let r = run_scroll(None, "diagonal", None);
    let m = r.unwrap_err();
    assert!(m.contains("Invalid direction"));
    assert_eq!(m, "Invalid direction 'diagonal'. Must be one of: up, down, left, right");
}

#[test]
fn run_scroll_defaults_to_three_clicks() {
    let c = run_scroll(None, "down", None).unwrap();
    assert_eq!(c.amount, 3);
    assert_eq!(c.message, "Scrolled down 3 clicks");
    let c = run_scroll(Some(12), "left", Some(5)).unwrap();
    assert_eq!(c.amount, 5);
    assert_eq!(c.message, "Scrolled left 5 clicks in element 12");
}

#[test]
fn scroll_deltas_by_direction() {
    let at = (10, 20);
    assert_eq!(scroll("up", 3, at), Ok(InputAction::Scroll { x: 10, y: 20, dx: 0, dy: -3 }));
    assert_eq!(scroll("down", 3, at), Ok(InputAction::Scroll { x: 10, y: 20, dx: 0, dy: 3 }));
    assert_eq!(scroll("left", 2, at), Ok(InputAction::Scroll { x: 10, y: 20, dx: -2, dy: 0 }));
    assert_eq!(scroll("right", 2, at), Ok(InputAction::Scroll { x: 10, y: 20, dx: 2, dy: 0 }));
    assert_eq!(scroll("sideways", 2, at), Err("Invalid scroll direction: sideways".to_string()));
    // amounts beyond i32 wrap as `as i32` does
    assert_eq!(scroll("down", 0xffff_ffff, at), Ok(InputAction::Scroll { x: 10, y: 20, dx: 0, dy: -1 }));
}

#[test]
fn scroll_point_defaults_to_screen_middle() {
    assert_eq!(scroll_point(None, 1920, 1080), (960, 540));
    assert_eq!(scroll_point(None, 1281, 801), (640, 400));
    assert_eq!(scroll_point(Some((5, -7)), 1920, 1080), (5, -7));
}

#[test]
fn click_and_type_actions() {
    assert_eq!(click_at(-4, 9), InputAction::Click { x: -4, y: 9 });
    assert_eq!(type_text("héllo"), InputAction::TypeText("héllo".to_string()));
}

#[test]
fn type_reports() {
    assert_eq!(type_message(None, "hi"), "Typed 'hi'");
    assert_eq!(type_message(Some(4), "hi"), "Typed 'hi' in block 4");
    assert_eq!(click_failure_message(4, -10, 250), "Failed to click block 4 at (-10, 250)");
}

#[test]
fn run_interact_reports_the_action() {
    assert_eq!(run_interact(7, "press", None), "Performed 'press' on element 7");
    assert_eq!(run_interact(12, "set-value", Some("abc")), "Performed 'set-value' on element 12 with value 'abc'");
}

#[test]
fn perform_action_names() {
    assert_eq!(action_request("press", None), Ok(ActionRequest::Press));
    assert_eq!(action_request("click", None), Ok(ActionRequest::Press));
    assert_eq!(action_request("activate", Some("x")), Ok(ActionRequest::Press));
    assert_eq!(action_request("focus", None), Ok(ActionRequest::Focus));
    assert_eq!(action_request("toggle", None), Ok(ActionRequest::Toggle));
    assert_eq!(action_request("expand", None), Ok(ActionRequest::Expand));
    assert_eq!(action_request("collapse", None), Ok(ActionRequest::Collapse));
    assert_eq!(action_request("select", None), Ok(ActionRequest::Select));
    assert_eq!(action_request("show_menu", None), Ok(ActionRequest::ShowMenu));
    assert_eq!(action_request("show-menu", None), Ok(ActionRequest::ShowMenu));
    assert_eq!(action_request("setvalue", Some("42")), Ok(ActionRequest::SetValue("42".to_string())));
    assert_eq!(action_request("AXRaise", None), Ok(ActionRequest::Other("AXRaise".to_string())));
}

#[test]
fn perform_action_set_value_needs_a_value() {
    assert_eq!(
        action_request("set_value", None),
        Err("set-value action requires --value parameter".to_string())
    );
}

#[test]
fn action_messages() {
    assert_eq!(action_failure_message("press", 5, "busy"), "Action 'press' failed on element 5: busy");
    assert_eq!(element_not_found_message(5), "Element 5 not found. Run `agent-desktop observe` first.");
}

#[test]
fn test_click_without_state_fails() {
    let m = refresh_target(None).unwrap_err();
    // nothing cached in this process either
    assert_eq!(perform_action(&ElementCache::new(), 1, "press", None), Ok(ActionStep::NotCached));
    assert!(m.contains("agent-desktop observe"));
}

#[test]
fn refresh_target_needs_one_application() {
    let (pid, o) = refresh_target(Some(saved(321, vec![]))).unwrap();
    assert_eq!(pid, 321);
    assert_eq!((o.max_depth, o.max_elements, o.visible_only), (7, 50, true));
    assert!(o.roles.is_none());
    let (_, o) = refresh_target(Some(saved(5, vec!["button", "text_field"]))).unwrap();
    assert_eq!(o.roles, Some(vec![ElementRole::Button, ElementRole::TextField]));
    assert!(refresh_target(Some(saved(0, vec![]))).unwrap_err().starts_with("Current state is an all-apps overview."));
}

#[test]
fn run_observe_silent_prefers_the_pid() {
    let r = run_observe_silent(Some("Safari"), Some(42)).unwrap();
    assert_eq!(r.target, Some(AppTarget::ByPid(42)));
    assert_eq!(r.options, QueryOptions { max_depth: 10, max_elements: 500, visible_only: true, include_raw: false });
    let r = run_observe_silent(Some("Safari"), None).unwrap();
    assert_eq!(r.target, Some(AppTarget::ByName("Safari".to_string())));
    assert_eq!(run_observe_silent(None, None), Err("No app target specified".to_string()));
}

#[test]
fn observe_depth_defaults() {
    let all = observe_request(None, None, None, 500, true, false);
    assert_eq!(all.target, None);
    assert_eq!(all.options.max_depth, 1);
    let one = observe_request(Some("Notes"), None, None, 200, false, true);
    assert_eq!(one.options, QueryOptions { max_depth: 10, max_elements: 200, visible_only: false, include_raw: true });
    let deep = observe_request(None, Some(7), Some(3), 500, true, false);
    assert_eq!(deep.target, Some(AppTarget::ByPid(7)));
    assert_eq!(deep.options.max_depth, 3);
}

#[test]
fn resolve_element_cases() {
    assert_eq!(resolve_element(Some(3), None), Ok(ElementRef::Id(3)));
    assert_eq!(resolve_element(None, Some("button")), Ok(ElementRef::Query("button".to_string())));
    assert_eq!(resolve_element(Some(3), Some("button")), Err("Cannot specify both --element and --query".to_string()));
    assert_eq!(resolve_element(None, None), Err("Must specify either --element or --query".to_string()));
    assert_eq!(resolve_element_optional(None, None), Ok(None));
    assert_eq!(resolve_element_optional(Some(2), None), Ok(Some(ElementRef::Id(2))));
    assert_eq!(resolve_element_mcp(Some(1), Some("x")), Err("Cannot specify both element and query".to_string()));
    assert_eq!(resolve_element_mcp(None, None), Err("Must specify either element or query".to_string()));
    assert_eq!(resolve_element_optional_mcp(None, Some("q")), Ok(Some(ElementRef::Query("q".to_string()))));
}

#[test]
fn query_must_match_exactly_one() {
    assert_eq!(pick_query_match("button", &vec![8]), Ok(8));
    assert_eq!(pick_query_match("button", &vec![]), Err("Query 'button' matched no elements".to_string()));
    assert_eq!(
        pick_query_match("button", &vec![3, 14, 15]),
        Err("Query 'button' matched 3 elements (IDs: [3, 14, 15]). Use :nth(N) to select one.".to_string())
    );
}

#[test]
fn key_names() {
    assert_eq!(parse_key_name("Return").unwrap(), Key::Enter);
    assert_eq!(parse_key_name("ESC").unwrap(), Key::Escape);
    assert_eq!(parse_key_name("delete").unwrap(), Key::Backspace);
    assert_eq!(parse_key_name("forward_delete").unwrap(), Key::Delete);
    assert_eq!(parse_key_name("PageUp").unwrap(), Key::PageUp);
    assert_eq!(parse_key_name("f12").unwrap(), Key::F(12));
    assert_eq!(parse_key_name("a").unwrap(), Key::Char('a'));
    assert_eq!(parse_key_name("Q").unwrap(), Key::Char('q'));
    let e = parse_key_name("hyper").unwrap_err();
    assert!(e.starts_with("Unknown key 'hyper'. Use a single character or one of:"));
}

#[test]
fn modifier_names() {
    let m = |s: &str| parse_modifier(&s.chars().collect::<Vec<char>>());
    assert_eq!(m("cmd"), Key::Meta);
    assert_eq!(m("command"), Key::Meta);
    assert_eq!(m("shift"), Key::Shift);
    assert_eq!(m("option"), Key::Alt);
    assert_eq!(m("control"), Key::Ctrl);
    assert_eq!(m("other"), Key::Meta);
}

#[test]
fn run_key_reports_and_checks_modifiers() {
    let p = run_key("return", None).unwrap();
    assert_eq!(p.key, Key::Enter);
    assert!(p.held.is_empty());
    assert_eq!(p.message, "Pressed key 'return'");
    let p = run_key("n", Some("cmd, shift")).unwrap();
    assert_eq!(p.key, Key::Char('n'));
    assert_eq!(p.held, vec![Key::Meta, Key::Shift]);
    assert_eq!(p.message, "Pressed cmd+shift+n");
    assert_eq!(
        run_key("n", Some("cmd,hyper")).unwrap_err(),
        "Unknown modifier 'hyper'. Valid modifiers: cmd, shift, alt, ctrl"
    );
    assert!(run_key("nope", Some("ctrl")).unwrap_err().starts_with("Unknown key 'nope'"));
}

#[test]
fn offsets_and_click_points() {
    assert_eq!(parse_offset("10,-5"), Ok((10, -5)));
    assert_eq!(parse_offset(" 3 , 4 "), Ok((3, 4)));
    assert_eq!(parse_offset("+7,-2147483648"), Ok((7, i32::MIN)));
    assert_eq!(parse_offset("invalid"), Err("Offset must be in format x,y".to_string()));
    assert_eq!(parse_offset("1,2147483648"), Err("Offset must be in format x,y".to_string()));
    assert_eq!(parse_offset("-+1,2"), Err("Offset must be in format x,y".to_string()));
    let b = Bounds { x: 100, y: 50, width: 41, height: 20 };
    assert_eq!(click_point(b, None), (120, 60));
    assert_eq!(click_point(b, Some((-20, 5))), (100, 65));
}

#[test]
fn role_filters() {
    assert_eq!(parse_role_filter("button,text_field"), vec![ElementRole::Button, ElementRole::TextField]);
    assert_eq!(parse_role_filter(" check_box , nonsense,menu_item"), vec![ElementRole::CheckBox, ElementRole::MenuItem]);
    assert!(parse_role_filter("").is_empty());
}

#[test]
fn scrolling_up_undoes_down() {
    for amount in [0u32, 1, 3, 1000, 0x7fff_ffff] {
        let at = (0, 0);
        match (scroll("up", amount, at), scroll("down", amount, at)) {
            (Ok(InputAction::Scroll { dx: ux, dy: uy, .. }), Ok(InputAction::Scroll { dx: dx2, dy: dy2, .. })) => {
                assert_eq!((ux, uy), (-dx2, -dy2));
            }
            other => panic!("unexpected {:?}", other),
        }
    }
}

#[test]
fn test_click_invalid_offset_format() {
    // `click --element 1 --offset invalid`: the element resolves, the offset does not
    assert_eq!(resolve_element(Some(1), None), Ok(ElementRef::Id(1)));
    let m = parse_offset("invalid").unwrap_err();
    assert!(m.contains("Offset must be in format"));
}

#[test]
fn test_scroll_without_element_no_state_needed() {
    // `scroll --direction up`: no element, so nothing is looked up in a saved state
    assert_eq!(resolve_element_optional(None, None), Ok(None));
    let c = run_scroll(None, "up", None).unwrap();
    assert!(!c.message.contains("state"));
    assert!(!c.message.contains("observe"));
}

fn saved(pid: u32, roles: Vec<&str>) -> SavedQuery {
    SavedQuery { pid, max_depth: 7, max_elements: 50, visible_only: true, roles: roles.into_iter().map(|r| r.to_string()).collect() }
}

fn leaf(source: u64) -> RawNode {
    RawNode {
        source,
        role: PlatformRole::Button,
        name: None,
        value: None,
        description: None,
        bounds: None,
        actions: vec![],
        states: ElementStates { enabled: true, visible: true, focused: false, checked: None, selected: false, expanded: None, editable: false },
        children: vec![],
    }
}

fn cached() -> ElementCache {
    let mut cache = ElementCache::new();
    let mut root = leaf(40);
    root.children = vec![leaf(41)];
    let o = TraversalOptions { max_depth: 5, max_elements: 10, visible_only: false, roles: None };
    get_tree(Ok(FoundApp { name: "A".to_string(), pid: Some(9), root }), (1, 1), &o, &mut cache).unwrap();
    cache
}

#[test]
fn cached_elements_are_acted_on_at_once() {
    let cache = cached();
    assert_eq!(
        perform_action(&cache, 2, "set-value", Some("hi")),
        Ok(ActionStep::Act { source: 41, request: ActionRequest::SetValue("hi".to_string()) })
    );
    assert_eq!(
        perform_action(&cache, 1, "set_value", None),
        Err("set-value action requires --value parameter".to_string())
    );
    assert_eq!(perform_action(&cache, 3, "press", None), Ok(ActionStep::NotCached));
}

#[test]
fn after_a_refresh_the_element_must_be_cached() {
    let cache = cached();
    assert_eq!(perform_refreshed_action(&cache, 1, "press", None), Ok((40, ActionRequest::Press)));
    assert_eq!(
        perform_refreshed_action(&cache, 8, "press", None),
        Err("Element 8 not found. Run `agent-desktop observe` first.".to_string())
    );
}

#[test]
fn click_points_and_replies() {
    let b = Bounds { x: 10, y: 20, width: 100, height: 50 };
    assert_eq!(checked_click_point(b, Some((-3, 4))), Some((57, 49)));
    let far = Bounds { x: i32::MAX, y: 0, width: 10, height: 10 };
    assert_eq!(checked_click_point(far, None), None);
    assert_eq!(checked_click_point(Bounds { x: 0, y: 0, width: -2, height: 4 }, None), None);
    assert_eq!(click_reply(-5, 12), "Clicked at (-5, 12)");
    assert_eq!(clicked_element_reply(3, 57, 49), "Clicked element 3 at (57, 49)");
}
