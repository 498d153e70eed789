use agent_desktop::render::{print_element_summary, print_tree, print_tree_node, role_distribution, snapshot_xml};
use agent_desktop::query::{filter_by_query, parse_query, query_elements, resolve_saved_query, wait_step, WaitStep};
use agent_desktop::snapshot::{
    get_all_apps_overview, get_tree, map_xa11y_error, ElementCache, FoundApp, LookupError,
};
use agent_desktop::subtree::{observe_subtree, print_element_tree};
use agent_desktop::tree::{
    map_xa11y_role, read_further, overview_elements, traverse_element, tree_elements, role_name, AppTree, Bounds, Element, ElementRole, ElementStates,
    PlatformRole, RawNode, TraversalOptions,
};

fn states(visible: bool) -> ElementStates {
    ElementStates { enabled: true, visible, focused: false, checked: None, selected: false, expanded: None, editable: false }
}

fn node(source: u64, role: PlatformRole, name: Option<&str>, visible: bool, children: Vec<RawNode>) -> RawNode {
    RawNode {
        source,
        role,
        name: name.map(|s| s.to_string()),
        value: None,
        description: None,
        bounds: None,
        actions: vec![],
        states: states(visible),
        children,
    }
}

fn opts(max_depth: u32, max_elements: u32, visible_only: bool) -> TraversalOptions {
    TraversalOptions { max_depth, max_elements, visible_only, roles: None }
}

/// window(1)
///   group(2, hidden)
///     button(3)
///   text(4)
///     image(5)
fn sample() -> RawNode {
    node(1, PlatformRole::Window, Some("Main"), true, vec![
        node(2, PlatformRole::Group, None, false, vec![node(3, PlatformRole::Button, Some("OK"), true, vec![])]),
        node(4, PlatformRole::StaticText, Some("Hello"), true, vec![node(5, PlatformRole::Image, None, true, vec![])]),
    ])
}

fn summary(es: &[Element]) -> Vec<(u32, u64, Option<u32>, u32, Vec<u32>)> {
    es.iter().map(|e| (e.id, e.source, e.parent, e.depth, e.children.clone())).collect()
}

#[test]
fn traversal_numbers_in_preorder() {
    let es = tree_elements(&sample(), &opts(10, 100, false), "Notes");
    assert_eq!(
        summary(&es),
        vec![
            (1, 1, None, 0, vec![2, 4]),
            (2, 2, Some(1), 1, vec![3]),
            (3, 3, Some(2), 2, vec![]),
            (4, 4, Some(1), 1, vec![5]),
            (5, 5, Some(4), 2, vec![]),
        ]
    );
    assert!(es.iter().all(|e| e.app == "Notes"));
    assert_eq!(es[0].role, ElementRole::Window);
    assert_eq!(es[0].name.as_deref(), Some("Main"));
}

#[test]
fn hidden_nodes_pass_their_parent_on() {
    let es = tree_elements(&sample(), &opts(10, 100, true), "Notes");
    assert_eq!(
        summary(&es),
        vec![
            (1, 1, None, 0, vec![2, 3]),
            (2, 3, Some(1), 2, vec![]),
            (3, 4, Some(1), 1, vec![4]),
            (4, 5, Some(3), 2, vec![]),
        ]
    );
}

#[test]
fn role_filter_keeps_the_root() {
    let mut o = opts(10, 100, false);
    o.roles = Some(vec![ElementRole::Button]);
    let es = tree_elements(&sample(), &o, "Notes");
    assert_eq!(summary(&es), vec![(1, 1, None, 0, vec![2]), (2, 3, Some(1), 2, vec![])]);
}

#[test]
fn depth_and_count_limits() {
    let es = tree_elements(&sample(), &opts(1, 100, false), "Notes");
    assert_eq!(es.iter().map(|e| e.source).collect::<Vec<_>>(), vec![1, 2, 4]);
    let es = tree_elements(&sample(), &opts(10, 2, false), "Notes");
    assert_eq!(summary(&es), vec![(1, 1, None, 0, vec![2]), (2, 2, Some(1), 1, vec![])]);
    assert!(tree_elements(&sample(), &opts(10, 0, false), "Notes").is_empty());
}

#[test]
fn overview_numbers_across_apps() {
    let apps = vec![
        AppTree { name: "A".to_string(), root: node(10, PlatformRole::Application, Some("A"), true, vec![node(11, PlatformRole::Window, None, true, vec![])]) },
        AppTree { name: "".to_string(), root: node(20, PlatformRole::Application, None, true, vec![]) },
        AppTree { name: "C".to_string(), root: node(30, PlatformRole::Application, Some("C"), true, vec![]) },
    ];
    let es = overview_elements(&apps, &opts(1, 500, true));
    assert_eq!(
        es.iter().map(|e| (e.id, e.source, e.app.clone())).collect::<Vec<_>>(),
        vec![(1, 10, "A".to_string()), (2, 11, "A".to_string()), (3, 30, "C".to_string())]
    );
    let es = overview_elements(&apps, &opts(1, 1, true));
    assert_eq!(es.len(), 1);
}

#[test]
fn roles_normalize() {
    assert_eq!(map_xa11y_role(PlatformRole::TextArea), ElementRole::TextField);
    assert_eq!(map_xa11y_role(PlatformRole::SpinButton), ElementRole::TextField);
    assert_eq!(map_xa11y_role(PlatformRole::Switch), ElementRole::CheckBox);
    assert_eq!(map_xa11y_role(PlatformRole::ScrollThumb), ElementRole::ScrollBar);
    assert_eq!(map_xa11y_role(PlatformRole::Navigation), ElementRole::Group);
    assert_eq!(map_xa11y_role(PlatformRole::Tooltip), ElementRole::Unknown);
    assert_eq!(map_xa11y_role(PlatformRole::Heading), ElementRole::Heading);
    assert_eq!(role_name(ElementRole::TextField), "text_field");
    assert_eq!(role_name(ElementRole::Button), "button");
}

fn decorated() -> Vec<Element> {
    let mut es = tree_elements(&sample(), &opts(10, 100, false), "Notes");
    es[0].bounds = Some(Bounds { x: 0, y: -5, width: 800, height: 600 });
    es[2].actions = vec!["press".to_string(), "focus".to_string()];
    es[2].states.focused = true;
    es[2].states.checked = Some(true);
    es[3].states.enabled = false;
    es
}

#[test]
fn element_summary_line() {
    let es = decorated();
    assert_eq!(print_element_summary(&es[0]), "[1] window \"Main\" (0,-5 800x600)");
    assert_eq!(print_element_summary(&es[2]), "[3] button \"OK\"");
}

#[test]
fn tree_lines() {
    let es = decorated();
    let lines = print_tree(&es, "Notes", 42, es.len());
    assert_eq!(
        lines,
        vec![
            "Notes (pid: 42)",
            "└── [1] window \"Main\" (0,-5 800x600)",
            "    ├── [2] group",
            "    │   └── [3] button \"OK\" [press,focus] {focused,checked}",
            "    └── [4] static_text \"Hello\" {disabled}",
            "        └── [5] image",
        ]
    );
    let all = print_tree(&es, "all", 0, 5);
    assert_eq!(all[0], "All applications (5 elements)");
}

#[test]
fn tree_node_lines_with_prefix() {
    let es = decorated();
    let mut out = Vec::new();
    print_tree_node(&es, 3, &"> ".chars().collect(), false, &mut out);
    assert_eq!(out, vec!["> ├── [4] static_text \"Hello\" {disabled}", "> │   └── [5] image"]);
}

#[test]
fn subtree_of_an_element() {
    let es = decorated();
    assert_eq!(observe_subtree(&es, 2), Ok(vec![1, 2]));
    assert_eq!(observe_subtree(&es, 1), Ok(vec![0, 1, 2, 3, 4]));
    assert_eq!(observe_subtree(&es, 9), Err("Element 9 not found in last observe state".to_string()));
    let lines = print_element_tree(&es, 4, 2);
    assert_eq!(
        lines,
        vec!["Element 4 subtree (2 elements):", "└── [4] static_text \"Hello\" {disabled}", "    └── [5] image"]
    );
}

#[test]
fn query_result_header() {
    assert_eq!(agent_desktop::render::query_header("button", 3), "Query 'button' matched 3 elements:");
}

#[test]
fn get_tree_records_the_observation_and_caches_it() {
    let mut cache = ElementCache::new();
    assert_eq!(cache.lookup(1), None);
    let found = Ok(FoundApp { name: "Notes".to_string(), pid: Some(77), root: sample() });
    let mut o = opts(10, 100, false);
    o.roles = Some(vec![ElementRole::Window, ElementRole::Button]);
    let s = get_tree(found, (1920, 1080), &o, &mut cache).unwrap();
    assert_eq!(s.app_name, "Notes");
    assert_eq!(s.pid, 77);
    assert_eq!((s.screen_width, s.screen_height), (1920, 1080));
    assert_eq!(s.element_count, s.elements.len());
    assert_eq!(s.elements.iter().map(|e| e.id).collect::<Vec<_>>(), vec![1, 2]);
    assert_eq!((s.query_max_depth, s.query_max_elements, s.query_visible_only), (10, 100, false));
    assert_eq!(s.query_roles, vec!["window".to_string(), "button".to_string()]);
    // each number found, with its handle; no other number
    assert_eq!(cache.lookup(1), Some(1));
    assert_eq!(cache.lookup(2), Some(3));
    assert_eq!(cache.lookup(3), None);
    // no process id is recorded as 0
    let found = Ok(FoundApp { name: "X".to_string(), pid: None, root: sample() });
    assert_eq!(get_tree(found, (1, 1), &opts(10, 100, false), &mut cache).unwrap().pid, 0);
    assert_eq!(cache.lookup(5), Some(5));
}

#[test]
fn failed_lookups_leave_the_cache() {
    let mut cache = ElementCache::new();
    let found = Ok(FoundApp { name: "Notes".to_string(), pid: Some(1), root: sample() });
    get_tree(found, (1, 1), &opts(10, 100, false), &mut cache).unwrap();
    let denied = LookupError::PermissionDenied { instructions: "Open System Settings.".to_string() };
    let m = get_tree(Err(denied), (1, 1), &opts(10, 100, false), &mut cache).unwrap_err();
    assert_eq!(m, "Accessibility permission denied.\n\nOpen System Settings.\n\nRe-run after granting permission.");
    assert_eq!(cache.lookup(4), Some(4));
    let m = get_all_apps_overview(Err(LookupError::Other("no bus".to_string())), (1, 1), &opts(1, 10, true), &mut cache)
        .unwrap_err();
    assert_eq!(m, "no bus");
    assert_eq!(map_xa11y_error(LookupError::Other("x".to_string())), "x");
    assert_eq!(cache.lookup(4), Some(4));
}

#[test]
fn the_overview_is_named_all() {
    let apps = vec![
        AppTree { name: "A".to_string(), root: node(10, PlatformRole::Application, Some("A"), true, vec![node(11, PlatformRole::Window, None, true, vec![])]) },
        AppTree { name: "C".to_string(), root: node(30, PlatformRole::Application, Some("C"), true, vec![]) },
    ];
    let mut cache = ElementCache::new();
    let s = get_all_apps_overview(Ok(apps), (800, 600), &opts(1, 500, true), &mut cache).unwrap();
    assert_eq!(s.app_name, "all");
    assert_eq!(s.pid, 0);
    assert_eq!(s.element_count, 3);
    assert!(s.query_roles.is_empty());
    assert_eq!(cache.lookup(3), Some(30));
}

#[test]
fn role_distribution_counts_each_role() {
    let es = tree_elements(&sample(), &opts(10, 100, false), "Notes");
    assert_eq!(role_distribution(&es), vec!["window: 1", "group: 1", "button: 1", "static_text: 1", "image: 1"]);
    let mut two = tree_elements(&sample(), &opts(10, 100, false), "Notes");
    two[4].role = ElementRole::Button;
    assert_eq!(role_distribution(&two), vec!["window: 1", "group: 1", "button: 2", "static_text: 1"]);
    assert!(role_distribution(&vec![]).is_empty());
}

#[test]
fn observations_as_xml() {
    let mut es = tree_elements(&sample(), &opts(10, 2, false), "Notes");
    es[1].name = Some("a<b & \"c\"".to_string());
    es[1].value = Some("it's".to_string());
    assert_eq!(
        snapshot_xml("Notes & Co", 12, &es),
        vec![
            "<snapshot app=\"Notes &amp; Co\" pid=\"12\" elements=\"2\">".to_string(),
            "  <element id=\"1\" role=\"window\" name=\"Main\"/>".to_string(),
            "  <element id=\"2\" role=\"group\" parent=\"1\" name=\"a&lt;b &amp; &quot;c&quot;\" value=\"it&apos;s\"/>".to_string(),
            "</snapshot>".to_string(),
        ]
    );
}

#[test]
fn traversal_at_an_offset_hands_out_fresh_numbers() {
    // as if 7 elements were found before, under element 7
    let es = traverse_element(&sample(), &opts(10, 100, false), "Notes", 1, Some(7), 7);
    assert_eq!(
        summary(&es),
        vec![
            (8, 1, Some(7), 1, vec![9, 11]),
            (9, 2, Some(8), 2, vec![10]),
            (10, 3, Some(9), 3, vec![]),
            (11, 4, Some(8), 2, vec![12]),
            (12, 5, Some(11), 3, vec![]),
        ]
    );
    // the limit counts the elements found before
    assert_eq!(traverse_element(&sample(), &opts(10, 9, false), "Notes", 1, Some(7), 7).len(), 2);
}

#[test]
fn queries_select_from_an_observation() {
    let es = tree_elements(&sample(), &opts(10, 100, false), "Notes");
    assert_eq!(query_elements(&es, "button"), Ok(vec![3]));
    assert_eq!(query_elements(&es, "static_text > image"), Ok(vec![5]));
    assert_eq!(query_elements(&es, "button[name=\"OK\"]"), Ok(vec![3]));
    assert_eq!(query_elements(&es, "slider"), Ok(vec![]));
    assert!(query_elements(&es, "[").unwrap_err().starts_with("Invalid query: "));
    assert_eq!(parse_query("button"), Ok(()));
    assert_eq!(filter_by_query(&es, "image"), Ok(vec![4]));
}

#[test]
fn queries_resolve_against_the_saved_observation() {
    let es = tree_elements(&sample(), &opts(10, 100, false), "Notes");
    assert_eq!(resolve_saved_query("button", Some(&es), false), Ok(3));
    assert_eq!(resolve_saved_query("slider", Some(&es), false), Err("Query 'slider' matched no elements".to_string()));
    let mut two = tree_elements(&sample(), &opts(10, 100, false), "Notes");
    two[4].role = ElementRole::Button;
    assert_eq!(
        resolve_saved_query("button", Some(&two), true),
        Err("Query 'button' matched 2 elements (IDs: [3, 5]). Use :nth(N) to select one.".to_string())
    );
    assert_eq!(resolve_saved_query("button", None, true), Err("No accessibility data. Run observe first.".to_string()));
    assert_eq!(
        resolve_saved_query("button", None, false),
        Err("No accessibility data. Run `percept observe` first.".to_string())
    );
    // a query that does not parse is refused before anything else
    assert!(resolve_saved_query("[", None, false).unwrap_err().starts_with("Invalid query: "));
}

#[test]
fn waiting_for_a_query() {
    assert_eq!(wait_step("button", 2, 10, 5), WaitStep::Matched("Query 'button' matched 2 elements:".to_string()));
    assert_eq!(wait_step("button", 0, 4_999, 5), WaitStep::Poll);
    assert_eq!(
        wait_step("button", 0, 5_000, 5),
        WaitStep::TimedOut("Timed out after 5s waiting for 'button'".to_string())
    );
}

#[test]
fn reading_stops_at_the_limits() {
    let o = opts(2, 3, false);
    assert!(read_further(2, 2, &o));
    assert!(!read_further(3, 0, &o));
    assert!(!read_further(0, 3, &o));
}
