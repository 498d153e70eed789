use vstd::prelude::*;
use crate::platform::text_of;

verus! {

broadcast use vstd::string::group_string_axioms;

/// One parameter of a tool: its name, its JSON type, and what it is for.
#[derive(Debug, PartialEq, Eq)]
pub struct ToolParam {
    pub name: String,
    pub kind: String,
    pub description: Option<String>,
}

/// A tool the server offers: its name, what it does, the parameters it
/// cannot do without, and all its parameters.
#[derive(Debug, PartialEq, Eq)]
pub struct ToolSpec {
    pub name: String,
    pub description: String,
    pub required: Vec<String>,
    pub params: Vec<ToolParam>,
}

/// A parameter as plain text.
pub type ParamView = (Seq<char>, Seq<char>, Option<Seq<char>>);

/// A tool as plain text.
pub type ToolView = (Seq<char>, Seq<char>, Seq<Seq<char>>, Seq<ParamView>);

/// The view of a parameter.
pub open spec fn param_view(p: ToolParam) -> ParamView {
    (p.name@, p.kind@, match p.description { Some(d) => Some(d@), None => None })
}

/// The view of a tool.
pub open spec fn tool_view(t: ToolSpec) -> ToolView {
    (t.name@, t.description@, t.required@.map_values(|r: String| r@), t.params@.map_values(|p: ToolParam| param_view(p)))
}

/// The `observe` tool as listed.
pub open spec fn tool_observe_view() -> ToolView {
    ("observe"@, "Query the accessibility tree of desktop applications."@, Seq::empty(),
     seq![
        ("app"@, "string"@, Some("Target application by name"@)),
        ("pid"@, "integer"@, Some("Target application by PID"@)),
        ("query"@, "string"@, Some("CSS-like query to filter elements"@)),
        ("element"@, "integer"@, Some("Show a specific element by ID"@)),
        ("max_depth"@, "integer"@, Some("Maximum tree depth"@)),
        ("max_elements"@, "integer"@, Some("Maximum number of elements to return"@)),
        ("format"@, "string"@, Some("Output format: json (default) or xml"@)),
        ("include_hidden"@, "boolean"@, Some("Include hidden/offscreen elements"@))])
}

/// The `screenshot` tool as listed.
pub open spec fn tool_screenshot_view() -> ToolView {
    ("screenshot"@, "Take a screenshot. Returns base64-encoded PNG."@, Seq::empty(),
     seq![
        ("app"@, "string"@, Some("Capture only this app's window (by name)"@)),
        ("pid"@, "integer"@, Some("Capture only this app's window (by PID)"@)),
        ("scale"@, "number"@, Some("Scale factor (default: 0.5)"@))])
}

/// The `click` tool as listed.
pub open spec fn tool_click_view() -> ToolView {
    ("click"@, "Click an accessibility element or screen coordinate."@, Seq::empty(),
     seq![
        ("app"@, "string"@, None),
        ("pid"@, "integer"@, None),
        ("query"@, "string"@, Some("CSS-like query to select element"@)),
        ("element"@, "integer"@, Some("Element ID to click"@)),
        ("x"@, "integer"@, Some("Absolute X coordinate"@)),
        ("y"@, "integer"@, Some("Absolute Y coordinate"@))])
}

/// The `type` tool as listed.
pub open spec fn tool_type_view() -> ToolView {
    ("type"@, "Type text at the current cursor position or in a specific element."@, seq!["text"@],
     seq![
        ("text"@, "string"@, Some("Text to type"@)),
        ("app"@, "string"@, None),
        ("pid"@, "integer"@, None),
        ("query"@, "string"@, None),
        ("element"@, "integer"@, None)])
}

/// The `scroll` tool as listed.
pub open spec fn tool_scroll_view() -> ToolView {
    ("scroll"@, "Scroll the screen or within a specific element."@, seq!["direction"@],
     seq![
        ("direction"@, "string"@, Some("up, down, left, or right"@)),
        ("app"@, "string"@, None),
        ("pid"@, "integer"@, None),
        ("query"@, "string"@, None),
        ("element"@, "integer"@, None),
        ("amount"@, "integer"@, Some("Scroll amount in clicks (default: 3)"@))])
}

/// The `key` tool as listed.
pub open spec fn tool_key_view() -> ToolView {
    ("key"@, "Press a key or key combination."@, seq!["name"@],
     seq![
        ("name"@, "string"@, Some("Key name, optionally with modifiers (e.g. cmd+n)"@)),
        ("app"@, "string"@, None),
        ("pid"@, "integer"@, None)])
}

/// The `focus` tool as listed.
pub open spec fn tool_focus_view() -> ToolView {
    ("focus"@, "Focus an application or element without clicking."@, Seq::empty(),
     seq![
        ("app"@, "string"@, None),
        ("pid"@, "integer"@, None),
        ("query"@, "string"@, None),
        ("element"@, "integer"@, None)])
}

/// The `interact` tool as listed.
pub open spec fn tool_interact_view() -> ToolView {
    ("interact"@, "Perform an accessibility action on an element."@, seq!["action"@],
     seq![
        ("action"@, "string"@, Some("press, set-value, focus, toggle, expand, collapse, select, show-menu"@)),
        ("app"@, "string"@, None),
        ("pid"@, "integer"@, None),
        ("query"@, "string"@, None),
        ("element"@, "integer"@, None),
        ("value"@, "string"@, Some("Value for set-value action"@))])
}

/// The `read` tool as listed.
pub open spec fn tool_read_view() -> ToolView {
    ("read"@, "Read text content from an element or the clipboard."@, Seq::empty(),
     seq![
        ("query"@, "string"@, None),
        ("element"@, "integer"@, None),
        ("clipboard"@, "boolean"@, Some("Read from clipboard instead of an element"@))])
}

/// The `wait` tool as listed.
pub open spec fn tool_wait_view() -> ToolView {
    ("wait"@, "Wait for an element matching a query to appear."@, seq!["query"@],
     seq![
        ("query"@, "string"@, Some("CSS-like query to wait for"@)),
        ("app"@, "string"@, None),
        ("pid"@, "integer"@, None),
        ("timeout"@, "integer"@, Some("Timeout in seconds (default: 10)"@)),
        ("interval"@, "integer"@, Some("Poll interval in milliseconds (default: 500)"@))])
}

/// The tools the server offers, in order.
pub open spec fn tool_table() -> Seq<ToolView> {
    seq![tool_observe_view(), tool_screenshot_view(), tool_click_view(), tool_type_view(), tool_scroll_view(), tool_key_view(), tool_focus_view(), tool_interact_view(), tool_read_view(), tool_wait_view()]
}

fn param(name: &str, kind: &str, description: Option<&str>) -> (p: ToolParam)
    ensures
        param_view(p) == (name@, kind@, match description { Some(d) => Some(d@), None => None }),
{
    ToolParam {
        name: text_of(name),
        kind: text_of(kind),
        description: match description { Some(d) => Some(text_of(d)), None => None },
    }
}

fn tool_observe() -> (t: ToolSpec)
    ensures
        tool_view(t) == tool_observe_view(),
{
    let mut required: Vec<String> = Vec::new();

    let mut params: Vec<ToolParam> = Vec::new();
        params.push(param("app", "string", Some("Target application by name")));
        params.push(param("pid", "integer", Some("Target application by PID")));
        params.push(param("query", "string", Some("CSS-like query to filter elements")));
        params.push(param("element", "integer", Some("Show a specific element by ID")));
        params.push(param("max_depth", "integer", Some("Maximum tree depth")));
        params.push(param("max_elements", "integer", Some("Maximum number of elements to return")));
        params.push(param("format", "string", Some("Output format: json (default) or xml")));
        params.push(param("include_hidden", "boolean", Some("Include hidden/offscreen elements")));
    let t = ToolSpec { name: text_of("observe"), description: text_of("Query the accessibility tree of desktop applications."), required, params };
    assert(tool_view(t).2 =~= tool_observe_view().2);
    assert(tool_view(t).3 =~= tool_observe_view().3);
    t
}

fn tool_screenshot() -> (t: ToolSpec)
    ensures
        tool_view(t) == tool_screenshot_view(),
{
    let mut required: Vec<String> = Vec::new();

    let mut params: Vec<ToolParam> = Vec::new();
        params.push(param("app", "string", Some("Capture only this app's window (by name)")));
        params.push(param("pid", "integer", Some("Capture only this app's window (by PID)")));
        params.push(param("scale", "number", Some("Scale factor (default: 0.5)")));
    let t = ToolSpec { name: text_of("screenshot"), description: text_of("Take a screenshot. Returns base64-encoded PNG."), required, params };
    assert(tool_view(t).2 =~= tool_screenshot_view().2);
    assert(tool_view(t).3 =~= tool_screenshot_view().3);
    t
}

fn tool_click() -> (t: ToolSpec)
    ensures
        tool_view(t) == tool_click_view(),
{
    let mut required: Vec<String> = Vec::new();

    let mut params: Vec<ToolParam> = Vec::new();
        params.push(param("app", "string", None));
        params.push(param("pid", "integer", None));
        params.push(param("query", "string", Some("CSS-like query to select element")));
        params.push(param("element", "integer", Some("Element ID to click")));
        params.push(param("x", "integer", Some("Absolute X coordinate")));
        params.push(param("y", "integer", Some("Absolute Y coordinate")));
    let t = ToolSpec { name: text_of("click"), description: text_of("Click an accessibility element or screen coordinate."), required, params };
    assert(tool_view(t).2 =~= tool_click_view().2);
    assert(tool_view(t).3 =~= tool_click_view().3);
    t
}

fn tool_type() -> (t: ToolSpec)
    ensures
        tool_view(t) == tool_type_view(),
{
    let mut required: Vec<String> = Vec::new();
        required.push(text_of("text"));
    let mut params: Vec<ToolParam> = Vec::new();
        params.push(param("text", "string", Some("Text to type")));
        params.push(param("app", "string", None));
        params.push(param("pid", "integer", None));
        params.push(param("query", "string", None));
        params.push(param("element", "integer", None));
    let t = ToolSpec { name: text_of("type"), description: text_of("Type text at the current cursor position or in a specific element."), required, params };
    assert(tool_view(t).2 =~= tool_type_view().2);
    assert(tool_view(t).3 =~= tool_type_view().3);
    t
}

fn tool_scroll() -> (t: ToolSpec)
    ensures
        tool_view(t) == tool_scroll_view(),
{
    let mut required: Vec<String> = Vec::new();
        required.push(text_of("direction"));
    let mut params: Vec<ToolParam> = Vec::new();
        params.push(param("direction", "string", Some("up, down, left, or right")));
        params.push(param("app", "string", None));
        params.push(param("pid", "integer", None));
        params.push(param("query", "string", None));
        params.push(param("element", "integer", None));
        params.push(param("amount", "integer", Some("Scroll amount in clicks (default: 3)")));
    let t = ToolSpec { name: text_of("scroll"), description: text_of("Scroll the screen or within a specific element."), required, params };
    assert(tool_view(t).2 =~= tool_scroll_view().2);
    assert(tool_view(t).3 =~= tool_scroll_view().3);
    t
}

fn tool_key() -> (t: ToolSpec)
    ensures
        tool_view(t) == tool_key_view(),
{
    let mut required: Vec<String> = Vec::new();
        required.push(text_of("name"));
    let mut params: Vec<ToolParam> = Vec::new();
        params.push(param("name", "string", Some("Key name, optionally with modifiers (e.g. cmd+n)")));
        params.push(param("app", "string", None));
        params.push(param("pid", "integer", None));
    let t = ToolSpec { name: text_of("key"), description: text_of("Press a key or key combination."), required, params };
    assert(tool_view(t).2 =~= tool_key_view().2);
    assert(tool_view(t).3 =~= tool_key_view().3);
    t
}

fn tool_focus() -> (t: ToolSpec)
    ensures
        tool_view(t) == tool_focus_view(),
{
    let mut required: Vec<String> = Vec::new();

    let mut params: Vec<ToolParam> = Vec::new();
        params.push(param("app", "string", None));
        params.push(param("pid", "integer", None));
        params.push(param("query", "string", None));
        params.push(param("element", "integer", None));
    let t = ToolSpec { name: text_of("focus"), description: text_of("Focus an application or element without clicking."), required, params };
    assert(tool_view(t).2 =~= tool_focus_view().2);
    assert(tool_view(t).3 =~= tool_focus_view().3);
    t
}

fn tool_interact() -> (t: ToolSpec)
    ensures
        tool_view(t) == tool_interact_view(),
{
    let mut required: Vec<String> = Vec::new();
        required.push(text_of("action"));
    let mut params: Vec<ToolParam> = Vec::new();
        params.push(param("action", "string", Some("press, set-value, focus, toggle, expand, collapse, select, show-menu")));
        params.push(param("app", "string", None));
        params.push(param("pid", "integer", None));
        params.push(param("query", "string", None));
        params.push(param("element", "integer", None));
        params.push(param("value", "string", Some("Value for set-value action")));
    let t = ToolSpec { name: text_of("interact"), description: text_of("Perform an accessibility action on an element."), required, params };
    assert(tool_view(t).2 =~= tool_interact_view().2);
    assert(tool_view(t).3 =~= tool_interact_view().3);
    t
}

fn tool_read() -> (t: ToolSpec)
    ensures
        tool_view(t) == tool_read_view(),
{
    let mut required: Vec<String> = Vec::new();

    let mut params: Vec<ToolParam> = Vec::new();
        params.push(param("query", "string", None));
        params.push(param("element", "integer", None));
        params.push(param("clipboard", "boolean", Some("Read from clipboard instead of an element")));
    let t = ToolSpec { name: text_of("read"), description: text_of("Read text content from an element or the clipboard."), required, params };
    assert(tool_view(t).2 =~= tool_read_view().2);
    assert(tool_view(t).3 =~= tool_read_view().3);
    t
}

fn tool_wait() -> (t: ToolSpec)
    ensures
        tool_view(t) == tool_wait_view(),
{
    let mut required: Vec<String> = Vec::new();
        required.push(text_of("query"));
    let mut params: Vec<ToolParam> = Vec::new();
        params.push(param("query", "string", Some("CSS-like query to wait for")));
        params.push(param("app", "string", None));
        params.push(param("pid", "integer", None));
        params.push(param("timeout", "integer", Some("Timeout in seconds (default: 10)")));
        params.push(param("interval", "integer", Some("Poll interval in milliseconds (default: 500)")));
    let t = ToolSpec { name: text_of("wait"), description: text_of("Wait for an element matching a query to appear."), required, params };
    assert(tool_view(t).2 =~= tool_wait_view().2);
    assert(tool_view(t).3 =~= tool_wait_view().3);
    t
}

/// The tools the server offers (see `tool_table`).
pub fn tools_list() -> (tools: Vec<ToolSpec>)
    ensures
        tools@.map_values(|t: ToolSpec| tool_view(t)) == tool_table(),
{
    let mut tools: Vec<ToolSpec> = Vec::new();
    tools.push(tool_observe());
    tools.push(tool_screenshot());
    tools.push(tool_click());
    tools.push(tool_type());
    tools.push(tool_scroll());
    tools.push(tool_key());
    tools.push(tool_focus());
    tools.push(tool_interact());
    tools.push(tool_read());
    tools.push(tool_wait());
    assert(tools@.map_values(|t: ToolSpec| tool_view(t)) =~= tool_table());
    tools
}

} // verus!
