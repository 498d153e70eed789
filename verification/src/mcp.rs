use vstd::prelude::*;
use crate::text::{trim, trim_chars, chars_of, chars_eq, decimal, joined, push_decimal, push_str, split_chars, split_on, string_of};
use crate::platform::{focus_app, focus_result, text_of, FocusPlan, Os};
use crate::commands::{opt_view, run_observe_silent, target_for, target_view, ObserveRequest, QueryOptions};
use base64::Engine;
use crate::encoding::base64_standard;

verus! {

broadcast use vstd::string::group_string_axioms;

// ---------------------------------------------------------------------------
// Tool arguments
// ---------------------------------------------------------------------------

/// A JSON value given as a tool argument, as far as the tools read it.
#[derive(Debug, PartialEq, Eq)]
pub enum ArgValue {
    /// A string.
    Text(String),
    /// An integer (one that JSON numbers give as `u64` or `i64`).
    Integer(i128),
    /// A boolean.
    Flag(bool),
    /// Anything else (null, a fractional number, an array, an object).
    Other,
}

/// One named tool argument.
#[derive(Debug, PartialEq, Eq)]
pub struct ToolArg {
    pub key: String,
    pub value: ArgValue,
}

/// The value of the first argument from position `i` on named `key`.
pub open spec fn find_from(args: Seq<ToolArg>, key: Seq<char>, i: int) -> Option<ArgValue>
    decreases args.len() - i,
{
    if i < 0 || i >= args.len() {
        None
    } else if args[i].key@ == key {
        Some(args[i].value)
    } else {
        find_from(args, key, i + 1)
    }
}

/// The value of the argument named `key`.
pub open spec fn find_arg(args: Seq<ToolArg>, key: Seq<char>) -> Option<ArgValue> {
    find_from(args, key, 0)
}

/// A string argument.
pub open spec fn str_arg(args: Seq<ToolArg>, key: Seq<char>) -> Option<Seq<char>> {
    match find_arg(args, key) {
        Some(ArgValue::Text(s)) => Some(s@),
        _ => None,
    }
}

/// An integer argument that is a `u64`.
pub open spec fn u64_arg(args: Seq<ToolArg>, key: Seq<char>) -> Option<u64> {
    match find_arg(args, key) {
        Some(ArgValue::Integer(n)) => if 0 <= n <= u64::MAX { Some(n as u64) } else { None },
        _ => None,
    }
}

/// A `u64` argument cut to `u32` (`n as u32`).
pub open spec fn u32_arg(args: Seq<ToolArg>, key: Seq<char>) -> Option<u32> {
    match u64_arg(args, key) {
        Some(n) => Some(n as u32),
        None => None,
    }
}

/// An integer argument that is an `i64`, cut to `i32` (`n as i32`).
pub open spec fn i32_arg(args: Seq<ToolArg>, key: Seq<char>) -> Option<i32> {
    match find_arg(args, key) {
        Some(ArgValue::Integer(n)) => if i64::MIN <= n <= i64::MAX { Some((n as i64) as i32) } else { None },
        _ => None,
    }
}

/// A boolean argument; false where it is missing or not a boolean.
pub open spec fn bool_arg(args: Seq<ToolArg>, key: Seq<char>) -> bool {
    match find_arg(args, key) {
        Some(ArgValue::Flag(b)) => b,
        _ => false,
    }
}

fn lookup<'a>(args: &'a Vec<ToolArg>, key: &str) -> (r: Option<&'a ArgValue>)
    ensures
        match find_arg(args@, key@) {
            Some(v) => r matches Some(x) && *x == v,
            None => r is None,
        },
{
    let k = chars_of(key);
    let mut i: usize = 0;
    while i < args.len()
        invariant
            i <= args.len(),
            k@ == key@,
            find_arg(args@, key@) == find_from(args@, key@, i as int),
        decreases args.len() - i,
    {
        let kv = chars_of(args[i].key.as_str());
        if chars_eq(&kv, key) {
            return Some(&args[i].value);
        }
        i = i + 1;
    }
    None
}

fn get_str(args: &Vec<ToolArg>, key: &str) -> (r: Option<String>)
    ensures
        match str_arg(args@, key@) {
            Some(s) => r matches Some(x) && x@ == s,
            None => r is None,
        },
{
    match lookup(args, key) {
        Some(ArgValue::Text(s)) => {
            let v = chars_of(s.as_str());
            Some(string_of(&v))
        }
        _ => None,
    }
}

fn get_u64(args: &Vec<ToolArg>, key: &str) -> (r: Option<u64>)
    ensures
        r == u64_arg(args@, key@),
{
    match lookup(args, key) {
        Some(ArgValue::Integer(n)) => {
            if 0 <= *n && *n <= 0xffff_ffff_ffff_ffffi128 {
                Some(*n as u64)
            } else {
                None
            }
        }
        _ => None,
    }
}

fn get_u32(args: &Vec<ToolArg>, key: &str) -> (r: Option<u32>)
    ensures
        r == u32_arg(args@, key@),
{
    match get_u64(args, key) {
        Some(n) => Some(n as u32),
        None => None,
    }
}

fn get_i32(args: &Vec<ToolArg>, key: &str) -> (r: Option<i32>)
    ensures
        r == i32_arg(args@, key@),
{
    match lookup(args, key) {
        Some(ArgValue::Integer(n)) => {
            if -0x8000_0000_0000_0000i128 <= *n && *n <= 0x7fff_ffff_ffff_ffffi128 {
                let m: i64 = *n as i64;
                Some(m as i32)
            } else {
                None
            }
        }
        _ => None,
    }
}

fn get_bool(args: &Vec<ToolArg>, key: &str) -> (r: bool)
    ensures
        r == bool_arg(args@, key@),
{
    match lookup(args, key) {
        Some(ArgValue::Flag(b)) => *b,
        _ => false,
    }
}

// ---------------------------------------------------------------------------
// Tool plans
// ---------------------------------------------------------------------------

/// What a tool call asks for, with the arguments it reads. The scale of a
/// screenshot is a fractional number, which the caller reads itself.
#[derive(Debug, PartialEq, Eq)]
#[allow(inconsistent_fields)]
pub enum ToolPlan {
    /// Answer at once with this tool error.
    Fail(String),
    /// Show an element and its subtree from the last observation.
    ObserveElement { element: u32, format: String },
    /// Observe an application, or all of them.
    Observe {
        app: Option<String>,
        pid: Option<u32>,
        query: Option<String>,
        max_depth: Option<u32>,
        max_elements: u32,
        format: String,
        visible_only: bool,
    },
    /// Take a screenshot, of one application's window where one is named.
    Screenshot { app: Option<String>, pid: Option<u32> },
    /// Click a screen point, after focusing the application where one is named.
    ClickAt { app: Option<String>, pid: Option<u32>, x: i32, y: i32 },
    /// Click an element, after observing the application where one is named.
    ClickElement { app: Option<String>, pid: Option<u32>, element: Option<u32>, query: Option<String> },
    /// Type text, into an element where one is named.
    Type { text: String, app: Option<String>, pid: Option<u32>, element: Option<u32>, query: Option<String> },
    /// Scroll, within an element where one is named.
    Scroll { direction: String, app: Option<String>, pid: Option<u32>, element: Option<u32>, query: Option<String>, amount: Option<u32> },
    /// Press a key with modifiers, after focusing the application where one is named.
    Key { key: String, modifiers: Option<String>, app: Option<String>, pid: Option<u32> },
    /// Focus an application and/or an element. Where `reply` is given, the
    /// tool answers with it once the application (if any) is focused;
    /// otherwise the element is resolved (after observing the application
    /// where `observe` holds) and focused.
    Focus { app: Option<String>, pid: Option<u32>, element: Option<u32>, query: Option<String>, observe: bool, reply: Option<String> },
    /// Perform an action on an element.
    Interact { action: String, app: Option<String>, pid: Option<u32>, element: Option<u32>, query: Option<String>, value: Option<String> },
    /// Read the clipboard.
    ReadClipboard,
    /// Read an element's text.
    ReadElement { element: Option<u32>, query: Option<String> },
    /// Wait for a query to match.
    Wait { query: String, app: Option<String>, pid: Option<u32>, timeout: u64, interval: u64 },
}

/// The view of an optional string.
pub open spec fn ostr(o: Option<String>) -> Option<Seq<char>> {
    match o {
        Some(s) => Some(s@),
        None => None,
    }
}

/// The error for a required argument that is missing.
pub open spec fn missing(param: Seq<char>) -> Seq<char> {
    "Missing required parameter: "@ + param
}

/// A key shorthand such as `cmd+shift+n`: the key is the last `+`-separated
/// piece, and the pieces before it are the modifiers (comma-separated).
pub open spec fn shorthand(name: Seq<char>) -> (Seq<char>, Option<Seq<char>>) {
    let pieces = split_on(name, "+"@);
    if pieces.len() <= 1 {
        (name, None)
    } else {
        (pieces.last(), Some(joined(pieces.drop_last(), ","@)))
    }
}

/// Split a key shorthand into the key and its modifiers.
pub fn key_shorthand(name: &str) -> (r: (String, Option<String>))
    ensures
        r.0@ == shorthand(name@).0,
        ostr(r.1) == shorthand(name@).1,
{
    proof {
        reveal_strlit("+");
        reveal_strlit(",");
    }
    let n = chars_of(name);
    let plus = chars_of("+");
    let pieces = split_chars(&n, &plus);
    if pieces.len() <= 1 {
        return (string_of(&n), None);
    }
    let ghost ps = split_on(name@, "+"@);
    let last = pieces.len() - 1;
    let mut m: Vec<char> = Vec::new();
    let mut i: usize = 0;
    while i < last
        invariant
            pieces@.len() == ps.len(),
            forall|k: int| 0 <= k < pieces@.len() ==> (#[trigger] pieces@[k])@ == ps[k],
            last == pieces.len() - 1,
            i <= last,
            m@ == joined(ps.take(i as int), ","@),
        decreases last - i,
    {
        let ghost before = m@;
        if i > 0 {
            m.push(',');
        }
        crate::text::extend_chars(&mut m, &pieces[i]);
        proof {
            reveal_strlit(",");
            let t = ps.take(i + 1);
            assert(t.len() == i + 1);
            assert(t.last() == ps[i as int]);
            assert(pieces@[i as int]@ == ps[i as int]);
            assert(t.drop_last() =~= ps.take(i as int));
            if i == 0 {
                assert(ps.take(0) =~= Seq::<Seq<char>>::empty());
                assert(before =~= Seq::<char>::empty());
                assert(m@ =~= t[0]);
            } else {
                assert(m@ =~= before + ","@ + ps[i as int]);
            }
            assert(m@ =~= joined(t, ","@));
        }
        i = i + 1;
    }
    assert(ps.take(last as int) =~= ps.drop_last());
    (string_of(&pieces[last]), Some(string_of(&m)))
}

/// The reply after focusing an application and no element: its name, else its process id.
pub open spec fn focused_reply(app: Option<Seq<char>>, pid: Option<u32>) -> Seq<char> {
    match app {
        Some(n) => "Focused "@ + n,
        None => "Focused "@ + decimal(pid.unwrap() as nat),
    }
}

/// What the `focus` tool asks for: the application is focused where one is
/// named; an element named too is then resolved after observing the
/// application; with no element the reply names what was focused, or says
/// that nothing was.
pub open spec fn focus_plan_is(args: Seq<ToolArg>, p: ToolPlan) -> bool {
    let app = str_arg(args, "app"@);
    let pid = u32_arg(args, "pid"@);
    let query = str_arg(args, "query"@);
    let element = u32_arg(args, "element"@);
    let has_app = app is Some || pid is Some;
    let has_target = element is Some || query is Some;
    p matches ToolPlan::Focus { app: a, pid: q, element: e, query: qq, observe, reply }
        && ostr(a) == app && q == pid && e == element && ostr(qq) == query
        && observe == (has_app && has_target)
        && ostr(reply) == (if has_target { None } else if has_app { Some(focused_reply(app, pid)) }
            else { Some("No target specified"@) })
}

/// What a call of tool `name` with `args` asks for.
pub open spec fn plan_is(name: Seq<char>, args: Seq<ToolArg>, p: ToolPlan) -> bool {
    let app = str_arg(args, "app"@);
    let pid = u32_arg(args, "pid"@);
    let query = str_arg(args, "query"@);
    let element = u32_arg(args, "element"@);
    if name == "observe"@ {
        match element {
            Some(e) => p matches ToolPlan::ObserveElement { element: pe, format }
                && pe == e && format@ == (match str_arg(args, "format"@) { Some(f) => f, None => "json"@ }),
            None => p matches ToolPlan::Observe { app: a, pid: q, query: qq, max_depth, max_elements, format, visible_only }
                && ostr(a) == app && q == pid && ostr(qq) == query
                && max_depth == u32_arg(args, "max_depth"@)
                && max_elements == (match u32_arg(args, "max_elements"@) { Some(m) => m, None => 100u32 })
                && format@ == (match str_arg(args, "format"@) { Some(f) => f, None => "json"@ })
                && visible_only == !bool_arg(args, "include_hidden"@),
        }
    } else if name == "screenshot"@ {
        p matches ToolPlan::Screenshot { app: a, pid: q } && ostr(a) == app && q == pid
    } else if name == "click"@ {
        match (i32_arg(args, "x"@), i32_arg(args, "y"@)) {
            (Some(x), Some(y)) => p matches ToolPlan::ClickAt { app: a, pid: q, x: px, y: py }
                && ostr(a) == app && q == pid && px == x && py == y,
            _ => p matches ToolPlan::ClickElement { app: a, pid: q, element: e, query: qq }
                && ostr(a) == app && q == pid && e == element && ostr(qq) == query,
        }
    } else if name == "type"@ {
        match str_arg(args, "text"@) {
            None => p matches ToolPlan::Fail(m) && m@ == missing("text"@),
            Some(t) => p matches ToolPlan::Type { text, app: a, pid: q, element: e, query: qq }
                && text@ == t && ostr(a) == app && q == pid && e == element && ostr(qq) == query,
        }
    } else if name == "scroll"@ {
        match str_arg(args, "direction"@) {
            None => p matches ToolPlan::Fail(m) && m@ == missing("direction"@),
            Some(d) => p matches ToolPlan::Scroll { direction, app: a, pid: q, element: e, query: qq, amount }
                && direction@ == d && ostr(a) == app && q == pid && e == element && ostr(qq) == query
                && amount == u32_arg(args, "amount"@),
        }
    } else if name == "key"@ {
        match str_arg(args, "name"@) {
            None => p matches ToolPlan::Fail(m) && m@ == missing("name"@),
            Some(n) => p matches ToolPlan::Key { key, modifiers, app: a, pid: q }
                && key@ == shorthand(n).0 && ostr(modifiers) == shorthand(n).1
                && ostr(a) == app && q == pid,
        }
    } else if name == "focus"@ {
        focus_plan_is(args, p)
    } else if name == "interact"@ {
        match str_arg(args, "action"@) {
            None => p matches ToolPlan::Fail(m) && m@ == missing("action"@),
            Some(ac) => p matches ToolPlan::Interact { action, app: a, pid: q, element: e, query: qq, value }
                && action@ == ac && ostr(a) == app && q == pid && e == element && ostr(qq) == query
                && ostr(value) == str_arg(args, "value"@),
        }
    } else if name == "read"@ {
        if bool_arg(args, "clipboard"@) {
            p is ReadClipboard
        } else {
            p matches ToolPlan::ReadElement { element: e, query: qq } && e == element && ostr(qq) == query
        }
    } else if name == "wait"@ {
        match query {
            None => p matches ToolPlan::Fail(m) && m@ == missing("query"@),
            Some(qv) => p matches ToolPlan::Wait { query: qq, app: a, pid: q, timeout, interval }
                && qq@ == qv && ostr(a) == app && q == pid
                && timeout == (match u64_arg(args, "timeout"@) { Some(t) => t, None => 10u64 })
                && interval == (match u64_arg(args, "interval"@) { Some(t) => t, None => 500u64 }),
        }
    } else {
        p matches ToolPlan::Fail(m) && m@ == "Unknown tool: "@ + name
    }
}

fn missing_param(param: &str) -> (p: ToolPlan)
    ensures
        p matches ToolPlan::Fail(m) && m@ == missing(param@),
{
    let mut v: Vec<char> = Vec::new();
    push_str(&mut v, "Missing required parameter: ");
    push_str(&mut v, param);
    ToolPlan::Fail(string_of(&v))
}

fn focus_plan(args: &Vec<ToolArg>) -> (p: ToolPlan)
    ensures
        focus_plan_is(args@, p),
{
    let app = get_str(args, "app");
    let pid = get_u32(args, "pid");
    let query = get_str(args, "query");
    let element = get_u32(args, "element");
    let has_app = app.is_some() || pid.is_some();
    let has_target = element.is_some() || query.is_some();
    let reply: Option<String> = if has_target {
        None
    } else if has_app {
        let mut v: Vec<char> = Vec::new();
        push_str(&mut v, "Focused ");
        match &app {
            Some(n) => {
                push_str(&mut v, n.as_str());
            }
            None => {
                let q = pid.unwrap();
                push_decimal(&mut v, q as u64);
            }
        }
        Some(string_of(&v))
    } else {
        Some(text_of("No target specified"))
    };
    ToolPlan::Focus { app, pid, element, query, observe: has_app && has_target, reply }
}

/// What a call of tool `name` with `args` asks for (see `plan_is`): the tool's
/// arguments read with their defaults, or the error for a missing required
/// argument or an unknown tool.
pub fn dispatch_tool(name: &str, args: &Vec<ToolArg>) -> (p: ToolPlan)
    ensures
        plan_is(name@, args@, p),
{
    let n = chars_of(name);
    if chars_eq(&n, "observe") {
        let element = get_u32(args, "element");
        let format = match get_str(args, "format") {
            Some(f) => f,
            None => text_of("json"),
        };
        match element {
            Some(e) => ToolPlan::ObserveElement { element: e, format },
            None => {
                let max_elements: u32 = match get_u32(args, "max_elements") {
                    Some(m) => m,
                    None => 100,
                };
                ToolPlan::Observe {
                    app: get_str(args, "app"),
                    pid: get_u32(args, "pid"),
                    query: get_str(args, "query"),
                    max_depth: get_u32(args, "max_depth"),
                    max_elements,
                    format,
                    visible_only: !get_bool(args, "include_hidden"),
                }
            }
        }
    } else if chars_eq(&n, "screenshot") {
        ToolPlan::Screenshot { app: get_str(args, "app"), pid: get_u32(args, "pid") }
    } else if chars_eq(&n, "click") {
        let app = get_str(args, "app");
        let pid = get_u32(args, "pid");
        match (get_i32(args, "x"), get_i32(args, "y")) {
            (Some(x), Some(y)) => ToolPlan::ClickAt { app, pid, x, y },
            _ => ToolPlan::ClickElement { app, pid, element: get_u32(args, "element"), query: get_str(args, "query") },
        }
    } else if chars_eq(&n, "type") {
        match get_str(args, "text") {
            None => missing_param("text"),
            Some(text) => ToolPlan::Type {
                text,
                app: get_str(args, "app"),
                pid: get_u32(args, "pid"),
                element: get_u32(args, "element"),
                query: get_str(args, "query"),
            },
        }
    } else if chars_eq(&n, "scroll") {
        match get_str(args, "direction") {
            None => missing_param("direction"),
            Some(direction) => ToolPlan::Scroll {
                direction,
                app: get_str(args, "app"),
                pid: get_u32(args, "pid"),
                element: get_u32(args, "element"),
                query: get_str(args, "query"),
                amount: get_u32(args, "amount"),
            },
        }
    } else if chars_eq(&n, "key") {
        match get_str(args, "name") {
            None => missing_param("name"),
            Some(kn) => {
                let (key, modifiers) = key_shorthand(kn.as_str());
                ToolPlan::Key { key, modifiers, app: get_str(args, "app"), pid: get_u32(args, "pid") }
            }
        }
    } else if chars_eq(&n, "focus") {
        focus_plan(args)
    } else if chars_eq(&n, "interact") {
        match get_str(args, "action") {
            None => missing_param("action"),
            Some(action) => ToolPlan::Interact {
                action,
                app: get_str(args, "app"),
                pid: get_u32(args, "pid"),
                element: get_u32(args, "element"),
                query: get_str(args, "query"),
                value: get_str(args, "value"),
            },
        }
    } else if chars_eq(&n, "read") {
        if get_bool(args, "clipboard") {
            ToolPlan::ReadClipboard
        } else {
            ToolPlan::ReadElement { element: get_u32(args, "element"), query: get_str(args, "query") }
        }
    } else if chars_eq(&n, "wait") {
        match get_str(args, "query") {
            None => missing_param("query"),
            Some(query) => {
                let timeout: u64 = match get_u64(args, "timeout") {
                    Some(t) => t,
                    None => 10,
                };
                let interval: u64 = match get_u64(args, "interval") {
                    Some(t) => t,
                    None => 500,
                };
                ToolPlan::Wait { query, app: get_str(args, "app"), pid: get_u32(args, "pid"), timeout, interval }
            }
        }
    } else {
        let mut v: Vec<char> = Vec::new();
        push_str(&mut v, "Unknown tool: ");
        push_str(&mut v, name);
        ToolPlan::Fail(string_of(&v))
    }
}

// ---------------------------------------------------------------------------
// Screenshots and messages
// ---------------------------------------------------------------------------

/// `base64::engine::general_purpose::STANDARD.encode`: the standard base64
/// encoding of the bytes with padding (RFC 4648), as `base64_standard` states it.
#[verifier::external_body]
fn encode_base64(bytes: &Vec<u8>) -> (s: String)
    ensures
        s@ == base64_standard(bytes@),
{
    base64::engine::general_purpose::STANDARD.encode(bytes)
}

/// The reply of the `screenshot` tool: the PNG as a base64 data URL.
pub fn screenshot_reply(png: &Vec<u8>) -> (s: String)
    ensures
        s@ == "data:image/png;base64,"@ + base64_standard(png@),
{
    let b = encode_base64(png);
    let mut v: Vec<char> = Vec::new();
    push_str(&mut v, "data:image/png;base64,");
    push_str(&mut v, b.as_str());
    string_of(&v)
}

/// Before a tool acts on an application named by `app` or `pid`, that
/// application is brought to the front and observed again, so that element
/// ids refer to its current state. With neither there is nothing to do
/// (`None`); otherwise the focus plan for this operating system and the
/// observation to run after it, or the reason focusing is refused.
pub fn ensure_app_observed_mcp(os: Os, app: Option<&str>, pid: Option<u32>, wayland: bool, has_swaymsg: bool)
    -> (r: Result<Option<(FocusPlan, ObserveRequest)>, String>)
    ensures
        (app is None && pid is None) ==> r matches Ok(None),
        !(app is None && pid is None) ==> {
            &&& r matches Err(m) ==> focus_result(os, opt_view(app), pid, wayland, has_swaymsg, Err(m))
            &&& r matches Ok(Some((p, req))) ==> {
                &&& focus_result(os, opt_view(app), pid, wayland, has_swaymsg, Ok(p))
                &&& req.target matches Some(t) && Some(target_view(t)) == target_for(opt_view(app), pid)
                &&& req.options == (QueryOptions { max_depth: 10, max_elements: 500, visible_only: true, include_raw: false })
            }
            &&& !(r matches Ok(None))
        },
{
    if app.is_none() && pid.is_none() {
        return Ok(None);
    }
    match focus_app(os, app, pid, wayland, has_swaymsg) {
        Err(m) => Err(m),
        Ok(p) => match run_observe_silent(app, pid) {
            Ok(req) => Ok(Some((p, req))),
            Err(m) => Err(m),
        },
    }
}

/// The `screenshot` tool's reply gives the image back: decoding what
/// follows the data URL's prefix yields the PNG's bytes.
pub proof fn law_screenshot_reply_round_trip(png: Seq<u8>, reply: Seq<char>)
    requires
        reply == "data:image/png;base64,"@ + base64_standard(png),
    ensures
        crate::encoding::base64_decode(reply.subrange(22, reply.len() as int)) == png,
{
    reveal_strlit("data:image/png;base64,");
    assert(reply.subrange(22, reply.len() as int) =~= base64_standard(png));
    crate::encoding::law_base64_round_trip(png);
}

/// What the server does with a message, by its method.
#[derive(Debug, PartialEq, Eq)]
pub enum McpStep {
    /// Answer with the server's description.
    Initialize,
    /// Answer with the list of tools.
    ListTools,
    /// Run the tool named in the parameters and answer with its result.
    CallTool,
    /// Answer nothing.
    Ignore,
    /// Answer with a "method not found" error (code -32601) and this message.
    Reject(String),
}

/// The step for a method: `initialize`, `notifications/initialized`,
/// `tools/list` and `tools/call` are known; any other is rejected where the
/// message has an id and ignored where it is a notification.
pub open spec fn route_is(method: Seq<char>, has_id: bool, r: McpStep) -> bool {
    if method == "initialize"@ { r is Initialize }
    else if method == "notifications/initialized"@ { r is Ignore }
    else if method == "tools/list"@ { r is ListTools }
    else if method == "tools/call"@ { r is CallTool }
    else if has_id { r matches McpStep::Reject(m) && m@ == "Method not found: "@ + method }
    else { r is Ignore }
}

/// What the server does with a message whose `method` (the empty string
/// where it is missing or not a string) is given, and which has an `id`
/// unless it is a notification. Unknown notifications get no answer.
pub fn route_message(method: &str, has_id: bool) -> (r: McpStep)
    ensures
        route_is(method@, has_id, r),
{
    let m = chars_of(method);
    if chars_eq(&m, "initialize") {
        McpStep::Initialize
    } else if chars_eq(&m, "notifications/initialized") {
        McpStep::Ignore
    } else if chars_eq(&m, "tools/list") {
        McpStep::ListTools
    } else if chars_eq(&m, "tools/call") {
        McpStep::CallTool
    } else if has_id {
        let mut v: Vec<char> = Vec::new();
        push_str(&mut v, "Method not found: ");
        push_str(&mut v, method);
        McpStep::Reject(string_of(&v))
    } else {
        McpStep::Ignore
    }
}

// ---------------------------------------------------------------------------
// The listed tools and the dispatcher agree
// ---------------------------------------------------------------------------

/// The names of the listed tools, in order.
spec fn tool_names() -> Seq<Seq<char>> {
    seq!["observe"@, "screenshot"@, "click"@, "type"@, "scroll"@, "key"@, "focus"@, "interact"@, "read"@, "wait"@]
}

/// A tool call's plan passes on the call's own arguments: the element, query,
/// application and process id a plan targets are the call's `element`,
/// `query`, `app` and `pid` arguments, the text to type and the direction to
/// scroll are the call's, and a click at a point clicks the call's `x` and
/// `y`; and each tool is planned as itself (or refused for a missing argument).
pub proof fn law_plans_carry_the_arguments(name: Seq<char>, args: Seq<ToolArg>, p: ToolPlan)
    requires
        plan_is(name, args, p),
    ensures
        match p {
            ToolPlan::ObserveElement { element, .. } => u32_arg(args, "element"@) == Some(element),
            ToolPlan::Observe { app, pid, query, .. } =>
                ostr(app) == str_arg(args, "app"@) && pid == u32_arg(args, "pid"@) && ostr(query) == str_arg(args, "query"@),
            ToolPlan::Screenshot { app, pid } => ostr(app) == str_arg(args, "app"@) && pid == u32_arg(args, "pid"@),
            ToolPlan::ClickAt { app, pid, x, y } => ostr(app) == str_arg(args, "app"@) && pid == u32_arg(args, "pid"@)
                && i32_arg(args, "x"@) == Some(x) && i32_arg(args, "y"@) == Some(y),
            ToolPlan::ClickElement { app, pid, element, query } => ostr(app) == str_arg(args, "app"@)
                && pid == u32_arg(args, "pid"@) && element == u32_arg(args, "element"@) && ostr(query) == str_arg(args, "query"@),
            ToolPlan::Type { text, app, pid, element, query } => str_arg(args, "text"@) == Some(text@)
                && ostr(app) == str_arg(args, "app"@) && pid == u32_arg(args, "pid"@)
                && element == u32_arg(args, "element"@) && ostr(query) == str_arg(args, "query"@),
            ToolPlan::Scroll { direction, app, pid, element, query, amount } => str_arg(args, "direction"@) == Some(direction@)
                && ostr(app) == str_arg(args, "app"@) && pid == u32_arg(args, "pid"@)
                && element == u32_arg(args, "element"@) && ostr(query) == str_arg(args, "query"@)
                && amount == u32_arg(args, "amount"@),
            ToolPlan::Key { app, pid, .. } => ostr(app) == str_arg(args, "app"@) && pid == u32_arg(args, "pid"@),
            ToolPlan::Focus { app, pid, element, query, .. } => ostr(app) == str_arg(args, "app"@)
                && pid == u32_arg(args, "pid"@) && element == u32_arg(args, "element"@) && ostr(query) == str_arg(args, "query"@),
            ToolPlan::Interact { action, app, pid, element, query, value } => str_arg(args, "action"@) == Some(action@)
                && ostr(app) == str_arg(args, "app"@) && pid == u32_arg(args, "pid"@)
                && element == u32_arg(args, "element"@) && ostr(query) == str_arg(args, "query"@)
                && ostr(value) == str_arg(args, "value"@),
            ToolPlan::ReadElement { element, query } => element == u32_arg(args, "element"@) && ostr(query) == str_arg(args, "query"@),
            ToolPlan::Wait { query, app, pid, .. } => str_arg(args, "query"@) == Some(query@)
                && ostr(app) == str_arg(args, "app"@) && pid == u32_arg(args, "pid"@),
            _ => true,
        },
        name == "click"@ ==> (p is ClickAt || p is ClickElement),
        name == "type"@ ==> (p is Type || p is Fail),
        name == "scroll"@ ==> (p is Scroll || p is Fail),
        name == "interact"@ ==> (p is Interact || p is Fail),
        name == "read"@ ==> (p is ReadElement || p is ReadClipboard),
        name == "focus"@ ==> p is Focus,
{
    lemma_tool_names_distinct();
}

/// The listed tools' names differ from one another.
proof fn lemma_tool_names_distinct()
    ensures
        forall|i: int, j: int| 0 <= i < j < 10 ==> tool_names()[i] != tool_names()[j],
        tool_names()[0] == "observe"@,
        tool_names()[1] == "screenshot"@,
        tool_names()[2] == "click"@,
        tool_names()[3] == "type"@,
        tool_names()[4] == "scroll"@,
        tool_names()[5] == "key"@,
        tool_names()[6] == "focus"@,
        tool_names()[7] == "interact"@,
        tool_names()[8] == "read"@,
        tool_names()[9] == "wait"@,
{
    reveal_strlit("observe");
    reveal_strlit("screenshot");
    reveal_strlit("click");
    reveal_strlit("type");
    reveal_strlit("scroll");
    reveal_strlit("key");
    reveal_strlit("focus");
    reveal_strlit("interact");
    reveal_strlit("read");
    reveal_strlit("wait");
    let ns = tool_names();
    assert forall|i: int, j: int| 0 <= i < j < 10 implies ns[i] != ns[j] by {
        if ns[i].len() == ns[j].len() {
            assert(ns[i][0] != ns[j][0] || ns[i][1] != ns[j][1]);
        }
    }
}

/// What the server does with one line of its input.
#[derive(Debug, PartialEq, Eq)]
pub enum LineStep {
    /// A blank line: answer nothing.
    Skip,
    /// A line that is not JSON: answer with this error (no request id).
    ParseError { code: i64, message: String },
    /// A message: do what its method asks (see `route_message`).
    Route(McpStep),
}

/// What a line gives: nothing for a blank line, the parse error for a line
/// that is not JSON, else the step for its method.
pub open spec fn line_step_is(line: Seq<char>, parsed: Option<(Seq<char>, bool)>, r: LineStep) -> bool {
    if trim(line).len() == 0 {
        r is Skip
    } else {
        match parsed {
            None => r matches LineStep::ParseError { code, message } && code == -32700 && message@ == "Parse error"@,
            Some((method, has_id)) => r matches LineStep::Route(step) && route_is(method, has_id, step),
        }
    }
}

/// What the server does with one line of input: `parsed` is the line's
/// method (the empty string where it has none) and whether it has an id,
/// where the trimmed line parses as JSON, and `None` where it does not.
pub fn line_step(line: &str, parsed: Option<(&str, bool)>) -> (r: LineStep)
    ensures
        line_step_is(line@, match parsed { Some((m, h)) => Some((m@, h)), None => None }, r),
{
    let t = trim_chars(&chars_of(line));
    if t.len() == 0 {
        return LineStep::Skip;
    }
    match parsed {
        None => LineStep::ParseError { code: -32700, message: text_of("Parse error") },
        Some((method, has_id)) => LineStep::Route(route_message(method, has_id)),
    }
}

/// Whether the server answers a step.
pub open spec fn answers(r: LineStep) -> bool {
    !(r is Skip) && !(r matches LineStep::Route(McpStep::Ignore))
}

/// Over a session, the server writes one answer for each non-blank line,
/// except for the `notifications/initialized` notification and for unknown
/// methods sent without an id: a line that is not JSON is answered with the
/// parse error.
pub proof fn law_one_answer_per_line(line: Seq<char>, parsed: Option<(Seq<char>, bool)>, r: LineStep)
    requires
        line_step_is(line, parsed, r),
    ensures
        answers(r) <==> (trim(line).len() > 0 && match parsed {
            None => true,
            Some((method, has_id)) => method != "notifications/initialized"@ && (has_id
                || method == "initialize"@ || method == "tools/list"@ || method == "tools/call"@),
        }),
{
    reveal_strlit("notifications/initialized");
    reveal_strlit("initialize");
    reveal_strlit("tools/list");
    reveal_strlit("tools/call");
    assert("initialize"@ != "notifications/initialized"@) by { assert("initialize"@.len() != "notifications/initialized"@.len()); }
    assert("tools/list"@ != "notifications/initialized"@) by { assert("tools/list"@.len() != "notifications/initialized"@.len()); }
    assert("tools/call"@ != "notifications/initialized"@) by { assert("tools/call"@.len() != "notifications/initialized"@.len()); }
    assert("tools/list"@ != "initialize"@) by { assert("tools/list"@[0] != "initialize"@[0]); }
    assert("tools/call"@ != "initialize"@) by { assert("tools/call"@[0] != "initialize"@[0]); }
    assert("tools/call"@ != "tools/list"@) by { assert("tools/call"@[6] != "tools/list"@[6]); }
}

/// Every tool the server lists is one the dispatcher knows, and the
/// dispatcher refuses a call of it exactly when a parameter the listing marks
/// as required is missing (then naming that parameter).
pub proof fn law_listed_tools_dispatch(k: int, args: Seq<ToolArg>, p: ToolPlan)
    requires
        0 <= k < crate::tools::tool_table().len(),
        plan_is(crate::tools::tool_table()[k].0, args, p),
    ensures
        (p is Fail) <==> (exists|j: int| 0 <= j < crate::tools::tool_table()[k].2.len()
            && #[trigger] str_arg(args, crate::tools::tool_table()[k].2[j]) is None),
        p matches ToolPlan::Fail(m) ==> m@ == missing(crate::tools::tool_table()[k].2[0]),
{
    reveal_strlit("observe");
    reveal_strlit("screenshot");
    reveal_strlit("click");
    reveal_strlit("type");
    reveal_strlit("scroll");
    reveal_strlit("key");
    reveal_strlit("focus");
    reveal_strlit("interact");
    reveal_strlit("read");
    reveal_strlit("wait");
    lemma_tool_names_distinct();
    if k == 0 {
        assert(crate::tools::tool_table()[k] == crate::tools::tool_observe_view());
        assert(!(p is Fail));
    } else if k == 1 {
        assert(crate::tools::tool_table()[k] == crate::tools::tool_screenshot_view());
        assert(!(p is Fail));
    } else if k == 2 {
        assert(crate::tools::tool_table()[k] == crate::tools::tool_click_view());
        assert(!(p is Fail));
    } else if k == 3 {
        assert(crate::tools::tool_table()[k] == crate::tools::tool_type_view());
        if str_arg(args, "text"@) is None {
            assert(p is Fail);
            assert(str_arg(args, crate::tools::tool_table()[k].2[0]) is None);
        } else {
            assert(!(p is Fail));
            assert forall|j: int| 0 <= j < crate::tools::tool_table()[k].2.len()
                implies !(#[trigger] str_arg(args, crate::tools::tool_table()[k].2[j]) is None) by {
                assert(j == 0);
            }
        }
    } else if k == 4 {
        assert(crate::tools::tool_table()[k] == crate::tools::tool_scroll_view());
        if str_arg(args, "direction"@) is None {
            assert(p is Fail);
            assert(str_arg(args, crate::tools::tool_table()[k].2[0]) is None);
        } else {
            assert(!(p is Fail));
            assert forall|j: int| 0 <= j < crate::tools::tool_table()[k].2.len()
                implies !(#[trigger] str_arg(args, crate::tools::tool_table()[k].2[j]) is None) by {
                assert(j == 0);
            }
        }
    } else if k == 5 {
        assert(crate::tools::tool_table()[k] == crate::tools::tool_key_view());
        if str_arg(args, "name"@) is None {
            assert(p is Fail);
            assert(str_arg(args, crate::tools::tool_table()[k].2[0]) is None);
        } else {
            assert(!(p is Fail));
            assert forall|j: int| 0 <= j < crate::tools::tool_table()[k].2.len()
                implies !(#[trigger] str_arg(args, crate::tools::tool_table()[k].2[j]) is None) by {
                assert(j == 0);
            }
        }
    } else if k == 6 {
        assert(crate::tools::tool_table()[k] == crate::tools::tool_focus_view());
        assert(!(p is Fail));
    } else if k == 7 {
        assert(crate::tools::tool_table()[k] == crate::tools::tool_interact_view());
        if str_arg(args, "action"@) is None {
            assert(p is Fail);
            assert(str_arg(args, crate::tools::tool_table()[k].2[0]) is None);
        } else {
            assert(!(p is Fail));
            assert forall|j: int| 0 <= j < crate::tools::tool_table()[k].2.len()
                implies !(#[trigger] str_arg(args, crate::tools::tool_table()[k].2[j]) is None) by {
                assert(j == 0);
            }
        }
    } else if k == 8 {
        assert(crate::tools::tool_table()[k] == crate::tools::tool_read_view());
        assert(!(p is Fail));
    } else if k == 9 {
        assert(crate::tools::tool_table()[k] == crate::tools::tool_wait_view());
        if str_arg(args, "query"@) is None {
            assert(p is Fail);
            assert(str_arg(args, crate::tools::tool_table()[k].2[0]) is None);
        } else {
            assert(!(p is Fail));
            assert forall|j: int| 0 <= j < crate::tools::tool_table()[k].2.len()
                implies !(#[trigger] str_arg(args, crate::tools::tool_table()[k].2[j]) is None) by {
                assert(j == 0);
            }
        }
    }
}

} // verus!
