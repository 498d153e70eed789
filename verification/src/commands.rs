use vstd::prelude::*;
use crate::text::{chars_of, chars_eq, decimal, joined, push_decimal, push_joined, push_str, split_on, string_of};
use crate::roles::{parse_role_filter, roles_of};
use crate::snapshot::{cached_handle, ElementCache};
use crate::tree::TraversalOptions;

verus! {

broadcast use vstd::string::group_string_axioms;

// ---------------------------------------------------------------------------
// interact
// ---------------------------------------------------------------------------

/// The report after performing `action` on element `element_id`.
pub open spec fn interact_message(element_id: u32, action: Seq<char>, value: Option<Seq<char>>) -> Seq<char> {
    match value {
        Some(v) => "Performed '"@ + action + "' on element "@ + decimal(element_id as nat) + " with value '"@ + v + "'"@,
        None => "Performed '"@ + action + "' on element "@ + decimal(element_id as nat),
    }
}

/// The view of an optional string.
pub open spec fn opt_view(s: Option<&str>) -> Option<Seq<char>> {
    match s {
        Some(v) => Some(v@),
        None => None,
    }
}

/// The report of an accessibility action that was performed.
pub fn run_interact(element_id: u32, action: &str, value: Option<&str>) -> (msg: String)
    ensures
        msg@ == interact_message(element_id, action@, opt_view(value)),
{
    let mut m: Vec<char> = Vec::new();
    push_str(&mut m, "Performed '");
    push_str(&mut m, action);
    push_str(&mut m, "' on element ");
    push_decimal(&mut m, element_id as u64);
    match value {
        Some(v) => {
            push_str(&mut m, " with value '");
            push_str(&mut m, v);
            push_str(&mut m, "'");
            assert(m@ =~= interact_message(element_id, action@, Some(v@)));
        }
        None => {
            assert(m@ =~= interact_message(element_id, action@, None));
        }
    }
    string_of(&m)
}

// ---------------------------------------------------------------------------
// accessibility actions
// ---------------------------------------------------------------------------

/// An accessibility action to perform on an element.
#[derive(Debug, PartialEq, Eq)]
pub enum ActionRequest {
    Press,
    Focus,
    Toggle,
    Expand,
    Collapse,
    Select,
    ShowMenu,
    /// Set the element's value to this text (a numeric value where the
    /// text reads as a number).
    SetValue(String),
    /// Any other action, by its platform name.
    Other(String),
}

/// The kinds of action names.
#[derive(PartialEq, Eq)]
pub enum ActionKind {
    Press,
    Focus,
    Toggle,
    Expand,
    Collapse,
    Select,
    ShowMenu,
    SetValue,
    Other,
}

/// The kind of action an action name asks for.
pub open spec fn action_kind(action: Seq<char>) -> ActionKind {
    if action == "press"@ || action == "click"@ || action == "activate"@ { ActionKind::Press }
    else if action == "focus"@ { ActionKind::Focus }
    else if action == "toggle"@ { ActionKind::Toggle }
    else if action == "expand"@ { ActionKind::Expand }
    else if action == "collapse"@ { ActionKind::Collapse }
    else if action == "select"@ { ActionKind::Select }
    else if action == "show-menu"@ || action == "show_menu"@ { ActionKind::ShowMenu }
    else if action == "set-value"@ || action == "set_value"@ || action == "setvalue"@ { ActionKind::SetValue }
    else { ActionKind::Other }
}

/// A request as its kind and the text it carries (empty where it carries none).
pub open spec fn request_view(r: ActionRequest) -> (ActionKind, Seq<char>) {
    match r {
        ActionRequest::Press => (ActionKind::Press, Seq::empty()),
        ActionRequest::Focus => (ActionKind::Focus, Seq::empty()),
        ActionRequest::Toggle => (ActionKind::Toggle, Seq::empty()),
        ActionRequest::Expand => (ActionKind::Expand, Seq::empty()),
        ActionRequest::Collapse => (ActionKind::Collapse, Seq::empty()),
        ActionRequest::Select => (ActionKind::Select, Seq::empty()),
        ActionRequest::ShowMenu => (ActionKind::ShowMenu, Seq::empty()),
        ActionRequest::SetValue(s) => (ActionKind::SetValue, s@),
        ActionRequest::Other(s) => (ActionKind::Other, s@),
    }
}

/// The request an action name and optional value make, as `request_view` shows it;
/// `None` where a value is needed and missing.
pub open spec fn expected_request(action: Seq<char>, value: Option<Seq<char>>) -> Option<(ActionKind, Seq<char>)> {
    match action_kind(action) {
        ActionKind::SetValue => match value {
            Some(v) => Some((ActionKind::SetValue, v)),
            None => None,
        },
        ActionKind::Other => Some((ActionKind::Other, action)),
        k => Some((k, Seq::empty())),
    }
}

/// Decide which accessibility action an action name asks for:
/// `press`/`click`/`activate`, `focus`, `toggle`, `expand`,
/// `collapse`, `select`, `show-menu`/`show_menu`, `set-value`/`set_value`/`setvalue`
/// (which needs a value), or any other name as a platform action.
pub fn action_request(action: &str, value: Option<&str>) -> (r: Result<ActionRequest, String>)
    ensures
        match expected_request(action@, opt_view(value)) {
            Some(v) => r matches Ok(req) && request_view(req) == v,
            None => r matches Err(m) && m@ == "set-value action requires --value parameter"@,
        },
{
    let a = chars_of(action);
    if chars_eq(&a, "press") || chars_eq(&a, "click") || chars_eq(&a, "activate") {
        Ok(ActionRequest::Press)
    } else if chars_eq(&a, "focus") {
        Ok(ActionRequest::Focus)
    } else if chars_eq(&a, "toggle") {
        Ok(ActionRequest::Toggle)
    } else if chars_eq(&a, "expand") {
        Ok(ActionRequest::Expand)
    } else if chars_eq(&a, "collapse") {
        Ok(ActionRequest::Collapse)
    } else if chars_eq(&a, "select") {
        Ok(ActionRequest::Select)
    } else if chars_eq(&a, "show-menu") || chars_eq(&a, "show_menu") {
        Ok(ActionRequest::ShowMenu)
    } else if chars_eq(&a, "set-value") || chars_eq(&a, "set_value") || chars_eq(&a, "setvalue") {
        match value {
            Some(v) => {
                let vv = chars_of(v);
                Ok(ActionRequest::SetValue(string_of(&vv)))
            }
            None => {
                let mut m: Vec<char> = Vec::new();
                push_str(&mut m, "set-value action requires --value parameter");
                Err(string_of(&m))
            }
        }
    } else {
        Ok(ActionRequest::Other(string_of(&a)))
    }
}

/// The report of an action that the platform refused.
pub open spec fn action_failure(action: Seq<char>, element_id: u32, detail: Seq<char>) -> Seq<char> {
    "Action '"@ + action + "' failed on element "@ + decimal(element_id as nat) + ": "@ + detail
}

/// The error for an action that the platform refused, with its reason.
pub fn action_failure_message(action: &str, element_id: u32, detail: &str) -> (m: String)
    ensures
        m@ == action_failure(action@, element_id, detail@),
{
    let mut v: Vec<char> = Vec::new();
    push_str(&mut v, "Action '");
    push_str(&mut v, action);
    push_str(&mut v, "' failed on element ");
    push_decimal(&mut v, element_id as u64);
    push_str(&mut v, ": ");
    push_str(&mut v, detail);
    assert(v@ =~= action_failure(action@, element_id, detail@));
    string_of(&v)
}

/// The error when an element is neither cached nor found after a fresh traversal.
pub fn element_not_found_message(element_id: u32) -> (m: String)
    ensures
        m@ == "Element "@ + decimal(element_id as nat) + " not found. Run `agent-desktop observe` first."@,
{
    let mut v: Vec<char> = Vec::new();
    push_str(&mut v, "Element ");
    push_decimal(&mut v, element_id as u64);
    push_str(&mut v, " not found. Run `agent-desktop observe` first.");
    string_of(&v)
}

/// What to do next for an action on an element.
#[derive(Debug, PartialEq, Eq)]
pub enum ActionStep {
    /// Perform `request` on the element with this handle.
    Act { source: u64, request: ActionRequest },
    /// The element is not cached: observe the saved application again (see
    /// `refresh_target`), then finish with `perform_refreshed_action`.
    NotCached,
}

/// What an action with a handle found gives: the handle and the request,
/// or the request's error.
pub open spec fn action_with(h: u64, action: Seq<char>, value: Option<Seq<char>>, r: Result<(u64, ActionRequest), String>) -> bool {
    match expected_request(action, value) {
        Some(v) => r matches Ok((source, req)) && source == h && request_view(req) == v,
        None => r matches Err(m) && m@ == "set-value action requires --value parameter"@,
    }
}

fn act_on(h: u64, action: &str, value: Option<&str>) -> (r: Result<(u64, ActionRequest), String>)
    ensures
        action_with(h, action@, opt_view(value), r),
{
    match action_request(action, value) {
        Ok(req) => Ok((h, req)),
        Err(m) => Err(m),
    }
}

/// Perform `action` on element `element_id`: where the element is cached
/// from the last traversal in this process, the action is performed on it
/// at once, without reading any saved state; otherwise the element is
/// `NotCached`.
pub fn perform_action(cache: &ElementCache, element_id: u32, action: &str, value: Option<&str>) -> (r: Result<ActionStep, String>)
    ensures
        match cached_handle(*cache, element_id) {
            None => r matches Ok(ActionStep::NotCached),
            Some(h) => match expected_request(action@, opt_view(value)) {
                Some(v) => r matches Ok(ActionStep::Act { source, request }) && source == h && request_view(request) == v,
                None => r matches Err(m) && m@ == "set-value action requires --value parameter"@,
            },
        },
{
    match cache.lookup(element_id) {
        None => Ok(ActionStep::NotCached),
        Some(h) => match act_on(h, action, value) {
            Ok((source, request)) => Ok(ActionStep::Act { source, request }),
            Err(m) => Err(m),
        },
    }
}

/// Finish an action after the saved application was observed again: the
/// element must now be cached.
pub fn perform_refreshed_action(cache: &ElementCache, element_id: u32, action: &str, value: Option<&str>)
    -> (r: Result<(u64, ActionRequest), String>)
    ensures
        match cached_handle(*cache, element_id) {
            None => r matches Err(m) && m@ == "Element "@ + decimal(element_id as nat) + " not found. Run `agent-desktop observe` first."@,
            Some(h) => action_with(h, action@, opt_view(value), r),
        },
{
    match cache.lookup(element_id) {
        None => Err(element_not_found_message(element_id)),
        Some(h) => act_on(h, action, value),
    }
}

/// The application and query of the saved observation.
#[derive(Debug, PartialEq, Eq)]
pub struct SavedQuery {
    pub pid: u32,
    pub max_depth: u32,
    pub max_elements: u32,
    pub visible_only: bool,
    pub roles: Vec<String>,
}

/// The options a saved query gives: its limits, and its role names read as a
/// role filter (none where it names no roles).
pub open spec fn saved_options(s: SavedQuery, o: TraversalOptions) -> bool {
    &&& o.max_depth == s.max_depth
    &&& o.max_elements == s.max_elements
    &&& o.visible_only == s.visible_only
    &&& if s.roles.len() == 0 {
        o.roles is None
    } else {
        o.roles matches Some(v) && v@ == roles_of(split_on(joined(s.roles@.map_values(|p: String| p@), ","@), ","@))
    }
}

/// Which application to traverse again, and how, when an element is not
/// cached: from the saved observation (`None` where nothing was saved). A
/// saved all-applications overview (process id 0) cannot be traversed again.
pub fn refresh_target(saved: Option<SavedQuery>) -> (r: Result<(u32, TraversalOptions), String>)
    ensures
        match saved {
            None => r matches Err(m) && m@ == "No accessibility data. Run `agent-desktop observe` first."@,
            Some(s) => if s.pid == 0 {
                r matches Err(m) && m@ == "Current state is an all-apps overview. Run `agent-desktop observe --app <name>` to target a specific app first."@
            } else {
                r matches Ok((p, o)) && p == s.pid && saved_options(s, o)
            },
        },
{
    match saved {
        None => {
            let mut v: Vec<char> = Vec::new();
            push_str(&mut v, "No accessibility data. Run `agent-desktop observe` first.");
            Err(string_of(&v))
        }
        Some(s) => {
            if s.pid == 0 {
                let mut v: Vec<char> = Vec::new();
                push_str(&mut v, "Current state is an all-apps overview. Run `agent-desktop observe --app <name>` to target a specific app first.");
                Err(string_of(&v))
            } else {
                let roles = if s.roles.len() == 0 {
                    None
                } else {
                    let mut v: Vec<char> = Vec::new();
                    push_joined(&mut v, &s.roles, ",");
                    assert(v@ =~= joined(s.roles@.map_values(|p: String| p@), ","@));
                    let t = string_of(&v);
                    Some(parse_role_filter(t.as_str()))
                };
                Ok((s.pid, TraversalOptions {
                    max_depth: s.max_depth,
                    max_elements: s.max_elements,
                    visible_only: s.visible_only,
                    roles,
                }))
            }
        }
    }
}

// ---------------------------------------------------------------------------
// observe
// ---------------------------------------------------------------------------

/// Which application to observe.
#[derive(Debug, PartialEq, Eq)]
pub enum AppTarget {
    ByName(String),
    ByPid(u32),
}

/// How far and what to traverse.
#[derive(Debug, PartialEq, Eq)]
pub struct QueryOptions {
    pub max_depth: u32,
    pub max_elements: u32,
    pub visible_only: bool,
    pub include_raw: bool,
}

/// A traversal to run: one application, or (`target == None`) an overview of all.
#[derive(Debug, PartialEq, Eq)]
pub struct ObserveRequest {
    pub target: Option<AppTarget>,
    pub options: QueryOptions,
}

/// The target an application name and process id select: the process id wins.
pub open spec fn target_for(app: Option<Seq<char>>, pid: Option<u32>) -> Option<(Option<Seq<char>>, u32)> {
    match pid {
        Some(p) => Some((None, p)),
        None => match app {
            Some(n) => Some((Some(n), 0)),
            None => None,
        },
    }
}

/// A target as the name it names (if by name) and the process id (0 if by name).
pub open spec fn target_view(t: AppTarget) -> (Option<Seq<char>>, u32) {
    match t {
        AppTarget::ByName(n) => (Some(n@), 0),
        AppTarget::ByPid(p) => (None, p),
    }
}

fn make_target(app: Option<&str>, pid: Option<u32>) -> (t: Option<AppTarget>)
    ensures
        match target_for(opt_view(app), pid) {
            None => t is None,
            Some(v) => t matches Some(x) && target_view(x) == v,
        },
{
    match pid {
        Some(p) => Some(AppTarget::ByPid(p)),
        None => match app {
            Some(name) => {
                let n = chars_of(name);
                Some(AppTarget::ByName(string_of(&n)))
            }
            None => None,
        },
    }
}

/// The traversal that action commands run before acting on an application:
/// depth 10, at most 500 elements, visible elements only, no raw attributes.
/// A process id is preferred to a name; with neither there is nothing to observe.
pub fn run_observe_silent(app: Option<&str>, pid: Option<u32>) -> (r: Result<ObserveRequest, String>)
    ensures
        match target_for(opt_view(app), pid) {
            None => r matches Err(m) && m@ == "No app target specified"@,
            Some(v) => r matches Ok(req) && (req.target matches Some(t) && target_view(t) == v)
                && req.options == (QueryOptions { max_depth: 10, max_elements: 500, visible_only: true, include_raw: false }),
        },
{
    match make_target(app, pid) {
        Some(t) => Ok(ObserveRequest {
            target: Some(t),
            options: QueryOptions { max_depth: 10, max_elements: 500, visible_only: true, include_raw: false },
        }),
        None => {
            let mut v: Vec<char> = Vec::new();
            push_str(&mut v, "No app target specified");
            Err(string_of(&v))
        }
    }
}

/// The traversal the `observe` command runs. With neither an application nor a
/// process id it is an overview of all applications, whose depth defaults to 1;
/// for one application the depth defaults to 10.
pub fn observe_request(
    app: Option<&str>,
    pid: Option<u32>,
    max_depth: Option<u32>,
    max_elements: u32,
    visible_only: bool,
    include_raw: bool,
) -> (req: ObserveRequest)
    ensures
        match target_for(opt_view(app), pid) {
            None => req.target is None,
            Some(v) => req.target matches Some(t) && target_view(t) == v,
        },
        req.options.max_depth == match max_depth {
            Some(d) => d,
            None => if app is None && pid is None { 1u32 } else { 10u32 },
        },
        req.options.max_elements == max_elements,
        req.options.visible_only == visible_only,
        req.options.include_raw == include_raw,
{
    let all_apps = app.is_none() && pid.is_none();
    let depth = match max_depth {
        Some(d) => d,
        None => if all_apps { 1 } else { 10 },
    };
    ObserveRequest {
        target: make_target(app, pid),
        options: QueryOptions { max_depth: depth, max_elements, visible_only, include_raw },
    }
}

} // verus!
