use vstd::prelude::*;
use crate::platform::text_of;
use crate::render::{find_element, find_index};
use crate::resolve::{no_data_message, pick_query_match, picked};
use crate::text::{chars_of, decimal, joined, push_decimal, push_joined, push_signed, push_str, signed_decimal, string_of};
use crate::tree::{ostr, role_display, views, Bounds, Element, ElementRole, ElementStates, ElementView};
use xa11y_core::selector::find_elements_in_tree;
use serde_json::from_str;
use xa11y_core::{ElementData, Selector};

verus! {

broadcast use vstd::string::group_string_axioms;

// ---------------------------------------------------------------------------
// The selector engine
// ---------------------------------------------------------------------------

/// Why a selector does not parse, as `xa11y_core::Selector::parse` reports
/// it (`None` where it parses).
pub uninterp spec fn selector_error(query: Seq<char>) -> Option<Seq<char>>;

/// The handles (positions) of the elements that `xa11y_core`'s selector
/// engine matches, in the order it finds them, when it runs `query` over the
/// element data `data` (JSON), with `tops` as the top level and `links` as
/// each element's children.
pub uninterp spec fn selector_matches(data: Seq<char>, tops: Seq<usize>, links: Seq<Seq<usize>>, query: Seq<char>) -> Seq<u64>;

/// The first position of an element numbered `id`, if any.
pub open spec fn position_of(es: Seq<ElementView>, id: u32) -> Option<int> {
    let i = find_index(es, id, 0);
    if i == -1 { None } else { Some(i) }
}

/// The positions of the elements numbered `cs` (numbers found nowhere left out).
pub open spec fn child_positions(es: Seq<ElementView>, cs: Seq<u32>) -> Seq<usize>
    decreases cs.len(),
{
    if cs.len() == 0 {
        Seq::empty()
    } else {
        let r = child_positions(es, cs.drop_last());
        match position_of(es, cs.last()) {
            Some(p) => r.push(p as usize),
            None => r,
        }
    }
}

/// Whether the element at position `k` starts a tree: it has no parent or lies at depth 0.
pub open spec fn is_top(e: ElementView) -> bool {
    e.parent is None || e.depth == 0
}

/// The positions among the first `n` elements that start a tree, in order.
pub open spec fn top_positions(es: Seq<ElementView>, n: int) -> Seq<usize>
    decreases n,
{
    if n <= 0 {
        Seq::empty()
    } else {
        let r = top_positions(es, n - 1);
        if is_top(es[n - 1]) { r.push((n - 1) as usize) } else { r }
    }
}

/// `xa11y_core::Selector::parse`: its error message is named
/// `selector_error` of the query (`None` where the query parses); nothing
/// more is claimed of it.
#[verifier::external_body]
fn check_selector(query: &str) -> (r: Option<String>)
    ensures
        match selector_error(query@) {
            None => r is None,
            Some(m) => r matches Some(x) && x@ == m,
        },
{
    xa11y_core::Selector::parse(query).err().map(|e| e.to_string())
}

/// `xa11y_core::selector::find_elements_in_tree`, run with the selector
/// `query` over the element data that `serde_json` reads from `data`, each
/// element's handle set to its position, the top level taken from `tops` and
/// each element's children from `links`: the handles of the matched elements
/// are named `selector_matches` of the four arguments; nothing more is claimed.
#[verifier::external_body]
fn select(data: &str, tops: &Vec<usize>, links: &Vec<Vec<usize>>, query: &str) -> (r: Vec<u64>)
    ensures
        r@ == selector_matches(data@, tops@, link_views(links@), query@),
{
    let (Ok(selector), Ok(mut els)) = (Selector::parse(query), from_str::<Vec<ElementData>>(data)) else { return vec![] };
    for (i, d) in els.iter_mut().enumerate() { d.handle = i as u64; }
    let pick = |ps: &Vec<usize>| ps.iter().filter_map(|p| els.get(*p).cloned()).collect::<Vec<_>>();
    let children = |p: Option<&ElementData>| Ok(match p { None => pick(tops), Some(d) => links.get(d.handle as usize).map(pick).unwrap_or_default() });
    find_elements_in_tree(children, None, &selector, None, None).unwrap_or_default().iter().map(|d| d.handle).collect()
}

/// Lists of positions as plain sequences.
pub open spec fn link_views(links: Seq<Vec<usize>>) -> Seq<Seq<usize>> {
    links.map_values(|l: Vec<usize>| l@)
}

/// Each element's children, as positions.
pub open spec fn child_links(es: Seq<ElementView>) -> Seq<Seq<usize>> {
    Seq::new(es.len(), |k: int| child_positions(es, es[k].children))
}

/// The positions of the elements a selector matches in an observation.
pub open spec fn matched_positions(es: Seq<ElementView>, query: Seq<char>) -> Seq<u64> {
    selector_matches(elements_json(es), top_positions(es, es.len() as int), child_links(es), query)
}

/// The numbers of the elements at positions `ps` (positions beyond the
/// list left out).
pub open spec fn ids_at(es: Seq<ElementView>, ps: Seq<u64>) -> Seq<u32>
    decreases ps.len(),
{
    if ps.len() == 0 {
        Seq::empty()
    } else {
        let r = ids_at(es, ps.drop_last());
        if ps.last() < es.len() { r.push(es[ps.last() as int].id) } else { r }
    }
}

/// The numbers of the elements a selector matches in an observation, in the
/// order the engine finds them.
pub open spec fn matched_ids(es: Seq<ElementView>, query: Seq<char>) -> Seq<u32> {
    ids_at(es, matched_positions(es, query))
}

// ---------------------------------------------------------------------------
// What the engine is given
// ---------------------------------------------------------------------------

fn positions_of(es: &Vec<Element>, cs: &Vec<u32>) -> (r: Vec<usize>)
    ensures
        r@ == child_positions(views(es@), cs@),
{
    let ghost ev = views(es@);
    let mut r: Vec<usize> = Vec::new();
    let mut j: usize = 0;
    while j < cs.len()
        invariant
            j <= cs.len(),
            ev == views(es@),
            r@ == child_positions(ev, cs@.take(j as int)),
        decreases cs.len() - j,
    {
        assert(cs@.take(j + 1).drop_last() =~= cs@.take(j as int));
        assert(cs@.take(j + 1).last() == cs@[j as int]);
        match find_element(es, cs[j]) {
            Some(p) => r.push(p),
            None => {}
        }
        j = j + 1;
    }
    assert(cs@.take(cs.len() as int) =~= cs@);
    r
}

fn tops_of(es: &Vec<Element>) -> (r: Vec<usize>)
    ensures
        r@ == top_positions(views(es@), es@.len() as int),
{
    let mut r: Vec<usize> = Vec::new();
    let mut k: usize = 0;
    while k < es.len()
        invariant
            k <= es.len(),
            r@ == top_positions(views(es@), k as int),
        decreases es.len() - k,
    {
        assert(views(es@)[k as int] == es@[k as int]@);
        if es[k].parent.is_none() || es[k].depth == 0 {
            r.push(k);
        }
        k = k + 1;
    }
    r
}

fn links_of(es: &Vec<Element>) -> (r: Vec<Vec<usize>>)
    ensures
        r@.map_values(|l: Vec<usize>| l@) == child_links(views(es@)),
{
    let mut links: Vec<Vec<usize>> = Vec::new();
    let mut k: usize = 0;
    while k < es.len()
        invariant
            k <= es.len(),
            links@.len() == k,
            forall|i: int| 0 <= i < k ==> (#[trigger] links@[i])@ == child_positions(views(es@), es@[i].children@),
        decreases es.len() - k,
    {
        links.push(positions_of(es, &es[k].children));
        k = k + 1;
    }
    assert forall|i: int| 0 <= i < es.len() implies #[trigger] link_views(links@)[i] == child_links(views(es@))[i] by {
        assert(views(es@)[i] == es@[i]@);
    }
    assert(link_views(links@) =~= child_links(views(es@)));
    links
}

fn ids_of(es: &Vec<Element>, ps: &Vec<u64>) -> (r: Vec<u32>)
    ensures
        r@ == ids_at(views(es@), ps@),
{
    let mut r: Vec<u32> = Vec::new();
    let mut j: usize = 0;
    while j < ps.len()
        invariant
            j <= ps.len(),
            r@ == ids_at(views(es@), ps@.take(j as int)),
        decreases ps.len() - j,
    {
        assert(ps@.take(j + 1).drop_last() =~= ps@.take(j as int));
        assert(ps@.take(j + 1).last() == ps@[j as int]);
        if ps[j] < es.len() as u64 {
            assert(views(es@)[ps@[j as int] as int] == es@[ps@[j as int] as int]@);
            r.push(es[ps[j] as usize].id);
        }
        j = j + 1;
    }
    assert(ps@.take(ps.len() as int) =~= ps@);
    r
}

fn run_selector(es: &Vec<Element>, query: &str) -> (r: Vec<u32>)
    ensures
        r@ == matched_ids(views(es@), query@),
{
    let links = links_of(es);
    let tops = tops_of(es);
    let data = elements_json_of(es);
    let ps = select(data.as_str(), &tops, &links, query);
    ids_of(es, &ps)
}


// ---------------------------------------------------------------------------
// Elements as the selector engine's JSON
// ---------------------------------------------------------------------------

/// The name the selector engine's element data gives a role.
pub open spec fn role_tag(r: ElementRole) -> Seq<char> {
    match r {
        ElementRole::Window => "Window"@,
        ElementRole::Application => "Application"@,
        ElementRole::Button => "Button"@,
        ElementRole::TextField => "TextField"@,
        ElementRole::StaticText => "StaticText"@,
        ElementRole::CheckBox => "CheckBox"@,
        ElementRole::RadioButton => "RadioButton"@,
        ElementRole::ComboBox => "ComboBox"@,
        ElementRole::List => "List"@,
        ElementRole::ListItem => "ListItem"@,
        ElementRole::Menu => "Menu"@,
        ElementRole::MenuItem => "MenuItem"@,
        ElementRole::MenuBar => "MenuBar"@,
        ElementRole::Tab => "Tab"@,
        ElementRole::TabGroup => "TabGroup"@,
        ElementRole::Table => "Table"@,
        ElementRole::TableRow => "TableRow"@,
        ElementRole::TableCell => "TableCell"@,
        ElementRole::Toolbar => "Toolbar"@,
        ElementRole::ScrollBar => "ScrollBar"@,
        ElementRole::Slider => "Slider"@,
        ElementRole::Image => "Image"@,
        ElementRole::Link => "Link"@,
        ElementRole::Group => "Group"@,
        ElementRole::Dialog => "Dialog"@,
        ElementRole::Alert => "Alert"@,
        ElementRole::ProgressBar => "ProgressBar"@,
        ElementRole::TreeItem => "TreeItem"@,
        ElementRole::WebArea => "WebArea"@,
        ElementRole::Heading => "Heading"@,
        ElementRole::Separator => "Separator"@,
        ElementRole::SplitGroup => "SplitGroup"@,
        ElementRole::Unknown => "Unknown"@,
    }
}

/// Whether a character is an ASCII capital letter.
pub open spec fn is_capital(c: char) -> bool {
    'A' <= c <= 'Z'
}

/// The small letter of an ASCII capital.
pub open spec fn small_of(c: char) -> char {
    ((c as int) + 32) as char
}

/// A PascalCase name in snake case: each capital becomes small, preceded by
/// an underscore unless it starts the name.
pub open spec fn snake_case(s: Seq<char>) -> Seq<char>
    decreases s.len(),
{
    if s.len() == 0 {
        Seq::empty()
    } else {
        let rest = snake_case(s.drop_last());
        let c = s.last();
        if is_capital(c) {
            if s.len() == 1 { rest.push(small_of(c)) } else { rest + seq!['_', small_of(c)] }
        } else {
            rest.push(c)
        }
    }
}

/// The selector engine receives each element under its own role: the role
/// tag it is given, written in snake case (as the engine's selectors name
/// roles), is the element's role name.
#[verifier::spinoff_prover]
#[verifier::rlimit(100)]
pub proof fn law_role_tags_name_the_role(r: ElementRole)
    ensures
        snake_case(role_tag(r)) == role_display(r),
{
    match r {
        ElementRole::Window => {
            assert(snake_case("Window"@) =~= "window"@) by {
                reveal_strlit("Window");
                reveal_strlit("window");
                reveal_with_fuel(snake_case, 14);
            }
        }
        ElementRole::Application => {
            assert(snake_case("Application"@) =~= "application"@) by {
                reveal_strlit("Application");
                reveal_strlit("application");
                reveal_with_fuel(snake_case, 14);
            }
        }
        ElementRole::Button => {
            assert(snake_case("Button"@) =~= "button"@) by {
                reveal_strlit("Button");
                reveal_strlit("button");
                reveal_with_fuel(snake_case, 14);
            }
        }
        ElementRole::TextField => {
            assert(snake_case("TextField"@) =~= "text_field"@) by {
                reveal_strlit("TextField");
                reveal_strlit("text_field");
                reveal_with_fuel(snake_case, 14);
            }
        }
        ElementRole::StaticText => {
            assert(snake_case("StaticText"@) =~= "static_text"@) by {
                reveal_strlit("StaticText");
                reveal_strlit("static_text");
                reveal_with_fuel(snake_case, 14);
            }
        }
        ElementRole::CheckBox => {
            assert(snake_case("CheckBox"@) =~= "check_box"@) by {
                reveal_strlit("CheckBox");
                reveal_strlit("check_box");
                reveal_with_fuel(snake_case, 14);
            }
        }
        ElementRole::RadioButton => {
            assert(snake_case("RadioButton"@) =~= "radio_button"@) by {
                reveal_strlit("RadioButton");
                reveal_strlit("radio_button");
                reveal_with_fuel(snake_case, 14);
            }
        }
        ElementRole::ComboBox => {
            assert(snake_case("ComboBox"@) =~= "combo_box"@) by {
                reveal_strlit("ComboBox");
                reveal_strlit("combo_box");
                reveal_with_fuel(snake_case, 14);
            }
        }
        ElementRole::List => {
            assert(snake_case("List"@) =~= "list"@) by {
                reveal_strlit("List");
                reveal_strlit("list");
                reveal_with_fuel(snake_case, 14);
            }
        }
        ElementRole::ListItem => {
            assert(snake_case("ListItem"@) =~= "list_item"@) by {
                reveal_strlit("ListItem");
                reveal_strlit("list_item");
                reveal_with_fuel(snake_case, 14);
            }
        }
        ElementRole::Menu => {
            assert(snake_case("Menu"@) =~= "menu"@) by {
                reveal_strlit("Menu");
                reveal_strlit("menu");
                reveal_with_fuel(snake_case, 14);
            }
        }
        ElementRole::MenuItem => {
            assert(snake_case("MenuItem"@) =~= "menu_item"@) by {
                reveal_strlit("MenuItem");
                reveal_strlit("menu_item");
                reveal_with_fuel(snake_case, 14);
            }
        }
        ElementRole::MenuBar => {
            assert(snake_case("MenuBar"@) =~= "menu_bar"@) by {
                reveal_strlit("MenuBar");
                reveal_strlit("menu_bar");
                reveal_with_fuel(snake_case, 14);
            }
        }
        ElementRole::Tab => {
            assert(snake_case("Tab"@) =~= "tab"@) by {
                reveal_strlit("Tab");
                reveal_strlit("tab");
                reveal_with_fuel(snake_case, 14);
            }
        }
        ElementRole::TabGroup => {
            assert(snake_case("TabGroup"@) =~= "tab_group"@) by {
                reveal_strlit("TabGroup");
                reveal_strlit("tab_group");
                reveal_with_fuel(snake_case, 14);
            }
        }
        ElementRole::Table => {
            assert(snake_case("Table"@) =~= "table"@) by {
                reveal_strlit("Table");
                reveal_strlit("table");
                reveal_with_fuel(snake_case, 14);
            }
        }
        ElementRole::TableRow => {
            assert(snake_case("TableRow"@) =~= "table_row"@) by {
                reveal_strlit("TableRow");
                reveal_strlit("table_row");
                reveal_with_fuel(snake_case, 14);
            }
        }
        ElementRole::TableCell => {
            assert(snake_case("TableCell"@) =~= "table_cell"@) by {
                reveal_strlit("TableCell");
                reveal_strlit("table_cell");
                reveal_with_fuel(snake_case, 14);
            }
        }
        ElementRole::Toolbar => {
            assert(snake_case("Toolbar"@) =~= "toolbar"@) by {
                reveal_strlit("Toolbar");
                reveal_strlit("toolbar");
                reveal_with_fuel(snake_case, 14);
            }
        }
        ElementRole::ScrollBar => {
            assert(snake_case("ScrollBar"@) =~= "scroll_bar"@) by {
                reveal_strlit("ScrollBar");
                reveal_strlit("scroll_bar");
                reveal_with_fuel(snake_case, 14);
            }
        }
        ElementRole::Slider => {
            assert(snake_case("Slider"@) =~= "slider"@) by {
                reveal_strlit("Slider");
                reveal_strlit("slider");
                reveal_with_fuel(snake_case, 14);
            }
        }
        ElementRole::Image => {
            assert(snake_case("Image"@) =~= "image"@) by {
                reveal_strlit("Image");
                reveal_strlit("image");
                reveal_with_fuel(snake_case, 14);
            }
        }
        ElementRole::Link => {
            assert(snake_case("Link"@) =~= "link"@) by {
                reveal_strlit("Link");
                reveal_strlit("link");
                reveal_with_fuel(snake_case, 14);
            }
        }
        ElementRole::Group => {
            assert(snake_case("Group"@) =~= "group"@) by {
                reveal_strlit("Group");
                reveal_strlit("group");
                reveal_with_fuel(snake_case, 14);
            }
        }
        ElementRole::Dialog => {
            assert(snake_case("Dialog"@) =~= "dialog"@) by {
                reveal_strlit("Dialog");
                reveal_strlit("dialog");
                reveal_with_fuel(snake_case, 14);
            }
        }
        ElementRole::Alert => {
            assert(snake_case("Alert"@) =~= "alert"@) by {
                reveal_strlit("Alert");
                reveal_strlit("alert");
                reveal_with_fuel(snake_case, 14);
            }
        }
        ElementRole::ProgressBar => {
            assert(snake_case("ProgressBar"@) =~= "progress_bar"@) by {
                reveal_strlit("ProgressBar");
                reveal_strlit("progress_bar");
                reveal_with_fuel(snake_case, 14);
            }
        }
        ElementRole::TreeItem => {
            assert(snake_case("TreeItem"@) =~= "tree_item"@) by {
                reveal_strlit("TreeItem");
                reveal_strlit("tree_item");
                reveal_with_fuel(snake_case, 14);
            }
        }
        ElementRole::WebArea => {
            assert(snake_case("WebArea"@) =~= "web_area"@) by {
                reveal_strlit("WebArea");
                reveal_strlit("web_area");
                reveal_with_fuel(snake_case, 14);
            }
        }
        ElementRole::Heading => {
            assert(snake_case("Heading"@) =~= "heading"@) by {
                reveal_strlit("Heading");
                reveal_strlit("heading");
                reveal_with_fuel(snake_case, 14);
            }
        }
        ElementRole::Separator => {
            assert(snake_case("Separator"@) =~= "separator"@) by {
                reveal_strlit("Separator");
                reveal_strlit("separator");
                reveal_with_fuel(snake_case, 14);
            }
        }
        ElementRole::SplitGroup => {
            assert(snake_case("SplitGroup"@) =~= "split_group"@) by {
                reveal_strlit("SplitGroup");
                reveal_strlit("split_group");
                reveal_with_fuel(snake_case, 14);
            }
        }
        ElementRole::Unknown => {
            assert(snake_case("Unknown"@) =~= "unknown"@) by {
                reveal_strlit("Unknown");
                reveal_strlit("unknown");
                reveal_with_fuel(snake_case, 14);
            }
        }
    }
}

fn role_tag_of(r: ElementRole) -> (s: &'static str)
    ensures
        s@ == role_tag(r),
{
    match r {
        ElementRole::Window => "Window",
        ElementRole::Application => "Application",
        ElementRole::Button => "Button",
        ElementRole::TextField => "TextField",
        ElementRole::StaticText => "StaticText",
        ElementRole::CheckBox => "CheckBox",
        ElementRole::RadioButton => "RadioButton",
        ElementRole::ComboBox => "ComboBox",
        ElementRole::List => "List",
        ElementRole::ListItem => "ListItem",
        ElementRole::Menu => "Menu",
        ElementRole::MenuItem => "MenuItem",
        ElementRole::MenuBar => "MenuBar",
        ElementRole::Tab => "Tab",
        ElementRole::TabGroup => "TabGroup",
        ElementRole::Table => "Table",
        ElementRole::TableRow => "TableRow",
        ElementRole::TableCell => "TableCell",
        ElementRole::Toolbar => "Toolbar",
        ElementRole::ScrollBar => "ScrollBar",
        ElementRole::Slider => "Slider",
        ElementRole::Image => "Image",
        ElementRole::Link => "Link",
        ElementRole::Group => "Group",
        ElementRole::Dialog => "Dialog",
        ElementRole::Alert => "Alert",
        ElementRole::ProgressBar => "ProgressBar",
        ElementRole::TreeItem => "TreeItem",
        ElementRole::WebArea => "WebArea",
        ElementRole::Heading => "Heading",
        ElementRole::Separator => "Separator",
        ElementRole::SplitGroup => "SplitGroup",
        ElementRole::Unknown => "Unknown",
    }
}

/// A hexadecimal digit, for `d < 16`.
pub open spec fn hex_char(d: nat) -> char {
    if d == 0 { '0' }
    else if d == 1 { '1' }
    else if d == 2 { '2' }
    else if d == 3 { '3' }
    else if d == 4 { '4' }
    else if d == 5 { '5' }
    else if d == 6 { '6' }
    else if d == 7 { '7' }
    else if d == 8 { '8' }
    else if d == 9 { '9' }
    else if d == 10 { 'a' }
    else if d == 11 { 'b' }
    else if d == 12 { 'c' }
    else if d == 13 { 'd' }
    else if d == 14 { 'e' }
    else if d == 15 { 'f' }
    else { 'f' }
}

/// A character inside a JSON string: quotes and backslashes are escaped, and
/// control characters are written as `\u00XX`.
pub open spec fn json_char(c: char) -> Seq<char> {
    if c == '"' { "\\\""@ }
    else if c == '\\' { "\\\\"@ }
    else if (c as u32) < 32 { "\\u00"@ + seq![hex_char((c as u32 / 16) as nat), hex_char((c as u32 % 16) as nat)] }
    else { seq![c] }
}

/// Text inside a JSON string.
pub open spec fn json_text(s: Seq<char>) -> Seq<char>
    decreases s.len(),
{
    if s.len() == 0 { Seq::empty() } else { json_text(s.drop_last()) + json_char(s.last()) }
}

/// A JSON string.
pub open spec fn json_string(s: Seq<char>) -> Seq<char> {
    "\""@ + json_text(s) + "\""@
}

/// An optional JSON string (`null` where there is none).
pub open spec fn json_opt(s: Option<Seq<char>>) -> Seq<char> {
    match s {
        Some(x) => json_string(x),
        None => "null"@,
    }
}

/// A JSON boolean.
pub open spec fn json_bool(b: bool) -> Seq<char> {
    if b { "true"@ } else { "false"@ }
}

/// An optional JSON boolean.
pub open spec fn json_opt_bool(b: Option<bool>) -> Seq<char> {
    match b {
        Some(x) => json_bool(x),
        None => "null"@,
    }
}

/// A size in the engine's unsigned form: a negative size counts as 0.
pub open spec fn size_of(n: i32) -> nat {
    if n < 0 { 0 } else { n as nat }
}

/// An element's bounds as the engine's rectangle.
pub open spec fn json_bounds(b: Option<Bounds>) -> Seq<char> {
    match b {
        Some(r) => "{\"x\":"@ + signed_decimal(r.x as int) + ",\"y\":"@ + signed_decimal(r.y as int)
            + ",\"width\":"@ + decimal(size_of(r.width)) + ",\"height\":"@ + decimal(size_of(r.height)) + "}"@,
        None => "null"@,
    }
}

/// An element's checked state as the engine's toggle.
pub open spec fn json_checked(c: Option<bool>) -> Seq<char> {
    match c {
        Some(true) => "\"On\""@,
        Some(false) => "\"Off\""@,
        None => "null"@,
    }
}

/// The first states of an element in the engine's state set.
pub open spec fn states_head(s: ElementStates) -> Seq<char> {
    "{\"enabled\":"@ + json_bool(s.enabled) + ",\"visible\":"@ + json_bool(s.visible)
        + ",\"focused\":"@ + json_bool(s.focused)
}

/// The middle states of an element in the engine's state set.
pub open spec fn states_mid(s: ElementStates) -> Seq<char> {
    ",\"checked\":"@ + json_checked(s.checked) + ",\"selected\":"@ + json_bool(s.selected)
}

/// The last states of an element in the engine's state set; the states an
/// observation does not record are false.
pub open spec fn states_tail(s: ElementStates) -> Seq<char> {
    ",\"expanded\":"@ + json_opt_bool(s.expanded) + ",\"editable\":"@ + json_bool(s.editable)
        + ",\"focusable\":false,\"modal\":false,\"required\":false,\"busy\":false}"@
}

/// An element's states as the engine's state set.
pub open spec fn json_states(s: ElementStates) -> Seq<char> {
    states_head(s) + states_mid(s) + states_tail(s)
}

/// The JSON strings of a list of texts.
pub open spec fn json_strings(ss: Seq<Seq<char>>) -> Seq<Seq<char>> {
    ss.map_values(|s: Seq<char>| json_string(s))
}

/// The start of an element's data: its role and texts.
pub open spec fn element_head(e: ElementView) -> Seq<char> {
    "{\"role\":\""@ + role_tag(e.role) + "\",\"name\":"@ + json_opt(e.name) + ",\"value\":"@ + json_opt(e.value)
        + ",\"description\":"@ + json_opt(e.description)
}

/// The middle of an element's data: its bounds and actions.
pub open spec fn element_mid(e: ElementView) -> Seq<char> {
    ",\"bounds\":"@ + json_bounds(e.bounds) + ",\"actions\":["@ + joined(json_strings(e.actions), ","@) + "]"@
}

/// The end of an element's data: its states, and its number as the stable id.
pub open spec fn element_tail(e: ElementView) -> Seq<char> {
    ",\"states\":"@ + json_states(e.states) + ",\"stable_id\":\""@ + decimal(e.id as nat) + "\",\"raw\":{}}"@
}

/// One element as the engine's element data: role, texts, bounds, actions,
/// states, and its number as the stable id.
pub open spec fn element_json(e: ElementView) -> Seq<char> {
    element_head(e) + element_mid(e) + element_tail(e)
}

/// An observation as a JSON array of the engine's element data, in order.
pub open spec fn elements_json(es: Seq<ElementView>) -> Seq<char> {
    "["@ + joined(es.map_values(|e: ElementView| element_json(e)), ","@) + "]"@
}

fn hex_of(d: u32) -> (c: char)
    requires
        d < 16,
    ensures
        c == hex_char(d as nat),
{
    if d == 0 { '0' } else if d == 1 { '1' } else if d == 2 { '2' } else if d == 3 { '3' }
    else if d == 4 { '4' } else if d == 5 { '5' } else if d == 6 { '6' } else if d == 7 { '7' }
    else if d == 8 { '8' } else if d == 9 { '9' } else if d == 10 { 'a' } else if d == 11 { 'b' }
    else if d == 12 { 'c' } else if d == 13 { 'd' } else if d == 14 { 'e' } else { 'f' }
}

fn push_json_string(out: &mut Vec<char>, s: &str)
    ensures
        final(out)@ == old(out)@ + json_string(s@),
{
    let v = chars_of(s);
    let ghost start = out@;
    push_str(out, "\"");
    assert(json_text(v@.take(0)) =~= Seq::<char>::empty());
    let mut i: usize = 0;
    while i < v.len()
        invariant
            i <= v.len(),
            v@ == s@,
            out@ == start + "\""@ + json_text(v@.take(i as int)),
        decreases v.len() - i,
    {
        let c = v[i];
        assert(v@.take(i + 1).drop_last() =~= v@.take(i as int));
        assert(v@.take(i + 1).last() == c);
        let n: u32 = c as u32;
        if c == '"' {
            push_str(out, "\\\"");
        } else if c == '\\' {
            push_str(out, "\\\\");
        } else if n < 32 {
            push_str(out, "\\u00");
            out.push(hex_of(n / 16));
            out.push(hex_of(n % 16));
        } else {
            out.push(c);
        }
        assert(out@ =~= start + "\""@ + json_text(v@.take(i + 1)));
        i = i + 1;
    }
    assert(v@.take(v.len() as int) =~= s@);
    push_str(out, "\"");
    assert(out@ =~= start + json_string(s@));
}

fn push_json_opt(out: &mut Vec<char>, s: &Option<String>)
    ensures
        final(out)@ == old(out)@ + json_opt(ostr(*s)),
{
    match s {
        Some(x) => push_json_string(out, x.as_str()),
        None => push_str(out, "null"),
    }
}

fn push_bool(out: &mut Vec<char>, b: bool)
    ensures
        final(out)@ == old(out)@ + json_bool(b),
{
    if b { push_str(out, "true") } else { push_str(out, "false") }
}

fn push_opt_bool(out: &mut Vec<char>, b: Option<bool>)
    ensures
        final(out)@ == old(out)@ + json_opt_bool(b),
{
    match b {
        Some(x) => push_bool(out, x),
        None => push_str(out, "null"),
    }
}

fn push_size(out: &mut Vec<char>, n: i32)
    ensures
        final(out)@ == old(out)@ + decimal(size_of(n)),
{
    if n < 0 { push_decimal(out, 0) } else { push_decimal(out, n as u64) }
}

fn push_bounds(out: &mut Vec<char>, b: Option<Bounds>)
    ensures
        final(out)@ == old(out)@ + json_bounds(b),
{
    let ghost start = out@;
    match b {
        Some(r) => {
            push_str(out, "{\"x\":");
            push_signed(out, r.x as i64);
            push_str(out, ",\"y\":");
            push_signed(out, r.y as i64);
            push_str(out, ",\"width\":");
            push_size(out, r.width);
            push_str(out, ",\"height\":");
            push_size(out, r.height);
            push_str(out, "}");
            assert(out@ =~= start + json_bounds(b));
        }
        None => push_str(out, "null"),
    }
}

fn push_checked(out: &mut Vec<char>, c: Option<bool>)
    ensures
        final(out)@ == old(out)@ + json_checked(c),
{
    match c {
        Some(true) => push_str(out, "\"On\""),
        Some(false) => push_str(out, "\"Off\""),
        None => push_str(out, "null"),
    }
}

fn push_states_head(out: &mut Vec<char>, s: ElementStates)
    ensures
        final(out)@ == old(out)@ + states_head(s),
{
    let ghost start = out@;
    push_str(out, "{\"enabled\":");
    push_bool(out, s.enabled);
    push_str(out, ",\"visible\":");
    push_bool(out, s.visible);
    push_str(out, ",\"focused\":");
    push_bool(out, s.focused);
    assert(out@ =~= start + states_head(s));
}

fn push_states_mid(out: &mut Vec<char>, s: ElementStates)
    ensures
        final(out)@ == old(out)@ + states_mid(s),
{
    let ghost start = out@;
    push_str(out, ",\"checked\":");
    push_checked(out, s.checked);
    push_str(out, ",\"selected\":");
    push_bool(out, s.selected);
    assert(out@ =~= start + states_mid(s));
}

fn push_states_tail(out: &mut Vec<char>, s: ElementStates)
    ensures
        final(out)@ == old(out)@ + states_tail(s),
{
    let ghost start = out@;
    push_str(out, ",\"expanded\":");
    push_opt_bool(out, s.expanded);
    push_str(out, ",\"editable\":");
    push_bool(out, s.editable);
    push_str(out, ",\"focusable\":false,\"modal\":false,\"required\":false,\"busy\":false}");
    assert(out@ =~= start + states_tail(s));
}

fn push_states(out: &mut Vec<char>, s: ElementStates)
    ensures
        final(out)@ == old(out)@ + json_states(s),
{
    let ghost start = out@;
    push_states_head(out, s);
    push_states_mid(out, s);
    push_states_tail(out, s);
    assert(out@ =~= start + json_states(s));
}

fn json_string_of(s: &str) -> (r: String)
    ensures
        r@ == json_string(s@),
{
    let mut v: Vec<char> = Vec::new();
    push_json_string(&mut v, s);
    string_of(&v)
}

fn push_actions(out: &mut Vec<char>, actions: &Vec<String>)
    ensures
        final(out)@ == old(out)@ + joined(json_strings(actions@.map_values(|a: String| a@)), ","@),
{
    let ghost av = actions@.map_values(|a: String| a@);
    let mut js: Vec<String> = Vec::new();
    let mut i: usize = 0;
    while i < actions.len()
        invariant
            i <= actions.len(),
            av == actions@.map_values(|a: String| a@),
            js@.len() == i,
            forall|k: int| 0 <= k < i ==> (#[trigger] js@[k])@ == json_strings(av)[k],
        decreases actions.len() - i,
    {
        js.push(json_string_of(actions[i].as_str()));
        i = i + 1;
    }
    assert(js@.map_values(|p: String| p@) =~= json_strings(av));
    push_joined(out, &js, ",");
}

fn push_element_head(out: &mut Vec<char>, e: &Element)
    ensures
        final(out)@ == old(out)@ + element_head(e@),
{
    let ghost start = out@;
    push_str(out, "{\"role\":\"");
    push_str(out, role_tag_of(e.role));
    push_str(out, "\",\"name\":");
    push_json_opt(out, &e.name);
    push_str(out, ",\"value\":");
    push_json_opt(out, &e.value);
    push_str(out, ",\"description\":");
    push_json_opt(out, &e.description);
    assert(out@ =~= start + element_head(e@));
}

fn push_element_mid(out: &mut Vec<char>, e: &Element)
    ensures
        final(out)@ == old(out)@ + element_mid(e@),
{
    let ghost start = out@;
    push_str(out, ",\"bounds\":");
    push_bounds(out, e.bounds);
    push_str(out, ",\"actions\":[");
    push_actions(out, &e.actions);
    push_str(out, "]");
    assert(out@ =~= start + element_mid(e@));
}

fn push_element_tail(out: &mut Vec<char>, e: &Element)
    ensures
        final(out)@ == old(out)@ + element_tail(e@),
{
    let ghost start = out@;
    push_str(out, ",\"states\":");
    push_states(out, e.states);
    push_str(out, ",\"stable_id\":\"");
    push_decimal(out, e.id as u64);
    push_str(out, "\",\"raw\":{}}");
    assert(out@ =~= start + element_tail(e@));
}

fn push_element(out: &mut Vec<char>, e: &Element)
    ensures
        final(out)@ == old(out)@ + element_json(e@),
{
    let ghost start = out@;
    push_element_head(out, e);
    push_element_mid(out, e);
    push_element_tail(out, e);
    assert(out@ =~= start + element_json(e@));
}

/// An observation as a JSON array of the selector engine's element data.
fn elements_json_of(es: &Vec<Element>) -> (r: String)
    ensures
        r@ == elements_json(views(es@)),
{
    let ghost ev = views(es@).map_values(|e: ElementView| element_json(e));
    let mut parts: Vec<String> = Vec::new();
    let mut i: usize = 0;
    while i < es.len()
        invariant
            i <= es.len(),
            ev == views(es@).map_values(|e: ElementView| element_json(e)),
            parts@.len() == i,
            forall|k: int| 0 <= k < i ==> (#[trigger] parts@[k])@ == ev[k],
        decreases es.len() - i,
    {
        let mut v: Vec<char> = Vec::new();
        push_element(&mut v, &es[i]);
        assert(views(es@)[i as int] == es@[i as int]@);
        parts.push(string_of(&v));
        i = i + 1;
    }
    assert(parts@.map_values(|p: String| p@) =~= ev);
    let mut out: Vec<char> = Vec::new();
    push_str(&mut out, "[");
    push_joined(&mut out, &parts, ",");
    push_str(&mut out, "]");
    assert(out@ =~= elements_json(views(es@)));
    string_of(&out)
}

fn invalid_query(m: &str) -> (s: String)
    ensures
        s@ == "Invalid query: "@ + m@,
{
    let mut v: Vec<char> = Vec::new();
    push_str(&mut v, "Invalid query: ");
    push_str(&mut v, m);
    string_of(&v)
}

// ---------------------------------------------------------------------------
// Queries
// ---------------------------------------------------------------------------

/// Check that a query parses.
pub fn parse_query(query: &str) -> (r: Result<(), String>)
    ensures
        match selector_error(query@) {
            Some(m) => r matches Err(x) && x@ == "Invalid query: "@ + m,
            None => r is Ok,
        },
{
    match check_selector(query) {
        Some(m) => Err(invalid_query(m.as_str())),
        None => Ok(()),
    }
}

/// The numbers of the elements of an observation that a selector matches,
/// or the parser's complaint.
pub fn query_elements(es: &Vec<Element>, query: &str) -> (r: Result<Vec<u32>, String>)
    ensures
        match selector_error(query@) {
            Some(m) => r matches Err(x) && x@ == "Invalid query: "@ + m,
            None => r matches Ok(v) && v@ == matched_ids(views(es@), query@),
        },
{
    match check_selector(query) {
        Some(m) => Err(invalid_query(m.as_str())),
        None => Ok(run_selector(es, query)),
    }
}

/// The element a query names in the saved observation (`None` where none
/// was saved): a query that does not parse is refused first, then a missing
/// observation; otherwise exactly one element must match.
pub fn resolve_saved_query(query: &str, saved: Option<&Vec<Element>>, mcp: bool) -> (r: Result<u32, String>)
    ensures
        match selector_error(query@) {
            Some(m) => r matches Err(x) && x@ == "Invalid query: "@ + m,
            None => match saved {
                None => r matches Err(x) && x@ == no_data_message(mcp),
                Some(es) => picked(query@, matched_ids(views(es@), query@), r),
            },
        },
{
    if let Some(m) = check_selector(query) {
        return Err(invalid_query(m.as_str()));
    }
    match saved {
        None => {
            if mcp {
                Err(text_of("No accessibility data. Run observe first."))
            } else {
                Err(text_of("No accessibility data. Run `percept observe` first."))
            }
        }
        Some(es) => {
            let ids = run_selector(es, query);
            pick_query_match(query, &ids)
        }
    }
}

/// The positions among the first `n` elements whose number is among `ids`, in order.
pub open spec fn positions_numbered(es: Seq<ElementView>, ids: Seq<u32>, n: int) -> Seq<usize>
    decreases n,
{
    if n <= 0 {
        Seq::empty()
    } else {
        let r = positions_numbered(es, ids, n - 1);
        if ids.contains(es[n - 1].id) { r.push((n - 1) as usize) } else { r }
    }
}

fn contains_id(ids: &Vec<u32>, id: u32) -> (b: bool)
    ensures
        b == ids@.contains(id),
{
    let mut i: usize = 0;
    while i < ids.len()
        invariant
            i <= ids.len(),
            forall|j: int| 0 <= j < i ==> ids@[j] != id,
        decreases ids.len() - i,
    {
        if ids[i] == id {
            assert(ids@[i as int] == id);
            return true;
        }
        i = i + 1;
    }
    false
}

/// What `observe --query` shows: the positions, in order, of the elements
/// of the observation whose number the selector matches.
pub fn filter_by_query(es: &Vec<Element>, query: &str) -> (r: Result<Vec<usize>, String>)
    ensures
        match selector_error(query@) {
            Some(m) => r matches Err(x) && x@ == "Invalid query: "@ + m,
            None => r matches Ok(v)
                && v@ == positions_numbered(views(es@), matched_ids(views(es@), query@), es@.len() as int),
        },
{
    let ids = match query_elements(es, query) {
        Ok(ids) => ids,
        Err(m) => return Err(m),
    };
    let ghost want = matched_ids(views(es@), query@);
    let mut r: Vec<usize> = Vec::new();
    let mut k: usize = 0;
    while k < es.len()
        invariant
            k <= es.len(),
            ids@ == want,
            r@ == positions_numbered(views(es@), want, k as int),
        decreases es.len() - k,
    {
        assert(views(es@)[k as int] == es@[k as int]@);
        if contains_id(&ids, es[k].id) {
            r.push(k);
        }
        k = k + 1;
    }
    Ok(r)
}

// ---------------------------------------------------------------------------
// Waiting for a query
// ---------------------------------------------------------------------------

/// What waiting for a query does after one observation.
#[derive(Debug, PartialEq, Eq)]
pub enum WaitStep {
    /// The query matched: answer with this report.
    Matched(String),
    /// The time is up: fail with this message.
    TimedOut(String),
    /// Observe again after the interval.
    Poll,
}

/// One step of waiting for `query`: it matched `found` elements in the
/// latest observation, `elapsed_ms` milliseconds after waiting began, with
/// `timeout_s` seconds allowed. A match ends the wait with its report; else
/// once the time is up the wait fails; else it observes again.
pub fn wait_step(query: &str, found: usize, elapsed_ms: u64, timeout_s: u64) -> (r: WaitStep)
    ensures
        found > 0 ==> (r matches WaitStep::Matched(m) && m@ == "Query '"@ + query@ + "' matched "@ + decimal(found as nat) + " elements:"@),
        found == 0 && elapsed_ms >= timeout_s * 1000 ==> (r matches WaitStep::TimedOut(m)
            && m@ == "Timed out after "@ + decimal(timeout_s as nat) + "s waiting for '"@ + query@ + "'"@),
        found == 0 && elapsed_ms < timeout_s * 1000 ==> r is Poll,
{
    if found > 0 {
        return WaitStep::Matched(crate::render::query_header(query, found));
    }
    if (timeout_s as u128) * 1000 <= elapsed_ms as u128 {
        let mut v: Vec<char> = Vec::new();
        push_str(&mut v, "Timed out after ");
        push_decimal(&mut v, timeout_s);
        push_str(&mut v, "s waiting for '");
        push_str(&mut v, query);
        push_str(&mut v, "'");
        WaitStep::TimedOut(string_of(&v))
    } else {
        WaitStep::Poll
    }
}

} // verus!
