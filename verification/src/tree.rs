use vstd::prelude::*;
use crate::text::{chars_of, string_of};

verus! {

broadcast use vstd::string::group_string_axioms;

// ---------------------------------------------------------------------------
// Roles
// ---------------------------------------------------------------------------

/// The role an accessibility provider reports for a node.
#[derive(Clone, Copy, Debug, PartialEq, Eq, Structural)]
pub enum PlatformRole {
    Unknown,
    Window,
    Application,
    Button,
    CheckBox,
    RadioButton,
    TextField,
    TextArea,
    StaticText,
    ComboBox,
    List,
    ListItem,
    Menu,
    MenuItem,
    MenuBar,
    Tab,
    TabGroup,
    Table,
    TableRow,
    TableCell,
    Toolbar,
    ScrollBar,
    Slider,
    Image,
    Link,
    Group,
    Dialog,
    Alert,
    ProgressBar,
    TreeItem,
    WebArea,
    Heading,
    Separator,
    SplitGroup,
    Switch,
    SpinButton,
    Tooltip,
    Status,
    Navigation,
    ScrollThumb,
}

/// The normalized role of an observed element.
#[derive(Clone, Copy, Debug, PartialEq, Eq, Structural)]
pub enum ElementRole {
    Window,
    Application,
    Button,
    TextField,
    StaticText,
    CheckBox,
    RadioButton,
    ComboBox,
    List,
    ListItem,
    Menu,
    MenuItem,
    MenuBar,
    Tab,
    TabGroup,
    Table,
    TableRow,
    TableCell,
    Toolbar,
    ScrollBar,
    Slider,
    Image,
    Link,
    Group,
    Dialog,
    Alert,
    ProgressBar,
    TreeItem,
    WebArea,
    Heading,
    Separator,
    SplitGroup,
    Unknown,
}

/// The normalized role of a platform role: text inputs, check boxes and
/// switches, scroll bars and thumbs, groups and navigation landmarks are each
/// one role; tooltips and status areas are unknown.
pub open spec fn normalized_role(role: PlatformRole) -> ElementRole {
    match role {
        PlatformRole::Window => ElementRole::Window,
        PlatformRole::Application => ElementRole::Application,
        PlatformRole::Button => ElementRole::Button,
        PlatformRole::TextField | PlatformRole::TextArea | PlatformRole::SpinButton => ElementRole::TextField,
        PlatformRole::StaticText => ElementRole::StaticText,
        PlatformRole::CheckBox | PlatformRole::Switch => ElementRole::CheckBox,
        PlatformRole::RadioButton => ElementRole::RadioButton,
        PlatformRole::ComboBox => ElementRole::ComboBox,
        PlatformRole::List => ElementRole::List,
        PlatformRole::ListItem => ElementRole::ListItem,
        PlatformRole::Menu => ElementRole::Menu,
        PlatformRole::MenuItem => ElementRole::MenuItem,
        PlatformRole::MenuBar => ElementRole::MenuBar,
        PlatformRole::Tab => ElementRole::Tab,
        PlatformRole::TabGroup => ElementRole::TabGroup,
        PlatformRole::Table => ElementRole::Table,
        PlatformRole::TableRow => ElementRole::TableRow,
        PlatformRole::TableCell => ElementRole::TableCell,
        PlatformRole::Toolbar => ElementRole::Toolbar,
        PlatformRole::ScrollBar | PlatformRole::ScrollThumb => ElementRole::ScrollBar,
        PlatformRole::Slider => ElementRole::Slider,
        PlatformRole::Image => ElementRole::Image,
        PlatformRole::Link => ElementRole::Link,
        PlatformRole::Group | PlatformRole::Navigation => ElementRole::Group,
        PlatformRole::Dialog => ElementRole::Dialog,
        PlatformRole::Alert => ElementRole::Alert,
        PlatformRole::ProgressBar => ElementRole::ProgressBar,
        PlatformRole::TreeItem => ElementRole::TreeItem,
        PlatformRole::WebArea => ElementRole::WebArea,
        PlatformRole::Heading => ElementRole::Heading,
        PlatformRole::Separator => ElementRole::Separator,
        PlatformRole::SplitGroup => ElementRole::SplitGroup,
        PlatformRole::Tooltip | PlatformRole::Status | PlatformRole::Unknown => ElementRole::Unknown,
    }
}


/// The snake-case name of a platform role, as the provider calls it.
pub open spec fn platform_role_name(r: PlatformRole) -> Seq<char> {
    match r {
        PlatformRole::Unknown => "unknown"@,
        PlatformRole::Window => "window"@,
        PlatformRole::Application => "application"@,
        PlatformRole::Button => "button"@,
        PlatformRole::CheckBox => "check_box"@,
        PlatformRole::RadioButton => "radio_button"@,
        PlatformRole::TextField => "text_field"@,
        PlatformRole::TextArea => "text_area"@,
        PlatformRole::StaticText => "static_text"@,
        PlatformRole::ComboBox => "combo_box"@,
        PlatformRole::List => "list"@,
        PlatformRole::ListItem => "list_item"@,
        PlatformRole::Menu => "menu"@,
        PlatformRole::MenuItem => "menu_item"@,
        PlatformRole::MenuBar => "menu_bar"@,
        PlatformRole::Tab => "tab"@,
        PlatformRole::TabGroup => "tab_group"@,
        PlatformRole::Table => "table"@,
        PlatformRole::TableRow => "table_row"@,
        PlatformRole::TableCell => "table_cell"@,
        PlatformRole::Toolbar => "toolbar"@,
        PlatformRole::ScrollBar => "scroll_bar"@,
        PlatformRole::Slider => "slider"@,
        PlatformRole::Image => "image"@,
        PlatformRole::Link => "link"@,
        PlatformRole::Group => "group"@,
        PlatformRole::Dialog => "dialog"@,
        PlatformRole::Alert => "alert"@,
        PlatformRole::ProgressBar => "progress_bar"@,
        PlatformRole::TreeItem => "tree_item"@,
        PlatformRole::WebArea => "web_area"@,
        PlatformRole::Heading => "heading"@,
        PlatformRole::Separator => "separator"@,
        PlatformRole::SplitGroup => "split_group"@,
        PlatformRole::Switch => "switch"@,
        PlatformRole::SpinButton => "spin_button"@,
        PlatformRole::Tooltip => "tooltip"@,
        PlatformRole::Status => "status"@,
        PlatformRole::Navigation => "navigation"@,
        PlatformRole::ScrollThumb => "scroll_thumb"@,
    }
}

/// Observed elements keep the kind of node they come from: a node's role is
/// shown (and selected) by its platform role's own name, except that text
/// areas and spin buttons count as text fields, switches as check boxes,
/// scroll thumbs as scroll bars, navigation landmarks as groups, and tooltips
/// and status areas as unknown.
pub proof fn law_roles_keep_their_names(r: PlatformRole)
    ensures
        role_display(normalized_role(r)) == match r {
            PlatformRole::TextArea | PlatformRole::SpinButton => "text_field"@,
            PlatformRole::Switch => "check_box"@,
            PlatformRole::ScrollThumb => "scroll_bar"@,
            PlatformRole::Navigation => "group"@,
            PlatformRole::Tooltip | PlatformRole::Status => "unknown"@,
            _ => platform_role_name(r),
        },
{
}

/// The normalized role of a platform role.
pub fn map_xa11y_role(role: PlatformRole) -> (r: ElementRole)
    ensures
        r == normalized_role(role),
{
    match role {
        PlatformRole::Window => ElementRole::Window,
        PlatformRole::Application => ElementRole::Application,
        PlatformRole::Button => ElementRole::Button,
        PlatformRole::TextField | PlatformRole::TextArea | PlatformRole::SpinButton => ElementRole::TextField,
        PlatformRole::StaticText => ElementRole::StaticText,
        PlatformRole::CheckBox | PlatformRole::Switch => ElementRole::CheckBox,
        PlatformRole::RadioButton => ElementRole::RadioButton,
        PlatformRole::ComboBox => ElementRole::ComboBox,
        PlatformRole::List => ElementRole::List,
        PlatformRole::ListItem => ElementRole::ListItem,
        PlatformRole::Menu => ElementRole::Menu,
        PlatformRole::MenuItem => ElementRole::MenuItem,
        PlatformRole::MenuBar => ElementRole::MenuBar,
        PlatformRole::Tab => ElementRole::Tab,
        PlatformRole::TabGroup => ElementRole::TabGroup,
        PlatformRole::Table => ElementRole::Table,
        PlatformRole::TableRow => ElementRole::TableRow,
        PlatformRole::TableCell => ElementRole::TableCell,
        PlatformRole::Toolbar => ElementRole::Toolbar,
        PlatformRole::ScrollBar | PlatformRole::ScrollThumb => ElementRole::ScrollBar,
        PlatformRole::Slider => ElementRole::Slider,
        PlatformRole::Image => ElementRole::Image,
        PlatformRole::Link => ElementRole::Link,
        PlatformRole::Group | PlatformRole::Navigation => ElementRole::Group,
        PlatformRole::Dialog => ElementRole::Dialog,
        PlatformRole::Alert => ElementRole::Alert,
        PlatformRole::ProgressBar => ElementRole::ProgressBar,
        PlatformRole::TreeItem => ElementRole::TreeItem,
        PlatformRole::WebArea => ElementRole::WebArea,
        PlatformRole::Heading => ElementRole::Heading,
        PlatformRole::Separator => ElementRole::Separator,
        PlatformRole::SplitGroup => ElementRole::SplitGroup,
        PlatformRole::Tooltip | PlatformRole::Status | PlatformRole::Unknown => ElementRole::Unknown,
    }
}

// ---------------------------------------------------------------------------
// Traversal
// ---------------------------------------------------------------------------

/// A rectangle on the screen, in pixels.
#[derive(Clone, Copy, Debug, PartialEq, Eq, Structural)]
pub struct Bounds {
    pub x: i32,
    pub y: i32,
    pub width: i32,
    pub height: i32,
}

/// The states of an element.
#[derive(Clone, Copy, Debug, PartialEq, Eq, Structural)]
pub struct ElementStates {
    pub enabled: bool,
    pub visible: bool,
    pub focused: bool,
    pub checked: Option<bool>,
    pub selected: bool,
    pub expanded: Option<bool>,
    pub editable: bool,
}

/// A node of an application's accessibility tree as the provider reports it.
/// `source` is the caller's handle for the node; `children` is empty where
/// the provider could not list them.
#[derive(Debug)]
pub struct RawNode {
    pub source: u64,
    pub role: PlatformRole,
    pub name: Option<String>,
    pub value: Option<String>,
    pub description: Option<String>,
    pub bounds: Option<Bounds>,
    pub actions: Vec<String>,
    pub states: ElementStates,
    pub children: Vec<RawNode>,
}

/// An observed element: numbered, with its parent's and children's numbers.
#[derive(Debug)]
pub struct Element {
    pub id: u32,
    pub source: u64,
    pub role: ElementRole,
    pub name: Option<String>,
    pub value: Option<String>,
    pub description: Option<String>,
    pub bounds: Option<Bounds>,
    pub actions: Vec<String>,
    pub states: ElementStates,
    pub children: Vec<u32>,
    pub parent: Option<u32>,
    pub depth: u32,
    pub app: String,
}

/// An observed element as plain values.
pub struct ElementView {
    pub id: u32,
    pub source: u64,
    pub role: ElementRole,
    pub name: Option<Seq<char>>,
    pub value: Option<Seq<char>>,
    pub description: Option<Seq<char>>,
    pub bounds: Option<Bounds>,
    pub actions: Seq<Seq<char>>,
    pub states: ElementStates,
    pub children: Seq<u32>,
    pub parent: Option<u32>,
    pub depth: nat,
    pub app: Seq<char>,
}

/// The view of an optional string.
pub open spec fn ostr(o: Option<String>) -> Option<Seq<char>> {
    match o {
        Some(s) => Some(s@),
        None => None,
    }
}

impl View for Element {
    type V = ElementView;

    open spec fn view(&self) -> ElementView {
        ElementView {
            id: self.id,
            source: self.source,
            role: self.role,
            name: ostr(self.name),
            value: ostr(self.value),
            description: ostr(self.description),
            bounds: self.bounds,
            actions: self.actions@.map_values(|a: String| a@),
            states: self.states,
            children: self.children@,
            parent: self.parent,
            depth: self.depth as nat,
            app: self.app@,
        }
    }
}

/// The views of a list of elements.
pub open spec fn views(es: Seq<Element>) -> Seq<ElementView> {
    es.map_values(|e: Element| e@)
}

/// What to traverse: down to `max_depth` (the root is at depth 0), at most
/// `max_elements` elements, only visible ones where `visible_only` holds, and
/// only the given roles where `roles` is given. The root is always kept.
#[derive(Debug)]
pub struct TraversalOptions {
    pub max_depth: u32,
    pub max_elements: u32,
    pub visible_only: bool,
    pub roles: Option<Vec<ElementRole>>,
}

/// Whether a node below the root is left out (its children are still visited).
pub open spec fn skipped(node: RawNode, o: TraversalOptions, depth: nat) -> bool {
    depth > 0 && (
        (o.visible_only && !node.states.visible)
        || match o.roles {
            Some(rs) => !rs@.contains(normalized_role(node.role)),
            None => false,
        }
    )
}

/// Whether a traversal can still find an element at `depth` when `kept`
/// elements were found: within `max_depth` and below `max_elements` (see
/// `law_nothing_past_the_limits`).
pub fn read_further(depth: u32, kept: u32, o: &TraversalOptions) -> (b: bool)
    ensures
        b == (depth <= o.max_depth && kept < o.max_elements),
{
    depth <= o.max_depth && kept < o.max_elements
}

/// Whether a node with this role and visibility, at `depth`, is left out
/// of a traversal (see `skipped`).
pub fn is_skipped(role: PlatformRole, visible: bool, o: &TraversalOptions, depth: u32) -> (b: bool)
    ensures
        b == (depth > 0 && ((o.visible_only && !visible) || match o.roles {
            Some(rs) => !rs@.contains(normalized_role(role)),
            None => false,
        })),
{
    depth > 0 && ((o.visible_only && !visible) || !role_allowed(&o.roles, map_xa11y_role(role)))
}

/// The element a node becomes.
pub open spec fn view_of(node: RawNode, id: u32, parent: Option<u32>, depth: nat, app: Seq<char>, children: Seq<u32>) -> ElementView {
    ElementView {
        id,
        source: node.source,
        role: normalized_role(node.role),
        name: ostr(node.name),
        value: ostr(node.value),
        description: ostr(node.description),
        bounds: node.bounds,
        actions: node.actions@.map_values(|a: String| a@),
        states: node.states,
        children,
        parent,
        depth,
        app,
    }
}

/// The ids of the elements of `es` whose parent is `p`, in order.
pub open spec fn child_ids(es: Seq<ElementView>, p: u32) -> Seq<u32>
    decreases es.len(),
{
    if es.len() == 0 {
        Seq::empty()
    } else {
        let r = child_ids(es.drop_last(), p);
        if es.last().parent == Some(p) { r.push(es.last().id) } else { r }
    }
}

/// The elements a node and its descendants become, in pre-order, when
/// `before` elements were found before it: nothing below `max_depth` or once
/// `max_elements` are found; a left-out node passes its parent on to its
/// children; a kept node is numbered `before + 1`, and its children are the
/// elements found below it whose parent it is.
pub open spec fn walk(node: RawNode, o: TraversalOptions, app: Seq<char>, depth: nat, parent: Option<u32>, before: nat) -> Seq<ElementView>
    decreases node, 0int,
{
    if depth > o.max_depth || before >= o.max_elements {
        Seq::empty()
    } else if skipped(node, o, depth) {
        walk_from(node.children@, 0, o, app, depth + 1, parent, before)
    } else {
        let my_id = (before + 1) as u32;
        let sub = walk_from(node.children@, 0, o, app, depth + 1, Some(my_id), before + 1);
        seq![view_of(node, my_id, parent, depth, app, child_ids(sub, my_id))] + sub
    }
}

/// The elements the nodes `ns[i..]` and their descendants become, in order.
pub open spec fn walk_from(ns: Seq<RawNode>, i: int, o: TraversalOptions, app: Seq<char>, depth: nat, parent: Option<u32>, before: nat) -> Seq<ElementView>
    decreases ns, ns.len() - i,
{
    if i < 0 || i >= ns.len() {
        Seq::empty()
    } else {
        let first = walk(ns[i], o, app, depth, parent, before);
        first + walk_from(ns, i + 1, o, app, depth, parent, before + first.len())
    }
}

proof fn lemma_walk_bound(node: RawNode, o: TraversalOptions, app: Seq<char>, depth: nat, parent: Option<u32>, before: nat)
    ensures
        before >= o.max_elements ==> walk(node, o, app, depth, parent, before).len() == 0,
        before < o.max_elements ==> before + walk(node, o, app, depth, parent, before).len() <= o.max_elements,
    decreases node, 0int,
{
    if depth > o.max_depth || before >= o.max_elements {
    } else if skipped(node, o, depth) {
        lemma_walk_from_bound(node.children@, 0, o, app, depth + 1, parent, before);
    } else {
        let my_id = (before + 1) as u32;
        lemma_walk_from_bound(node.children@, 0, o, app, depth + 1, Some(my_id), before + 1);
    }
}

proof fn lemma_walk_from_bound(ns: Seq<RawNode>, i: int, o: TraversalOptions, app: Seq<char>, depth: nat, parent: Option<u32>, before: nat)
    ensures
        before >= o.max_elements ==> walk_from(ns, i, o, app, depth, parent, before).len() == 0,
        before < o.max_elements ==> before + walk_from(ns, i, o, app, depth, parent, before).len() <= o.max_elements,
    decreases ns, ns.len() - i,
{
    if i < 0 || i >= ns.len() {
    } else {
        lemma_walk_bound(ns[i], o, app, depth, parent, before);
        let first = walk(ns[i], o, app, depth, parent, before);
        lemma_walk_from_bound(ns, i + 1, o, app, depth, parent, before + first.len());
    }
}

proof fn lemma_walk_from_deep(ns: Seq<RawNode>, i: int, o: TraversalOptions, app: Seq<char>, depth: nat, parent: Option<u32>, before: nat)
    requires
        depth > o.max_depth,
    ensures
        walk_from(ns, i, o, app, depth, parent, before) == Seq::<ElementView>::empty(),
    decreases ns.len() - i,
{
    if i < 0 || i >= ns.len() {
    } else {
        lemma_walk_from_deep(ns, i + 1, o, app, depth, parent, before);
        assert(walk(ns[i], o, app, depth, parent, before) =~= Seq::<ElementView>::empty());
        assert(walk_from(ns, i, o, app, depth, parent, before) =~= Seq::<ElementView>::empty());
    }
}

fn clone_opt(o: &Option<String>) -> (r: Option<String>)
    ensures
        r == *o,
{
    match o {
        Some(s) => Some(s.clone()),
        None => None,
    }
}

fn clone_strings(v: &Vec<String>) -> (r: Vec<String>)
    ensures
        r@ == v@,
{
    let mut r: Vec<String> = Vec::new();
    let mut i: usize = 0;
    while i < v.len()
        invariant
            i <= v.len(),
            r@ == v@.take(i as int),
        decreases v.len() - i,
    {
        r.push(v[i].clone());
        assert(v@.take(i + 1) =~= v@.take(i as int).push(v@[i as int]));
        i = i + 1;
    }
    assert(v@.take(v.len() as int) =~= v@);
    r
}

fn contains_role(rs: &Vec<ElementRole>, role: ElementRole) -> (b: bool)
    ensures
        b == rs@.contains(role),
{
    let mut i: usize = 0;
    while i < rs.len()
        invariant
            i <= rs.len(),
            forall|j: int| 0 <= j < i ==> rs@[j] != role,
        decreases rs.len() - i,
    {
        if rs[i] == role {
            assert(rs@[i as int] == role);
            return true;
        }
        i = i + 1;
    }
    false
}

fn role_allowed(roles: &Option<Vec<ElementRole>>, role: ElementRole) -> (b: bool)
    ensures
        b == match roles {
            Some(rs) => rs@.contains(role),
            None => true,
        },
{
    match roles {
        None => true,
        Some(rs) => contains_role(rs, role),
    }
}

fn collect_child_ids(sub: &Vec<Element>, p: u32) -> (r: Vec<u32>)
    ensures
        r@ == child_ids(views(sub@), p),
{
    let mut r: Vec<u32> = Vec::new();
    let mut i: usize = 0;
    while i < sub.len()
        invariant
            i <= sub.len(),
            r@ == child_ids(views(sub@).take(i as int), p),
        decreases sub.len() - i,
    {
        let ghost t = views(sub@).take(i + 1);
        assert(t.drop_last() =~= views(sub@).take(i as int));
        assert(t.last() == sub@[i as int]@);
        if sub[i].parent == Some(p) {
            r.push(sub[i].id);
        }
        i = i + 1;
    }
    assert(views(sub@).take(sub.len() as int) =~= views(sub@));
    r
}

fn element_of(node: &RawNode, id: u32, parent: Option<u32>, depth: u32, app: &str, children: Vec<u32>) -> (e: Element)
    ensures
        e@ == view_of(*node, id, parent, depth as nat, app@, children@),
{
    let a = chars_of(app);
    Element {
        id,
        source: node.source,
        role: map_xa11y_role(node.role),
        name: clone_opt(&node.name),
        value: clone_opt(&node.value),
        description: clone_opt(&node.description),
        bounds: node.bounds,
        actions: clone_strings(&node.actions),
        states: node.states,
        children,
        parent,
        depth,
        app: string_of(&a),
    }
}

/// The elements a node and its descendants become (see `walk`).
pub fn traverse_element(node: &RawNode, o: &TraversalOptions, app: &str, depth: u32, parent: Option<u32>, before: u32) -> (out: Vec<Element>)
    ensures
        views(out@) == walk(*node, *o, app@, depth as nat, parent, before as nat),
    decreases node, 1int,
{
    if depth > o.max_depth || before >= o.max_elements {
        let out: Vec<Element> = Vec::new();
        assert(views(out@) =~= Seq::<ElementView>::empty());
        return out;
    }
    let role = map_xa11y_role(node.role);
    if depth > 0 && ((o.visible_only && !node.states.visible) || !role_allowed(&o.roles, role)) {
        return traverse_children(node, o, app, depth, parent, before);
    }
    let my_id: u32 = before + 1;
    let mut sub = traverse_children(node, o, app, depth, Some(my_id), my_id);
    let kids = collect_child_ids(&sub, my_id);
    let e = element_of(node, my_id, parent, depth, app, kids);
    let ghost sub_view = views(sub@);
    let mut out: Vec<Element> = Vec::new();
    out.push(e);
    out.append(&mut sub);
    assert(views(out@) =~= seq![e@] + sub_view);
    out
}

/// The elements a node's children and their descendants become, one level
/// below the node (see `walk_from`).
fn traverse_children(node: &RawNode, o: &TraversalOptions, app: &str, depth: u32, parent: Option<u32>, before: u32) -> (out: Vec<Element>)
    ensures
        views(out@) == walk_from(node.children@, 0, *o, app@, (depth + 1) as nat, parent, before as nat),
    decreases node, 0int,
{
    let ghost ns = node.children@;
    if depth == u32::MAX {
        proof {
            lemma_walk_from_deep(ns, 0, *o, app@, (depth + 1) as nat, parent, before as nat);
        }
        let out: Vec<Element> = Vec::new();
        assert(views(out@) =~= Seq::<ElementView>::empty());
        return out;
    }
    let mut acc: Vec<Element> = Vec::new();
    let mut i: usize = 0;
    while i < node.children.len()
        invariant
            ns == node.children@,
            depth < u32::MAX,
            i <= ns.len(),
            acc.len() == 0 || before + acc.len() <= o.max_elements,
            views(acc@) + walk_from(ns, i as int, *o, app@, (depth + 1) as nat, parent, (before + acc.len()) as nat)
                == walk_from(ns, 0, *o, app@, (depth + 1) as nat, parent, before as nat),
        decreases ns.len() - i,
    {
        let b: u32 = if acc.len() == 0 { before } else { (before as usize + acc.len()) as u32 };
        assert(b == (before + acc.len()) as nat);
        proof {
            lemma_walk_bound(ns[i as int], *o, app@, (depth + 1) as nat, parent, b as nat);
        }
        let ghost rest = walk_from(ns, i + 1, *o, app@, (depth + 1) as nat, parent, (b + walk(ns[i as int], *o, app@, (depth + 1) as nat, parent, b as nat).len()) as nat);
        let mut w = traverse_element(&node.children[i], o, app, depth + 1, parent, b);
        let ghost wv = views(w@);
        let ghost av = views(acc@);
        acc.append(&mut w);
        assert(views(acc@) =~= av + wv);
        assert(walk_from(ns, i as int, *o, app@, (depth + 1) as nat, parent, b as nat) == wv + rest);
        assert(views(acc@) + rest =~= av + (wv + rest));
        i = i + 1;
    }
    assert(walk_from(ns, i as int, *o, app@, (depth + 1) as nat, parent, (before + acc.len()) as nat) =~= Seq::<ElementView>::empty());
    assert(views(acc@) =~= views(acc@) + Seq::<ElementView>::empty());
    acc
}

// ---------------------------------------------------------------------------
// What every traversal keeps
// ---------------------------------------------------------------------------

/// The elements are numbered `before + 1`, `before + 2`, ... in order.
pub open spec fn numbered(es: Seq<ElementView>, before: nat) -> bool {
    forall|k: int| 0 <= k < es.len() ==> #[trigger] es[k].id == before + k + 1
}

/// Every child an element lists is a later element of the list whose parent it is.
pub open spec fn children_linked(es: Seq<ElementView>, before: nat) -> bool {
    forall|k: int, j: int| 0 <= k < es.len() && 0 <= j < es[k].children.len() ==> {
        let c = #[trigger] es[k].children[j];
        &&& before + k + 1 < c <= before + es.len()
        &&& es[c - 1 - before].parent == Some(es[k].id)
    }
}

/// Every element's parent was numbered before it.
pub open spec fn parents_first(es: Seq<ElementView>) -> bool {
    forall|k: int| 0 <= k < es.len() ==> match #[trigger] es[k].parent {
        Some(p) => p < es[k].id,
        None => true,
    }
}

/// No element is deeper than `max_depth`.
pub open spec fn within_depth(es: Seq<ElementView>, max_depth: nat) -> bool {
    forall|k: int| 0 <= k < es.len() ==> #[trigger] es[k].depth <= max_depth
}

/// All four properties together.
pub open spec fn well_shaped(es: Seq<ElementView>, before: nat, max_depth: nat) -> bool {
    &&& numbered(es, before)
    &&& children_linked(es, before)
    &&& parents_first(es)
    &&& within_depth(es, max_depth)
}

proof fn lemma_shape_concat(a: Seq<ElementView>, b: Seq<ElementView>, before: nat, max_depth: nat)
    requires
        well_shaped(a, before, max_depth),
        well_shaped(b, before + a.len(), max_depth),
    ensures
        well_shaped(a + b, before, max_depth),
{
    let ab = a + b;
    assert forall|k: int| 0 <= k < ab.len() implies #[trigger] ab[k].id == before + k + 1 by {
        if k >= a.len() {
            assert(ab[k] == b[k - a.len()]);
        }
    }
    assert forall|k: int, j: int| 0 <= k < ab.len() && 0 <= j < ab[k].children.len() implies {
        let c = #[trigger] ab[k].children[j];
        &&& before + k + 1 < c <= before + ab.len()
        &&& ab[c - 1 - before].parent == Some(ab[k].id)
    } by {
        if k < a.len() {
            assert(ab[k] == a[k]);
            let c = a[k].children[j];
            assert(a[k].children[j] == c);
            assert(ab[c - 1 - before] == a[c - 1 - before]);
        } else {
            let kb = k - a.len();
            assert(ab[k] == b[kb]);
            let c = b[kb].children[j];
            assert(b[kb].children[j] == c);
            assert(ab[c - 1 - before] == b[c - 1 - (before + a.len())]);
        }
    }
    assert forall|k: int| 0 <= k < ab.len() implies match #[trigger] ab[k].parent {
        Some(p) => p < ab[k].id,
        None => true,
    } by {
        if k >= a.len() {
            assert(ab[k] == b[k - a.len()]);
        }
    }
    assert forall|k: int| 0 <= k < ab.len() implies #[trigger] ab[k].depth <= max_depth by {
        if k >= a.len() {
            assert(ab[k] == b[k - a.len()]);
        }
    }
}

proof fn lemma_child_ids(es: Seq<ElementView>, p: u32, j: int)
    requires
        0 <= j < child_ids(es, p).len(),
    ensures
        exists|m: int| 0 <= m < es.len() && #[trigger] es[m].id == child_ids(es, p)[j] && es[m].parent == Some(p),
    decreases es.len(),
{
    let r = child_ids(es.drop_last(), p);
    if j < r.len() {
        lemma_child_ids(es.drop_last(), p, j);
        let m = choose|m: int| 0 <= m < es.drop_last().len() && #[trigger] es.drop_last()[m].id == r[j] && es.drop_last()[m].parent == Some(p);
        assert(es[m] == es.drop_last()[m]);
    } else {
        let m = es.len() - 1;
        assert(es[m].id == child_ids(es, p)[j]);
    }
}

proof fn lemma_walk_shape(node: RawNode, o: TraversalOptions, app: Seq<char>, depth: nat, parent: Option<u32>, before: nat)
    requires
        before < o.max_elements ==> match parent {
            Some(p) => p <= before,
            None => true,
        },
    ensures
        well_shaped(walk(node, o, app, depth, parent, before), before, o.max_depth as nat),
        forall|k: int| 0 <= k < walk(node, o, app, depth, parent, before).len() ==>
            #[trigger] walk(node, o, app, depth, parent, before)[k].depth >= depth,
    decreases node, 0int,
{
    let es = walk(node, o, app, depth, parent, before);
    if depth > o.max_depth || before >= o.max_elements {
    } else if skipped(node, o, depth) {
        lemma_walk_from_shape(node.children@, 0, o, app, depth + 1, parent, before);
    } else {
        let my_id = (before + 1) as u32;
        lemma_walk_bound(node, o, app, depth, parent, before);
        lemma_walk_from_shape(node.children@, 0, o, app, depth + 1, Some(my_id), before + 1);
        let sub = walk_from(node.children@, 0, o, app, depth + 1, Some(my_id), before + 1);
        let me = view_of(node, my_id, parent, depth, app, child_ids(sub, my_id));
        assert(es == seq![me] + sub);
        assert(my_id == before + 1);
        assert forall|j: int| 0 <= j < me.children.len() implies {
            let c = #[trigger] me.children[j];
            &&& before + 1 < c <= before + 1 + sub.len()
            &&& sub[c - 1 - (before + 1)].parent == Some(my_id)
        } by {
            lemma_child_ids(sub, my_id, j);
            let m = choose|m: int| 0 <= m < sub.len() && #[trigger] sub[m].id == child_ids(sub, my_id)[j] && sub[m].parent == Some(my_id);
            assert(sub[m].id == before + 1 + m + 1);
        }
        assert forall|k: int| 0 <= k < es.len() implies #[trigger] es[k].id == before + k + 1 by {
            if k > 0 {
                assert(es[k] == sub[k - 1]);
            }
        }
        assert forall|k: int, j: int| 0 <= k < es.len() && 0 <= j < es[k].children.len() implies {
            let c = #[trigger] es[k].children[j];
            &&& before + k + 1 < c <= before + es.len()
            &&& es[c - 1 - before].parent == Some(es[k].id)
        } by {
            let c = es[k].children[j];
            if k == 0 {
                assert(es[0] == me);
                assert(me.children[j] == c);
                assert(es[c - 1 - before] == sub[c - 1 - (before + 1)]);
            } else {
                assert(es[k] == sub[k - 1]);
                assert(sub[k - 1].children[j] == c);
                assert(es[c - 1 - before] == sub[c - 1 - (before + 1)]);
            }
        }
        assert forall|k: int| 0 <= k < es.len() implies match #[trigger] es[k].parent {
            Some(p) => p < es[k].id,
            None => true,
        } by {
            if k > 0 {
                assert(es[k] == sub[k - 1]);
            }
        }
        assert forall|k: int| 0 <= k < es.len() implies #[trigger] es[k].depth <= o.max_depth && es[k].depth >= depth by {
            if k > 0 {
                assert(es[k] == sub[k - 1]);
            }
        }
    }
}

proof fn lemma_walk_from_shape(ns: Seq<RawNode>, i: int, o: TraversalOptions, app: Seq<char>, depth: nat, parent: Option<u32>, before: nat)
    requires
        before < o.max_elements ==> match parent {
            Some(p) => p <= before,
            None => true,
        },
    ensures
        well_shaped(walk_from(ns, i, o, app, depth, parent, before), before, o.max_depth as nat),
        forall|k: int| 0 <= k < walk_from(ns, i, o, app, depth, parent, before).len() ==>
            #[trigger] walk_from(ns, i, o, app, depth, parent, before)[k].depth >= depth,
    decreases ns, ns.len() - i,
{
    if i < 0 || i >= ns.len() {
    } else {
        lemma_walk_shape(ns[i], o, app, depth, parent, before);
        let first = walk(ns[i], o, app, depth, parent, before);
        lemma_walk_bound(ns[i], o, app, depth, parent, before);
        lemma_walk_from_shape(ns, i + 1, o, app, depth, parent, before + first.len());
        let rest = walk_from(ns, i + 1, o, app, depth, parent, before + first.len());
        lemma_shape_concat(first, rest, before, o.max_depth as nat);
        assert forall|k: int| 0 <= k < (first + rest).len() implies #[trigger] (first + rest)[k].depth >= depth by {
            if k >= first.len() {
                assert((first + rest)[k] == rest[k - first.len()]);
            }
        }
    }
}

// ---------------------------------------------------------------------------
// Whole trees
// ---------------------------------------------------------------------------

/// The elements of one application's tree: its root at depth 0, numbered from 1.
pub fn tree_elements(root: &RawNode, o: &TraversalOptions, app: &str) -> (out: Vec<Element>)
    ensures
        views(out@) == walk(*root, *o, app@, 0, None, 0),
{
    traverse_element(root, o, app, 0, None, 0)
}

/// A running application: its name and its accessibility tree.
#[derive(Debug)]
pub struct AppTree {
    pub name: String,
    pub root: RawNode,
}

/// The elements of an overview of the applications `apps[i..]`, when `before`
/// elements were found before: applications without a name are passed over,
/// and once `max_elements` are found the rest are not visited.
pub open spec fn overview(apps: Seq<AppTree>, i: int, o: TraversalOptions, before: nat) -> Seq<ElementView>
    decreases apps.len() - i,
{
    if i < 0 || i >= apps.len() || before >= o.max_elements {
        Seq::empty()
    } else if apps[i].name@.len() == 0 {
        overview(apps, i + 1, o, before)
    } else {
        let w = walk(apps[i].root, o, apps[i].name@, 0, None, before);
        w + overview(apps, i + 1, o, before + w.len())
    }
}

/// The elements of an overview of all running applications, numbered from 1
/// across them.
pub fn overview_elements(apps: &Vec<AppTree>, o: &TraversalOptions) -> (out: Vec<Element>)
    ensures
        views(out@) == overview(apps@, 0, *o, 0),
{
    let mut acc: Vec<Element> = Vec::new();
    let mut i: usize = 0;
    while i < apps.len()
        invariant
            i <= apps.len(),
            acc.len() <= o.max_elements,
            views(acc@) + overview(apps@, i as int, *o, acc.len() as nat) == overview(apps@, 0, *o, 0),
        ensures
            i <= apps.len(),
            acc.len() <= o.max_elements,
            views(acc@) + overview(apps@, i as int, *o, acc.len() as nat) == overview(apps@, 0, *o, 0),
            i >= apps.len() || acc.len() >= o.max_elements,
        decreases apps.len() - i,
    {
        if acc.len() >= o.max_elements as usize {
            assert(overview(apps@, i as int, *o, acc.len() as nat) =~= Seq::<ElementView>::empty());
            break;
        }
        let ghost rest_skip = overview(apps@, i + 1, *o, acc.len() as nat);
        let nm = chars_of(apps[i].name.as_str());
        if nm.len() == 0 {
            i = i + 1;
            continue;
        }
        let b: u32 = acc.len() as u32;
        proof {
            lemma_walk_bound(apps@[i as int].root, *o, apps@[i as int].name@, 0, None, b as nat);
        }
        let mut w = traverse_element(&apps[i].root, o, apps[i].name.as_str(), 0, None, b);
        let ghost wv = views(w@);
        let ghost av = views(acc@);
        let ghost rest = overview(apps@, i + 1, *o, (b + wv.len()) as nat);
        acc.append(&mut w);
        assert(views(acc@) =~= av + wv);
        assert(overview(apps@, i as int, *o, b as nat) == wv + rest);
        assert(views(acc@) + rest =~= av + (wv + rest));
        i = i + 1;
    }
    assert(views(acc@) =~= views(acc@) + overview(apps@, i as int, *o, acc.len() as nat));
    acc
}

proof fn lemma_overview_shape(apps: Seq<AppTree>, i: int, o: TraversalOptions, before: nat)
    ensures
        well_shaped(overview(apps, i, o, before), before, o.max_depth as nat),
        before >= o.max_elements ==> overview(apps, i, o, before).len() == 0,
        before < o.max_elements ==> before + overview(apps, i, o, before).len() <= o.max_elements,
    decreases apps.len() - i,
{
    if i < 0 || i >= apps.len() || before >= o.max_elements {
    } else if apps[i].name@.len() == 0 {
        lemma_overview_shape(apps, i + 1, o, before);
    } else {
        let w = walk(apps[i].root, o, apps[i].name@, 0, None, before);
        lemma_walk_shape(apps[i].root, o, apps[i].name@, 0, None, before);
        lemma_walk_bound(apps[i].root, o, apps[i].name@, 0, None, before);
        lemma_overview_shape(apps, i + 1, o, before + w.len());
        lemma_shape_concat(w, overview(apps, i + 1, o, before + w.len()), before, o.max_depth as nat);
    }
}

/// Observing one application numbers its elements 1, 2, ... in pre-order;
/// finds at most `max_elements` of them, none deeper than `max_depth`; every
/// element's parent comes before it; every child an element lists is a later
/// element whose parent it is. The root is always the first element, unless
/// no element may be found at all.
pub proof fn law_tree_shape(root: RawNode, o: TraversalOptions, app: Seq<char>)
    ensures
        well_shaped(walk(root, o, app, 0, None, 0), 0, o.max_depth as nat),
        walk(root, o, app, 0, None, 0).len() <= o.max_elements,
        o.max_elements > 0 ==> walk(root, o, app, 0, None, 0).len() >= 1
            && walk(root, o, app, 0, None, 0)[0].source == root.source
            && walk(root, o, app, 0, None, 0)[0].parent is None
            && walk(root, o, app, 0, None, 0)[0].depth == 0,
{
    lemma_walk_shape(root, o, app, 0, None, 0);
    lemma_walk_bound(root, o, app, 0, None, 0);
}

/// An overview of all applications keeps the same shape: elements numbered
/// 1, 2, ... across the applications, at most `max_elements` of them, none
/// deeper than `max_depth`, parents first, and children linked back.
pub proof fn law_overview_shape(apps: Seq<AppTree>, o: TraversalOptions)
    ensures
        well_shaped(overview(apps, 0, o, 0), 0, o.max_depth as nat),
        overview(apps, 0, o, 0).len() <= o.max_elements,
{
    lemma_overview_shape(apps, 0, o, 0);
}

// ---------------------------------------------------------------------------
// Role names
// ---------------------------------------------------------------------------

/// The name a role is shown and selected by: its name in snake case.
pub open spec fn role_display(r: ElementRole) -> Seq<char> {
    match r {
        ElementRole::Window => "window"@,
        ElementRole::Application => "application"@,
        ElementRole::Button => "button"@,
        ElementRole::TextField => "text_field"@,
        ElementRole::StaticText => "static_text"@,
        ElementRole::CheckBox => "check_box"@,
        ElementRole::RadioButton => "radio_button"@,
        ElementRole::ComboBox => "combo_box"@,
        ElementRole::List => "list"@,
        ElementRole::ListItem => "list_item"@,
        ElementRole::Menu => "menu"@,
        ElementRole::MenuItem => "menu_item"@,
        ElementRole::MenuBar => "menu_bar"@,
        ElementRole::Tab => "tab"@,
        ElementRole::TabGroup => "tab_group"@,
        ElementRole::Table => "table"@,
        ElementRole::TableRow => "table_row"@,
        ElementRole::TableCell => "table_cell"@,
        ElementRole::Toolbar => "toolbar"@,
        ElementRole::ScrollBar => "scroll_bar"@,
        ElementRole::Slider => "slider"@,
        ElementRole::Image => "image"@,
        ElementRole::Link => "link"@,
        ElementRole::Group => "group"@,
        ElementRole::Dialog => "dialog"@,
        ElementRole::Alert => "alert"@,
        ElementRole::ProgressBar => "progress_bar"@,
        ElementRole::TreeItem => "tree_item"@,
        ElementRole::WebArea => "web_area"@,
        ElementRole::Heading => "heading"@,
        ElementRole::Separator => "separator"@,
        ElementRole::SplitGroup => "split_group"@,
        ElementRole::Unknown => "unknown"@,
    }
}

/// The name a role is shown and selected by.
pub fn role_name(r: ElementRole) -> (s: &'static str)
    ensures
        s@ == role_display(r),
{
    match r {
        ElementRole::Window => "window",
        ElementRole::Application => "application",
        ElementRole::Button => "button",
        ElementRole::TextField => "text_field",
        ElementRole::StaticText => "static_text",
        ElementRole::CheckBox => "check_box",
        ElementRole::RadioButton => "radio_button",
        ElementRole::ComboBox => "combo_box",
        ElementRole::List => "list",
        ElementRole::ListItem => "list_item",
        ElementRole::Menu => "menu",
        ElementRole::MenuItem => "menu_item",
        ElementRole::MenuBar => "menu_bar",
        ElementRole::Tab => "tab",
        ElementRole::TabGroup => "tab_group",
        ElementRole::Table => "table",
        ElementRole::TableRow => "table_row",
        ElementRole::TableCell => "table_cell",
        ElementRole::Toolbar => "toolbar",
        ElementRole::ScrollBar => "scroll_bar",
        ElementRole::Slider => "slider",
        ElementRole::Image => "image",
        ElementRole::Link => "link",
        ElementRole::Group => "group",
        ElementRole::Dialog => "dialog",
        ElementRole::Alert => "alert",
        ElementRole::ProgressBar => "progress_bar",
        ElementRole::TreeItem => "tree_item",
        ElementRole::WebArea => "web_area",
        ElementRole::Heading => "heading",
        ElementRole::Separator => "separator",
        ElementRole::SplitGroup => "split_group",
        ElementRole::Unknown => "unknown",
    }
}

// ---------------------------------------------------------------------------
// Every child is listed
// ---------------------------------------------------------------------------

/// Every element whose parent is in the list is among that parent's children.
pub open spec fn children_complete(es: Seq<ElementView>) -> bool {
    forall|k: int, m: int| 0 <= k < es.len() && 0 <= m < es.len() && es[m].parent == Some(es[k].id)
        ==> #[trigger] es[k].children.contains(#[trigger] es[m].id)
}

/// Every element's parent is `p0` or an element before it in the list.
pub open spec fn parents_in_scope(es: Seq<ElementView>, before: nat, p0: Option<u32>) -> bool {
    forall|m: int| 0 <= m < es.len() ==> (#[trigger] es[m]).parent == p0
        || (es[m].parent matches Some(q) && before < q < before + m + 1)
}

proof fn lemma_child_ids_complete(es: Seq<ElementView>, p: u32, m: int)
    requires
        0 <= m < es.len(),
        es[m].parent == Some(p),
    ensures
        child_ids(es, p).contains(es[m].id),
    decreases es.len(),
{
    let r = child_ids(es.drop_last(), p);
    if m < es.len() - 1 {
        assert(es.drop_last()[m] == es[m]);
        lemma_child_ids_complete(es.drop_last(), p, m);
        let w = choose|w: int| 0 <= w < r.len() && r[w] == es[m].id;
        assert(child_ids(es, p)[w] == es[m].id);
    } else {
        assert(child_ids(es, p) == r.push(es[m].id));
        assert(child_ids(es, p)[r.len() as int] == es[m].id);
    }
}

proof fn lemma_walk_complete(node: RawNode, o: TraversalOptions, app: Seq<char>, depth: nat, parent: Option<u32>, before: nat)
    requires
        before < o.max_elements ==> match parent {
            Some(p) => p <= before,
            None => true,
        },
    ensures
        children_complete(walk(node, o, app, depth, parent, before)),
        parents_in_scope(walk(node, o, app, depth, parent, before), before, parent),
    decreases node, 0int,
{
    let es = walk(node, o, app, depth, parent, before);
    if depth > o.max_depth || before >= o.max_elements {
    } else if skipped(node, o, depth) {
        lemma_walk_from_complete(node.children@, 0, o, app, depth + 1, parent, before);
    } else {
        let my_id = (before + 1) as u32;
        lemma_walk_bound(node, o, app, depth, parent, before);
        lemma_walk_from_shape(node.children@, 0, o, app, depth + 1, Some(my_id), before + 1);
        lemma_walk_from_complete(node.children@, 0, o, app, depth + 1, Some(my_id), before + 1);
        lemma_walk_shape(node, o, app, depth, parent, before);
        let sub = walk_from(node.children@, 0, o, app, depth + 1, Some(my_id), before + 1);
        let me = view_of(node, my_id, parent, depth, app, child_ids(sub, my_id));
        assert(es == seq![me] + sub);
        assert(my_id == before + 1);
        assert forall|m: int| 0 <= m < es.len() implies (#[trigger] es[m]).parent == parent
            || (es[m].parent matches Some(q) && before < q < before + m + 1) by {
            if m > 0 {
                assert(es[m] == sub[m - 1]);
            }
        }
        assert forall|k: int, m: int| 0 <= k < es.len() && 0 <= m < es.len() && es[m].parent == Some(es[k].id)
            implies #[trigger] es[k].children.contains(#[trigger] es[m].id) by {
            assert(es[k].id == before + k + 1);
            assert(es[m].id == before + m + 1);
            if k == 0 {
                assert(m > 0);
                assert(es[m] == sub[m - 1]);
                lemma_child_ids_complete(sub, my_id, m - 1);
            } else {
                assert(es[k] == sub[k - 1]);
                if m == 0 {
                    assert(false);
                } else {
                    assert(es[m] == sub[m - 1]);
                    assert(sub[k - 1].children.contains(sub[m - 1].id));
                }
            }
        }
    }
}

proof fn lemma_walk_from_complete(ns: Seq<RawNode>, i: int, o: TraversalOptions, app: Seq<char>, depth: nat, parent: Option<u32>, before: nat)
    requires
        before < o.max_elements ==> match parent {
            Some(p) => p <= before,
            None => true,
        },
    ensures
        children_complete(walk_from(ns, i, o, app, depth, parent, before)),
        parents_in_scope(walk_from(ns, i, o, app, depth, parent, before), before, parent),
    decreases ns, ns.len() - i,
{
    if i < 0 || i >= ns.len() {
    } else if before >= o.max_elements {
        lemma_walk_from_bound(ns, i, o, app, depth, parent, before);
    } else {
        let a = walk(ns[i], o, app, depth, parent, before);
        lemma_walk_complete(ns[i], o, app, depth, parent, before);
        lemma_walk_shape(ns[i], o, app, depth, parent, before);
        let b = walk_from(ns, i + 1, o, app, depth, parent, before + a.len());
        lemma_walk_from_complete(ns, i + 1, o, app, depth, parent, before + a.len());
        lemma_walk_from_shape(ns, i + 1, o, app, depth, parent, before + a.len());
        lemma_complete_concat(a, b, before, parent);
    }
}

/// Each element observed in one application lists, among its children,
/// every element whose parent it is; together with `law_tree_shape`, an
/// element's children are exactly the elements whose parent it is.
pub proof fn law_tree_children_complete(root: RawNode, o: TraversalOptions, app: Seq<char>)
    ensures
        children_complete(walk(root, o, app, 0, None, 0)),
{
    lemma_walk_complete(root, o, app, 0, None, 0);
}

proof fn lemma_complete_concat(a: Seq<ElementView>, b: Seq<ElementView>, before: nat, parent: Option<u32>)
    requires
        children_complete(a),
        children_complete(b),
        parents_in_scope(a, before, parent),
        parents_in_scope(b, before + a.len(), parent),
        numbered(a, before),
        numbered(b, before + a.len()),
        match parent {
            Some(p) => p <= before,
            None => true,
        },
    ensures
        children_complete(a + b),
        parents_in_scope(a + b, before, parent),
{
    let es = a + b;
    assert forall|m: int| 0 <= m < es.len() implies (#[trigger] es[m]).parent == parent
        || (es[m].parent matches Some(q) && before < q < before + m + 1) by {
        if m < a.len() {
            assert(es[m] == a[m]);
        } else {
            assert(es[m] == b[m - a.len()]);
        }
    }
    assert forall|k: int, m: int| 0 <= k < es.len() && 0 <= m < es.len() && es[m].parent == Some(es[k].id)
        implies #[trigger] es[k].children.contains(#[trigger] es[m].id) by {
        if k < a.len() {
            assert(es[k] == a[k]);
            assert(a[k].id == before + k + 1);
            if m < a.len() {
                assert(es[m] == a[m]);
            } else {
                assert(es[m] == b[m - a.len()]);
                assert(false);
            }
        } else {
            assert(es[k] == b[k - a.len()]);
            assert(b[k - a.len()].id == before + a.len() + (k - a.len()) + 1);
            if m < a.len() {
                assert(es[m] == a[m]);
                assert(false);
            } else {
                assert(es[m] == b[m - a.len()]);
            }
        }
    }
}

proof fn lemma_overview_complete(apps: Seq<AppTree>, i: int, o: TraversalOptions, before: nat)
    ensures
        children_complete(overview(apps, i, o, before)),
        parents_in_scope(overview(apps, i, o, before), before, None),
    decreases apps.len() - i,
{
    if i < 0 || i >= apps.len() || before >= o.max_elements {
    } else if apps[i].name@.len() == 0 {
        lemma_overview_complete(apps, i + 1, o, before);
    } else {
        let w = walk(apps[i].root, o, apps[i].name@, 0, None, before);
        lemma_walk_complete(apps[i].root, o, apps[i].name@, 0, None, before);
        lemma_walk_shape(apps[i].root, o, apps[i].name@, 0, None, before);
        lemma_overview_complete(apps, i + 1, o, before + w.len());
        lemma_overview_shape(apps, i + 1, o, before + w.len());
        lemma_complete_concat(w, overview(apps, i + 1, o, before + w.len()), before, None);
    }
}

/// Every element's children are listed in ascending order (so each at most once).
pub open spec fn children_ascending(es: Seq<ElementView>) -> bool {
    forall|k: int, i: int, j: int| 0 <= k < es.len() && 0 <= i < j < es[k].children.len()
        ==> #[trigger] es[k].children[i] < #[trigger] es[k].children[j]
}

proof fn lemma_child_ids_ascending(es: Seq<ElementView>, p: u32, before: nat)
    requires
        numbered(es, before),
    ensures
        forall|i: int, j: int| 0 <= i < j < child_ids(es, p).len() ==> #[trigger] child_ids(es, p)[i] < #[trigger] child_ids(es, p)[j],
        forall|i: int| 0 <= i < child_ids(es, p).len() ==> #[trigger] child_ids(es, p)[i] <= before + es.len(),
    decreases es.len(),
{
    if es.len() > 0 {
        let d = es.drop_last();
        assert(numbered(d, before)) by {
            assert forall|k: int| 0 <= k < d.len() implies #[trigger] d[k].id == before + k + 1 by {
                assert(d[k] == es[k]);
            }
        }
        lemma_child_ids_ascending(d, p, before);
        assert(es.last().id == before + es.len());
        let r = child_ids(d, p);
        let c = child_ids(es, p);
        if es.last().parent == Some(p) {
            assert(c == r.push(es.last().id));
            assert forall|i: int, j: int| 0 <= i < j < c.len() implies #[trigger] c[i] < #[trigger] c[j] by {
                if j < r.len() {
                    assert(c[i] == r[i] && c[j] == r[j]);
                } else {
                    assert(c[i] == r[i]);
                    assert(r[i] <= before + d.len());
                }
            }
            assert forall|i: int| 0 <= i < c.len() implies #[trigger] c[i] <= before + es.len() by {
                if i < r.len() {
                    assert(c[i] == r[i]);
                }
            }
        } else {
            assert(c == r);
        }
    }
}

proof fn lemma_walk_ascending(node: RawNode, o: TraversalOptions, app: Seq<char>, depth: nat, parent: Option<u32>, before: nat)
    requires
        before < o.max_elements ==> match parent {
            Some(p) => p <= before,
            None => true,
        },
    ensures
        children_ascending(walk(node, o, app, depth, parent, before)),
    decreases node, 0int,
{
    let es = walk(node, o, app, depth, parent, before);
    if depth > o.max_depth || before >= o.max_elements {
    } else if skipped(node, o, depth) {
        lemma_walk_from_ascending(node.children@, 0, o, app, depth + 1, parent, before);
    } else {
        let my_id = (before + 1) as u32;
        lemma_walk_bound(node, o, app, depth, parent, before);
        lemma_walk_from_shape(node.children@, 0, o, app, depth + 1, Some(my_id), before + 1);
        lemma_walk_from_ascending(node.children@, 0, o, app, depth + 1, Some(my_id), before + 1);
        let sub = walk_from(node.children@, 0, o, app, depth + 1, Some(my_id), before + 1);
        lemma_child_ids_ascending(sub, my_id, before + 1);
        let me = view_of(node, my_id, parent, depth, app, child_ids(sub, my_id));
        assert(es == seq![me] + sub);
        assert forall|k: int, i: int, j: int| 0 <= k < es.len() && 0 <= i < j < es[k].children.len()
            implies #[trigger] es[k].children[i] < #[trigger] es[k].children[j] by {
            if k > 0 {
                assert(es[k] == sub[k - 1]);
            }
        }
    }
}

proof fn lemma_walk_from_ascending(ns: Seq<RawNode>, i: int, o: TraversalOptions, app: Seq<char>, depth: nat, parent: Option<u32>, before: nat)
    requires
        before < o.max_elements ==> match parent {
            Some(p) => p <= before,
            None => true,
        },
    ensures
        children_ascending(walk_from(ns, i, o, app, depth, parent, before)),
    decreases ns, ns.len() - i,
{
    if i < 0 || i >= ns.len() {
    } else {
        let a = walk(ns[i], o, app, depth, parent, before);
        lemma_walk_ascending(ns[i], o, app, depth, parent, before);
        lemma_walk_bound(ns[i], o, app, depth, parent, before);
        lemma_walk_from_ascending(ns, i + 1, o, app, depth, parent, before + a.len());
        let b = walk_from(ns, i + 1, o, app, depth, parent, before + a.len());
        let es = a + b;
        assert forall|k: int, x: int, y: int| 0 <= k < es.len() && 0 <= x < y < es[k].children.len()
            implies #[trigger] es[k].children[x] < #[trigger] es[k].children[y] by {
            if k < a.len() {
                assert(es[k] == a[k]);
            } else {
                assert(es[k] == b[k - a.len()]);
            }
        }
    }
}

/// Every element a traversal finds lists its children in ascending order of
/// their numbers, each once.
pub proof fn law_children_ascending(node: RawNode, o: TraversalOptions, app: Seq<char>, depth: nat, parent: Option<u32>, before: nat)
    requires
        match parent {
            Some(p) => p <= before,
            None => true,
        },
    ensures
        children_ascending(walk(node, o, app, depth, parent, before)),
{
    lemma_walk_ascending(node, o, app, depth, parent, before);
}

/// A traversal finds nothing below `max_depth`, nor once `max_elements`
/// elements were found: nothing there needs to be read.
pub proof fn law_nothing_past_the_limits(node: RawNode, o: TraversalOptions, app: Seq<char>, depth: nat, parent: Option<u32>, before: nat)
    requires
        depth > o.max_depth || before >= o.max_elements,
    ensures
        walk(node, o, app, depth, parent, before).len() == 0,
{
}

/// Traversing a node when `before` elements were already found, under a
/// parent numbered at most `before` (or none), hands out fresh consecutive
/// numbers `before + 1`, `before + 2`, ... in the order the elements are
/// found, never beyond `max_elements` in all and none deeper than
/// `max_depth`; each new element's parent is that parent or an earlier new
/// element, and each new element's children are exactly the new elements
/// whose parent it is.
pub proof fn law_traverse_at_offset(node: RawNode, o: TraversalOptions, app: Seq<char>, depth: nat, parent: Option<u32>, before: nat)
    requires
        match parent {
            Some(p) => p <= before,
            None => true,
        },
    ensures
        well_shaped(walk(node, o, app, depth, parent, before), before, o.max_depth as nat),
        children_complete(walk(node, o, app, depth, parent, before)),
        parents_in_scope(walk(node, o, app, depth, parent, before), before, parent),
        before >= o.max_elements ==> walk(node, o, app, depth, parent, before).len() == 0,
        before < o.max_elements ==> before + walk(node, o, app, depth, parent, before).len() <= o.max_elements,
{
    lemma_walk_shape(node, o, app, depth, parent, before);
    lemma_walk_complete(node, o, app, depth, parent, before);
    lemma_walk_bound(node, o, app, depth, parent, before);
}

/// In an overview of all applications too, each element lists every element
/// whose parent it is among its children.
pub proof fn law_overview_children_complete(apps: Seq<AppTree>, o: TraversalOptions)
    ensures
        children_complete(overview(apps, 0, o, 0)),
{
    lemma_overview_complete(apps, 0, o, 0);
}

/// Observing one application gives a single tree: every element but the
/// first (the root) has a parent, numbered from 1.
pub proof fn law_tree_single_root(root: RawNode, o: TraversalOptions, app: Seq<char>)
    ensures
        forall|m: int| 1 <= m < walk(root, o, app, 0, None, 0).len() ==>
            ((#[trigger] walk(root, o, app, 0, None, 0)[m]).parent matches Some(q) && 1 <= q),
{
    let es = walk(root, o, app, 0, None, 0);
    if 0 >= o.max_elements {
    } else {
        let sub = walk_from(root.children@, 0, o, app, 1, Some(1u32), 1);
        lemma_walk_from_complete(root.children@, 0, o, app, 1, Some(1u32), 1);
        assert((1nat as u32) == 1u32);
        assert(es == seq![view_of(root, 1u32, None, 0, app, child_ids(sub, 1u32))] + sub);
        assert forall|m: int| 1 <= m < es.len() implies ((#[trigger] es[m]).parent matches Some(q) && 1 <= q) by {
            assert(es[m] == sub[m - 1]);
        }
    }
}

} // verus!
