use vstd::prelude::*;
use crate::text::{chars_eq, chars_of, split_chars, split_on, trim, trim_chars};
use crate::tree::{role_display, ElementRole};

verus! {

broadcast use vstd::string::group_string_axioms;

/// The role a role name selects (see `role_display`), if any.
pub open spec fn role_of_name(n: Seq<char>) -> Option<ElementRole> {
    if n == "window"@ { Some(ElementRole::Window) }
    else if n == "application"@ { Some(ElementRole::Application) }
    else if n == "button"@ { Some(ElementRole::Button) }
    else if n == "text_field"@ { Some(ElementRole::TextField) }
    else if n == "static_text"@ { Some(ElementRole::StaticText) }
    else if n == "check_box"@ { Some(ElementRole::CheckBox) }
    else if n == "radio_button"@ { Some(ElementRole::RadioButton) }
    else if n == "combo_box"@ { Some(ElementRole::ComboBox) }
    else if n == "list"@ { Some(ElementRole::List) }
    else if n == "list_item"@ { Some(ElementRole::ListItem) }
    else if n == "menu"@ { Some(ElementRole::Menu) }
    else if n == "menu_item"@ { Some(ElementRole::MenuItem) }
    else if n == "menu_bar"@ { Some(ElementRole::MenuBar) }
    else if n == "tab"@ { Some(ElementRole::Tab) }
    else if n == "tab_group"@ { Some(ElementRole::TabGroup) }
    else if n == "table"@ { Some(ElementRole::Table) }
    else if n == "table_row"@ { Some(ElementRole::TableRow) }
    else if n == "table_cell"@ { Some(ElementRole::TableCell) }
    else if n == "toolbar"@ { Some(ElementRole::Toolbar) }
    else if n == "scroll_bar"@ { Some(ElementRole::ScrollBar) }
    else if n == "slider"@ { Some(ElementRole::Slider) }
    else if n == "image"@ { Some(ElementRole::Image) }
    else if n == "link"@ { Some(ElementRole::Link) }
    else if n == "group"@ { Some(ElementRole::Group) }
    else if n == "dialog"@ { Some(ElementRole::Dialog) }
    else if n == "alert"@ { Some(ElementRole::Alert) }
    else if n == "progress_bar"@ { Some(ElementRole::ProgressBar) }
    else if n == "tree_item"@ { Some(ElementRole::TreeItem) }
    else if n == "web_area"@ { Some(ElementRole::WebArea) }
    else if n == "heading"@ { Some(ElementRole::Heading) }
    else if n == "separator"@ { Some(ElementRole::Separator) }
    else if n == "split_group"@ { Some(ElementRole::SplitGroup) }
    else if n == "unknown"@ { Some(ElementRole::Unknown) }
    else { None }
}

/// The roles the names `ns` select, in order; names that select none are passed over.
pub open spec fn roles_of(ns: Seq<Seq<char>>) -> Seq<ElementRole>
    decreases ns.len(),
{
    if ns.len() == 0 {
        Seq::empty()
    } else {
        let r = roles_of(ns.drop_last());
        match role_of_name(trim(ns.last())) {
            Some(role) => r.push(role),
            None => r,
        }
    }
}

/// The role a role name selects.
pub fn role_by_name(n: &Vec<char>) -> (r: Option<ElementRole>)
    ensures
        r == role_of_name(n@),
{
    if chars_eq(n, "window") {
        Some(ElementRole::Window)
    } else if chars_eq(n, "application") {
        Some(ElementRole::Application)
    } else if chars_eq(n, "button") {
        Some(ElementRole::Button)
    } else if chars_eq(n, "text_field") {
        Some(ElementRole::TextField)
    } else if chars_eq(n, "static_text") {
        Some(ElementRole::StaticText)
    } else if chars_eq(n, "check_box") {
        Some(ElementRole::CheckBox)
    } else if chars_eq(n, "radio_button") {
        Some(ElementRole::RadioButton)
    } else if chars_eq(n, "combo_box") {
        Some(ElementRole::ComboBox)
    } else if chars_eq(n, "list") {
        Some(ElementRole::List)
    } else if chars_eq(n, "list_item") {
        Some(ElementRole::ListItem)
    } else if chars_eq(n, "menu") {
        Some(ElementRole::Menu)
    } else if chars_eq(n, "menu_item") {
        Some(ElementRole::MenuItem)
    } else if chars_eq(n, "menu_bar") {
        Some(ElementRole::MenuBar)
    } else if chars_eq(n, "tab") {
        Some(ElementRole::Tab)
    } else if chars_eq(n, "tab_group") {
        Some(ElementRole::TabGroup)
    } else if chars_eq(n, "table") {
        Some(ElementRole::Table)
    } else if chars_eq(n, "table_row") {
        Some(ElementRole::TableRow)
    } else if chars_eq(n, "table_cell") {
        Some(ElementRole::TableCell)
    } else if chars_eq(n, "toolbar") {
        Some(ElementRole::Toolbar)
    } else if chars_eq(n, "scroll_bar") {
        Some(ElementRole::ScrollBar)
    } else if chars_eq(n, "slider") {
        Some(ElementRole::Slider)
    } else if chars_eq(n, "image") {
        Some(ElementRole::Image)
    } else if chars_eq(n, "link") {
        Some(ElementRole::Link)
    } else if chars_eq(n, "group") {
        Some(ElementRole::Group)
    } else if chars_eq(n, "dialog") {
        Some(ElementRole::Dialog)
    } else if chars_eq(n, "alert") {
        Some(ElementRole::Alert)
    } else if chars_eq(n, "progress_bar") {
        Some(ElementRole::ProgressBar)
    } else if chars_eq(n, "tree_item") {
        Some(ElementRole::TreeItem)
    } else if chars_eq(n, "web_area") {
        Some(ElementRole::WebArea)
    } else if chars_eq(n, "heading") {
        Some(ElementRole::Heading)
    } else if chars_eq(n, "separator") {
        Some(ElementRole::Separator)
    } else if chars_eq(n, "split_group") {
        Some(ElementRole::SplitGroup)
    } else if chars_eq(n, "unknown") {
        Some(ElementRole::Unknown)
    } else {
        None
    }
}

/// The roles a comma-separated list of role names (such as `button,text_field`)
/// selects, in order; surrounding spaces are ignored, and a name that selects
/// no role is passed over.
pub fn parse_role_filter(s: &str) -> (roles: Vec<ElementRole>)
    ensures
        roles@ == roles_of(split_on(s@, ","@)),
{
    proof { reveal_strlit(","); }
    let sv = chars_of(s);
    let comma = chars_of(",");
    let parts = split_chars(&sv, &comma);
    let ghost ps = split_on(s@, ","@);
    let mut roles: Vec<ElementRole> = Vec::new();
    let mut i: usize = 0;
    while i < parts.len()
        invariant
            parts@.len() == ps.len(),
            forall|k: int| 0 <= k < parts@.len() ==> (#[trigger] parts@[k])@ == ps[k],
            i <= parts.len(),
            roles@ == roles_of(ps.take(i as int)),
        decreases parts.len() - i,
    {
        let t = trim_chars(&parts[i]);
        assert(ps.take(i + 1).drop_last() =~= ps.take(i as int));
        assert(ps.take(i + 1).last() == ps[i as int]);
        match role_by_name(&t) {
            Some(r) => roles.push(r),
            None => {}
        }
        i = i + 1;
    }
    assert(ps.take(parts.len() as int) =~= ps);
    roles
}

/// Every role name, in the order they are tried.
spec fn role_names() -> Seq<Seq<char>> {
    seq!["window"@, "application"@, "button"@, "text_field"@, "static_text"@, "check_box"@, "radio_button"@, "combo_box"@, "list"@, "list_item"@, "menu"@, "menu_item"@, "menu_bar"@, "tab"@, "tab_group"@, "table"@, "table_row"@, "table_cell"@, "toolbar"@, "scroll_bar"@, "slider"@, "image"@, "link"@, "group"@, "dialog"@, "alert"@, "progress_bar"@, "tree_item"@, "web_area"@, "heading"@, "separator"@, "split_group"@, "unknown"@]
}

proof fn lemma_role_names_distinct()
    ensures
        forall|i: int, j: int| 0 <= i < j < 33 ==> role_names()[i] != role_names()[j],
{
    reveal_strlit("window");
    reveal_strlit("application");
    reveal_strlit("button");
    reveal_strlit("text_field");
    reveal_strlit("static_text");
    reveal_strlit("check_box");
    reveal_strlit("radio_button");
    reveal_strlit("combo_box");
    reveal_strlit("list");
    reveal_strlit("list_item");
    reveal_strlit("menu");
    reveal_strlit("menu_item");
    reveal_strlit("menu_bar");
    reveal_strlit("tab");
    reveal_strlit("tab_group");
    reveal_strlit("table");
    reveal_strlit("table_row");
    reveal_strlit("table_cell");
    reveal_strlit("toolbar");
    reveal_strlit("scroll_bar");
    reveal_strlit("slider");
    reveal_strlit("image");
    reveal_strlit("link");
    reveal_strlit("group");
    reveal_strlit("dialog");
    reveal_strlit("alert");
    reveal_strlit("progress_bar");
    reveal_strlit("tree_item");
    reveal_strlit("web_area");
    reveal_strlit("heading");
    reveal_strlit("separator");
    reveal_strlit("split_group");
    reveal_strlit("unknown");
    let ns = role_names();
    assert forall|i: int, j: int| 0 <= i < j < 33 implies ns[i] != ns[j] by {
        if ns[i].len() == ns[j].len() {
            assert(ns[i][0] != ns[j][0] || ns[i][1] != ns[j][1] || ns[i][2] != ns[j][2] || ns[i][3] != ns[j][3]);
        }
    }
}

/// A role filter's name selects exactly the role shown by that name: `link`
/// selects links and nothing else, and so on for every role.
pub proof fn law_role_filter_names(n: Seq<char>, r: ElementRole)
    ensures
        role_of_name(n) == Some(r) <==> n == role_display(r),
{
    lemma_role_names_distinct();
    reveal_strlit("window");
    reveal_strlit("application");
    reveal_strlit("button");
    reveal_strlit("text_field");
    reveal_strlit("static_text");
    reveal_strlit("check_box");
    reveal_strlit("radio_button");
    reveal_strlit("combo_box");
    reveal_strlit("list");
    reveal_strlit("list_item");
    reveal_strlit("menu");
    reveal_strlit("menu_item");
    reveal_strlit("menu_bar");
    reveal_strlit("tab");
    reveal_strlit("tab_group");
    reveal_strlit("table");
    reveal_strlit("table_row");
    reveal_strlit("table_cell");
    reveal_strlit("toolbar");
    reveal_strlit("scroll_bar");
    reveal_strlit("slider");
    reveal_strlit("image");
    reveal_strlit("link");
    reveal_strlit("group");
    reveal_strlit("dialog");
    reveal_strlit("alert");
    reveal_strlit("progress_bar");
    reveal_strlit("tree_item");
    reveal_strlit("web_area");
    reveal_strlit("heading");
    reveal_strlit("separator");
    reveal_strlit("split_group");
    reveal_strlit("unknown");
    let ns = role_names();
    assert(ns[0] == "window"@);
    assert(ns[1] == "application"@);
    assert(ns[2] == "button"@);
    assert(ns[3] == "text_field"@);
    assert(ns[4] == "static_text"@);
    assert(ns[5] == "check_box"@);
    assert(ns[6] == "radio_button"@);
    assert(ns[7] == "combo_box"@);
    assert(ns[8] == "list"@);
    assert(ns[9] == "list_item"@);
    assert(ns[10] == "menu"@);
    assert(ns[11] == "menu_item"@);
    assert(ns[12] == "menu_bar"@);
    assert(ns[13] == "tab"@);
    assert(ns[14] == "tab_group"@);
    assert(ns[15] == "table"@);
    assert(ns[16] == "table_row"@);
    assert(ns[17] == "table_cell"@);
    assert(ns[18] == "toolbar"@);
    assert(ns[19] == "scroll_bar"@);
    assert(ns[20] == "slider"@);
    assert(ns[21] == "image"@);
    assert(ns[22] == "link"@);
    assert(ns[23] == "group"@);
    assert(ns[24] == "dialog"@);
    assert(ns[25] == "alert"@);
    assert(ns[26] == "progress_bar"@);
    assert(ns[27] == "tree_item"@);
    assert(ns[28] == "web_area"@);
    assert(ns[29] == "heading"@);
    assert(ns[30] == "separator"@);
    assert(ns[31] == "split_group"@);
    assert(ns[32] == "unknown"@);
}

} // verus!
