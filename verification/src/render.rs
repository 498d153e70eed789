use vstd::prelude::*;
use crate::text::{decimal, joined, push_decimal, push_joined, push_signed, push_str, signed_decimal, string_of, extend_chars};
use crate::tree::{Bounds, Element, ElementRole, ElementStates, ElementView, ostr, role_display, role_name, views};

verus! {

broadcast use vstd::string::group_string_axioms;

// ---------------------------------------------------------------------------
// One element on one line
// ---------------------------------------------------------------------------

/// ` "name"` where the element has a name.
pub open spec fn name_part(name: Option<Seq<char>>) -> Seq<char> {
    match name {
        Some(n) => " \""@ + n + "\""@,
        None => Seq::empty(),
    }
}

/// ` (x,y wxh)` where the element has bounds.
pub open spec fn bounds_part(bounds: Option<Bounds>) -> Seq<char> {
    match bounds {
        Some(b) => " ("@ + signed_decimal(b.x as int) + ","@ + signed_decimal(b.y as int) + " "@
            + signed_decimal(b.width as int) + "x"@ + signed_decimal(b.height as int) + ")"@,
        None => Seq::empty(),
    }
}

/// ` [a,b]` where the element has actions.
pub open spec fn actions_part(actions: Seq<Seq<char>>) -> Seq<char> {
    if actions.len() == 0 { Seq::empty() } else { " ["@ + joined(actions, ","@) + "]"@ }
}

/// The notable states of an element, in order: disabled, focused, selected,
/// checked, expanded.
pub open spec fn state_tags(st: ElementStates) -> Seq<Seq<char>> {
    (if !st.enabled { seq!["disabled"@] } else { Seq::empty() })
    + (if st.focused { seq!["focused"@] } else { Seq::empty() })
    + (if st.selected { seq!["selected"@] } else { Seq::empty() })
    + (if st.checked == Some(true) { seq!["checked"@] } else { Seq::empty() })
    + (if st.expanded == Some(true) { seq!["expanded"@] } else { Seq::empty() })
}

/// An element is tagged with a state exactly when it is in that state:
/// `disabled` when not enabled, `focused`, `selected`, and `checked` and
/// `expanded` only when they are known to hold (a box known to be unchecked,
/// or a collapsed element, is not tagged).
pub proof fn law_state_tags_tell_the_truth(st: ElementStates)
    ensures
        state_tags(st).contains("disabled"@) <==> !st.enabled,
        state_tags(st).contains("focused"@) <==> st.focused,
        state_tags(st).contains("selected"@) <==> st.selected,
        state_tags(st).contains("checked"@) <==> st.checked == Some(true),
        state_tags(st).contains("expanded"@) <==> st.expanded == Some(true),
{
    reveal_strlit("disabled");
    reveal_strlit("focused");
    reveal_strlit("selected");
    reveal_strlit("checked");
    reveal_strlit("expanded");
    let names = seq!["disabled"@, "focused"@, "selected"@, "checked"@, "expanded"@];
    assert forall|i: int, j: int| 0 <= i < j < 5 implies names[i] != names[j] by {
        if names[i].len() == names[j].len() {
            assert(names[i][0] != names[j][0]);
        }
    }
    let t = state_tags(st);
    let on = seq![!st.enabled, st.focused, st.selected, st.checked == Some(true), st.expanded == Some(true)];
    assert forall|k: int| 0 <= k < 5 implies (#[trigger] t.contains(names[k]) <==> on[k]) by {
        if on[k] {
            assert(exists|m: int| 0 <= m < t.len() && t[m] == names[k]) by {
                let a = if !st.enabled { seq!["disabled"@] } else { Seq::empty() };
                let b = if st.focused { seq!["focused"@] } else { Seq::empty() };
                let c = if st.selected { seq!["selected"@] } else { Seq::empty() };
                let d = if st.checked == Some(true) { seq!["checked"@] } else { Seq::empty() };
                let e = if st.expanded == Some(true) { seq!["expanded"@] } else { Seq::empty() };
                assert(t == a + b + c + d + e);
                let m = if k == 0 { 0 } else if k == 1 { a.len() as int } else if k == 2 { (a.len() + b.len()) as int }
                    else if k == 3 { (a.len() + b.len() + c.len()) as int } else { (a.len() + b.len() + c.len() + d.len()) as int };
                assert(t[m] == names[k]);
            }
        } else {
            assert forall|m: int| 0 <= m < t.len() implies t[m] != names[k] by {
                assert(exists|j: int| 0 <= j < 5 && on[j] && t[m] == names[j]) by {
                    let a = if !st.enabled { seq!["disabled"@] } else { Seq::empty() };
                    let b = if st.focused { seq!["focused"@] } else { Seq::empty() };
                    let c = if st.selected { seq!["selected"@] } else { Seq::empty() };
                    let d = if st.checked == Some(true) { seq!["checked"@] } else { Seq::empty() };
                    let e = if st.expanded == Some(true) { seq!["expanded"@] } else { Seq::empty() };
                    assert(t == a + b + c + d + e);
                }
            }
        }
    }
    assert(t.contains(names[0]) <==> on[0]);
    assert(t.contains(names[1]) <==> on[1]);
    assert(t.contains(names[2]) <==> on[2]);
    assert(t.contains(names[3]) <==> on[3]);
    assert(t.contains(names[4]) <==> on[4]);
}

/// ` {a,b}` where the element has notable states.
pub open spec fn tags_part(st: ElementStates) -> Seq<char> {
    if state_tags(st).len() == 0 { Seq::empty() } else { " {"@ + joined(state_tags(st), ","@) + "}"@ }
}

/// `[id] role`, with the name and the bounds where known.
pub open spec fn summary_line(e: ElementView) -> Seq<char> {
    "["@ + decimal(e.id as nat) + "] "@ + role_display(e.role) + name_part(e.name) + bounds_part(e.bounds)
}

/// The summary line, with the actions and notable states.
pub open spec fn element_line(e: ElementView) -> Seq<char> {
    summary_line(e) + actions_part(e.actions) + tags_part(e.states)
}

fn push_name_part(out: &mut Vec<char>, name: &Option<String>)
    ensures
        final(out)@ == old(out)@ + name_part(ostr(*name)),
{
    let ghost start = out@;
    match name {
        Some(n) => {
            push_str(out, " \"");
            push_str(out, n.as_str());
            push_str(out, "\"");
            assert(out@ =~= start + name_part(ostr(*name)));
        }
        None => {
            assert(out@ =~= start + name_part(ostr(*name)));
        }
    }
}

fn push_bounds_part(out: &mut Vec<char>, bounds: Option<Bounds>)
    ensures
        final(out)@ == old(out)@ + bounds_part(bounds),
{
    let ghost start = out@;
    match bounds {
        Some(b) => {
            push_str(out, " (");
            push_signed(out, b.x as i64);
            push_str(out, ",");
            push_signed(out, b.y as i64);
            push_str(out, " ");
            push_signed(out, b.width as i64);
            push_str(out, "x");
            push_signed(out, b.height as i64);
            push_str(out, ")");
            assert(out@ =~= start + bounds_part(bounds));
        }
        None => {
            assert(out@ =~= start + bounds_part(bounds));
        }
    }
}

fn push_summary(out: &mut Vec<char>, e: &Element)
    ensures
        final(out)@ == old(out)@ + summary_line(e@),
{
    let ghost start = out@;
    push_str(out, "[");
    push_decimal(out, e.id as u64);
    push_str(out, "] ");
    push_str(out, role_name(e.role));
    let ghost mid = out@;
    assert(mid =~= start + ("["@ + decimal(e.id as nat) + "] "@ + role_display(e.role)));
    push_name_part(out, &e.name);
    push_bounds_part(out, e.bounds);
    assert(out@ =~= start + summary_line(e@));
}

fn push_tag(tags: &mut Vec<String>, on: bool, tag: &str)
    ensures
        final(tags)@.map_values(|t: String| t@) == old(tags)@.map_values(|t: String| t@)
            + if on { seq![tag@] } else { Seq::<Seq<char>>::empty() },
{
    let ghost before = tags@.map_values(|t: String| t@);
    if on {
        tags.push(crate::platform::text_of(tag));
        assert(tags@.map_values(|t: String| t@) =~= before + seq![tag@]);
    } else {
        assert(tags@.map_values(|t: String| t@) =~= before + Seq::<Seq<char>>::empty());
    }
}

fn push_actions_part(out: &mut Vec<char>, actions: &Vec<String>)
    ensures
        final(out)@ == old(out)@ + actions_part(actions@.map_values(|a: String| a@)),
{
    let ghost start = out@;
    if actions.len() > 0 {
        push_str(out, " [");
        push_joined(out, actions, ",");
        push_str(out, "]");
    }
    assert(out@ =~= start + actions_part(actions@.map_values(|a: String| a@)));
}

fn state_tag_list(st: ElementStates) -> (tags: Vec<String>)
    ensures
        tags@.map_values(|t: String| t@) == state_tags(st),
{
    let mut tags: Vec<String> = Vec::new();
    assert(tags@.map_values(|t: String| t@) =~= Seq::<Seq<char>>::empty());
    push_tag(&mut tags, !st.enabled, "disabled");
    push_tag(&mut tags, st.focused, "focused");
    push_tag(&mut tags, st.selected, "selected");
    push_tag(&mut tags, st.checked == Some(true), "checked");
    push_tag(&mut tags, st.expanded == Some(true), "expanded");
    assert(tags@.map_values(|t: String| t@) =~= state_tags(st));
    tags
}

fn push_tags_part(out: &mut Vec<char>, st: ElementStates)
    ensures
        final(out)@ == old(out)@ + tags_part(st),
{
    let ghost start = out@;
    let tags = state_tag_list(st);
    if tags.len() > 0 {
        push_str(out, " {");
        push_joined(out, &tags, ",");
        push_str(out, "}");
    }
    assert(out@ =~= start + tags_part(st));
}

fn push_element_line(out: &mut Vec<char>, e: &Element)
    ensures
        final(out)@ == old(out)@ + element_line(e@),
{
    let ghost start = out@;
    push_summary(out, e);
    push_actions_part(out, &e.actions);
    push_tags_part(out, e.states);
    assert(out@ =~= start + element_line(e@));
}

/// The one-line summary of an element: `[id] role "name" (x,y wxh)`.
pub fn print_element_summary(e: &Element) -> (s: String)
    ensures
        s@ == summary_line(e@),
{
    let mut v: Vec<char> = Vec::new();
    push_summary(&mut v, e);
    assert(v@ =~= summary_line(e@));
    string_of(&v)
}

// ---------------------------------------------------------------------------
// Trees of elements
// ---------------------------------------------------------------------------

/// The first position from `i` on of an element numbered `id`; -1 if none.
pub open spec fn find_index(es: Seq<ElementView>, id: u32, i: int) -> int
    decreases es.len() - i,
{
    if i < 0 || i >= es.len() {
        -1
    } else if es[i].id == id {
        i
    } else {
        find_index(es, id, i + 1)
    }
}

/// The branch drawn before an element: the last child closes its branch.
pub open spec fn connector(is_last: bool) -> Seq<char> {
    if is_last { "└── "@ } else { "├── "@ }
}

/// What a child's lines are indented by, below its parent's.
pub open spec fn extension(is_last: bool) -> Seq<char> {
    if is_last { "    "@ } else { "│   "@ }
}

/// The lines of the element at position `k` and, below it, of its children
/// in the order it lists them (each found by its number; a child that is not
/// found is left out, but still counts when telling which child is last).
pub open spec fn node_lines(es: Seq<ElementView>, k: int, prefix: Seq<char>, is_last: bool) -> Seq<Seq<char>>
    decreases (if 0 <= k < es.len() { u32::MAX - es[k].id } else { 0 }), 1int, 0int,
{
    if k < 0 || k >= es.len() {
        Seq::empty()
    } else {
        seq![prefix + connector(is_last) + element_line(es[k])] + children_lines(es, k, 0, prefix + extension(is_last))
    }
}

/// The lines of the children `j..` of the element at position `k`.
pub open spec fn children_lines(es: Seq<ElementView>, k: int, j: int, prefix: Seq<char>) -> Seq<Seq<char>>
    decreases (if 0 <= k < es.len() { u32::MAX - es[k].id } else { 0 }), 0int,
        (if 0 <= k < es.len() { es[k].children.len() - j } else { 0 }),
{
    if k < 0 || k >= es.len() || j < 0 || j >= es[k].children.len() {
        Seq::empty()
    } else {
        let ci = find_index(es, es[k].children[j], 0);
        let here = if 0 <= ci < es.len() && es[ci].id > es[k].id {
            node_lines(es, ci, prefix, j == es[k].children.len() - 1)
        } else {
            Seq::empty()
        };
        here + children_lines(es, k, j + 1, prefix)
    }
}

/// Every child an element lists is numbered after it.
pub open spec fn children_later(es: Seq<Element>) -> bool {
    forall|k: int, j: int| 0 <= k < es.len() && 0 <= j < es[k].children@.len() ==>
        #[trigger] es[k].children@[j] > es[k].id
}

/// The texts of a list of strings.
pub open spec fn texts(ls: Seq<String>) -> Seq<Seq<char>> {
    ls.map_values(|l: String| l@)
}

/// Where `find_index` finds an element, it has the number looked for.
pub proof fn lemma_find_index(es: Seq<ElementView>, id: u32, i: int)
    requires
        0 <= i,
    ensures
        find_index(es, id, i) == -1 || (i <= find_index(es, id, i) < es.len() && es[find_index(es, id, i)].id == id),
    decreases es.len() - i,
{
    if i < es.len() && es[i].id != id {
        lemma_find_index(es, id, i + 1);
    }
}

/// The first position of an element numbered `id`.
pub(crate) fn find_element(es: &Vec<Element>, id: u32) -> (r: Option<usize>)
    ensures
        match r {
            Some(i) => find_index(views(es@), id, 0) == i as int && i < es.len(),
            None => find_index(views(es@), id, 0) == -1,
        },
{
    let mut i: usize = 0;
    while i < es.len()
        invariant
            i <= es.len(),
            find_index(views(es@), id, 0) == find_index(views(es@), id, i as int),
        decreases es.len() - i,
    {
        assert(views(es@)[i as int] == es@[i as int]@);
        if es[i].id == id {
            return Some(i);
        }
        i = i + 1;
    }
    None
}

fn push_line(out: &mut Vec<String>, line: &Vec<char>)
    ensures
        texts(final(out)@) == texts(old(out)@).push(line@),
{
    let ghost before = texts(out@);
    out.push(string_of(line));
    assert(texts(out@) =~= before.push(line@));
}

/// Append the lines of the element at position `k` and its descendants
/// (see `node_lines`).
pub fn print_tree_node(es: &Vec<Element>, k: usize, prefix: &Vec<char>, is_last: bool, out: &mut Vec<String>)
    requires
        k < es.len(),
        children_later(es@),
    ensures
        texts(final(out)@) == texts(old(out)@) + node_lines(views(es@), k as int, prefix@, is_last),
    decreases u32::MAX - es@[k as int].id,
{
    let ghost ev = views(es@);
    let ghost start = texts(out@);
    let e = &es[k];
    assert(ev[k as int] == e@);
    let mut line: Vec<char> = Vec::new();
    extend_chars(&mut line, prefix);
    if is_last {
        push_str(&mut line, "└── ");
    } else {
        push_str(&mut line, "├── ");
    }
    push_element_line(&mut line, e);
    assert(line@ =~= prefix@ + connector(is_last) + element_line(ev[k as int]));
    push_line(out, &line);
    let mut cp: Vec<char> = Vec::new();
    extend_chars(&mut cp, prefix);
    if is_last {
        push_str(&mut cp, "    ");
    } else {
        push_str(&mut cp, "│   ");
    }
    assert(cp@ =~= prefix@ + extension(is_last));
    let n = e.children.len();
    let mut j: usize = 0;
    while j < n
        invariant
            ev == views(es@),
            k < es.len(),
                children_later(es@),
            n == es@[k as int].children@.len(),
            ev[k as int].children == es@[k as int].children@,
            ev[k as int].id == es@[k as int].id,
            j <= n,
            texts(out@).len() >= start.len() + 1int,
            texts(out@).subrange(start.len() + 1int, texts(out@).len() as int) + children_lines(ev, k as int, j as int, cp@)
                == children_lines(ev, k as int, 0, cp@),
            texts(out@).subrange(0, start.len() + 1int) == start.push(prefix@ + connector(is_last) + element_line(ev[k as int])),
        decreases n - j,
    {
        let ghost before = texts(out@);
        let c = es[k].children[j];
        assert(c == ev[k as int].children[j as int]);
        proof {
            lemma_find_index(ev, c, 0);
        }
        match find_element(es, c) {
            Some(ci) => {
                assert(ev[ci as int] == es@[ci as int]@);
                assert(es@[k as int].children@[j as int] > es@[k as int].id);
                print_tree_node(es, ci, &cp, j == n - 1, out);
            }
            None => {}
        }
        proof {
            let here = texts(out@).subrange(before.len() as int, texts(out@).len() as int);
            assert(texts(out@) =~= before + here);
            assert(texts(out@).subrange(0, start.len() + 1int) =~= before.subrange(0, start.len() + 1int));
            assert(texts(out@).subrange(start.len() + 1int, texts(out@).len() as int)
                =~= before.subrange(start.len() + 1int, before.len() as int) + here);
        }
        j = j + 1;
    }
    proof {
        let all = texts(out@);
        assert(all =~= all.subrange(0, start.len() + 1int) + all.subrange(start.len() + 1int, all.len() as int));
        assert(children_lines(ev, k as int, j as int, cp@) =~= Seq::<Seq<char>>::empty());
        assert(all.subrange(start.len() + 1int, all.len() as int) =~= children_lines(ev, k as int, 0, cp@));
        assert(all =~= start + node_lines(ev, k as int, prefix@, is_last));
    }
}

/// Whether an element starts a tree of its own: it has no parent or is at depth 0.
pub open spec fn is_root(e: ElementView) -> bool {
    e.parent is None || e.depth == 0
}

/// The positions of the elements that start trees, in order.
pub open spec fn root_positions(es: Seq<ElementView>) -> Seq<int>
    decreases es.len(),
{
    if es.len() == 0 {
        Seq::empty()
    } else {
        let r = root_positions(es.drop_last());
        if is_root(es.last()) { r.push(es.len() - 1) } else { r }
    }
}

/// The lines of the trees started at the positions `rs[i..]`.
pub open spec fn roots_lines(es: Seq<ElementView>, rs: Seq<int>, i: int) -> Seq<Seq<char>>
    decreases rs.len() - i,
{
    if i < 0 || i >= rs.len() {
        Seq::empty()
    } else {
        node_lines(es, rs[i], Seq::empty(), i == rs.len() - 1) + roots_lines(es, rs, i + 1)
    }
}

/// The first line of a tree: the application and its process id, or for an
/// overview (process id 0) the number of elements.
pub open spec fn tree_header(app: Seq<char>, pid: u32, count: nat) -> Seq<char> {
    if pid == 0 {
        "All applications ("@ + decimal(count) + " elements)"@
    } else {
        app + " (pid: "@ + decimal(pid as nat) + ")"@
    }
}

fn root_list(es: &Vec<Element>) -> (rs: Vec<usize>)
    ensures
        rs@.len() == root_positions(views(es@)).len(),
        forall|i: int| 0 <= i < rs@.len() ==> rs@[i] as int == #[trigger] root_positions(views(es@))[i] && rs@[i] < es.len(),
{
    let ghost ev = views(es@);
    let mut rs: Vec<usize> = Vec::new();
    let mut k: usize = 0;
    while k < es.len()
        invariant
            ev == views(es@),
            k <= es.len(),
            rs@.len() == root_positions(ev.take(k as int)).len(),
            forall|i: int| 0 <= i < rs@.len() ==> rs@[i] as int == #[trigger] root_positions(ev.take(k as int))[i] && rs@[i] < k,
        decreases es.len() - k,
    {
        let ghost t = ev.take(k + 1);
        assert(t.drop_last() =~= ev.take(k as int));
        assert(t.last() == es@[k as int]@);
        if es[k].parent.is_none() || es[k].depth == 0 {
            rs.push(k);
        }
        k = k + 1;
    }
    assert(ev.take(es.len() as int) =~= ev);
    rs
}

/// The lines that show the observed elements as trees: a header, then each
/// tree (see `node_lines`), the last one closing its branch.
pub fn print_tree(es: &Vec<Element>, app: &str, pid: u32, element_count: usize) -> (out: Vec<String>)
    requires
        children_later(es@),
    ensures
        texts(out@) == seq![tree_header(app@, pid, element_count as nat)]
            + roots_lines(views(es@), root_positions(views(es@)), 0),
{
    let ghost ev = views(es@);
    let mut out: Vec<String> = Vec::new();
    let mut h: Vec<char> = Vec::new();
    if pid == 0 {
        push_str(&mut h, "All applications (");
        push_decimal(&mut h, element_count as u64);
        push_str(&mut h, " elements)");
    } else {
        push_str(&mut h, app);
        push_str(&mut h, " (pid: ");
        push_decimal(&mut h, pid as u64);
        push_str(&mut h, ")");
    }
    assert(h@ =~= tree_header(app@, pid, element_count as nat));
    assert(texts(out@) =~= Seq::<Seq<char>>::empty());
    push_line(&mut out, &h);
    let rs = root_list(es);
    let ghost rv = root_positions(ev);
    assert forall|q: int| 0 <= q < rs@.len() implies (#[trigger] rs@[q]) as int == rv[q] && (rs@[q] as int) < es.len() by {
        assert(rs@[q] as int == root_positions(views(es@))[q]);
    }
    let empty: Vec<char> = Vec::new();
    assert(empty@ =~= Seq::<char>::empty());
    let mut i: usize = 0;
    while i < rs.len()
        invariant
            ev == views(es@),
                children_later(es@),
            rv == root_positions(ev),
            rs@.len() == rv.len(),
            forall|q: int| 0 <= q < rs@.len() ==> (#[trigger] rs@[q]) as int == rv[q] && (rs@[q] as int) < es.len(),
            empty@ == Seq::<char>::empty(),
            i <= rs.len(),
            texts(out@).len() >= 1,
            texts(out@)[0] == tree_header(app@, pid, element_count as nat),
            texts(out@).subrange(1, texts(out@).len() as int) + roots_lines(ev, rv, i as int) == roots_lines(ev, rv, 0),
        decreases rs.len() - i,
    {
        let ghost before = texts(out@);
        assert(rs@[i as int] as int == rv[i as int]);
        print_tree_node(es, rs[i], &empty, i == rs.len() - 1, &mut out);
        proof {
            let here = node_lines(ev, rv[i as int], Seq::empty(), i == rv.len() - 1);
            assert(texts(out@) == before + here);
            assert(texts(out@)[0] == before[0]);
            assert(texts(out@).subrange(1, texts(out@).len() as int) =~= before.subrange(1, before.len() as int) + here);
        }
        i = i + 1;
    }
    proof {
        let all = texts(out@);
        assert(roots_lines(ev, rv, i as int) =~= Seq::<Seq<char>>::empty());
        assert(all =~= seq![all[0]] + all.subrange(1, all.len() as int));
    }
    out
}

/// The first line of a query's result: the query and how many elements it matched.
pub fn query_header(query: &str, count: usize) -> (s: String)
    ensures
        s@ == "Query '"@ + query@ + "' matched "@ + decimal(count as nat) + " elements:"@,
{
    let mut v: Vec<char> = Vec::new();
    push_str(&mut v, "Query '");
    push_str(&mut v, query);
    push_str(&mut v, "' matched ");
    push_decimal(&mut v, count as u64);
    push_str(&mut v, " elements:");
    string_of(&v)
}

// ---------------------------------------------------------------------------
// Role distribution
// ---------------------------------------------------------------------------

/// The position of role `r` in a tally, from position `i` on.
pub open spec fn tally_pos(t: Seq<(ElementRole, nat)>, r: ElementRole, i: int) -> Option<int>
    decreases t.len() - i,
{
    if i < 0 || i >= t.len() {
        None
    } else if t[i].0 == r {
        Some(i)
    } else {
        tally_pos(t, r, i + 1)
    }
}

/// A tally with one more element of role `r` counted.
pub open spec fn bump(t: Seq<(ElementRole, nat)>, r: ElementRole) -> Seq<(ElementRole, nat)> {
    match tally_pos(t, r, 0) {
        Some(i) => t.update(i, (r, t[i].1 + 1)),
        None => t.push((r, 1nat)),
    }
}

/// How many elements of each role `rs` holds, the roles in the order they
/// first occur.
pub open spec fn tally(rs: Seq<ElementRole>) -> Seq<(ElementRole, nat)>
    decreases rs.len(),
{
    if rs.len() == 0 {
        Seq::empty()
    } else {
        bump(tally(rs.drop_last()), rs.last())
    }
}

/// The roles of a list of elements, in order.
pub open spec fn roles_in(es: Seq<ElementView>) -> Seq<ElementRole> {
    es.map_values(|e: ElementView| e.role)
}

/// The line for one role of the distribution: `role: count`.
pub open spec fn tally_line(e: (ElementRole, nat)) -> Seq<char> {
    role_display(e.0) + ": "@ + decimal(e.1)
}

proof fn lemma_tally_pos(t: Seq<(ElementRole, nat)>, r: ElementRole, i: int)
    requires
        0 <= i,
    ensures
        tally_pos(t, r, i) matches Some(k) ==> i <= k < t.len() && t[k].0 == r,
        tally_pos(t, r, i) is None ==> forall|k: int| i <= k < t.len() ==> t[k].0 != r,
    decreases t.len() - i,
{
    if i < t.len() && t[i].0 != r {
        lemma_tally_pos(t, r, i + 1);
    }
}

proof fn lemma_tally_bound(rs: Seq<ElementRole>)
    ensures
        forall|k: int| 0 <= k < tally(rs).len() ==> #[trigger] tally(rs)[k].1 <= rs.len(),
        tally(rs).len() <= rs.len(),
    decreases rs.len(),
{
    if rs.len() > 0 {
        lemma_tally_bound(rs.drop_last());
        lemma_tally_pos(tally(rs.drop_last()), rs.last(), 0);
    }
}

/// The role distribution of an observation: one line `role: count` per role
/// that occurs, in the order the roles first occur.
pub fn role_distribution(es: &Vec<Element>) -> (lines: Vec<String>)
    ensures
        texts(lines@) == tally(roles_in(views(es@))).map_values(|e: (ElementRole, nat)| tally_line(e)),
{
    let ghost rs = roles_in(views(es@));
    let mut t: Vec<(ElementRole, usize)> = Vec::new();
    let mut i: usize = 0;
    while i < es.len()
        invariant
            i <= es.len(),
            rs == roles_in(views(es@)),
            t@.len() == tally(rs.take(i as int)).len(),
            forall|k: int| 0 <= k < t@.len() ==> (#[trigger] t@[k]).0 == tally(rs.take(i as int))[k].0
                && t@[k].1 == tally(rs.take(i as int))[k].1,
        decreases es.len() - i,
    {
        let ghost before = tally(rs.take(i as int));
        let r = es[i].role;
        proof {
            assert(rs.take(i + 1).drop_last() =~= rs.take(i as int));
            assert(rs.take(i + 1).last() == r);
            lemma_tally_bound(rs.take(i as int));
            lemma_tally_pos(before, r, 0);
        }
        let mut j: usize = 0;
        let mut found: Option<usize> = None;
        while j < t.len()
            invariant_except_break
                found is None,
            invariant
                j <= t@.len(),
                t@.len() == before.len(),
                forall|k: int| 0 <= k < t@.len() ==> (#[trigger] t@[k]).0 == before[k].0 && t@[k].1 == before[k].1,
                tally_pos(before, r, 0) == tally_pos(before, r, j as int),
            ensures
                found matches Some(k) ==> tally_pos(before, r, 0) == Some(k as int) && k < t@.len(),
                found is None ==> tally_pos(before, r, 0) is None,
            decreases t@.len() - j,
        {
            if t[j].0 == r {
                found = Some(j);
                break;
            }
            j = j + 1;
        }
        match found {
            Some(k) => {
                assert(tally_pos(before, r, 0) == Some(k as int));
                assert(before[k as int].1 <= i);
                let c = t[k].1;
                t.set(k, (r, c + 1));
            }
            None => {
                assert(tally_pos(before, r, 0) is None);
                t.push((r, 1));
            }
        }
        i = i + 1;
    }
    assert(rs.take(es.len() as int) =~= rs);
    let ghost total = tally(rs);
    let mut lines: Vec<String> = Vec::new();
    let mut m: usize = 0;
    while m < t.len()
        invariant
            m <= t@.len(),
            t@.len() == total.len(),
            forall|k: int| 0 <= k < t@.len() ==> (#[trigger] t@[k]).0 == total[k].0 && t@[k].1 == total[k].1,
            lines.len() == m,
            texts(lines@) == total.map_values(|e: (ElementRole, nat)| tally_line(e)).take(m as int),
        decreases t@.len() - m,
    {
        let mut v: Vec<char> = Vec::new();
        push_str(&mut v, role_name(t[m].0));
        push_str(&mut v, ": ");
        push_decimal(&mut v, t[m].1 as u64);
        let ghost prev = lines@;
        lines.push(string_of(&v));
        assert forall|k: int| 0 <= k < m implies #[trigger] texts(lines@)[k]
            == total.map_values(|e: (ElementRole, nat)| tally_line(e))[k] by {
            assert(lines@[k] == prev[k]);
            assert(texts(prev)[k] == total.map_values(|e: (ElementRole, nat)| tally_line(e)).take(m as int)[k]);
        }
        assert(texts(lines@)[m as int] == tally_line(total[m as int]));
        assert(texts(lines@) =~= total.map_values(|e: (ElementRole, nat)| tally_line(e)).take(m + 1));
        m = m + 1;
    }
    assert(total.map_values(|e: (ElementRole, nat)| tally_line(e)).take(t@.len() as int)
        =~= total.map_values(|e: (ElementRole, nat)| tally_line(e)));
    lines
}

// ---------------------------------------------------------------------------
// XML
// ---------------------------------------------------------------------------

/// A character as it stands in an XML attribute value.
pub open spec fn escaped_char(c: char) -> Seq<char> {
    if c == '&' { "&amp;"@ }
    else if c == '<' { "&lt;"@ }
    else if c == '>' { "&gt;"@ }
    else if c == '"' { "&quot;"@ }
    else if c == '\'' { "&apos;"@ }
    else { seq![c] }
}

/// Text as it stands in an XML attribute value.
pub open spec fn xml_escape(s: Seq<char>) -> Seq<char>
    decreases s.len(),
{
    if s.len() == 0 { Seq::empty() } else { xml_escape(s.drop_last()) + escaped_char(s.last()) }
}

/// An attribute whose value needs no escaping (a number or a role name).
pub open spec fn plain_attr(name: Seq<char>, v: Seq<char>) -> Seq<char> {
    " "@ + name + "=\""@ + v + "\""@
}

/// An attribute with a text value, where there is one.
pub open spec fn text_attr(name: Seq<char>, v: Option<Seq<char>>) -> Seq<char> {
    match v {
        Some(x) => " "@ + name + "=\""@ + xml_escape(x) + "\""@,
        None => Seq::empty(),
    }
}

/// The XML line of one element: its number, role, parent (where it has
/// one), name and value (where they are given).
pub open spec fn element_xml(e: ElementView) -> Seq<char> {
    "  <element"@ + plain_attr("id"@, decimal(e.id as nat)) + plain_attr("role"@, role_display(e.role))
        + (match e.parent { Some(p) => plain_attr("parent"@, decimal(p as nat)), None => Seq::empty() })
        + text_attr("name"@, e.name) + text_attr("value"@, e.value) + "/>"@
}

/// The first line of an observation as XML.
pub open spec fn snapshot_header(app: Seq<char>, pid: u32, n: nat) -> Seq<char> {
    "<snapshot"@ + text_attr("app"@, Some(app)) + plain_attr("pid"@, decimal(pid as nat))
        + plain_attr("elements"@, decimal(n)) + ">"@
}

fn push_escaped(out: &mut Vec<char>, s: &str)
    ensures
        final(out)@ == old(out)@ + xml_escape(s@),
{
    let v = crate::text::chars_of(s);
    let ghost start = out@;
    let mut i: usize = 0;
    while i < v.len()
        invariant
            i <= v.len(),
            v@ == s@,
            out@ == start + xml_escape(v@.take(i as int)),
        decreases v.len() - i,
    {
        let c = v[i];
        assert(v@.take(i + 1).drop_last() =~= v@.take(i as int));
        assert(v@.take(i + 1).last() == c);
        if c == '&' {
            push_str(out, "&amp;");
        } else if c == '<' {
            push_str(out, "&lt;");
        } else if c == '>' {
            push_str(out, "&gt;");
        } else if c == '"' {
            push_str(out, "&quot;");
        } else if c == '\'' {
            push_str(out, "&apos;");
        } else {
            out.push(c);
        }
        assert(out@ =~= start + xml_escape(v@.take(i + 1)));
        i = i + 1;
    }
    assert(v@.take(v.len() as int) =~= s@);
}

fn push_text_attr(out: &mut Vec<char>, name: &str, v: &Option<String>)
    ensures
        final(out)@ == old(out)@ + text_attr(name@, ostr(*v)),
{
    match v {
        Some(x) => {
            push_str(out, " ");
            push_str(out, name);
            push_str(out, "=\"");
            push_escaped(out, x.as_str());
            push_str(out, "\"");
        }
        None => {
            assert(out@ =~= out@ + Seq::<char>::empty());
        }
    }
}

fn push_plain(out: &mut Vec<char>, name: &str, v: &str)
    ensures
        final(out)@ == old(out)@ + plain_attr(name@, v@),
{
    push_str(out, " ");
    push_str(out, name);
    push_str(out, "=\"");
    push_str(out, v);
    push_str(out, "\"");
}

fn push_plain_number(out: &mut Vec<char>, name: &str, n: u64)
    ensures
        final(out)@ == old(out)@ + plain_attr(name@, decimal(n as nat)),
{
    push_str(out, " ");
    push_str(out, name);
    push_str(out, "=\"");
    push_decimal(out, n as u64);
    push_str(out, "\"");
}

/// An observation as XML, one line each: the `snapshot` element naming the
/// application, its process id and the number of elements, then one
/// `element` line per element in order, then the closing tag.
pub fn snapshot_xml(app: &str, pid: u32, es: &Vec<Element>) -> (lines: Vec<String>)
    ensures
        texts(lines@) == seq![snapshot_header(app@, pid, es@.len() as nat)]
            + views(es@).map_values(|e: ElementView| element_xml(e)) + seq!["</snapshot>"@],
{
    let ghost body = views(es@).map_values(|e: ElementView| element_xml(e));
    let mut lines: Vec<String> = Vec::new();
    let mut h: Vec<char> = Vec::new();
    push_str(&mut h, "<snapshot");
    push_text_attr(&mut h, "app", &Some(crate::platform::text_of(app)));
    push_plain_number(&mut h, "pid", pid as u64);
    push_plain_number(&mut h, "elements", es.len() as u64);
    push_str(&mut h, ">");
    assert(h@ =~= snapshot_header(app@, pid, es@.len() as nat));
    lines.push(string_of(&h));
    let mut i: usize = 0;
    while i < es.len()
        invariant
            i <= es.len(),
            lines.len() == i + 1,
            body == views(es@).map_values(|e: ElementView| element_xml(e)),
            texts(lines@) == seq![snapshot_header(app@, pid, es@.len() as nat)] + body.take(i as int),
        decreases es.len() - i,
    {
        let e = &es[i];
        let mut v: Vec<char> = Vec::new();
        push_str(&mut v, "  <element");
        push_plain_number(&mut v, "id", e.id as u64);
        push_plain(&mut v, "role", role_name(e.role));
        match e.parent {
            Some(p) => push_plain_number(&mut v, "parent", p as u64),
            None => {}
        }
        push_text_attr(&mut v, "name", &e.name);
        push_text_attr(&mut v, "value", &e.value);
        push_str(&mut v, "/>");
        assert(views(es@)[i as int] == es@[i as int]@);
        assert(v@ =~= element_xml(es@[i as int]@));
        let ghost prev = lines@;
        lines.push(string_of(&v));
        assert forall|k: int| 0 <= k <= i implies #[trigger] texts(lines@)[k]
            == (seq![snapshot_header(app@, pid, es@.len() as nat)] + body.take(i + 1))[k] by {
            assert(lines@[k] == prev[k]);
            assert(texts(prev)[k] == (seq![snapshot_header(app@, pid, es@.len() as nat)] + body.take(i as int))[k]);
        }
        assert(texts(lines@) =~= seq![snapshot_header(app@, pid, es@.len() as nat)] + body.take(i + 1));
        i = i + 1;
    }
    let ghost prev = lines@;
    lines.push(crate::platform::text_of("</snapshot>"));
    assert forall|k: int| 0 <= k < prev.len() implies #[trigger] texts(lines@)[k] == texts(prev)[k] by {
        assert(lines@[k] == prev[k]);
    }
    assert(body.take(es.len() as int) =~= body);
    assert(texts(lines@) =~= seq![snapshot_header(app@, pid, es@.len() as nat)] + body + seq!["</snapshot>"@]);
    lines
}

} // verus!
