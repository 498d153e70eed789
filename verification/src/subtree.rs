use vstd::prelude::*;
use crate::text::{decimal, push_decimal, push_str, string_of};
use crate::tree::{Element, ElementView, RawNode, TraversalOptions, children_complete, numbered, parents_first, views, walk};
use crate::render::{children_later, find_index, node_lines, texts, print_tree_node};

verus! {

broadcast use vstd::string::group_string_axioms;

/// `b` is a child listed by the first element numbered `a`.
pub open spec fn child_of_first(es: Seq<ElementView>, a: u32, b: u32) -> bool {
    let i = find_index(es, a, 0);
    0 <= i < es.len() && es[i].children.contains(b)
}

/// A chain of numbers from `root`, each a child of the first element numbered by the one before.
pub open spec fn is_chain(es: Seq<ElementView>, root: u32, path: Seq<u32>) -> bool {
    &&& path.len() >= 1
    &&& path[0] == root
    &&& forall|t: int| 0 <= t < path.len() - 1 ==> #[trigger] child_of_first(es, path[t], path[t + 1])
}

/// `x` is `root` or below it: some chain from `root` ends at `x`.
pub open spec fn reachable(es: Seq<ElementView>, root: u32, x: u32) -> bool {
    exists|path: Seq<u32>| #[trigger] is_chain(es, root, path) && path.last() == x
}

/// The positions of the elements numbered `root` or below it, in order.
pub open spec fn subtree_positions(es: Seq<ElementView>, root: u32) -> Seq<int> {
    positions_where(es, es.len() as int, root)
}

/// The positions below `n` of the elements numbered `root` or below it, in order.
pub open spec fn positions_where(es: Seq<ElementView>, n: int, root: u32) -> Seq<int>
    decreases n,
{
    if n <= 0 {
        Seq::empty()
    } else {
        let r = positions_where(es, n - 1, root);
        if reachable(es, root, es[n - 1].id) { r.push(n - 1) } else { r }
    }
}

/// How many of the flags are unset.
pub open spec fn unset(fs: Seq<bool>) -> nat
    decreases fs.len(),
{
    if fs.len() == 0 { 0 } else { unset(fs.drop_last()) + if fs.last() { 0nat } else { 1nat } }
}

proof fn lemma_unset_update(fs: Seq<bool>, p: int)
    requires
        0 <= p < fs.len(),
        !fs[p],
    ensures
        unset(fs.update(p, true)) + 1 == unset(fs),
    decreases fs.len(),
{
    let g = fs.update(p, true);
    if p == fs.len() - 1 {
        assert(g.drop_last() =~= fs.drop_last());
    } else {
        lemma_unset_update(fs.drop_last(), p);
        assert(g.drop_last() =~= fs.drop_last().update(p, true));
    }
}

proof fn lemma_chain_root(es: Seq<ElementView>, root: u32)
    ensures
        reachable(es, root, root),
{
    let path = seq![root];
    assert(is_chain(es, root, path));
}

proof fn lemma_chain_extend(es: Seq<ElementView>, root: u32, x: u32, c: u32)
    requires
        reachable(es, root, x),
        child_of_first(es, x, c),
    ensures
        reachable(es, root, c),
{
    let path = choose|path: Seq<u32>| #[trigger] is_chain(es, root, path) && path.last() == x;
    let p2 = path.push(c);
    assert forall|t: int| 0 <= t < p2.len() - 1 implies #[trigger] child_of_first(es, p2[t], p2[t + 1]) by {
        if t < path.len() - 1 {
            assert(p2[t] == path[t] && p2[t + 1] == path[t + 1]);
        } else {
            assert(p2[t] == x && p2[t + 1] == c);
        }
    }
    assert(is_chain(es, root, p2));
}

proof fn lemma_closed(es: Seq<ElementView>, root: u32, set: Seq<u32>, path: Seq<u32>)
    requires
        set.contains(root),
        forall|a: u32, b: u32| set.contains(a) && #[trigger] child_of_first(es, a, b) ==> set.contains(b),
        is_chain(es, root, path),
    ensures
        set.contains(path.last()),
    decreases path.len(),
{
    if path.len() > 1 {
        let q = path.drop_last();
        assert forall|t: int| 0 <= t < q.len() - 1 implies #[trigger] child_of_first(es, q[t], q[t + 1]) by {
            assert(child_of_first(es, path[t], path[t + 1]));
        }
        assert(is_chain(es, root, q));
        lemma_closed(es, root, set, q);
        let t = path.len() - 2;
        assert(child_of_first(es, path[t], path[t + 1]));
    }
}

fn contains_id(v: &Vec<u32>, x: u32) -> (b: bool)
    ensures
        b == v@.contains(x),
{
    let mut i: usize = 0;
    while i < v.len()
        invariant
            i <= v.len(),
            forall|j: int| 0 <= j < i ==> v@[j] != x,
        decreases v.len() - i,
    {
        if v[i] == x {
            assert(v@[i as int] == x);
            return true;
        }
        i = i + 1;
    }
    false
}

/// The numbers `root` reaches: all and only the reachable ones.
fn reach(es: &Vec<Element>, root: u32) -> (set: Vec<u32>)
    ensures
        forall|x: u32| set@.contains(x) <==> reachable(views(es@), root, x),
{
    let ghost ev = views(es@);
    let mut set: Vec<u32> = Vec::new();
    set.push(root);
    proof { lemma_chain_root(ev, root); }
    assert(set@[0] == root);
    assert(set@.contains(root));
    assert forall|x: u32| set@.contains(x) implies reachable(ev, root, x) by {
        let w = choose|w: int| 0 <= w < set@.len() && set@[w] == x;
        assert(w == 0);
    }
    let mut done: Vec<bool> = Vec::new();
    let mut k: usize = 0;
    while k < es.len()
        invariant
            k <= es.len(),
            done@.len() == k,
            forall|q: int| 0 <= q < k ==> !done@[q],
        decreases es.len() - k,
    {
        done.push(false);
        k = k + 1;
    }
    loop
        invariant
            ev == views(es@),
            done@.len() == es.len(),
            set@.contains(root),
            forall|x: u32| set@.contains(x) ==> reachable(ev, root, x),
            forall|p: int, c: u32| 0 <= p < es.len() && done@[p] && #[trigger] ev[p].children.contains(c) ==> set@.contains(c),
        decreases unset(done@),
    {
        // Find an element, first with its number, whose number is reached and which is not expanded yet.
        let mut found: Option<usize> = None;
        let mut p: usize = 0;
        while p < es.len()
            invariant
                ev == views(es@),
                done@.len() == es.len(),
                p <= es.len(),
                found matches Some(q) ==> q < es.len() && !done@[q as int] && set@.contains(ev[q as int].id)
                    && find_index(ev, ev[q as int].id, 0) == q,
                found is None ==> forall|q: int| 0 <= q < p && find_index(ev, ev[q].id, 0) == q && set@.contains(ev[q].id)
                    ==> done@[q],
            decreases es.len() - p,
        {
            if found.is_none() && !done[p] {
                let id = es[p].id;
                assert(ev[p as int].id == id);
                if contains_id(&set, id) {
                    match crate::render::find_element(es, id) {
                        Some(f) => {
                            if f == p {
                                found = Some(p);
                            }
                        }
                        None => {}
                    }
                }
            }
            p = p + 1;
        }
        match found {
            None => {
                proof {
                    assert forall|a: u32, b: u32| set@.contains(a) && #[trigger] child_of_first(ev, a, b) implies set@.contains(b) by {
                        let i = find_index(ev, a, 0);
                        crate::render::lemma_find_index(ev, a, 0);
                        assert(ev[i].id == a);
                        assert(done@[i]);
                    }
                    assert forall|x: u32| reachable(ev, root, x) implies set@.contains(x) by {
                        let path = choose|path: Seq<u32>| #[trigger] is_chain(ev, root, path) && path.last() == x;
                        lemma_closed(ev, root, set@, path);
                    }
                }
                return set;
            }
            Some(q) => {
                let ghost before = set@;
                let e = &es[q];
                assert(ev[q as int] == e@);
                let n = e.children.len();
                let mut j: usize = 0;
                while j < n
                    invariant
                        ev == views(es@),
                        q < es.len(),
                        n == ev[q as int].children.len(),
                        ev[q as int].children == es@[q as int].children@,
                        find_index(ev, ev[q as int].id, 0) == q,
                        reachable(ev, root, ev[q as int].id),
                        j <= n,
                        forall|x: u32| before.contains(x) ==> set@.contains(x),
                        forall|x: u32| set@.contains(x) ==> reachable(ev, root, x),
                        forall|t: int| 0 <= t < j ==> set@.contains(#[trigger] ev[q as int].children[t]),
                    decreases n - j,
                {
                    let c = es[q].children[j];
                    assert(ev[q as int].children[j as int] == c);
                    assert(ev[q as int].children.contains(c));
                    proof { lemma_chain_extend(ev, root, ev[q as int].id, c); }
                    let ghost s0 = set@;
                    set.push(c);
                    assert forall|x: u32| set@.contains(x) implies reachable(ev, root, x) by {
                        if x != c {
                            let w = choose|w: int| 0 <= w < set@.len() && set@[w] == x;
                            assert(s0[w] == x);
                        }
                    }
                    assert forall|x: u32| s0.contains(x) implies set@.contains(x) by {
                        let w = choose|w: int| 0 <= w < s0.len() && s0[w] == x;
                        assert(set@[w] == x);
                    }
                    assert(set@[set@.len() - 1] == c);
                    j = j + 1;
                }
                proof {
                    assert forall|c: u32| ev[q as int].children.contains(c) implies set@.contains(c) by {
                        let t = choose|t: int| 0 <= t < ev[q as int].children.len() && ev[q as int].children[t] == c;
                        assert(set@.contains(ev[q as int].children[t]));
                    }
                    lemma_unset_update(done@, q as int);
                }
                done.set(q, true);
            }
        }
    }
}

/// The positions of an element and of all elements below it in the last
/// observation, in order. Its children are the numbers the first element with
/// its number lists, and so on down; an element that is not there has nothing
/// below it, and then nothing is found.
pub fn observe_subtree(es: &Vec<Element>, element_id: u32) -> (r: Result<Vec<usize>, String>)
    ensures
        match r {
            Ok(ps) => ps@.len() > 0 && ps@.map_values(|p: usize| p as int) == subtree_positions(views(es@), element_id),
            Err(m) => subtree_positions(views(es@), element_id).len() == 0
                && m@ == "Element "@ + decimal(element_id as nat) + " not found in last observe state"@,
        },
{
    let ghost ev = views(es@);
    let set = reach(es, element_id);
    let mut ps: Vec<usize> = Vec::new();
    let mut k: usize = 0;
    while k < es.len()
        invariant
            ev == views(es@),
            k <= es.len(),
            forall|x: u32| set@.contains(x) <==> reachable(ev, element_id, x),
            ps@.map_values(|p: usize| p as int) == positions_where(ev, k as int, element_id),
        decreases es.len() - k,
    {
        assert(ev[k as int] == es@[k as int]@);
        let ghost before = ps@.map_values(|p: usize| p as int);
        if contains_id(&set, es[k].id) {
            ps.push(k);
            assert(ps@.map_values(|p: usize| p as int) =~= before.push(k as int));
        }
        k = k + 1;
    }
    if ps.len() == 0 {
        let mut v: Vec<char> = Vec::new();
        push_str(&mut v, "Element ");
        push_decimal(&mut v, element_id as u64);
        push_str(&mut v, " not found in last observe state");
        return Err(string_of(&v));
    }
    Ok(ps)
}

/// The lines that show an element's subtree of `count` elements: a header,
/// then the tree below the first element with that number, if there is one.
pub fn print_element_tree(es: &Vec<Element>, element_id: u32, count: usize) -> (out: Vec<String>)
    requires
        children_later(es@),
    ensures
        texts(out@) == seq!["Element "@ + decimal(element_id as nat) + " subtree ("@ + decimal(count as nat) + " elements):"@]
            + {
                let i = find_index(views(es@), element_id, 0);
                if 0 <= i < es.len() { node_lines(views(es@), i, Seq::empty(), true) } else { Seq::<Seq<char>>::empty() }
            },
{
    let mut out: Vec<String> = Vec::new();
    let mut h: Vec<char> = Vec::new();
    push_str(&mut h, "Element ");
    push_decimal(&mut h, element_id as u64);
    push_str(&mut h, " subtree (");
    push_decimal(&mut h, count as u64);
    push_str(&mut h, " elements):");
    out.push(string_of(&h));
    assert(texts(out@) =~= seq![h@]);
    let ghost start = texts(out@);
    match crate::render::find_element(es, element_id) {
        Some(i) => {
            let empty: Vec<char> = Vec::new();
            assert(empty@ =~= Seq::<char>::empty());
            print_tree_node(es, i, &empty, true, &mut out);
        }
        None => {
            assert(texts(out@) =~= start + Seq::<Seq<char>>::empty());
        }
    }
    out
}

// ---------------------------------------------------------------------------
// The root's subtree is the whole observation
// ---------------------------------------------------------------------------

proof fn lemma_find_numbered(es: Seq<ElementView>, id: u32, i: int)
    requires
        numbered(es, 0),
        0 <= i < id,
        id <= es.len(),
    ensures
        find_index(es, id, i) == id - 1,
    decreases id - i,
{
    assert(es[i].id == i + 1);
    if i < id - 1 {
        lemma_find_numbered(es, id, i + 1);
    }
}

proof fn lemma_reach_prefix(es: Seq<ElementView>, n: int)
    requires
        es.len() >= 1,
        numbered(es, 0),
        children_complete(es),
        parents_first(es),
        forall|m: int| 1 <= m < es.len() ==> ((#[trigger] es[m]).parent matches Some(q) && 1 <= q),
        0 <= n <= es.len(),
    ensures
        forall|m: int| 0 <= m < n ==> reachable(es, 1, (#[trigger] es[m]).id),
    decreases n,
{
    if n > 0 {
        lemma_reach_prefix(es, n - 1);
        let m = n - 1;
        assert(es[m].id == m + 1);
        if m == 0 {
            lemma_chain_root(es, 1);
        } else {
            let q = es[m].parent.unwrap();
            assert(q < es[m].id);
            let k = q - 1;
            assert(es[k].id == q);
            assert(reachable(es, 1, es[k].id));
            lemma_find_numbered(es, q, 0);
            assert(es[m].parent == Some(es[k].id));
            assert(es[k].children.contains(es[m].id));
            lemma_chain_extend(es, 1, q, es[m].id);
        }
    }
}

proof fn lemma_positions_all(es: Seq<ElementView>, n: int)
    requires
        0 <= n <= es.len(),
        forall|m: int| 0 <= m < es.len() ==> reachable(es, 1, (#[trigger] es[m]).id),
    ensures
        positions_where(es, n, 1) == Seq::new(n as nat, |k: int| k),
    decreases n,
{
    if n > 0 {
        lemma_positions_all(es, n - 1);
        assert(reachable(es, 1, es[n - 1].id));
        assert(positions_where(es, n, 1) =~= Seq::new(n as nat, |k: int| k));
    } else {
        assert(positions_where(es, n, 1) =~= Seq::new(n as nat, |k: int| k));
    }
}

/// Observing one application and then asking for the subtree of element 1
/// (the root) gives back every element of the observation, in order.
pub proof fn law_root_subtree_is_whole(root: RawNode, o: TraversalOptions, app: Seq<char>)
    ensures
        subtree_positions(walk(root, o, app, 0, None, 0), 1)
            == Seq::new(walk(root, o, app, 0, None, 0).len(), |k: int| k),
{
    let es = walk(root, o, app, 0, None, 0);
    crate::tree::law_tree_shape(root, o, app);
    crate::tree::law_tree_children_complete(root, o, app);
    crate::tree::law_tree_single_root(root, o, app);
    if es.len() >= 1 {
        lemma_reach_prefix(es, es.len() as int);
    }
    lemma_positions_all(es, es.len() as int);
}

} // verus!
