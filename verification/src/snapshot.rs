use vstd::prelude::*;
use crate::platform::text_of;
use crate::render::texts;
use crate::text::{push_str, string_of};
use crate::tree::{
    numbered, overview, overview_elements, role_display, role_name, tree_elements, views, walk, AppTree, Element,
    ElementRole, ElementView, RawNode, TraversalOptions,
};

verus! {

broadcast use vstd::string::group_string_axioms;

// ---------------------------------------------------------------------------
// Looking applications up
// ---------------------------------------------------------------------------

/// Why looking applications up failed, as the accessibility provider reports it.
#[derive(Debug, PartialEq, Eq)]
pub enum LookupError {
    /// The tool lacks accessibility permission; `instructions` say how to grant it.
    PermissionDenied { instructions: String },
    /// Any other failure, by the provider's description of it.
    Other(String),
}

/// The message for a failed lookup.
pub open spec fn lookup_message(e: LookupError) -> Seq<char> {
    match e {
        LookupError::PermissionDenied { instructions } =>
            "Accessibility permission denied.\n\n"@ + instructions@ + "\n\nRe-run after granting permission."@,
        LookupError::Other(m) => m@,
    }
}

/// The message for a failed lookup: a permission refusal says how to grant
/// permission; any other failure is given as the provider describes it.
pub fn map_xa11y_error(e: LookupError) -> (m: String)
    ensures
        m@ == lookup_message(e),
{
    match e {
        LookupError::PermissionDenied { instructions } => {
            let mut v: Vec<char> = Vec::new();
            push_str(&mut v, "Accessibility permission denied.\n\n");
            push_str(&mut v, instructions.as_str());
            push_str(&mut v, "\n\nRe-run after granting permission.");
            string_of(&v)
        }
        LookupError::Other(m) => m,
    }
}

/// An application found for a target: its name, its process id where the
/// provider reports one, and its accessibility tree.
#[derive(Debug)]
pub struct FoundApp {
    pub name: String,
    pub pid: Option<u32>,
    pub root: RawNode,
}

// ---------------------------------------------------------------------------
// The element cache
// ---------------------------------------------------------------------------

/// One cached element: its number and the caller's handle for it.
#[derive(Clone, Copy, Debug, PartialEq, Eq)]
pub struct CacheEntry {
    pub id: u32,
    pub source: u64,
}

/// The elements of the last traversal in this process, by number; empty
/// (`None`) before any traversal.
#[derive(Debug, PartialEq, Eq)]
pub struct ElementCache {
    pub entries: Option<Vec<CacheEntry>>,
}

/// Cache entries as (number, handle) pairs.
pub open spec fn entries_view(c: Seq<CacheEntry>) -> Seq<(u32, u64)> {
    c.map_values(|e: CacheEntry| (e.id, e.source))
}

/// The cache as plain values.
pub open spec fn cache_view(c: ElementCache) -> Option<Seq<(u32, u64)>> {
    match c.entries {
        Some(v) => Some(entries_view(v@)),
        None => None,
    }
}

/// What a traversal caches: each element's number and handle, in order.
pub open spec fn cache_of(es: Seq<ElementView>) -> Seq<(u32, u64)> {
    es.map_values(|e: ElementView| (e.id, e.source))
}

/// The handle of the first entry from position `i` on numbered `id`.
pub open spec fn first_handle(entries: Seq<(u32, u64)>, id: u32, i: int) -> Option<u64>
    decreases entries.len() - i,
{
    if i < 0 || i >= entries.len() {
        None
    } else if entries[i].0 == id {
        Some(entries[i].1)
    } else {
        first_handle(entries, id, i + 1)
    }
}

/// The handle the cache holds for element `id`, if any.
pub open spec fn cached_handle(c: ElementCache, id: u32) -> Option<u64> {
    match cache_view(c) {
        Some(es) => first_handle(es, id, 0),
        None => None,
    }
}

impl ElementCache {
    /// An empty cache.
    pub fn new() -> (c: ElementCache)
        ensures
            cache_view(c) is None,
    {
        ElementCache { entries: None }
    }

    /// The handle cached for element `id`, if any.
    pub fn lookup(&self, id: u32) -> (r: Option<u64>)
        ensures
            r == cached_handle(*self, id),
    {
        match &self.entries {
            None => None,
            Some(v) => {
                let mut i: usize = 0;
                while i < v.len()
                    invariant
                        self.entries == Some(*v),
                        i <= v.len(),
                        first_handle(entries_view(v@), id, 0) == first_handle(entries_view(v@), id, i as int),
                    decreases v.len() - i,
                {
                    assert(entries_view(v@)[i as int] == (v@[i as int].id, v@[i as int].source));
                    if v[i].id == id {
                        return Some(v[i].source);
                    }
                    i = i + 1;
                }
                None
            }
        }
    }
}

fn entries_of(es: &Vec<Element>) -> (c: Vec<CacheEntry>)
    ensures
        entries_view(c@) == cache_of(views(es@)),
{
    let mut c: Vec<CacheEntry> = Vec::new();
    let mut i: usize = 0;
    while i < es.len()
        invariant
            i <= es.len(),
            c.len() == i,
            entries_view(c@) == cache_of(views(es@)).take(i as int),
        decreases es.len() - i,
    {
        let ghost prev = c@;
        assert(views(es@)[i as int] == es@[i as int]@);
        c.push(CacheEntry { id: es[i].id, source: es[i].source });
        assert forall|j: int| 0 <= j < i implies #[trigger] entries_view(c@)[j] == cache_of(views(es@))[j] by {
            assert(c@[j] == prev[j]);
            assert(entries_view(prev)[j] == cache_of(views(es@)).take(i as int)[j]);
        }
        assert(entries_view(c@) =~= cache_of(views(es@)).take(i + 1));
        i = i + 1;
    }
    assert(cache_of(views(es@)).take(es.len() as int) =~= cache_of(views(es@)));
    c
}

proof fn lemma_first_handle(es: Seq<ElementView>, id: u32, i: int)
    requires
        numbered(es, 0),
        0 <= i <= es.len(),
    ensures
        first_handle(cache_of(es), id, i) == if i < id <= es.len() { Some(es[id - 1].source) } else { None::<u64> },
    decreases es.len() - i,
{
    if i < es.len() {
        assert(cache_of(es)[i] == (es[i].id, es[i].source));
        assert(es[i].id == i + 1);
        lemma_first_handle(es, id, i + 1);
    }
}

/// The cache a traversal leaves finds each number the traversal gave out,
/// with that element's handle, and no other number.
pub proof fn law_cache_finds_each_number(es: Seq<ElementView>, id: u32)
    requires
        numbered(es, 0),
    ensures
        first_handle(cache_of(es), id, 0) == if 1 <= id <= es.len() { Some(es[id - 1].source) } else { None::<u64> },
{
    lemma_first_handle(es, id, 0);
}

/// After a traversal, acting on an element finds it in the cache exactly
/// when the traversal gave out its number, and then finds that element's
/// handle: element numbers are stable until the next traversal.
pub proof fn law_cached_after_traversal(c: ElementCache, es: Seq<ElementView>, id: u32)
    requires
        cache_view(c) == Some(cache_of(es)),
        numbered(es, 0),
    ensures
        cached_handle(c, id) == if 1 <= id <= es.len() { Some(es[id - 1].source) } else { None::<u64> },
{
    lemma_first_handle(es, id, 0);
}

// ---------------------------------------------------------------------------
// Snapshots
// ---------------------------------------------------------------------------

/// One observation: the application observed ("all" for an overview, whose
/// process id is 0), the screen size, the elements, and the query that made it.
#[derive(Debug)]
pub struct Snapshot {
    pub app_name: String,
    pub pid: u32,
    pub screen_width: u32,
    pub screen_height: u32,
    pub element_count: usize,
    pub elements: Vec<Element>,
    pub query_max_depth: u32,
    pub query_max_elements: u32,
    pub query_visible_only: bool,
    pub query_roles: Vec<String>,
}

/// The role names a query records: none where it names no roles.
pub open spec fn role_names(roles: Option<Vec<ElementRole>>) -> Seq<Seq<char>> {
    match roles {
        Some(rs) => display_names(rs@),
        None => Seq::empty(),
    }
}

/// The names roles are shown by, in order.
pub open spec fn display_names(rs: Seq<ElementRole>) -> Seq<Seq<char>> {
    rs.map_values(|r: ElementRole| role_display(r))
}

/// `s` records the observation of `app_name` (process id `pid`) on a screen
/// of `screen`, whose elements are `es`, made with the options `o`.
pub open spec fn snapshot_is(s: Snapshot, app_name: Seq<char>, pid: u32, screen: (u32, u32), o: TraversalOptions, es: Seq<ElementView>) -> bool {
    &&& s.app_name@ == app_name
    &&& s.pid == pid
    &&& s.screen_width == screen.0
    &&& s.screen_height == screen.1
    &&& views(s.elements@) == es
    &&& s.element_count == es.len()
    &&& s.query_max_depth == o.max_depth
    &&& s.query_max_elements == o.max_elements
    &&& s.query_visible_only == o.visible_only
    &&& texts(s.query_roles@) == role_names(o.roles)
}

fn names_of(roles: &Option<Vec<ElementRole>>) -> (r: Vec<String>)
    ensures
        texts(r@) == role_names(*roles),
{
    let mut r: Vec<String> = Vec::new();
    match roles {
        None => {
            assert(texts(r@) =~= Seq::<Seq<char>>::empty());
        }
        Some(rs) => {
            let mut i: usize = 0;
            while i < rs.len()
                invariant
                    i <= rs.len(),
                    r.len() == i,
                    texts(r@) == display_names(rs@).take(i as int),
                decreases rs.len() - i,
            {
                let t = text_of(role_name(rs[i]));
                assert(t@ == role_display(rs@[i as int]));
                let ghost prev = r@;
                r.push(t);
                assert forall|j: int| 0 <= j < i implies #[trigger] texts(r@)[j] == display_names(rs@)[j] by {
                    assert(r@[j] == prev[j]);
                    assert(texts(prev)[j] == display_names(rs@).take(i as int)[j]);
                }
                assert(texts(r@) =~= display_names(rs@).take(i + 1));
                i = i + 1;
            }
            assert(display_names(rs@).take(rs.len() as int) =~= display_names(rs@));
        }
    }
    r
}

fn snapshot_of(app_name: String, pid: u32, screen: (u32, u32), o: &TraversalOptions, elements: Vec<Element>) -> (s: Snapshot)
    ensures
        snapshot_is(s, app_name@, pid, screen, *o, views(elements@)),
{
    let n = elements.len();
    Snapshot {
        app_name,
        pid,
        screen_width: screen.0,
        screen_height: screen.1,
        element_count: n,
        elements,
        query_max_depth: o.max_depth,
        query_max_elements: o.max_elements,
        query_visible_only: o.visible_only,
        query_roles: names_of(&o.roles),
    }
}

/// The process id recorded for an application: 0 where none is reported.
pub open spec fn pid_or_zero(pid: Option<u32>) -> u32 {
    match pid {
        Some(p) => p,
        None => 0,
    }
}

/// Observe one application: the result of looking it up, the screen size,
/// and the traversal options. A failed lookup gives its message and leaves
/// the cache as it was; otherwise the snapshot records the application's
/// name and process id (0 where none is reported), the screen size, the
/// elements of its tree (see `walk`), their count and the options, and the
/// cache is replaced by the elements' numbers and handles.
pub fn get_tree(found: Result<FoundApp, LookupError>, screen: (u32, u32), o: &TraversalOptions, cache: &mut ElementCache)
    -> (r: Result<Snapshot, String>)
    ensures
        match found {
            Err(e) => (r matches Err(m) && m@ == lookup_message(e)) && *final(cache) == *old(cache),
            Ok(a) => r matches Ok(s)
                && snapshot_is(s, a.name@, pid_or_zero(a.pid), screen, *o, walk(a.root, *o, a.name@, 0, None, 0))
                && cache_view(*final(cache)) == Some(cache_of(walk(a.root, *o, a.name@, 0, None, 0))),
        },
{
    match found {
        Err(e) => Err(map_xa11y_error(e)),
        Ok(a) => {
            let elements = tree_elements(&a.root, o, a.name.as_str());
            cache.entries = Some(entries_of(&elements));
            let pid: u32 = match a.pid {
                Some(p) => p,
                None => 0,
            };
            Ok(snapshot_of(a.name, pid, screen, o, elements))
        }
    }
}

/// Observe all running applications: the result of listing them, the screen
/// size, and the traversal options. A failed listing gives its message and
/// leaves the cache as it was; otherwise the snapshot is named "all" with
/// process id 0 and records the screen size, the overview's elements (see
/// `overview`), their count and the options, and the cache is replaced by the
/// elements' numbers and handles.
pub fn get_all_apps_overview(apps: Result<Vec<AppTree>, LookupError>, screen: (u32, u32), o: &TraversalOptions, cache: &mut ElementCache)
    -> (r: Result<Snapshot, String>)
    ensures
        match apps {
            Err(e) => (r matches Err(m) && m@ == lookup_message(e)) && *final(cache) == *old(cache),
            Ok(v) => r matches Ok(s)
                && snapshot_is(s, "all"@, 0, screen, *o, overview(v@, 0, *o, 0))
                && cache_view(*final(cache)) == Some(cache_of(overview(v@, 0, *o, 0))),
        },
{
    match apps {
        Err(e) => Err(map_xa11y_error(e)),
        Ok(v) => {
            let elements = overview_elements(&v, o);
            cache.entries = Some(entries_of(&elements));
            Ok(snapshot_of(text_of("all"), 0, screen, o, elements))
        }
    }
}

} // verus!
