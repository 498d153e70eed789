use vstd::prelude::*;
use crate::text::{debug_list, decimal, push_debug_list, push_decimal, push_str, string_of};
use crate::commands::opt_view;
use crate::platform::text_of;

verus! {

broadcast use vstd::string::group_string_axioms;

/// How a command names its target element.
#[derive(Debug, PartialEq, Eq)]
pub enum ElementRef {
    /// By the number it had in the last observation.
    Id(u32),
    /// By a selector to run against the last observation.
    Query(String),
}

/// An element reference as the id or the query text it holds.
pub open spec fn ref_view(r: ElementRef) -> Result<u32, Seq<char>> {
    match r {
        ElementRef::Id(i) => Ok(i),
        ElementRef::Query(q) => Err(q@),
    }
}

/// The error for naming the target both ways; the command line names its
/// flags, the tool server its parameters.
pub open spec fn both_message(mcp: bool) -> Seq<char> {
    if mcp { "Cannot specify both element and query"@ } else { "Cannot specify both --element and --query"@ }
}

/// The error for naming no target.
pub open spec fn neither_message(mcp: bool) -> Seq<char> {
    if mcp { "Must specify either element or query"@ } else { "Must specify either --element or --query"@ }
}

/// What resolving a required target gives: the id, the query to run, or an error.
pub open spec fn resolved(element: Option<u32>, query: Option<Seq<char>>, mcp: bool, r: Result<ElementRef, String>) -> bool {
    match (element, query) {
        (Some(id), None) => r matches Ok(x) && ref_view(x) == Ok::<u32, Seq<char>>(id),
        (None, Some(q)) => r matches Ok(x) && ref_view(x) == Err::<u32, Seq<char>>(q),
        (Some(_), Some(_)) => r matches Err(m) && m@ == both_message(mcp),
        (None, None) => r matches Err(m) && m@ == neither_message(mcp),
    }
}

/// What resolving an optional target gives: no target is no error.
pub open spec fn resolved_optional(element: Option<u32>, query: Option<Seq<char>>, mcp: bool, r: Result<Option<ElementRef>, String>) -> bool {
    match (element, query) {
        (None, None) => r matches Ok(x) && x is None,
        (Some(id), None) => r matches Ok(x) && (x matches Some(y) && ref_view(y) == Ok::<u32, Seq<char>>(id)),
        (None, Some(q)) => r matches Ok(x) && (x matches Some(y) && ref_view(y) == Err::<u32, Seq<char>>(q)),
        (Some(_), Some(_)) => r matches Err(m) && m@ == both_message(mcp),
    }
}

fn resolve_with(element: Option<u32>, query: Option<&str>, mcp: bool) -> (r: Result<ElementRef, String>)
    ensures
        resolved(element, opt_view(query), mcp, r),
{
    match (element, query) {
        (Some(id), None) => Ok(ElementRef::Id(id)),
        (None, Some(q)) => Ok(ElementRef::Query(text_of(q))),
        (Some(_), Some(_)) => {
            if mcp {
                Err(text_of("Cannot specify both element and query"))
            } else {
                Err(text_of("Cannot specify both --element and --query"))
            }
        }
        (None, None) => {
            if mcp {
                Err(text_of("Must specify either element or query"))
            } else {
                Err(text_of("Must specify either --element or --query"))
            }
        }
    }
}

fn resolve_optional_with(element: Option<u32>, query: Option<&str>, mcp: bool) -> (r: Result<Option<ElementRef>, String>)
    ensures
        resolved_optional(element, opt_view(query), mcp, r),
{
    if element.is_none() && query.is_none() {
        return Ok(None);
    }
    match resolve_with(element, query, mcp) {
        Ok(x) => Ok(Some(x)),
        Err(e) => Err(e),
    }
}

/// Resolve `--element` against `--query` for a command that needs a target.
pub fn resolve_element(element: Option<u32>, query: Option<&str>) -> (r: Result<ElementRef, String>)
    ensures
        resolved(element, opt_view(query), false, r),
{
    resolve_with(element, query, false)
}

/// Resolve `--element` against `--query` for a command whose target is optional.
pub fn resolve_element_optional(element: Option<u32>, query: Option<&str>) -> (r: Result<Option<ElementRef>, String>)
    ensures
        resolved_optional(element, opt_view(query), false, r),
{
    resolve_optional_with(element, query, false)
}

/// Resolve the `element` and `query` tool parameters for a tool that needs a target.
pub fn resolve_element_mcp(element: Option<u32>, query: Option<&str>) -> (r: Result<ElementRef, String>)
    ensures
        resolved(element, opt_view(query), true, r),
{
    resolve_with(element, query, true)
}

/// Resolve the `element` and `query` tool parameters for a tool whose target is optional.
pub fn resolve_element_optional_mcp(element: Option<u32>, query: Option<&str>) -> (r: Result<Option<ElementRef>, String>)
    ensures
        resolved_optional(element, opt_view(query), true, r),
{
    resolve_optional_with(element, query, true)
}

/// What picking from the ids a query matched gives: the one id where exactly
/// one matched, else an error that counts (and lists) the matches.
pub open spec fn picked(query: Seq<char>, ids: Seq<u32>, r: Result<u32, String>) -> bool {
    &&& ids.len() == 1 ==> r == Ok::<u32, String>(ids[0])
    &&& ids.len() == 0 ==> (r matches Err(m) && m@ == "Query '"@ + query + "' matched no elements"@)
    &&& ids.len() > 1 ==> (r matches Err(m) && m@ == "Query '"@ + query + "' matched "@ + decimal(ids.len() as nat)
        + " elements (IDs: "@ + debug_list(ids) + "). Use :nth(N) to select one."@)
}

/// The element a query selects from the ids it matched: exactly one must match.
pub fn pick_query_match(query: &str, ids: &Vec<u32>) -> (r: Result<u32, String>)
    ensures
        picked(query@, ids@, r),
{
    if ids.len() == 1 {
        return Ok(ids[0]);
    }
    let mut m: Vec<char> = Vec::new();
    push_str(&mut m, "Query '");
    push_str(&mut m, query);
    if ids.len() == 0 {
        push_str(&mut m, "' matched no elements");
    } else {
        push_str(&mut m, "' matched ");
        push_decimal(&mut m, ids.len() as u64);
        push_str(&mut m, " elements (IDs: ");
        push_debug_list(&mut m, ids);
        push_str(&mut m, "). Use :nth(N) to select one.");
    }
    Err(string_of(&m))
}

/// The error for a query when no observation was saved; the command line
/// names its command, the tool server its tool.
pub open spec fn no_data_message(mcp: bool) -> Seq<char> {
    if mcp { "No accessibility data. Run observe first."@ } else { "No accessibility data. Run `percept observe` first."@ }
}

} // verus!
