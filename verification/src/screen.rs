use vstd::prelude::*;
use crate::text::{split_chars, split_on, chars_of, has_substring, lines, lines_of, parse_u32, parse_u32_spec, split_once, split_once_char, split_whitespace, str_contains, trim, trim_chars, words};

verus! {

broadcast use vstd::string::group_string_axioms;

/// A `WxH` word as two `u32`s.
pub open spec fn dims_of_word(word: Seq<char>) -> Option<(u32, u32)> {
    match split_once(word, 'x') {
        Some((a, b)) => match (parse_u32_spec(a), parse_u32_spec(b)) {
            (Some(w), Some(h)) => Some((w, h)),
            _ => None,
        },
        None => None,
    }
}

/// The size an `xdpyinfo` line gives: a line mentioning `dimensions:` whose
/// second word reads `WxH`.
pub open spec fn xdpyinfo_line_size(line: Seq<char>) -> Option<(u32, u32)> {
    if has_substring(line, "dimensions:"@) && words(line).len() >= 2 {
        dims_of_word(words(line)[1])
    } else {
        None
    }
}

/// The size a `wlr-randr` line gives: a trimmed line mentioning `current`
/// and ` x `, whose first and third words are the width and height.
pub open spec fn wlr_randr_line_size(line: Seq<char>) -> Option<(u32, u32)> {
    let t = trim(line);
    if has_substring(t, "current"@) && has_substring(t, " x "@) && words(t).len() >= 3 {
        match (parse_u32_spec(words(t)[0]), parse_u32_spec(words(t)[2])) {
            (Some(w), Some(h)) => Some((w, h)),
            _ => None,
        }
    } else {
        None
    }
}

/// The first size found, scanning the results in order.
pub open spec fn first_size(found: Seq<Option<(u32, u32)>>) -> Option<(u32, u32)>
    decreases found.len(),
{
    if found.len() == 0 {
        None
    } else if found[0] is Some {
        found[0]
    } else {
        first_size(found.drop_first())
    }
}

/// The size `xdpyinfo` output gives: that of its first line that gives one.
pub open spec fn xdpyinfo_size(out: Seq<char>) -> Option<(u32, u32)> {
    first_size(lines(out).map_values(|l: Seq<char>| xdpyinfo_line_size(l)))
}

/// The size `wlr-randr` output gives: that of its first line that gives one.
pub open spec fn wlr_randr_size(out: Seq<char>) -> Option<(u32, u32)> {
    first_size(lines(out).map_values(|l: Seq<char>| wlr_randr_line_size(l)))
}

proof fn lemma_first_size_step(found: Seq<Option<(u32, u32)>>, k: int)
    requires
        0 <= k < found.len(),
        forall|j: int| 0 <= j < k ==> found[j] is None,
    ensures
        found[k] is Some ==> first_size(found) == found[k],
        found[k] is None ==> (k + 1 == found.len() ==> first_size(found) is None),
    decreases k,
{
    if k > 0 {
        lemma_first_size_step(found.drop_first(), k - 1);
    } else if found.len() == 1 {
        assert(first_size(found.drop_first()) is None);
    }
}

fn xdpyinfo_line(line: &Vec<char>) -> (r: Option<(u32, u32)>)
    ensures
        r == xdpyinfo_line_size(line@),
{
    if !str_contains(line, "dimensions:") {
        return None;
    }
    let ws = split_whitespace(line);
    if ws.len() < 2 {
        return None;
    }
    match split_once_char(&ws[1], 'x') {
        Some((a, b)) => match (parse_u32(&a), parse_u32(&b)) {
            (Some(w), Some(h)) => Some((w, h)),
            _ => None,
        },
        None => None,
    }
}

fn wlr_randr_line(line: &Vec<char>) -> (r: Option<(u32, u32)>)
    ensures
        r == wlr_randr_line_size(line@),
{
    let t = trim_chars(line);
    if !(str_contains(&t, "current") && str_contains(&t, " x ")) {
        return None;
    }
    let parts = split_whitespace(&t);
    if parts.len() < 3 {
        return None;
    }
    match (parse_u32(&parts[0]), parse_u32(&parts[2])) {
        (Some(w), Some(h)) => Some((w, h)),
        _ => None,
    }
}

/// The screen size in `xdpyinfo`'s output: the first line that mentions
/// `dimensions:` and whose second word reads `WxH`.
pub fn parse_xdpyinfo(out: &str) -> (r: Option<(u32, u32)>)
    ensures
        r == xdpyinfo_size(out@),
{
    let chars = chars_of(out);
    let ls = lines_of(&chars);
    let ghost found = lines(out@).map_values(|l: Seq<char>| xdpyinfo_line_size(l));
    let mut k: usize = 0;
    while k < ls.len()
        invariant
            ls@.len() == lines(out@).len(),
            forall|j: int| 0 <= j < ls@.len() ==> (#[trigger] ls@[j])@ == lines(out@)[j],
            found == lines(out@).map_values(|l: Seq<char>| xdpyinfo_line_size(l)),
            k <= ls.len(),
            forall|j: int| 0 <= j < k ==> found[j] is None,
        decreases ls.len() - k,
    {
        let r = xdpyinfo_line(&ls[k]);
        proof {
            lemma_first_size_step(found, k as int);
        }
        if r.is_some() {
            return r;
        }
        k = k + 1;
    }
    proof {
        if found.len() > 0 {
            lemma_first_size_step(found, found.len() - 1);
        }
    }
    None
}

/// The screen size in `wlr-randr`'s output: the first trimmed line that
/// mentions `current` and ` x `, with the width and height as its first and
/// third words.
pub fn parse_wlr_randr(out: &str) -> (r: Option<(u32, u32)>)
    ensures
        r == wlr_randr_size(out@),
{
    let chars = chars_of(out);
    let ls = lines_of(&chars);
    let ghost found = lines(out@).map_values(|l: Seq<char>| wlr_randr_line_size(l));
    let mut k: usize = 0;
    while k < ls.len()
        invariant
            ls@.len() == lines(out@).len(),
            forall|j: int| 0 <= j < ls@.len() ==> (#[trigger] ls@[j])@ == lines(out@)[j],
            found == lines(out@).map_values(|l: Seq<char>| wlr_randr_line_size(l)),
            k <= ls.len(),
            forall|j: int| 0 <= j < k ==> found[j] is None,
        decreases ls.len() - k,
    {
        let r = wlr_randr_line(&ls[k]);
        proof {
            lemma_first_size_step(found, k as int);
        }
        if r.is_some() {
            return r;
        }
        k = k + 1;
    }
    proof {
        if found.len() > 0 {
            lemma_first_size_step(found, found.len() - 1);
        }
    }
    None
}

/// One entry of `swaymsg -t get_outputs`: its `active` flag when that is a
/// boolean, and its `rect`'s `width` and `height` when those are unsigned
/// integers (`rect` is `None` when the entry has none).
#[derive(Clone, Copy, Debug, PartialEq, Eq)]
pub struct SwayOutput {
    pub active: Option<bool>,
    pub rect: Option<(Option<u64>, Option<u64>)>,
}

/// The size a sway output gives: an active output with a rect whose width
/// and height, as `u32`, are both non-zero.
pub open spec fn sway_output_size(o: SwayOutput) -> Option<(u32, u32)> {
    if o.active == Some(true) {
        match o.rect {
            Some((w, h)) => {
                let wv = match w { Some(v) => v as u32, None => 0u32 };
                let hv = match h { Some(v) => v as u32, None => 0u32 };
                if wv > 0 && hv > 0 { Some((wv, hv)) } else { None }
            }
            None => None,
        }
    } else {
        None
    }
}

/// The size of the first sway output that gives one.
pub open spec fn sway_size(outputs: Seq<SwayOutput>) -> Option<(u32, u32)> {
    first_size(outputs.map_values(|o: SwayOutput| sway_output_size(o)))
}

/// The screen size in sway's list of outputs: the first active one with a
/// non-zero width and height.
pub fn parse_sway_outputs(outputs: &Vec<SwayOutput>) -> (r: Option<(u32, u32)>)
    ensures
        r == sway_size(outputs@),
{
    let ghost found = outputs@.map_values(|o: SwayOutput| sway_output_size(o));
    let mut k: usize = 0;
    while k < outputs.len()
        invariant
            found == outputs@.map_values(|o: SwayOutput| sway_output_size(o)),
            k <= outputs.len(),
            forall|j: int| 0 <= j < k ==> found[j] is None,
        decreases outputs.len() - k,
    {
        let o = outputs[k];
        proof {
            lemma_first_size_step(found, k as int);
        }
        if o.active == Some(true) {
            if let Some((w, h)) = o.rect {
                let wv: u32 = match w { Some(v) => v as u32, None => 0 };
                let hv: u32 = match h { Some(v) => v as u32, None => 0 };
                if wv > 0 && hv > 0 {
                    return Some((wv, hv));
                }
            }
        }
        k = k + 1;
    }
    proof {
        if found.len() > 0 {
            lemma_first_size_step(found, found.len() - 1);
        }
    }
    None
}

/// What the Linux probes give, tried in order: `xdpyinfo`, then sway's
/// outputs, then `wlr-randr`. Each argument is `None` when its tool could not
/// be run (or, for sway, when its output is not a JSON array).
pub open spec fn linux_size(
    xdpyinfo: Option<Seq<char>>,
    sway: Option<Seq<SwayOutput>>,
    wlr_randr: Option<Seq<char>>,
) -> Option<(u32, u32)> {
    let a = match xdpyinfo { Some(o) => xdpyinfo_size(o), None => None };
    let b = match sway { Some(o) => sway_size(o), None => None };
    let c = match wlr_randr { Some(o) => wlr_randr_size(o), None => None };
    if a is Some { a } else if b is Some { b } else { c }
}

/// The screen size from the outputs of the Linux tools.
pub fn get_screen_size_linux(
    xdpyinfo: Option<&str>,
    sway: Option<&Vec<SwayOutput>>,
    wlr_randr: Option<&str>,
) -> (r: Option<(u32, u32)>)
    ensures
        r == linux_size(
            match xdpyinfo { Some(o) => Some(o@), None => None },
            match sway { Some(o) => Some(o@), None => None },
            match wlr_randr { Some(o) => Some(o@), None => None },
        ),
{
    if let Some(out) = xdpyinfo {
        let r = parse_xdpyinfo(out);
        if r.is_some() {
            return r;
        }
    }
    if let Some(outputs) = sway {
        let r = parse_sway_outputs(outputs);
        if r.is_some() {
            return r;
        }
    }
    if let Some(out) = wlr_randr {
        return parse_wlr_randr(out);
    }
    None
}

/// The size in the Finder's desktop bounds, `"x0, y0, x1, y1"`: the third
/// and fourth numbers.
pub open spec fn macos_size(out: Seq<char>) -> Option<(u32, u32)> {
    let parts = split_on(trim(out), ", "@);
    if parts.len() == 4 {
        match (parse_u32_spec(parts[2]), parse_u32_spec(parts[3])) {
            (Some(w), Some(h)) => Some((w, h)),
            _ => None,
        }
    } else {
        None
    }
}

/// The screen size from `osascript`'s report of the desktop window's bounds.
pub fn get_screen_size_macos(out: &str) -> (r: Option<(u32, u32)>)
    ensures
        r == macos_size(out@),
{
    let chars = chars_of(out);
    let t = trim_chars(&chars);
    let sep = chars_of(", ");
    proof {
        reveal_strlit(", ");
    }
    let parts = split_chars(&t, &sep);
    if parts.len() == 4 {
        match (parse_u32(&parts[2]), parse_u32(&parts[3])) {
            (Some(w), Some(h)) => Some((w, h)),
            _ => None,
        }
    } else {
        None
    }
}

/// The screen size: what the platform's probe found, else 1920 by 1080.
pub fn get_screen_size(probe: Option<(u32, u32)>) -> (r: (u32, u32))
    ensures
        r == match probe { Some(s) => s, None => (1920u32, 1080u32) },
{
    match probe {
        Some(s) => s,
        None => (1920, 1080),
    }
}

} // verus!
