use vstd::prelude::*;
use crate::text::{chars_eq, chars_of, joined, lowercase, push_str, split_chars, split_on, string_of, to_lowercase, trim, trim_chars};

verus! {

broadcast use vstd::string::group_string_axioms;

/// A key the input simulator can press.
#[derive(Clone, Copy, Debug, PartialEq, Eq)]
pub enum Key {
    /// A printable character.
    Char(char),
    Shift,
    Ctrl,
    Alt,
    Meta,
    Enter,
    Escape,
    Backspace,
    Tab,
    Space,
    Delete,
    ArrowUp,
    ArrowDown,
    ArrowLeft,
    ArrowRight,
    Home,
    End,
    PageUp,
    PageDown,
    /// A function key, 1-based.
    F(u8),
}

/// The key a lower-cased key name stands for.
pub open spec fn key_for(n: Seq<char>) -> Option<Key> {
    if n == "return"@ || n == "enter"@ { Some(Key::Enter) }
    else if n == "tab"@ { Some(Key::Tab) }
    else if n == "escape"@ || n == "esc"@ { Some(Key::Escape) }
    else if n == "space"@ { Some(Key::Space) }
    else if n == "delete"@ || n == "backspace"@ { Some(Key::Backspace) }
    else if n == "forward_delete"@ || n == "forwarddelete"@ { Some(Key::Delete) }
    else if n == "up"@ { Some(Key::ArrowUp) }
    else if n == "down"@ { Some(Key::ArrowDown) }
    else if n == "left"@ { Some(Key::ArrowLeft) }
    else if n == "right"@ { Some(Key::ArrowRight) }
    else if n == "home"@ { Some(Key::Home) }
    else if n == "end"@ { Some(Key::End) }
    else if n == "page_up"@ || n == "pageup"@ { Some(Key::PageUp) }
    else if n == "page_down"@ || n == "pagedown"@ { Some(Key::PageDown) }
    else if n == "f1"@ { Some(Key::F(1)) }
    else if n == "f2"@ { Some(Key::F(2)) }
    else if n == "f3"@ { Some(Key::F(3)) }
    else if n == "f4"@ { Some(Key::F(4)) }
    else if n == "f5"@ { Some(Key::F(5)) }
    else if n == "f6"@ { Some(Key::F(6)) }
    else if n == "f7"@ { Some(Key::F(7)) }
    else if n == "f8"@ { Some(Key::F(8)) }
    else if n == "f9"@ { Some(Key::F(9)) }
    else if n == "f10"@ { Some(Key::F(10)) }
    else if n == "f11"@ { Some(Key::F(11)) }
    else if n == "f12"@ { Some(Key::F(12)) }
    else if n.len() == 1 && (n[0] as u32) < 128 { Some(Key::Char(n[0])) }
    else { None }
}

/// The names a key is called by: Enter is `return` or `enter`, Escape
/// `escape` or `esc`, Backspace `delete` or `backspace`, Delete
/// `forward_delete` or `forwarddelete`, each arrow by its direction, Page Up
/// and Page Down with or without an underscore, function keys `f1` to `f12`,
/// and a printable ASCII character by itself; the modifiers have no key name.
pub open spec fn names_key(n: Seq<char>, k: Key) -> bool {
    match k {
        Key::Enter => n == "return"@ || n == "enter"@,
        Key::Tab => n == "tab"@,
        Key::Escape => n == "escape"@ || n == "esc"@,
        Key::Space => n == "space"@,
        Key::Backspace => n == "delete"@ || n == "backspace"@,
        Key::Delete => n == "forward_delete"@ || n == "forwarddelete"@,
        Key::ArrowUp => n == "up"@,
        Key::ArrowDown => n == "down"@,
        Key::ArrowLeft => n == "left"@,
        Key::ArrowRight => n == "right"@,
        Key::Home => n == "home"@,
        Key::End => n == "end"@,
        Key::PageUp => n == "page_up"@ || n == "pageup"@,
        Key::PageDown => n == "page_down"@ || n == "pagedown"@,
        Key::F(i) => (i == 1 && n == "f1"@) || (i == 2 && n == "f2"@) || (i == 3 && n == "f3"@) || (i == 4 && n == "f4"@)
            || (i == 5 && n == "f5"@) || (i == 6 && n == "f6"@) || (i == 7 && n == "f7"@) || (i == 8 && n == "f8"@)
            || (i == 9 && n == "f9"@) || (i == 10 && n == "f10"@) || (i == 11 && n == "f11"@) || (i == 12 && n == "f12"@),
        Key::Char(c) => n == seq![c] && (c as u32) < 128,
        _ => false,
    }
}

/// The key names differ from one another.
proof fn lemma_key_names_distinct()
    ensures
        forall|i: int, j: int| 0 <= i < j < 32 ==> key_names()[i] != key_names()[j],
        key_names().len() == 32,
{
    reveal_strlit("return");
    reveal_strlit("enter");
    reveal_strlit("tab");
    reveal_strlit("escape");
    reveal_strlit("esc");
    reveal_strlit("space");
    reveal_strlit("delete");
    reveal_strlit("backspace");
    reveal_strlit("forward_delete");
    reveal_strlit("forwarddelete");
    reveal_strlit("up");
    reveal_strlit("down");
    reveal_strlit("left");
    reveal_strlit("right");
    reveal_strlit("home");
    reveal_strlit("end");
    reveal_strlit("page_up");
    reveal_strlit("pageup");
    reveal_strlit("page_down");
    reveal_strlit("pagedown");
    reveal_strlit("f1");
    reveal_strlit("f2");
    reveal_strlit("f3");
    reveal_strlit("f4");
    reveal_strlit("f5");
    reveal_strlit("f6");
    reveal_strlit("f7");
    reveal_strlit("f8");
    reveal_strlit("f9");
    reveal_strlit("f10");
    reveal_strlit("f11");
    reveal_strlit("f12");
    let ns = key_names();
    assert forall|i: int, j: int| 0 <= i < j < 32 implies ns[i] != ns[j] by {
        if ns[i].len() == ns[j].len() {
            assert(ns[i][0] != ns[j][0] || ns[i][1] != ns[j][1] || ns[i][2] != ns[j][2]);
        }
    }
}

/// Every key name, in the order they are tried.
spec fn key_names() -> Seq<Seq<char>> {
    seq!["return"@, "enter"@, "tab"@, "escape"@, "esc"@, "space"@, "delete"@, "backspace"@, "forward_delete"@, "forwarddelete"@, "up"@, "down"@, "left"@, "right"@, "home"@, "end"@, "page_up"@, "pageup"@, "page_down"@, "pagedown"@, "f1"@, "f2"@, "f3"@, "f4"@, "f5"@, "f6"@, "f7"@, "f8"@, "f9"@, "f10"@, "f11"@, "f12"@]
}

/// A (lower-cased) key name stands for a key exactly when it is one of that
/// key's names: `up` is the Up arrow and nothing else, and so on for every key.
pub proof fn law_key_names(n: Seq<char>, k: Key)
    ensures
        key_for(n) == Some(k) <==> names_key(n, k),
{
    lemma_key_names_distinct();
    reveal_strlit("return");
    reveal_strlit("enter");
    reveal_strlit("tab");
    reveal_strlit("escape");
    reveal_strlit("esc");
    reveal_strlit("space");
    reveal_strlit("delete");
    reveal_strlit("backspace");
    reveal_strlit("forward_delete");
    reveal_strlit("forwarddelete");
    reveal_strlit("up");
    reveal_strlit("down");
    reveal_strlit("left");
    reveal_strlit("right");
    reveal_strlit("home");
    reveal_strlit("end");
    reveal_strlit("page_up");
    reveal_strlit("pageup");
    reveal_strlit("page_down");
    reveal_strlit("pagedown");
    reveal_strlit("f1");
    reveal_strlit("f2");
    reveal_strlit("f3");
    reveal_strlit("f4");
    reveal_strlit("f5");
    reveal_strlit("f6");
    reveal_strlit("f7");
    reveal_strlit("f8");
    reveal_strlit("f9");
    reveal_strlit("f10");
    reveal_strlit("f11");
    reveal_strlit("f12");
    let ns = key_names();
    assert(ns[0] == "return"@);
    assert(ns[1] == "enter"@);
    assert(ns[2] == "tab"@);
    assert(ns[3] == "escape"@);
    assert(ns[4] == "esc"@);
    assert(ns[5] == "space"@);
    assert(ns[6] == "delete"@);
    assert(ns[7] == "backspace"@);
    assert(ns[8] == "forward_delete"@);
    assert(ns[9] == "forwarddelete"@);
    assert(ns[10] == "up"@);
    assert(ns[11] == "down"@);
    assert(ns[12] == "left"@);
    assert(ns[13] == "right"@);
    assert(ns[14] == "home"@);
    assert(ns[15] == "end"@);
    assert(ns[16] == "page_up"@);
    assert(ns[17] == "pageup"@);
    assert(ns[18] == "page_down"@);
    assert(ns[19] == "pagedown"@);
    assert(ns[20] == "f1"@);
    assert(ns[21] == "f2"@);
    assert(ns[22] == "f3"@);
    assert(ns[23] == "f4"@);
    assert(ns[24] == "f5"@);
    assert(ns[25] == "f6"@);
    assert(ns[26] == "f7"@);
    assert(ns[27] == "f8"@);
    assert(ns[28] == "f9"@);
    assert(ns[29] == "f10"@);
    assert(ns[30] == "f11"@);
    assert(ns[31] == "f12"@);
    if key_for(n) == Some(k) {
        if n.len() == 1 && (n[0] as u32) < 128 {
            assert(n =~= seq![n[0]]);
        }
    }
    if names_key(n, k) {
        if k is Char {
            assert(n.len() == 1);
        }
    }
}

/// The message for a key name that names no key.
pub open spec fn unknown_key_message(name: Seq<char>) -> Seq<char> {
    "Unknown key '"@ + name + "'. Use a single character or one of: return, tab, escape, space, delete, forward_delete, up, down, left, right, home, end, page_up, page_down, f1-f12"@
}

fn named_key(n: &Vec<char>) -> (r: Option<Key>)
    ensures
        r == key_for(n@),
{
    if chars_eq(n, "return") || chars_eq(n, "enter") { Some(Key::Enter) }
    else if chars_eq(n, "tab") { Some(Key::Tab) }
    else if chars_eq(n, "escape") || chars_eq(n, "esc") { Some(Key::Escape) }
    else if chars_eq(n, "space") { Some(Key::Space) }
    else if chars_eq(n, "delete") || chars_eq(n, "backspace") { Some(Key::Backspace) }
    else if chars_eq(n, "forward_delete") || chars_eq(n, "forwarddelete") { Some(Key::Delete) }
    else if chars_eq(n, "up") { Some(Key::ArrowUp) }
    else if chars_eq(n, "down") { Some(Key::ArrowDown) }
    else if chars_eq(n, "left") { Some(Key::ArrowLeft) }
    else if chars_eq(n, "right") { Some(Key::ArrowRight) }
    else if chars_eq(n, "home") { Some(Key::Home) }
    else if chars_eq(n, "end") { Some(Key::End) }
    else if chars_eq(n, "page_up") || chars_eq(n, "pageup") { Some(Key::PageUp) }
    else if chars_eq(n, "page_down") || chars_eq(n, "pagedown") { Some(Key::PageDown) }
    else if chars_eq(n, "f1") { Some(Key::F(1)) }
    else if chars_eq(n, "f2") { Some(Key::F(2)) }
    else if chars_eq(n, "f3") { Some(Key::F(3)) }
    else if chars_eq(n, "f4") { Some(Key::F(4)) }
    else if chars_eq(n, "f5") { Some(Key::F(5)) }
    else if chars_eq(n, "f6") { Some(Key::F(6)) }
    else if chars_eq(n, "f7") { Some(Key::F(7)) }
    else if chars_eq(n, "f8") { Some(Key::F(8)) }
    else if chars_eq(n, "f9") { Some(Key::F(9)) }
    else if chars_eq(n, "f10") { Some(Key::F(10)) }
    else if chars_eq(n, "f11") { Some(Key::F(11)) }
    else if chars_eq(n, "f12") { Some(Key::F(12)) }
    else if n.len() == 1 && (n[0] as u32) < 128 { Some(Key::Char(n[0])) }
    else { None }
}

/// The key a key name (any case) stands for: `return`/`enter`, `tab`,
/// `escape`/`esc`, `space`, `delete`/`backspace`, `forward_delete`, arrows,
/// `home`, `end`, `page_up`, `page_down`, `f1`-`f12`, or a single ASCII
/// character; otherwise an error naming the key.
pub fn parse_key_name(name: &str) -> (r: Result<Key, String>)
    ensures
        match key_for(lowercase(name@)) {
            Some(k) => r == Ok::<Key, String>(k),
            None => r matches Err(m) && m@ == unknown_key_message(name@),
        },
{
    let lower = to_lowercase(name);
    let n = chars_of(lower.as_str());
    match named_key(&n) {
        Some(k) => Ok(k),
        None => {
            let mut m: Vec<char> = Vec::new();
            push_str(&mut m, "Unknown key '");
            push_str(&mut m, name);
            push_str(&mut m, "'. Use a single character or one of: return, tab, escape, space, delete, forward_delete, up, down, left, right, home, end, page_up, page_down, f1-f12");
            Err(string_of(&m))
        }
    }
}

/// A valid modifier name.
pub open spec fn is_modifier_name(m: Seq<char>) -> bool {
    m == "cmd"@ || m == "command"@ || m == "shift"@ || m == "alt"@ || m == "option"@ || m == "ctrl"@ || m == "control"@
}

/// The key a modifier name holds down (an unknown name holds Meta).
pub open spec fn modifier_key(m: Seq<char>) -> Key {
    if m == "cmd"@ || m == "command"@ { Key::Meta }
    else if m == "shift"@ { Key::Shift }
    else if m == "alt"@ || m == "option"@ { Key::Alt }
    else if m == "ctrl"@ || m == "control"@ { Key::Ctrl }
    else { Key::Meta }
}

/// Each modifier name holds down its own modifier: exactly `shift` holds
/// Shift, exactly `alt` and `option` hold Alt, exactly `ctrl` and `control`
/// hold Ctrl, and every other name (`cmd`, `command`, or one not known)
/// holds Meta.
pub proof fn law_modifier_names(m: Seq<char>)
    ensures
        modifier_key(m) == Key::Shift <==> m == "shift"@,
        modifier_key(m) == Key::Alt <==> (m == "alt"@ || m == "option"@),
        modifier_key(m) == Key::Ctrl <==> (m == "ctrl"@ || m == "control"@),
        modifier_key(m) == Key::Meta <==> !(m == "shift"@ || m == "alt"@ || m == "option"@ || m == "ctrl"@ || m == "control"@),
{
    reveal_strlit("cmd");
    reveal_strlit("command");
    reveal_strlit("shift");
    reveal_strlit("alt");
    reveal_strlit("option");
    reveal_strlit("ctrl");
    reveal_strlit("control");
    assert("shift"@ != "cmd"@ && "shift"@ != "command"@) by { assert("shift"@[0] != "cmd"@[0]); assert("shift"@[0] != "command"@[0]); }
    assert("alt"@ != "cmd"@ && "alt"@ != "command"@) by { assert("alt"@[0] != "cmd"@[0]); }
    assert("option"@ != "cmd"@ && "option"@ != "command"@) by { assert("option"@[0] != "cmd"@[0]); assert("option"@[0] != "command"@[0]); }
    assert("ctrl"@ != "cmd"@ && "ctrl"@ != "command"@) by { assert("ctrl"@[1] != "cmd"@[1]); assert("ctrl"@.len() != "command"@.len()); }
    assert("control"@ != "cmd"@ && "control"@ != "command"@) by { assert("control"@.len() != "cmd"@.len()); assert("control"@[2] != "command"@[2]); }
    assert("alt"@ != "shift"@ && "option"@ != "shift"@ && "ctrl"@ != "shift"@ && "control"@ != "shift"@) by {
        assert("alt"@[0] != "shift"@[0]); assert("option"@[0] != "shift"@[0]); assert("ctrl"@[0] != "shift"@[0]); assert("control"@[0] != "shift"@[0]);
    }
    assert("ctrl"@ != "alt"@ && "ctrl"@ != "option"@ && "control"@ != "alt"@ && "control"@ != "option"@) by {
        assert("ctrl"@[0] != "alt"@[0]); assert("ctrl"@[0] != "option"@[0]); assert("control"@[0] != "alt"@[0]); assert("control"@[0] != "option"@[0]);
    }
}

/// The key a modifier name holds down: `cmd`/`command` Meta, `shift`,
/// `alt`/`option`, `ctrl`/`control`; anything else Meta.
pub fn parse_modifier(m: &Vec<char>) -> (k: Key)
    ensures
        k == modifier_key(m@),
{
    if chars_eq(m, "cmd") || chars_eq(m, "command") { Key::Meta }
    else if chars_eq(m, "shift") { Key::Shift }
    else if chars_eq(m, "alt") || chars_eq(m, "option") { Key::Alt }
    else if chars_eq(m, "ctrl") || chars_eq(m, "control") { Key::Ctrl }
    else { Key::Meta }
}

fn is_modifier(m: &Vec<char>) -> (b: bool)
    ensures
        b == is_modifier_name(m@),
{
    chars_eq(m, "cmd") || chars_eq(m, "command") || chars_eq(m, "shift") || chars_eq(m, "alt")
        || chars_eq(m, "option") || chars_eq(m, "ctrl") || chars_eq(m, "control")
}

/// The modifier names given as a comma-separated list, each trimmed.
pub open spec fn modifier_names(modifiers: Option<Seq<char>>) -> Seq<Seq<char>> {
    match modifiers {
        Some(s) => split_on(s, ","@).map_values(|m: Seq<char>| trim(m)),
        None => Seq::empty(),
    }
}

/// A key press to perform: `key`, with `held` held down, and what to report
/// once it is done.
#[derive(Debug)]
pub struct KeyPress {
    pub key: Key,
    pub held: Vec<Key>,
    pub message: String,
}

/// Position of the first name in `ms` that is no modifier (`ms.len()` if none).
pub open spec fn first_unknown_modifier(ms: Seq<Seq<char>>) -> int
    decreases ms.len(),
{
    if ms.len() == 0 {
        0
    } else if !is_modifier_name(ms[0]) {
        0
    } else {
        1 + first_unknown_modifier(ms.drop_first())
    }
}

proof fn lemma_first_unknown_modifier(ms: Seq<Seq<char>>)
    ensures
        0 <= first_unknown_modifier(ms) <= ms.len(),
        first_unknown_modifier(ms) < ms.len() ==> !is_modifier_name(ms[first_unknown_modifier(ms)]),
        forall|j: int| 0 <= j < first_unknown_modifier(ms) ==> is_modifier_name(#[trigger] ms[j]),
    decreases ms.len(),
{
    if ms.len() > 0 && is_modifier_name(ms[0]) {
        lemma_first_unknown_modifier(ms.drop_first());
        assert forall|j: int| 0 <= j < first_unknown_modifier(ms) implies is_modifier_name(#[trigger] ms[j]) by {
            if j > 0 {
                assert(ms[j] == ms.drop_first()[j - 1]);
            }
        }
    }
}

/// The report after pressing `name` with the modifiers `ms`.
pub open spec fn key_message(name: Seq<char>, ms: Seq<Seq<char>>) -> Seq<char> {
    if ms.len() == 0 {
        "Pressed key '"@ + name + "'"@
    } else {
        "Pressed "@ + joined(ms, "+"@) + "+"@ + name
    }
}

/// What `run_key` does with a key name and optional modifiers: the first
/// unknown modifier is an error; then an unknown key is an error; otherwise
/// the key, the modifiers' keys in order, and the report.
pub open spec fn key_outcome(name: Seq<char>, modifiers: Option<Seq<char>>, r: Result<KeyPress, String>) -> bool {
    let ms = modifier_names(modifiers);
    let i = first_unknown_modifier(ms);
    if i < ms.len() {
        r matches Err(m) && m@ == "Unknown modifier '"@ + ms[i] + "'. Valid modifiers: cmd, shift, alt, ctrl"@
    } else {
        match key_for(lowercase(name)) {
            None => r matches Err(m) && m@ == unknown_key_message(name),
            Some(k) => r matches Ok(p) && p.key == k
                && p.held@ == ms.map_values(|m: Seq<char>| modifier_key(m))
                && p.message@ == key_message(name, ms),
        }
    }
}

fn collect_modifiers(modifiers: Option<&str>) -> (mods: Vec<Vec<char>>)
    ensures
        mods@.len() == modifier_names(match modifiers { Some(m) => Some(m@), None => None }).len(),
        forall|k: int| 0 <= k < mods@.len() ==>
            (#[trigger] mods@[k])@ == modifier_names(match modifiers { Some(m) => Some(m@), None => None })[k],
{
    let mut mods: Vec<Vec<char>> = Vec::new();
    match modifiers {
        Some(s) => {
            let sv = chars_of(s);
            let comma = chars_of(",");
            proof { reveal_strlit(","); }
            let parts = split_chars(&sv, &comma);
            let mut i: usize = 0;
            while i < parts.len()
                invariant
                    i <= parts.len(),
                    parts@.len() == split_on(s@, ","@).len(),
                    forall|k: int| 0 <= k < parts@.len() ==> (#[trigger] parts@[k])@ == split_on(s@, ","@)[k],
                    mods@.len() == i,
                    forall|k: int| 0 <= k < i ==> (#[trigger] mods@[k])@ == trim(split_on(s@, ","@)[k]),
                decreases parts.len() - i,
            {
                mods.push(trim_chars(&parts[i]));
                i = i + 1;
            }
        }
        None => {}
    }
    mods
}

fn key_message_exec(name: &str, mods: &Vec<Vec<char>>, Ghost(ms): Ghost<Seq<Seq<char>>>) -> (r: String)
    requires
        mods@.len() == ms.len(),
        forall|k: int| 0 <= k < ms.len() ==> (#[trigger] mods@[k])@ == ms[k],
    ensures
        r@ == key_message(name@, ms),
{
    let mut msg: Vec<char> = Vec::new();
    if mods.len() == 0 {
        push_str(&mut msg, "Pressed key '");
        push_str(&mut msg, name);
        push_str(&mut msg, "'");
        assert(msg@ =~= "Pressed key '"@ + name@ + "'"@);
    } else {
        push_str(&mut msg, "Pressed ");
        let mut k: usize = 0;
        while k < mods.len()
            invariant
                mods@.len() == ms.len(),
                forall|q: int| 0 <= q < ms.len() ==> (#[trigger] mods@[q])@ == ms[q],
                k <= mods.len(),
                msg@ == "Pressed "@ + joined(ms.take(k as int), "+"@),
            decreases mods.len() - k,
        {
            if k > 0 {
                push_str(&mut msg, "+");
            }
            extend(&mut msg, &mods[k]);
            proof {
                let t = ms.take(k + 1);
                assert(t.drop_last() =~= ms.take(k as int));
                if k == 0 {
                    assert(ms.take(0) =~= Seq::<Seq<char>>::empty());
                }
                assert(msg@ =~= "Pressed "@ + joined(t, "+"@));
            }
            k = k + 1;
        }
        assert(ms.take(ms.len() as int) =~= ms);
        push_str(&mut msg, "+");
        push_str(&mut msg, name);
        assert(msg@ =~= "Pressed "@ + joined(ms, "+"@) + "+"@ + name@);
    }
    string_of(&msg)
}

/// Check a key command: the modifiers (comma-separated, trimmed) must each
/// be `cmd`, `command`, `shift`, `alt`, `option`, `ctrl` or `control`, and
/// the key name must name a key. Gives the key press to perform and its report.
pub fn run_key(name: &str, modifiers: Option<&str>) -> (r: Result<KeyPress, String>)
    ensures
        key_outcome(name@, match modifiers { Some(m) => Some(m@), None => None }, r),
{
    let ghost ms = modifier_names(match modifiers { Some(m) => Some(m@), None => None });
    let mods = collect_modifiers(modifiers);
    proof {
        lemma_first_unknown_modifier(ms);
    }
    let mut i: usize = 0;
    while i < mods.len()
        invariant
            ms == modifier_names(match modifiers { Some(m) => Some(m@), None => None }),
            mods@.len() == ms.len(),
            forall|k: int| 0 <= k < ms.len() ==> (#[trigger] mods@[k])@ == ms[k],
            i <= mods.len(),
            i <= first_unknown_modifier(ms),
            0 <= first_unknown_modifier(ms) <= ms.len(),
            first_unknown_modifier(ms) < ms.len() ==> !is_modifier_name(ms[first_unknown_modifier(ms)]),
            forall|j: int| 0 <= j < first_unknown_modifier(ms) ==> is_modifier_name(#[trigger] ms[j]),
        decreases mods.len() - i,
    {
        if !is_modifier(&mods[i]) {
            let mut m: Vec<char> = Vec::new();
            push_str(&mut m, "Unknown modifier '");
            extend(&mut m, &mods[i]);
            push_str(&mut m, "'. Valid modifiers: cmd, shift, alt, ctrl");
            assert(first_unknown_modifier(ms) == i);
            assert(m@ =~= "Unknown modifier '"@ + ms[i as int] + "'. Valid modifiers: cmd, shift, alt, ctrl"@);
            return Err(string_of(&m));
        }
        assert(first_unknown_modifier(ms) != i);
        i = i + 1;
    }
    let key = match parse_key_name(name) {
        Ok(k) => k,
        Err(e) => return Err(e),
    };
    let mut held: Vec<Key> = Vec::new();
    let mut j: usize = 0;
    while j < mods.len()
        invariant
            ms == modifier_names(match modifiers { Some(m) => Some(m@), None => None }),
            mods@.len() == ms.len(),
            forall|k: int| 0 <= k < ms.len() ==> (#[trigger] mods@[k])@ == ms[k],
            j <= mods.len(),
            held@ == ms.take(j as int).map_values(|m: Seq<char>| modifier_key(m)),
        decreases mods.len() - j,
    {
        held.push(parse_modifier(&mods[j]));
        assert(ms.take(j + 1).map_values(|m: Seq<char>| modifier_key(m))
            =~= ms.take(j as int).map_values(|m: Seq<char>| modifier_key(m)).push(modifier_key(ms[j as int])));
        j = j + 1;
    }
    assert(ms.take(ms.len() as int) =~= ms);
    let message = key_message_exec(name, &mods, Ghost(ms));
    Ok(KeyPress { key, held, message })
}

fn extend(a: &mut Vec<char>, b: &Vec<char>)
    ensures
        final(a)@ == old(a)@ + b@,
{
    crate::text::extend_chars(a, b);
}

} // verus!
