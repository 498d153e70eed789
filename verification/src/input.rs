use vstd::prelude::*;
use crate::text::{chars_of, chars_eq, decimal, parse_i32, parse_i32_spec, push_decimal, push_signed, push_str, signed_decimal, split_once, split_once_char, string_of, trim, trim_chars};

verus! {

broadcast use vstd::string::group_string_axioms;

/// One step of simulated input for the platform's input simulator to perform.
#[derive(Debug, PartialEq, Eq)]
pub enum InputAction {
    /// A left click at a screen point.
    Click { x: i32, y: i32 },
    /// Type the text at the keyboard focus.
    TypeText(String),
    /// Scroll by `(dx, dy)` clicks with the pointer at `(x, y)`.
    Scroll { x: i32, y: i32, dx: i32, dy: i32 },
}

/// A click at `(x, y)`.
pub fn click_at(x: i32, y: i32) -> (a: InputAction)
    ensures
        a == (InputAction::Click { x, y }),
{
    InputAction::Click { x, y }
}

/// Typing `text`.
pub fn type_text(text: &str) -> (a: InputAction)
    ensures
        a matches InputAction::TypeText(t) && t@ == text@,
{
    let t = chars_of(text);
    InputAction::TypeText(string_of(&t))
}

/// The scroll direction names.
pub open spec fn is_direction(d: Seq<char>) -> bool {
    d == "up"@ || d == "down"@ || d == "left"@ || d == "right"@
}

/// The scroll amount as the signed number the simulator takes (`amount as i32`).
pub open spec fn signed_amount(amount: u32) -> i32 {
    amount as i32
}

/// The scroll delta `(dx, dy)` for a direction: up and left are negative.
pub open spec fn scroll_delta(direction: Seq<char>, amount: u32) -> Option<(int, int)> {
    let a = signed_amount(amount) as int;
    if direction == "up"@ { Some((0, -a)) }
    else if direction == "down"@ { Some((0, a)) }
    else if direction == "left"@ { Some((-a, 0)) }
    else if direction == "right"@ { Some((a, 0)) }
    else { None }
}

/// The middle of a screen of `w` by `h` pixels.
pub open spec fn center_of(w: u32, h: u32) -> (int, int) {
    ((w / 2) as int, (h / 2) as int)
}

/// The point the pointer is at while scrolling: the given one, else the
/// middle of the screen.
pub fn scroll_point(at: Option<(i32, i32)>, screen_w: u32, screen_h: u32) -> (p: (i32, i32))
    ensures
        match at {
            Some(q) => p == q,
            None => (p.0 as int, p.1 as int) == center_of(screen_w, screen_h),
        },
{
    match at {
        Some(q) => q,
        None => ((screen_w / 2) as i32, (screen_h / 2) as i32),
    }
}

/// Scrolling `amount` clicks in `direction` with the pointer at `point`.
/// Up and left scroll by the negated amount; an amount of 2^31 in those two
/// directions has no negation and is left out.
pub fn scroll(direction: &str, amount: u32, point: (i32, i32)) -> (r: Result<InputAction, String>)
    requires
        !((direction@ == "up"@ || direction@ == "left"@) && amount == 0x8000_0000u32),
    ensures
        match scroll_delta(direction@, amount) {
            None => r matches Err(m) && m@ == "Invalid scroll direction: "@ + direction@,
            Some(d) => r matches Ok(InputAction::Scroll { x, y, dx, dy })
                && x == point.0 && y == point.1 && dx as int == d.0 && dy as int == d.1,
        },
{
    let dv = chars_of(direction);
    let a: i32 = amount as i32;
    assert(a == signed_amount(amount));
    if chars_eq(&dv, "up") {
        assert(amount == 0x8000_0000u32 <==> a == i32::MIN) by (bit_vector)
            requires a == amount as i32;
        Ok(InputAction::Scroll { x: point.0, y: point.1, dx: 0, dy: -a })
    } else if chars_eq(&dv, "down") {
        Ok(InputAction::Scroll { x: point.0, y: point.1, dx: 0, dy: a })
    } else if chars_eq(&dv, "left") {
        assert(amount == 0x8000_0000u32 <==> a == i32::MIN) by (bit_vector)
            requires a == amount as i32;
        Ok(InputAction::Scroll { x: point.0, y: point.1, dx: -a, dy: 0 })
    } else if chars_eq(&dv, "right") {
        Ok(InputAction::Scroll { x: point.0, y: point.1, dx: a, dy: 0 })
    } else {
        let mut m: Vec<char> = Vec::new();
        push_str(&mut m, "Invalid scroll direction: ");
        push_str(&mut m, direction);
        Err(string_of(&m))
    }
}

/// What the `scroll` command does: the amount to scroll and its report.
#[derive(Debug, PartialEq, Eq)]
pub struct ScrollCommand {
    pub amount: u32,
    pub message: String,
}

/// The report after scrolling.
pub open spec fn scroll_message(direction: Seq<char>, amount: u32, element_id: Option<u32>) -> Seq<char> {
    match element_id {
        Some(e) => "Scrolled "@ + direction + " "@ + decimal(amount as nat) + " clicks in element "@ + decimal(e as nat),
        None => "Scrolled "@ + direction + " "@ + decimal(amount as nat) + " clicks"@,
    }
}

/// Check a scroll command: the direction must be `up`, `down`, `left` or
/// `right`; the amount defaults to 3 clicks.
pub fn run_scroll(element_id: Option<u32>, direction: &str, amount: Option<u32>) -> (r: Result<ScrollCommand, String>)
    ensures
        !is_direction(direction@) ==> (r matches Err(m)
            && m@ == "Invalid direction '"@ + direction@ + "'. Must be one of: up, down, left, right"@),
        is_direction(direction@) ==> (r matches Ok(c)
            && c.amount == (match amount { Some(a) => a, None => 3u32 })
            && c.message@ == scroll_message(direction@, c.amount, element_id)),
{
    let dv = chars_of(direction);
    if !(chars_eq(&dv, "up") || chars_eq(&dv, "down") || chars_eq(&dv, "left") || chars_eq(&dv, "right")) {
        let mut m: Vec<char> = Vec::new();
        push_str(&mut m, "Invalid direction '");
        push_str(&mut m, direction);
        push_str(&mut m, "'. Must be one of: up, down, left, right");
        assert(m@ =~= "Invalid direction '"@ + direction@ + "'. Must be one of: up, down, left, right"@);
        return Err(string_of(&m));
    }
    let n: u32 = match amount {
        Some(a) => a,
        None => 3,
    };
    let mut m: Vec<char> = Vec::new();
    push_str(&mut m, "Scrolled ");
    push_str(&mut m, direction);
    push_str(&mut m, " ");
    push_decimal(&mut m, n as u64);
    match element_id {
        Some(e) => {
            push_str(&mut m, " clicks in element ");
            push_decimal(&mut m, e as u64);
        }
        None => {
            push_str(&mut m, " clicks");
        }
    }
    assert(m@ =~= scroll_message(direction@, n, element_id));
    Ok(ScrollCommand { amount: n, message: string_of(&m) })
}

/// The report after typing `text`, into block `block_id` where one was given.
pub fn type_message(block_id: Option<u32>, text: &str) -> (m: String)
    ensures
        m@ == match block_id {
            Some(id) => "Typed '"@ + text@ + "' in block "@ + decimal(id as nat),
            None => "Typed '"@ + text@ + "'"@,
        },
{
    let mut v: Vec<char> = Vec::new();
    push_str(&mut v, "Typed '");
    push_str(&mut v, text);
    match block_id {
        Some(id) => {
            push_str(&mut v, "' in block ");
            push_decimal(&mut v, id as u64);
        }
        None => {
            push_str(&mut v, "'");
        }
    }
    string_of(&v)
}

/// The error when the click into a block before typing failed.
pub fn click_failure_message(block_id: u32, x: i32, y: i32) -> (m: String)
    ensures
        m@ == "Failed to click block "@ + decimal(block_id as nat) + " at ("@
            + signed_decimal(x as int) + ", "@ + signed_decimal(y as int) + ")"@,
{
    let mut v: Vec<char> = Vec::new();
    push_str(&mut v, "Failed to click block ");
    push_decimal(&mut v, block_id as u64);
    push_str(&mut v, " at (");
    push_signed(&mut v, x as i64);
    push_str(&mut v, ", ");
    push_signed(&mut v, y as i64);
    push_str(&mut v, ")");
    string_of(&v)
}

/// The position of the first block numbered `id` among the blocks' numbers.
pub fn get_block(block_ids: &Vec<u32>, id: u32) -> (r: Result<usize, String>)
    ensures
        match r {
            Ok(i) => i < block_ids.len() && block_ids@[i as int] == id
                && forall|j: int| 0 <= j < i ==> block_ids@[j] != id,
            Err(m) => (forall|j: int| 0 <= j < block_ids.len() ==> block_ids@[j] != id)
                && m@ == "Block "@ + decimal(id as nat) + " not found. Available blocks: 1-"@
                    + decimal(block_ids.len() as nat),
        },
{
    let mut i: usize = 0;
    while i < block_ids.len()
        invariant
            i <= block_ids.len(),
            forall|j: int| 0 <= j < i ==> block_ids@[j] != id,
        decreases block_ids.len() - i,
    {
        if block_ids[i] == id {
            return Ok(i);
        }
        i = i + 1;
    }
    let mut v: Vec<char> = Vec::new();
    push_str(&mut v, "Block ");
    push_decimal(&mut v, id as u64);
    push_str(&mut v, " not found. Available blocks: 1-");
    push_decimal(&mut v, block_ids.len() as u64);
    Err(string_of(&v))
}

/// The offset a `x,y` text gives, each number with surrounding spaces allowed.
pub open spec fn offset_of(s: Seq<char>) -> Option<(i32, i32)> {
    match split_once(s, ',') {
        Some((a, b)) => match (parse_i32_spec(trim(a)), parse_i32_spec(trim(b))) {
            (Some(x), Some(y)) => Some((x, y)),
            _ => None,
        },
        None => None,
    }
}

/// Read a click offset written `x,y`.
pub fn parse_offset(s: &str) -> (r: Result<(i32, i32), String>)
    ensures
        match offset_of(s@) {
            Some(o) => r == Ok::<(i32, i32), String>(o),
            None => r matches Err(m) && m@ == "Offset must be in format x,y"@,
        },
{
    let v = chars_of(s);
    match split_once_char(&v, ',') {
        Some((a, b)) => {
            let ta = trim_chars(&a);
            let tb = trim_chars(&b);
            match (parse_i32(&ta), parse_i32(&tb)) {
                (Some(x), Some(y)) => return Ok((x, y)),
                _ => {}
            }
        }
        None => {}
    }
    let mut m: Vec<char> = Vec::new();
    push_str(&mut m, "Offset must be in format x,y");
    Err(string_of(&m))
}

/// The middle of an element's bounds.
pub open spec fn center(b: crate::tree::Bounds) -> (int, int) {
    (b.x + b.width / 2, b.y + b.height / 2)
}

/// The point to click on an element: the middle of its bounds, moved by the offset.
pub fn click_point(b: crate::tree::Bounds, offset: Option<(i32, i32)>) -> (p: (i32, i32))
    requires
        b.width >= 0,
        b.height >= 0,
        i32::MIN <= center(b).0 + (match offset { Some(o) => o.0 as int, None => 0 }) <= i32::MAX,
        i32::MIN <= center(b).1 + (match offset { Some(o) => o.1 as int, None => 0 }) <= i32::MAX,
    ensures
        p.0 == center(b).0 + (match offset { Some(o) => o.0 as int, None => 0 }),
        p.1 == center(b).1 + (match offset { Some(o) => o.1 as int, None => 0 }),
{
    let (dx, dy): (i64, i64) = match offset {
        Some(o) => (o.0 as i64, o.1 as i64),
        None => (0, 0),
    };
    let x: i64 = b.x as i64 + (b.width / 2) as i64 + dx;
    let y: i64 = b.y as i64 + (b.height / 2) as i64 + dy;
    (x as i32, y as i32)
}

/// Whether the point to click on an element can be computed: its bounds
/// are not negative in size, and the moved middle lies within `i32`.
pub open spec fn click_point_fits(b: crate::tree::Bounds, offset: Option<(i32, i32)>) -> bool {
    &&& b.width >= 0
    &&& b.height >= 0
    &&& i32::MIN <= center(b).0 + (match offset { Some(o) => o.0 as int, None => 0 }) <= i32::MAX
    &&& i32::MIN <= center(b).1 + (match offset { Some(o) => o.1 as int, None => 0 }) <= i32::MAX
}

/// The point to click on an element (see `click_point`), or `None` where it
/// cannot be computed.
pub fn checked_click_point(b: crate::tree::Bounds, offset: Option<(i32, i32)>) -> (r: Option<(i32, i32)>)
    ensures
        click_point_fits(b, offset) ==> (r matches Some(p)
            && p.0 == center(b).0 + (match offset { Some(o) => o.0 as int, None => 0 })
            && p.1 == center(b).1 + (match offset { Some(o) => o.1 as int, None => 0 })),
        !click_point_fits(b, offset) ==> r is None,
{
    if b.width < 0 || b.height < 0 {
        return None;
    }
    let (dx, dy): (i64, i64) = match offset {
        Some(o) => (o.0 as i64, o.1 as i64),
        None => (0, 0),
    };
    let x: i64 = b.x as i64 + (b.width / 2) as i64 + dx;
    let y: i64 = b.y as i64 + (b.height / 2) as i64 + dy;
    if x < -0x8000_0000i64 || x > 0x7fff_ffffi64 || y < -0x8000_0000i64 || y > 0x7fff_ffffi64 {
        return None;
    }
    Some(click_point(b, offset))
}

/// The reply after a click at a screen point.
pub fn click_reply(x: i32, y: i32) -> (m: String)
    ensures
        m@ == "Clicked at ("@ + signed_decimal(x as int) + ", "@ + signed_decimal(y as int) + ")"@,
{
    let mut v: Vec<char> = Vec::new();
    push_str(&mut v, "Clicked at (");
    push_signed(&mut v, x as i64);
    push_str(&mut v, ", ");
    push_signed(&mut v, y as i64);
    push_str(&mut v, ")");
    string_of(&v)
}

/// The reply after clicking element `element_id` at a screen point.
pub fn clicked_element_reply(element_id: u32, x: i32, y: i32) -> (m: String)
    ensures
        m@ == "Clicked element "@ + decimal(element_id as nat) + " at ("@ + signed_decimal(x as int) + ", "@
            + signed_decimal(y as int) + ")"@,
{
    let mut v: Vec<char> = Vec::new();
    push_str(&mut v, "Clicked element ");
    push_decimal(&mut v, element_id as u64);
    push_str(&mut v, " at (");
    push_signed(&mut v, x as i64);
    push_str(&mut v, ", ");
    push_signed(&mut v, y as i64);
    push_str(&mut v, ")");
    string_of(&v)
}

/// Each direction scrolls along its own axis and way: up and down move only
/// vertically, up by the negated amount and down by the amount; left and
/// right move only horizontally, left by the negated amount and right by the
/// amount; any other direction is no scroll.
pub proof fn law_scroll_directions(direction: Seq<char>, amount: u32)
    ensures
        direction == "up"@ ==> scroll_delta(direction, amount) == Some((0int, -(signed_amount(amount) as int))),
        direction == "down"@ ==> scroll_delta(direction, amount) == Some((0int, signed_amount(amount) as int)),
        direction == "left"@ ==> scroll_delta(direction, amount) == Some((-(signed_amount(amount) as int), 0int)),
        direction == "right"@ ==> scroll_delta(direction, amount) == Some((signed_amount(amount) as int, 0int)),
        !is_direction(direction) ==> scroll_delta(direction, amount) is None,
{
    reveal_strlit("up");
    reveal_strlit("down");
    reveal_strlit("left");
    reveal_strlit("right");
    assert("down"@ != "up"@) by { assert("down"@.len() != "up"@.len()); }
    assert("left"@ != "up"@) by { assert("left"@.len() != "up"@.len()); }
    assert("left"@ != "down"@) by { assert("left"@[0] != "down"@[0]); }
    assert("right"@ != "up"@) by { assert("right"@.len() != "up"@.len()); }
    assert("right"@ != "down"@) by { assert("right"@.len() != "down"@.len()); }
    assert("right"@ != "left"@) by { assert("right"@.len() != "left"@.len()); }
}

/// Scrolling in opposite directions by the same amount moves by opposite
/// deltas: up undoes down, and left undoes right.
pub proof fn law_scroll_opposites(amount: u32)
    requires
        amount != 0x8000_0000u32,
    ensures
        scroll_delta("up"@, amount) matches Some(u) && scroll_delta("down"@, amount) matches Some(d)
            && u.0 == -d.0 && u.1 == -d.1,
        scroll_delta("left"@, amount) matches Some(l) && scroll_delta("right"@, amount) matches Some(r)
            && l.0 == -r.0 && l.1 == -r.1,
{
    reveal_strlit("up");
    reveal_strlit("down");
    reveal_strlit("left");
    reveal_strlit("right");
    assert("down"@ != "up"@) by { assert("down"@.len() != "up"@.len()); }
    assert("left"@ != "up"@) by { assert("left"@.len() != "up"@.len()); }
    assert("left"@ != "down"@) by { assert("left"@[0] != "down"@[0]); }
    assert("right"@ != "up"@) by { assert("right"@.len() != "up"@.len()); }
    assert("right"@ != "down"@) by { assert("right"@.len() != "down"@.len()); }
    assert("right"@ != "left"@) by { assert("right"@.len() != "left"@.len()); }
}

} // verus!
