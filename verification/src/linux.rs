use vstd::prelude::*;
use crate::text::{decimal, push_decimal, push_str, string_of};
use crate::platform::{ClipboardPlan, ClipboardTool, CommandLine, FocusPlan, clipboard_view, command, command_view, plan_view, text_of, tool_view};

verus! {

broadcast use vstd::string::group_string_axioms;

/// A command line as plain text.
pub open spec fn cmd(program: Seq<char>, args: Seq<Seq<char>>) -> (Seq<char>, Seq<Seq<char>>) {
    (program, args)
}

/// The error on a Wayland session without sway.
pub open spec fn no_sway_message() -> Seq<char> {
    "Window focus on Wayland currently requires sway (swaymsg). Other compositors are not yet supported."@
}

/// How Linux brings an application to the front. On Wayland only sway is
/// supported: by name the window is looked up by `app_id`, then by `title`;
/// by process id by `pid`; with neither target there is nothing to do. On X11
/// `xdotool` activates the window found by name or by process id. A name is
/// preferred to a process id.
pub open spec fn focus_outcome(app: Option<Seq<char>>, pid: Option<u32>, wayland: bool, has_swaymsg: bool, r: Result<FocusPlan, String>) -> bool {
    if wayland && !has_swaymsg {
        r matches Err(m) && m@ == no_sway_message()
    } else {
        r matches Ok(p) && plan_view(p) == if wayland {
            match (app, pid) {
                (Some(n), _) => (seq![
                    cmd("swaymsg"@, seq!["[app_id=\""@ + n + "\"] focus"@]),
                    cmd("swaymsg"@, seq!["[title=\""@ + n + "\"] focus"@])],
                    "Failed to focus app '"@ + n + "' via swaymsg"@, false, true),
                (None, Some(q)) => (seq![cmd("swaymsg"@, seq!["[pid="@ + decimal(q as nat) + "] focus"@])],
                    "Failed to focus PID "@ + decimal(q as nat) + " via swaymsg"@, false, true),
                (None, None) => (Seq::empty(), Seq::empty(), false, false),
            }
        } else {
            match (app, pid) {
                (Some(n), _) => (seq![cmd("xdotool"@, seq!["search"@, "--name"@, n, "windowactivate"@])],
                    "Failed to focus app. Is xdotool installed?"@, false, true),
                (None, Some(q)) => (seq![cmd("xdotool"@, seq!["search"@, "--pid"@, decimal(q as nat), "windowactivate"@])],
                    "Failed to focus app. Is xdotool installed?"@, false, true),
                (None, None) => (Seq::empty(), Seq::empty(), false, true),
            }
        }
    }
}

fn one_arg(a: String) -> (v: Vec<String>)
    ensures
        v@.map_values(|s: String| s@) == seq![a@],
{
    let mut v: Vec<String> = Vec::new();
    v.push(a);
    assert(v@.map_values(|s: String| s@) =~= seq![a@]);
    v
}

fn four_args(a: String, b: String, c: String, d: String) -> (v: Vec<String>)
    ensures
        v@.map_values(|s: String| s@) == seq![a@, b@, c@, d@],
{
    let mut v: Vec<String> = Vec::new();
    v.push(a);
    v.push(b);
    v.push(c);
    v.push(d);
    assert(v@.map_values(|s: String| s@) =~= seq![a@, b@, c@, d@]);
    v
}

fn criteria(prefix: &str, name: &str) -> (s: String)
    ensures
        s@ == prefix@ + name@ + "\"] focus"@,
{
    let mut v: Vec<char> = Vec::new();
    push_str(&mut v, prefix);
    push_str(&mut v, name);
    push_str(&mut v, "\"] focus");
    string_of(&v)
}

fn decimal_text(n: u32) -> (s: String)
    ensures
        s@ == decimal(n as nat),
{
    let mut v: Vec<char> = Vec::new();
    push_decimal(&mut v, n as u64);
    assert(v@ =~= Seq::<char>::empty() + decimal(n as nat));
    string_of(&v)
}

fn plan(commands: Vec<CommandLine>, failure: String, with_stderr: bool, settle: bool) -> (p: FocusPlan)
    ensures
        plan_view(p) == (commands@.map_values(|c: CommandLine| command_view(c)), failure@, with_stderr, settle),
{
    FocusPlan { commands, failure, with_stderr, settle }
}

/// How Linux brings an application to the front (see `focus_outcome`).
pub fn focus_app(app: Option<&str>, pid: Option<u32>, wayland: bool, has_swaymsg: bool) -> (r: Result<FocusPlan, String>)
    ensures
        focus_outcome(crate::commands::opt_view(app), pid, wayland, has_swaymsg, r),
{
    let mut cmds: Vec<CommandLine> = Vec::new();
    if wayland {
        if !has_swaymsg {
            return Err(text_of("Window focus on Wayland currently requires sway (swaymsg). Other compositors are not yet supported."));
        }
        match app {
            Some(n) => {
                let c1 = command("swaymsg", one_arg(criteria("[app_id=\"", n)));
                let c2 = command("swaymsg", one_arg(criteria("[title=\"", n)));
                cmds.push(c1);
                cmds.push(c2);
                let mut f: Vec<char> = Vec::new();
                push_str(&mut f, "Failed to focus app '");
                push_str(&mut f, n);
                push_str(&mut f, "' via swaymsg");
                let p = plan(cmds, string_of(&f), false, true);
                assert(plan_view(p).0 =~= seq![
                    cmd("swaymsg"@, seq!["[app_id=\""@ + n@ + "\"] focus"@]),
                    cmd("swaymsg"@, seq!["[title=\""@ + n@ + "\"] focus"@])]);
                return Ok(p);
            }
            None => {}
        }
        match pid {
            Some(q) => {
                let mut a: Vec<char> = Vec::new();
                push_str(&mut a, "[pid=");
                push_decimal(&mut a, q as u64);
                push_str(&mut a, "] focus");
                cmds.push(command("swaymsg", one_arg(string_of(&a))));
                let mut f: Vec<char> = Vec::new();
                push_str(&mut f, "Failed to focus PID ");
                push_decimal(&mut f, q as u64);
                push_str(&mut f, " via swaymsg");
                let p = plan(cmds, string_of(&f), false, true);
                assert(plan_view(p).0 =~= seq![cmd("swaymsg"@, seq!["[pid="@ + decimal(q as nat) + "] focus"@])]);
                return Ok(p);
            }
            None => {}
        }
        let p = plan(cmds, String::new(), false, false);
        assert(plan_view(p).0 =~= Seq::<(Seq<char>, Seq<Seq<char>>)>::empty());
        return Ok(p);
    }
    match app {
        Some(n) => {
            cmds.push(command("xdotool", four_args(text_of("search"), text_of("--name"), text_of(n), text_of("windowactivate"))));
            let p = plan(cmds, text_of("Failed to focus app. Is xdotool installed?"), false, true);
            assert(plan_view(p).0 =~= seq![cmd("xdotool"@, seq!["search"@, "--name"@, n@, "windowactivate"@])]);
            Ok(p)
        }
        None => match pid {
            Some(q) => {
                cmds.push(command("xdotool", four_args(text_of("search"), text_of("--pid"), decimal_text(q), text_of("windowactivate"))));
                let p = plan(cmds, text_of("Failed to focus app. Is xdotool installed?"), false, true);
                assert(plan_view(p).0 =~= seq![cmd("xdotool"@, seq!["search"@, "--pid"@, decimal(q as nat), "windowactivate"@])]);
                Ok(p)
            }
            None => {
                let p = plan(cmds, String::new(), false, true);
                assert(plan_view(p).0 =~= Seq::<(Seq<char>, Seq<Seq<char>>)>::empty());
                Ok(p)
            }
        },
    }
}

/// The clipboard tool `program args...`, checked for with `which` first; both
/// failures report `context`.
pub open spec fn checked_tool(program: Seq<char>, args: Seq<Seq<char>>, context: Seq<char>) -> ((Seq<char>, Seq<Seq<char>>), bool, Seq<char>, Seq<char>) {
    (cmd(program, args), true, context, context)
}

/// How Linux reads the clipboard: `wl-paste` on Wayland; on X11 `xclip`, else `xsel`.
pub open spec fn clipboard_plan(wayland: bool) -> (Seq<((Seq<char>, Seq<Seq<char>>), bool, Seq<char>, Seq<char>)>, Seq<char>) {
    if wayland {
        (seq![checked_tool("wl-paste"@, seq!["--no-newline"@], "Failed to read clipboard with wl-paste"@)],
         "No Wayland clipboard tool found. Install `wl-clipboard`:\n  sudo apt install wl-clipboard    # Debian/Ubuntu\n  sudo dnf install wl-clipboard    # Fedora"@)
    } else {
        (seq![checked_tool("xclip"@, seq!["-selection"@, "clipboard"@, "-o"@], "Failed to read clipboard with xclip"@),
              checked_tool("xsel"@, seq!["--clipboard"@, "--output"@], "Failed to read clipboard with xsel"@)],
         "No clipboard tool found. Install `xclip` or `xsel`:\n  sudo apt install xclip    # Debian/Ubuntu\n  sudo dnf install xclip    # Fedora"@)
    }
}

fn tool(c: CommandLine, context: &str) -> (t: ClipboardTool)
    ensures
        tool_view(t) == (command_view(c), true, context@, context@),
{
    ClipboardTool { command: c, needs_check: true, spawn_failure: text_of(context), status_failure: text_of(context) }
}

/// How Linux reads the clipboard (see `clipboard_plan`).
pub fn read_clipboard(wayland: bool) -> (p: ClipboardPlan)
    ensures
        clipboard_view(p) == clipboard_plan(wayland),
{
    let mut tools: Vec<ClipboardTool> = Vec::new();
    if wayland {
        tools.push(tool(command("wl-paste", one_arg(text_of("--no-newline"))), "Failed to read clipboard with wl-paste"));
        let p = ClipboardPlan {
            tools,
            missing: text_of("No Wayland clipboard tool found. Install `wl-clipboard`:\n  sudo apt install wl-clipboard    # Debian/Ubuntu\n  sudo dnf install wl-clipboard    # Fedora"),
        };
        assert(clipboard_view(p).0 =~= clipboard_plan(wayland).0);
        p
    } else {
        let mut a: Vec<String> = Vec::new();
        a.push(text_of("-selection"));
        a.push(text_of("clipboard"));
        a.push(text_of("-o"));
        assert(a@.map_values(|s: String| s@) =~= seq!["-selection"@, "clipboard"@, "-o"@]);
        tools.push(tool(command("xclip", a), "Failed to read clipboard with xclip"));
        let mut b: Vec<String> = Vec::new();
        b.push(text_of("--clipboard"));
        b.push(text_of("--output"));
        assert(b@.map_values(|s: String| s@) =~= seq!["--clipboard"@, "--output"@]);
        tools.push(tool(command("xsel", b), "Failed to read clipboard with xsel"));
        let p = ClipboardPlan {
            tools,
            missing: text_of("No clipboard tool found. Install `xclip` or `xsel`:\n  sudo apt install xclip    # Debian/Ubuntu\n  sudo dnf install xclip    # Fedora"),
        };
        assert(clipboard_view(p).0 =~= clipboard_plan(wayland).0);
        p
    }
}

} // verus!
