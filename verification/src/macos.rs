use vstd::prelude::*;
use crate::text::{decimal, push_decimal, push_str, string_of};
use crate::platform::{ClipboardPlan, ClipboardTool, CommandLine, FocusPlan, clipboard_view, command, plan_view, text_of};
use crate::linux::cmd;

verus! {

broadcast use vstd::string::group_string_axioms;

/// The AppleScript that brings an application to the front: by name it is
/// activated; by process id System Events makes its process frontmost.
pub open spec fn focus_script(app: Option<Seq<char>>, pid: Option<u32>) -> Seq<char> {
    match app {
        Some(n) => "tell application \""@ + n + "\" to activate"@,
        None => "tell application \"System Events\"\n    set frontmost of (first process whose unix id is "@
            + decimal(pid.unwrap() as nat) + ") to true\nend tell"@,
    }
}

/// How macOS brings an application to the front: `osascript -e` with the script.
pub open spec fn focus_plan(app: Option<Seq<char>>, pid: Option<u32>) -> (Seq<(Seq<char>, Seq<Seq<char>>)>, Seq<char>, bool, bool) {
    (seq![cmd("osascript"@, seq!["-e"@, focus_script(app, pid)])], "Failed to focus app"@, true, true)
}

/// How macOS brings an application, by name or else by process id, to the front.
pub fn focus_app(app: Option<&str>, pid: Option<u32>) -> (p: FocusPlan)
    requires
        app is Some || pid is Some,
    ensures
        plan_view(p) == focus_plan(crate::commands::opt_view(app), pid),
{
    let mut s: Vec<char> = Vec::new();
    match app {
        Some(n) => {
            push_str(&mut s, "tell application \"");
            push_str(&mut s, n);
            push_str(&mut s, "\" to activate");
        }
        None => {
            let q = pid.unwrap();
            push_str(&mut s, "tell application \"System Events\"\n    set frontmost of (first process whose unix id is ");
            push_decimal(&mut s, q as u64);
            push_str(&mut s, ") to true\nend tell");
        }
    }
    let mut args: Vec<String> = Vec::new();
    args.push(text_of("-e"));
    args.push(string_of(&s));
    assert(args@.map_values(|a: String| a@) =~= seq!["-e"@, focus_script(crate::commands::opt_view(app), pid)]);
    let mut cmds: Vec<CommandLine> = Vec::new();
    cmds.push(command("osascript", args));
    let p = FocusPlan { commands: cmds, failure: text_of("Failed to focus app"), with_stderr: true, settle: true };
    assert(plan_view(p).0 =~= focus_plan(crate::commands::opt_view(app), pid).0);
    p
}

/// How macOS reads the clipboard: `pbpaste`, run without a check.
pub open spec fn clipboard_plan() -> (Seq<((Seq<char>, Seq<Seq<char>>), bool, Seq<char>, Seq<char>)>, Seq<char>) {
    (seq![(cmd("pbpaste"@, Seq::empty()), false, "Failed to read clipboard via pbpaste"@, "pbpaste failed"@)], Seq::empty())
}

/// How macOS reads the clipboard (see `clipboard_plan`).
pub fn read_clipboard() -> (p: ClipboardPlan)
    ensures
        clipboard_view(p) == clipboard_plan(),
{
    let args: Vec<String> = Vec::new();
    assert(args@.map_values(|a: String| a@) =~= Seq::<Seq<char>>::empty());
    let t = ClipboardTool {
        command: command("pbpaste", args),
        needs_check: false,
        spawn_failure: text_of("Failed to read clipboard via pbpaste"),
        status_failure: text_of("pbpaste failed"),
    };
    let mut tools: Vec<ClipboardTool> = Vec::new();
    tools.push(t);
    let p = ClipboardPlan { tools, missing: String::new() };
    assert(clipboard_view(p).0 =~= clipboard_plan().0);
    p
}

} // verus!
