use vstd::prelude::*;
use crate::text::{chars_of, string_of};
use crate::commands::opt_view;

verus! {

broadcast use vstd::string::group_string_axioms;

/// The operating system the tool runs on.
#[derive(Clone, Copy, Debug, PartialEq, Eq)]
pub enum Os {
    Linux,
    MacOs,
    Windows,
    Other,
}

/// A program and its arguments.
#[derive(Debug, PartialEq, Eq)]
pub struct CommandLine {
    pub program: String,
    pub args: Vec<String>,
}

/// A command line as plain text: the program and the arguments.
pub open spec fn command_view(c: CommandLine) -> (Seq<char>, Seq<Seq<char>>) {
    (c.program@, c.args@.map_values(|a: String| a@))
}

/// How to bring an application to the front: run `commands` in order until
/// one succeeds. If none does, the error is `failure`, followed by `": "` and
/// the last command's error output where `with_stderr` holds and that command
/// ran. After a success the tool pauses briefly where `settle` holds.
#[derive(Debug, PartialEq, Eq)]
pub struct FocusPlan {
    pub commands: Vec<CommandLine>,
    pub failure: String,
    pub with_stderr: bool,
    pub settle: bool,
}

/// One way to read the clipboard: run `command` (where `needs_check`, only if
/// `which` finds `command.program`), and give its standard output. If it cannot
/// be started, the error is `spawn_failure`; if it fails, `status_failure`.
#[derive(Debug, PartialEq, Eq)]
pub struct ClipboardTool {
    pub command: CommandLine,
    pub needs_check: bool,
    pub spawn_failure: String,
    pub status_failure: String,
}

/// How to read the clipboard: the first tool of `tools` that is available is
/// used; if none is, the error is `missing`.
#[derive(Debug, PartialEq, Eq)]
pub struct ClipboardPlan {
    pub tools: Vec<ClipboardTool>,
    pub missing: String,
}

/// A focus plan as plain values: the command lines, the failure text, and the two flags.
pub open spec fn plan_view(p: FocusPlan) -> (Seq<(Seq<char>, Seq<Seq<char>>)>, Seq<char>, bool, bool) {
    (p.commands@.map_values(|c: CommandLine| command_view(c)), p.failure@, p.with_stderr, p.settle)
}

/// A clipboard tool as plain values.
pub open spec fn tool_view(t: ClipboardTool) -> ((Seq<char>, Seq<Seq<char>>), bool, Seq<char>, Seq<char>) {
    (command_view(t.command), t.needs_check, t.spawn_failure@, t.status_failure@)
}

/// A clipboard plan as plain values.
pub open spec fn clipboard_view(p: ClipboardPlan) -> (Seq<((Seq<char>, Seq<Seq<char>>), bool, Seq<char>, Seq<char>)>, Seq<char>) {
    (p.tools@.map_values(|t: ClipboardTool| tool_view(t)), p.missing@)
}

/// The command line `program args...`.
pub fn command(program: &str, args: Vec<String>) -> (c: CommandLine)
    ensures
        command_view(c) == (program@, args@.map_values(|a: String| a@)),
{
    CommandLine { program: text_of(program), args }
}

/// A string with the characters of `s`.
pub fn text_of(s: &str) -> (t: String)
    ensures
        t@ == s@,
{
    let v = chars_of(s);
    string_of(&v)
}

/// What focusing gives on each operating system: the Linux and macOS plans,
/// and elsewhere the refusal.
pub open spec fn focus_result(os: Os, app: Option<Seq<char>>, pid: Option<u32>, wayland: bool, has_swaymsg: bool, r: Result<FocusPlan, String>) -> bool {
    match os {
        Os::Linux => crate::linux::focus_outcome(app, pid, wayland, has_swaymsg, r),
        Os::MacOs => r matches Ok(p) && plan_view(p) == crate::macos::focus_plan(app, pid),
        _ => r matches Err(m) && m@ == "Focus not supported on this platform"@,
    }
}

/// How to bring an application, by name or process id, to the front on this
/// operating system. Linux needs to know whether the session is Wayland and,
/// there, whether `swaymsg` is available.
pub fn focus_app(os: Os, app: Option<&str>, pid: Option<u32>, wayland: bool, has_swaymsg: bool) -> (r: Result<FocusPlan, String>)
    requires
        os == Os::MacOs ==> (app is Some || pid is Some),
    ensures
        focus_result(os, opt_view(app), pid, wayland, has_swaymsg, r),
{
    match os {
        Os::Linux => crate::linux::focus_app(app, pid, wayland, has_swaymsg),
        Os::MacOs => Ok(crate::macos::focus_app(app, pid)),
        _ => Err(text_of("Focus not supported on this platform")),
    }
}

/// How to read the clipboard on this operating system.
pub fn read_clipboard(os: Os, wayland: bool) -> (r: Result<ClipboardPlan, String>)
    ensures
        match os {
            Os::Linux => r matches Ok(p) && clipboard_view(p) == crate::linux::clipboard_plan(wayland),
            Os::MacOs => r matches Ok(p) && clipboard_view(p) == crate::macos::clipboard_plan(),
            _ => r matches Err(m) && m@ == "Clipboard not supported on this platform"@,
        },
{
    match os {
        Os::Linux => Ok(crate::linux::read_clipboard(wayland)),
        Os::MacOs => Ok(crate::macos::read_clipboard()),
        _ => Err(text_of("Clipboard not supported on this platform")),
    }
}

} // verus!
