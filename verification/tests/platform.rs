use agent_desktop::linux;
use agent_desktop::macos;
use agent_desktop::platform::{focus_app, read_clipboard, ClipboardPlan, FocusPlan, Os};
use agent_desktop::screen::{
    get_screen_size, get_screen_size_linux, get_screen_size_macos, parse_sway_outputs, parse_wlr_randr,
    parse_xdpyinfo, SwayOutput,
};

fn commands(p: &FocusPlan) -> Vec<(String, Vec<String>)> {
    p.commands.iter().map(|c| (c.program.clone(), c.args.clone())).collect()
}

fn cmd(program: &str, args: &[&str]) -> (String, Vec<String>) {
    (program.to_string(), args.iter().map(|a| a.to_string()).collect())
}

fn tools(p: &ClipboardPlan) -> Vec<(String, Vec<String>, bool)> {
    p.tools.iter().map(|t| (t.command.program.clone(), t.command.args.clone(), t.needs_check)).collect()
}

#[test]
fn focus_on_sway_tries_app_id_then_title() {
    let p = linux::focus_app(Some("firefox"), None, true, true).unwrap();
    assert_eq!(
        commands(&p),
        vec![cmd("swaymsg", &["[app_id=\"firefox\"] focus"]), cmd("swaymsg", &["[title=\"firefox\"] focus"])]
    );
    assert_eq!(p.failure, "Failed to focus app 'firefox' via swaymsg");
    assert!(p.settle);
    let p = linux::focus_app(None, Some(77), true, true).unwrap();
    assert_eq!(commands(&p), vec![cmd("swaymsg", &["[pid=77] focus"])]);
    assert_eq!(p.failure, "Failed to focus PID 77 via swaymsg");
    let p = linux::focus_app(None, None, true, true).unwrap();
    assert!(p.commands.is_empty());
    assert!(!p.settle);
}

#[test]
fn focus_on_wayland_needs_sway() {
    let e = linux::focus_app(Some("x"), None, true, false).unwrap_err();
    assert_eq!(
        e,
        "Window focus on Wayland currently requires sway (swaymsg). Other compositors are not yet supported."
    );
}

#[test]
fn focus_on_x11_uses_xdotool() {
    let p = linux::focus_app(Some("gedit"), Some(5), false, false).unwrap();
    assert_eq!(commands(&p), vec![cmd("xdotool", &["search", "--name", "gedit", "windowactivate"])]);
    assert_eq!(p.failure, "Failed to focus app. Is xdotool installed?");
    let p = linux::focus_app(None, Some(5), false, false).unwrap();
    assert_eq!(commands(&p), vec![cmd("xdotool", &["search", "--pid", "5", "windowactivate"])]);
    let p = linux::focus_app(None, None, false, false).unwrap();
    assert!(p.commands.is_empty());
    assert!(p.settle);
}

#[test]
fn focus_on_macos_uses_applescript() {
    let p = macos::focus_app(Some("Safari"), None);
    assert_eq!(commands(&p), vec![cmd("osascript", &["-e", "tell application \"Safari\" to activate"])]);
    assert!(p.with_stderr);
    assert_eq!(p.failure, "Failed to focus app");
    let p = macos::focus_app(None, Some(12));
    assert_eq!(
        commands(&p),
        vec![cmd(
            "osascript",
            &["-e", "tell application \"System Events\"\n    set frontmost of (first process whose unix id is 12) to true\nend tell"]
        )]
    );
}

#[test]
fn focus_by_platform() {
    assert!(focus_app(Os::Linux, Some("a"), None, false, false).is_ok());
    assert!(focus_app(Os::MacOs, Some("a"), None, false, false).is_ok());
    assert_eq!(focus_app(Os::Windows, Some("a"), None, false, false), Err("Focus not supported on this platform".to_string()));
}

#[test]
fn clipboard_tools_by_session() {
    let p = linux::read_clipboard(true);
    assert_eq!(tools(&p), vec![("wl-paste".to_string(), vec!["--no-newline".to_string()], true)]);
    assert!(p.missing.starts_with("No Wayland clipboard tool found."));
    let p = linux::read_clipboard(false);
    assert_eq!(
        tools(&p),
        vec![
            ("xclip".to_string(), vec!["-selection".to_string(), "clipboard".to_string(), "-o".to_string()], true),
            ("xsel".to_string(), vec!["--clipboard".to_string(), "--output".to_string()], true),
        ]
    );
    assert_eq!(p.tools[1].spawn_failure, "Failed to read clipboard with xsel");
    assert!(p.missing.starts_with("No clipboard tool found. Install `xclip` or `xsel`:"));
    let p = macos::read_clipboard();
    assert_eq!(tools(&p), vec![("pbpaste".to_string(), vec![], false)]);
    assert_eq!(p.tools[0].status_failure, "pbpaste failed");
    assert_eq!(read_clipboard(Os::Other, false), Err("Clipboard not supported on this platform".to_string()));
    assert_eq!(read_clipboard(Os::Linux, true).unwrap(), linux::read_clipboard(true));
}

#[test]
fn xdpyinfo_dimensions() {
    let out = "screen #0:\n  dimensions:    2560x1440 pixels (677x381 millimeters)\n  resolution:    96x96 dots per inch\n";
    assert_eq!(parse_xdpyinfo(out), Some((2560, 1440)));
    assert_eq!(parse_xdpyinfo("nothing here\n"), None);
}

#[test]
fn wlr_randr_current_mode() {
    let out = "eDP-1 \"Panel\"\n  Modes:\n    1920x1080 px, 60.000000 Hz\n    1366 x 768 px, 60.000000 Hz (current)\n";
    assert_eq!(parse_wlr_randr(out), Some((1366, 768)));
}

#[test]
fn sway_active_output() {
    let outs = vec![
        SwayOutput { active: Some(false), rect: Some((Some(800), Some(600))) },
        SwayOutput { active: Some(true), rect: Some((Some(0), Some(600))) },
        SwayOutput { active: Some(true), rect: Some((Some(3840), Some(2160))) },
    ];
    assert_eq!(parse_sway_outputs(&outs), Some((3840, 2160)));
}

#[test]
fn linux_size_tries_tools_in_order() {
    let outs = vec![SwayOutput { active: Some(true), rect: Some((Some(1280), Some(720))) }];
    assert_eq!(get_screen_size_linux(Some("no dims"), Some(&outs), Some("")), Some((1280, 720)));
    assert_eq!(get_screen_size_linux(None, None, None), None);
}

#[test]
fn macos_finder_bounds() {
    assert_eq!(get_screen_size_macos("0, 0, 1440, 900\n"), Some((1440, 900)));
    assert_eq!(get_screen_size_macos("0, 0, 1440"), None);
}

#[test]
fn screen_size_falls_back_to_full_hd() {
    assert_eq!(get_screen_size(None), (1920, 1080));
    assert_eq!(get_screen_size(Some((800, 600))), (800, 600));
}
