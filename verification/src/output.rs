use vstd::prelude::*;
use vstd::string::StringExecFns;
use crate::text::{chars_of, lowercase, str_to_lowercase, string_push};

verus! {

/// How text is delivered to the focused application.
#[derive(Debug, Clone, Copy, PartialEq, Eq, Structural)]
pub enum PasteMethod {
    /// Deliver nothing (`PasteMethod::None` in the settings file).
    NoPaste,
    /// Type the text key by key.
    Direct,
    /// Put the text on the clipboard and press Ctrl+V.
    CtrlV,
    /// Put the text on the clipboard and press Ctrl+Shift+V.
    CtrlShiftV,
    /// Put the text on the clipboard and press Shift+Insert.
    ShiftInsert,
}

/// What happens to the clipboard after the text was delivered.
#[derive(Debug, Clone, Copy, PartialEq, Eq, Structural)]
pub enum ClipboardHandling {
    /// Leave the clipboard as it was before.
    DontModify,
    /// Leave the delivered text on the clipboard.
    CopyToClipboard,
}

/// The Linux session and the input tools installed on it.
#[derive(Debug, Clone, Copy, PartialEq, Eq, Structural)]
pub struct InputEnvironment {
    /// The session runs on Wayland (else X11).
    pub wayland: bool,
    /// The session is KDE Plasma on Wayland.
    pub kde_wayland: bool,
    pub wtype: bool,
    pub dotool: bool,
    pub ydotool: bool,
    pub xdotool: bool,
    pub kwtype: bool,
    pub wl_copy: bool,
}

/// Whether the clipboard is written with wl-copy (on Wayland, when it is
/// installed; it handles non-ASCII text better) rather than the clipboard plugin.
pub fn clipboard_via_wl_copy(env: &InputEnvironment) -> (r: bool)
    ensures
        r == (env.wayland && env.wl_copy),
{
    env.wayland && env.wl_copy
}

/// A Linux command-line input tool.
#[derive(Debug, Clone, Copy, PartialEq, Eq, Structural)]
pub enum InputTool {
    Wtype,
    Dotool,
    Ydotool,
    Xdotool,
    Kwtype,
}

/// Whether `tool` is installed.
pub open spec fn available(env: InputEnvironment, tool: InputTool) -> bool {
    match tool {
        InputTool::Wtype => env.wtype,
        InputTool::Dotool => env.dotool,
        InputTool::Ydotool => env.ydotool,
        InputTool::Xdotool => env.xdotool,
        InputTool::Kwtype => env.kwtype,
    }
}

/// The first tool of `prefs` that is installed.
pub open spec fn first_available(prefs: Seq<InputTool>, env: InputEnvironment) -> Option<InputTool>
    decreases prefs.len(),
{
    if prefs.len() == 0 {
        None
    } else if available(env, prefs[0]) {
        Some(prefs[0])
    } else {
        first_available(prefs.drop_first(), env)
    }
}

/// Tools that can send a key combination, most preferred first: on Wayland
/// wtype (which does not work on KDE), dotool, ydotool; on X11 xdotool, ydotool.
pub open spec fn key_combo_preference(env: InputEnvironment) -> Seq<InputTool> {
    if env.wayland {
        (if env.kde_wayland {
            seq![]
        } else {
            seq![InputTool::Wtype]
        }) + seq![InputTool::Dotool, InputTool::Ydotool]
    } else {
        seq![InputTool::Xdotool, InputTool::Ydotool]
    }
}

/// Tools that can type text, most preferred first: on KDE Wayland kwtype, on
/// other Wayland sessions wtype, then dotool and ydotool; on X11 xdotool, ydotool.
pub open spec fn direct_typing_preference(env: InputEnvironment) -> Seq<InputTool> {
    if env.wayland {
        (if env.kde_wayland {
            seq![InputTool::Kwtype]
        } else {
            seq![InputTool::Wtype]
        }) + seq![InputTool::Dotool, InputTool::Ydotool]
    } else {
        seq![InputTool::Xdotool, InputTool::Ydotool]
    }
}

/// The tool that sends a paste key combination, or `None` to fall back to
/// simulated key events.
pub fn key_combo_tool(env: &InputEnvironment) -> (r: Option<InputTool>)
    ensures
        r == first_available(key_combo_preference(*env), *env),
{
    proof {
        reveal_with_fuel(first_available, 4);
        let p = key_combo_preference(*env);
        if env.wayland && !env.kde_wayland {
            assert(p =~= seq![InputTool::Wtype, InputTool::Dotool, InputTool::Ydotool]);
            assert(p.drop_first() =~= seq![InputTool::Dotool, InputTool::Ydotool]);
            assert(p.drop_first().drop_first() =~= seq![InputTool::Ydotool]);
        } else if env.wayland {
            assert(p =~= seq![InputTool::Dotool, InputTool::Ydotool]);
            assert(p.drop_first() =~= seq![InputTool::Ydotool]);
        } else {
            assert(p.drop_first() =~= seq![InputTool::Ydotool]);
        }
    }
    if env.wayland {
        if !env.kde_wayland && env.wtype {
            return Some(InputTool::Wtype);
        }
        if env.dotool {
            return Some(InputTool::Dotool);
        }
        if env.ydotool {
            return Some(InputTool::Ydotool);
        }
    } else {
        if env.xdotool {
            return Some(InputTool::Xdotool);
        }
        if env.ydotool {
            return Some(InputTool::Ydotool);
        }
    }
    None
}

/// The tool that types text directly, or `None` to fall back to simulated
/// key events.
pub fn direct_typing_tool(env: &InputEnvironment) -> (r: Option<InputTool>)
    ensures
        r == first_available(direct_typing_preference(*env), *env),
{
    proof {
        reveal_with_fuel(first_available, 4);
        let p = direct_typing_preference(*env);
        if env.wayland {
            assert(p.drop_first() =~= seq![InputTool::Dotool, InputTool::Ydotool]);
            assert(p.drop_first().drop_first() =~= seq![InputTool::Ydotool]);
        } else {
            assert(p.drop_first() =~= seq![InputTool::Ydotool]);
        }
    }
    if env.wayland {
        if env.kde_wayland && env.kwtype {
            return Some(InputTool::Kwtype);
        }
        if !env.kde_wayland && env.wtype {
            return Some(InputTool::Wtype);
        }
        if env.dotool {
            return Some(InputTool::Dotool);
        }
        if env.ydotool {
            return Some(InputTool::Ydotool);
        }
    } else {
        if env.xdotool {
            return Some(InputTool::Xdotool);
        }
        if env.ydotool {
            return Some(InputTool::Ydotool);
        }
    }
    None
}


/// The typing tool suits the session and is installed, and it is the most
/// preferred such tool: kwtype only on KDE Wayland and wtype only on other
/// Wayland sessions (wtype does not work on KDE), dotool and ydotool on
/// Wayland after them, xdotool then ydotool on X11. None is chosen exactly
/// when no tool that suits the session is installed.
pub proof fn typing_tool_suits_session(env: InputEnvironment)
    ensures
        ({
            let r = first_available(direct_typing_preference(env), env);
            &&& r matches Some(t) ==> available(env, t)
            &&& r == Some(InputTool::Kwtype) ==> env.wayland && env.kde_wayland
            &&& r == Some(InputTool::Wtype) ==> env.wayland && !env.kde_wayland
            &&& r == Some(InputTool::Dotool) ==> env.wayland
            &&& r == Some(InputTool::Xdotool) ==> !env.wayland
            &&& env.kde_wayland ==> r != Some(InputTool::Wtype)
            &&& env.wayland && env.kde_wayland && env.kwtype ==> r == Some(InputTool::Kwtype)
            &&& env.wayland && !env.kde_wayland && env.wtype ==> r == Some(InputTool::Wtype)
            &&& env.wayland && env.dotool && !(env.kde_wayland && env.kwtype) && !(!env.kde_wayland
                && env.wtype) ==> r == Some(InputTool::Dotool)
            &&& !env.wayland && env.xdotool ==> r == Some(InputTool::Xdotool)
            &&& r is None <==> (if env.wayland {
                !(env.kde_wayland && env.kwtype) && !(!env.kde_wayland && env.wtype) && !env.dotool
                    && !env.ydotool
            } else {
                !env.xdotool && !env.ydotool
            })
        }),
{
    reveal_with_fuel(first_available, 4);
    let p = direct_typing_preference(env);
    if env.wayland {
        assert(p.drop_first() =~= seq![InputTool::Dotool, InputTool::Ydotool]);
        assert(p.drop_first().drop_first() =~= seq![InputTool::Ydotool]);
    } else {
        assert(p.drop_first() =~= seq![InputTool::Ydotool]);
    }
}

/// The tool that sends a paste key combination suits the session and is
/// installed, and it is the most preferred such tool: wtype only on Wayland
/// sessions other than KDE, then dotool and ydotool on Wayland; xdotool then
/// ydotool on X11; never kwtype, which only types text. None is chosen exactly
/// when no tool that suits the session is installed.
pub proof fn key_combo_tool_suits_session(env: InputEnvironment)
    ensures
        ({
            let r = first_available(key_combo_preference(env), env);
            &&& r matches Some(t) ==> available(env, t)
            &&& r != Some(InputTool::Kwtype)
            &&& r == Some(InputTool::Wtype) ==> env.wayland && !env.kde_wayland
            &&& r == Some(InputTool::Dotool) ==> env.wayland
            &&& r == Some(InputTool::Xdotool) ==> !env.wayland
            &&& env.kde_wayland ==> r != Some(InputTool::Wtype)
            &&& env.wayland && !env.kde_wayland && env.wtype ==> r == Some(InputTool::Wtype)
            &&& env.wayland && env.dotool && !(!env.kde_wayland && env.wtype) ==> r == Some(
                InputTool::Dotool,
            )
            &&& !env.wayland && env.xdotool ==> r == Some(InputTool::Xdotool)
            &&& r is None <==> (if env.wayland {
                !(!env.kde_wayland && env.wtype) && !env.dotool && !env.ydotool
            } else {
                !env.xdotool && !env.ydotool
            })
        }),
{
    reveal_with_fuel(first_available, 4);
    let p = key_combo_preference(env);
    if env.wayland && !env.kde_wayland {
        assert(p =~= seq![InputTool::Wtype, InputTool::Dotool, InputTool::Ydotool]);
        assert(p.drop_first() =~= seq![InputTool::Dotool, InputTool::Ydotool]);
        assert(p.drop_first().drop_first() =~= seq![InputTool::Ydotool]);
    } else if env.wayland {
        assert(p =~= seq![InputTool::Dotool, InputTool::Ydotool]);
        assert(p.drop_first() =~= seq![InputTool::Ydotool]);
    } else {
        assert(p.drop_first() =~= seq![InputTool::Ydotool]);
    }
}


/// A command line for an external tool: program, arguments, and text for
/// its standard input.
#[derive(Debug, Clone)]
pub struct ToolCommand {
    pub program: String,
    pub args: Vec<String>,
    pub stdin: Option<String>,
}

/// The characters of each string.
pub open spec fn strings_view(v: Seq<String>) -> Seq<Seq<char>> {
    v.map_values(|s: String| s@)
}

/// `c` runs `program` with `args`, feeding it `stdin` when given.
pub open spec fn runs(
    c: ToolCommand,
    program: Seq<char>,
    args: Seq<Seq<char>>,
    stdin: Option<Seq<char>>,
) -> bool {
    &&& c.program@ == program
    &&& strings_view(c.args@) == args
    &&& match (c.stdin, stdin) {
        (Some(a), Some(b)) => a@ == b,
        (None, None) => true,
        _ => false,
    }
}

/// The executable name of `tool`.
pub open spec fn tool_name_spec(tool: InputTool) -> Seq<char> {
    match tool {
        InputTool::Wtype => "wtype"@,
        InputTool::Dotool => "dotool"@,
        InputTool::Ydotool => "ydotool"@,
        InputTool::Xdotool => "xdotool"@,
        InputTool::Kwtype => "kwtype"@,
    }
}

/// The executable name of `tool`, as looked up on the `PATH`.
pub fn tool_name(tool: InputTool) -> (r: String)
    ensures
        r@ == tool_name_spec(tool),
{
    match tool {
        InputTool::Wtype => "wtype".to_owned(),
        InputTool::Dotool => "dotool".to_owned(),
        InputTool::Ydotool => "ydotool".to_owned(),
        InputTool::Xdotool => "xdotool".to_owned(),
        InputTool::Kwtype => "kwtype".to_owned(),
    }
}

/// The command line with which `tool` sends the key combination of a
/// clipboard paste method; `None` for a method that pastes no clipboard, and
/// for kwtype, which only types text.
/// (dotool takes `key ...` lines on its standard input, given here through `sh`;
/// ydotool takes Linux key codes: ctrl=29, shift=42, v=47, insert=110, with
/// `:1` for down and `:0` for up.)
pub open spec fn key_combo_spec(tool: InputTool, method: PasteMethod) -> Option<
    (&'static str, Seq<&'static str>),
> {
    match method {
        PasteMethod::NoPaste | PasteMethod::Direct => None,
        _ => match tool {
            InputTool::Wtype => Some(
                (
                    "wtype",
                    match method {
                        PasteMethod::CtrlV => seq!["-M", "ctrl", "-k", "v"],
                        PasteMethod::ShiftInsert => seq!["-M", "shift", "-k", "Insert"],
                        _ => seq!["-M", "ctrl", "-M", "shift", "-k", "v"],
                    },
                ),
            ),
            InputTool::Dotool => Some(
                (
                    "sh",
                    seq![
                        "-c",
                        match method {
                            PasteMethod::CtrlV => "echo key ctrl+v | dotool",
                            PasteMethod::ShiftInsert => "echo key shift+insert | dotool",
                            _ => "echo key ctrl+shift+v | dotool",
                        },
                    ],
                ),
            ),
            InputTool::Ydotool => Some(
                (
                    "ydotool",
                    match method {
                        PasteMethod::CtrlV => seq!["key", "29:1", "47:1", "47:0", "29:0"],
                        PasteMethod::ShiftInsert => seq![
                            "key",
                            "42:1",
                            "110:1",
                            "110:0",
                            "42:0",
                        ],
                        _ => seq![
                            "key",
                            "29:1",
                            "42:1",
                            "47:1",
                            "47:0",
                            "42:0",
                            "29:0",
                        ],
                    },
                ),
            ),
            InputTool::Xdotool => Some(
                (
                    "xdotool",
                    seq![
                        "key",
                        "--clearmodifiers",
                        match method {
                            PasteMethod::CtrlV => "ctrl+v",
                            PasteMethod::CtrlShiftV => "ctrl+shift+v",
                            _ => "shift+Insert",
                        },
                    ],
                ),
            ),
            InputTool::Kwtype => None,
        },
    }
}

/// The key combination that each tool sends for each paste method: Ctrl+V,
/// Ctrl+Shift+V or Shift+Insert, in each tool's own notation (ydotool's Linux
/// key codes: ctrl=29, shift=42, v=47, insert=110; `:1` down, `:0` up).
/// kwtype sends none, and no tool sends one for `NoPaste` or `Direct`.
pub proof fn paste_key_combinations(tool: InputTool)
    ensures
        key_combo_spec(tool, PasteMethod::NoPaste) is None,
        key_combo_spec(tool, PasteMethod::Direct) is None,
        key_combo_spec(InputTool::Kwtype, PasteMethod::CtrlV) is None,
        key_combo_spec(InputTool::Kwtype, PasteMethod::CtrlShiftV) is None,
        key_combo_spec(InputTool::Kwtype, PasteMethod::ShiftInsert) is None,
        key_combo_spec(InputTool::Xdotool, PasteMethod::CtrlV) == Some(
            ("xdotool", seq!["key", "--clearmodifiers", "ctrl+v"]),
        ),
        key_combo_spec(InputTool::Xdotool, PasteMethod::CtrlShiftV) == Some(
            ("xdotool", seq!["key", "--clearmodifiers", "ctrl+shift+v"]),
        ),
        key_combo_spec(InputTool::Xdotool, PasteMethod::ShiftInsert) == Some(
            ("xdotool", seq!["key", "--clearmodifiers", "shift+Insert"]),
        ),
        key_combo_spec(InputTool::Wtype, PasteMethod::CtrlV) == Some(
            ("wtype", seq!["-M", "ctrl", "-k", "v"]),
        ),
        key_combo_spec(InputTool::Wtype, PasteMethod::CtrlShiftV) == Some(
            ("wtype", seq!["-M", "ctrl", "-M", "shift", "-k", "v"]),
        ),
        key_combo_spec(InputTool::Wtype, PasteMethod::ShiftInsert) == Some(
            ("wtype", seq!["-M", "shift", "-k", "Insert"]),
        ),
        key_combo_spec(InputTool::Dotool, PasteMethod::CtrlV) == Some(
            ("sh", seq!["-c", "echo key ctrl+v | dotool"]),
        ),
        key_combo_spec(InputTool::Dotool, PasteMethod::CtrlShiftV) == Some(
            ("sh", seq!["-c", "echo key ctrl+shift+v | dotool"]),
        ),
        key_combo_spec(InputTool::Dotool, PasteMethod::ShiftInsert) == Some(
            ("sh", seq!["-c", "echo key shift+insert | dotool"]),
        ),
        key_combo_spec(InputTool::Ydotool, PasteMethod::CtrlV) == Some(
            ("ydotool", seq!["key", "29:1", "47:1", "47:0", "29:0"]),
        ),
        key_combo_spec(InputTool::Ydotool, PasteMethod::CtrlShiftV) == Some(
            ("ydotool", seq!["key", "29:1", "42:1", "47:1", "47:0", "42:0", "29:0"]),
        ),
        key_combo_spec(InputTool::Ydotool, PasteMethod::ShiftInsert) == Some(
            ("ydotool", seq!["key", "42:1", "110:1", "110:0", "42:0"]),
        ),
{
}

/// Distinct paste methods make a tool send distinct key combinations.
pub proof fn paste_methods_send_distinct_combinations(
    tool: InputTool,
    m1: PasteMethod,
    m2: PasteMethod,
)
    requires
        key_combo_spec(tool, m1) is Some,
        key_combo_spec(tool, m2) is Some,
        m1 != m2,
    ensures
        key_combo_spec(tool, m1) != key_combo_spec(tool, m2),
{
    reveal_strlit("ctrl+v");
    reveal_strlit("ctrl+shift+v");
    reveal_strlit("shift+Insert");
    reveal_strlit("echo key ctrl+v | dotool");
    reveal_strlit("echo key ctrl+shift+v | dotool");
    reveal_strlit("echo key shift+insert | dotool");
    reveal_strlit("ctrl");
    reveal_strlit("shift");
    reveal_strlit("-M");
    reveal_strlit("-k");
    reveal_strlit("29:1");
    reveal_strlit("42:1");
    assert("ctrl+v"@.len() == 6 && "ctrl+shift+v"@.len() == 12 && "shift+Insert"@.len() == 12);
    assert("ctrl+shift+v"@[0] == 'c' && "shift+Insert"@[0] == 's');
    assert("echo key ctrl+v | dotool"@.len() == 24);
    assert("echo key ctrl+shift+v | dotool"@.len() == 30);
    assert("echo key ctrl+shift+v | dotool"@[9] == 'c' && "echo key shift+insert | dotool"@[9] == 's');
    assert("ctrl"@.len() == 4 && "shift"@.len() == 5);
    assert("29:1"@[0] == '2' && "42:1"@[0] == '4');
    let a = (key_combo_spec(tool, m1)->0).1;
    let b = (key_combo_spec(tool, m2)->0).1;
    match tool {
        InputTool::Xdotool | InputTool::Dotool => {
            let i = a.len() - 1;
            assert(a[i]@ != b[i]@);
        },
        InputTool::Ydotool => {
            if a.len() == b.len() {
                assert(a[1]@ != b[1]@);
            }
        },
        _ => {
            if a.len() == b.len() {
                assert(a[1]@ != b[1]@);
            }
        },
    }
}

/// Push each of `items` onto `v`.
fn push_all(v: &mut Vec<String>, items: &[&str])
    ensures
        strings_view(final(v)@) == strings_view(old(v)@) + items@.map_values(|s: &str| s@),
{
    let mut i: usize = 0;
    while i < items.len()
        invariant
            i <= items@.len(),
            strings_view(v@) == strings_view(old(v)@) + items@.take(i as int).map_values(
                |s: &str| s@,
            ),
        decreases items.len() - i,
    {
        let ghost before = strings_view(v@);
        v.push(items[i].to_owned());
        assert(strings_view(v@) =~= before + seq![items@[i as int]@]);
        assert(items@.take(i + 1).map_values(|s: &str| s@) =~= items@.take(i as int).map_values(
            |s: &str| s@,
        ) + seq![items@[i as int]@]);
        i += 1;
    }
    assert(items@.take(items@.len() as int) =~= items@);
}

/// A command for `program` with `args` and no standard input.
fn command(program: &str, args: &[&str]) -> (c: ToolCommand)
    ensures
        runs(c, program@, args@.map_values(|s: &str| s@), None),
{
    let mut v: Vec<String> = Vec::new();
    assert(strings_view(v@) =~= Seq::<Seq<char>>::empty());
    push_all(&mut v, args);
    assert(strings_view(v@) =~= args@.map_values(|s: &str| s@));
    ToolCommand { program: program.to_owned(), args: v, stdin: None }
}

/// Send a key combination (e.g. Ctrl+V) with `tool`: the command line, or
/// the error for a paste method that sends none.
pub fn key_combo_command(tool: InputTool, method: PasteMethod) -> (r: Result<ToolCommand, String>)
    ensures
        match key_combo_spec(tool, method) {
            Some((program, args)) => r matches Ok(c) && runs(
                c,
                program@,
                args.map_values(|s: &str| s@),
                None,
            ),
            None => r matches Err(e) && e@ == (if method == PasteMethod::NoPaste || method
                == PasteMethod::Direct {
                "Unsupported paste method"@
            } else {
                "Unsupported input tool for key combinations"@
            }),
        },
{
    let c = match method {
        PasteMethod::NoPaste | PasteMethod::Direct => {
            return Err("Unsupported paste method".to_owned());
        },
        _ if tool == InputTool::Kwtype => {
            return Err("Unsupported input tool for key combinations".to_owned());
        },
        PasteMethod::CtrlV => match tool {
            InputTool::Wtype => command("wtype", &["-M", "ctrl", "-k", "v"]),
            InputTool::Dotool => command("sh", &["-c", "echo key ctrl+v | dotool"]),
            InputTool::Ydotool => command("ydotool", &["key", "29:1", "47:1", "47:0", "29:0"]),
            _ => command("xdotool", &["key", "--clearmodifiers", "ctrl+v"]),
        },
        PasteMethod::ShiftInsert => match tool {
            InputTool::Wtype => command("wtype", &["-M", "shift", "-k", "Insert"]),
            InputTool::Dotool => command("sh", &["-c", "echo key shift+insert | dotool"]),
            InputTool::Ydotool => command("ydotool", &["key", "42:1", "110:1", "110:0", "42:0"]),
            _ => command("xdotool", &["key", "--clearmodifiers", "shift+Insert"]),
        },
        PasteMethod::CtrlShiftV => match tool {
            InputTool::Wtype => command("wtype", &["-M", "ctrl", "-M", "shift", "-k", "v"]),
            InputTool::Dotool => command("sh", &["-c", "echo key ctrl+shift+v | dotool"]),
            InputTool::Ydotool => command(
                "ydotool",
                &["key", "29:1", "42:1", "47:1", "47:0", "42:0", "29:0"],
            ),
            _ => command("xdotool", &["key", "--clearmodifiers", "ctrl+shift+v"]),
        },
    };
    Ok(c)
}


/// The lines of `text`, split at each `'\n'` (one more line than line breaks).
pub open spec fn text_lines(text: Seq<char>) -> Seq<Seq<char>>
    decreases text.len(),
{
    if text.len() == 0 {
        seq![seq![]]
    } else {
        let ls = text_lines(text.drop_last());
        if text.last() == '\n' {
            ls.push(seq![])
        } else {
            ls.update(ls.len() - 1, ls.last().push(text.last()))
        }
    }
}

/// dotool actions for `lines`, without the final line break: a `type` line for
/// each line, with a `key enter` line between consecutive ones.
pub open spec fn dotool_script_body(lines: Seq<Seq<char>>) -> Seq<char>
    decreases lines.len(),
{
    if lines.len() <= 1 {
        "type "@ + (if lines.len() == 1 { lines[0] } else { seq![] })
    } else {
        dotool_script_body(lines.drop_last()) + "\nkey enter\ntype "@ + lines.last()
    }
}

/// What dotool reads to type `text`: one `type` action per line of `text`,
/// and a `key enter` action for each line break between them.
pub open spec fn dotool_input(text: Seq<char>) -> Seq<char> {
    dotool_script_body(text_lines(text)) + seq!['\n']
}

/// The command line with which `tool` types `text`. dotool reads one action
/// per line on its standard input, so it gets a `type` action for each line
/// of `text` and presses Enter for each line break (`dotool_input`).
pub open spec fn typing_spec(tool: InputTool, text: Seq<char>) -> (
    Seq<char>,
    Seq<Seq<char>>,
    Option<Seq<char>>,
) {
    match tool {
        InputTool::Wtype => ("wtype"@, seq!["--"@, text], None),
        InputTool::Xdotool => ("xdotool"@, seq!["type"@, "--clearmodifiers"@, "--"@, text], None),
        InputTool::Dotool => ("dotool"@, seq![], Some(dotool_input(text))),
        InputTool::Ydotool => ("ydotool"@, seq!["type"@, "--"@, text], None),
        InputTool::Kwtype => ("kwtype"@, seq!["--"@, text], None),
    }
}

proof fn lemma_text_lines_nonempty(text: Seq<char>)
    ensures
        text_lines(text).len() >= 1,
    decreases text.len(),
{
    if text.len() > 0 {
        lemma_text_lines_nonempty(text.drop_last());
    }
}

proof fn lemma_script_body_extend(lines: Seq<Seq<char>>, c: char)
    requires
        lines.len() >= 1,
    ensures
        dotool_script_body(lines.update(lines.len() - 1, lines.last().push(c))) == dotool_script_body(
            lines,
        ).push(c),
{
    let u = lines.update(lines.len() - 1, lines.last().push(c));
    if lines.len() == 1 {
        assert(dotool_script_body(u) =~= dotool_script_body(lines).push(c));
    } else {
        assert(u.drop_last() =~= lines.drop_last());
        assert(dotool_script_body(u) =~= dotool_script_body(lines).push(c));
    }
}

/// dotool's input to type `text`.
fn dotool_script(text: &str) -> (r: String)
    ensures
        r@ == dotool_input(text@),
{
    let v = chars_of(text);
    let mut r = "type ".to_owned();
    let mut i: usize = 0;
    proof {
        assert(v@.take(0) =~= Seq::<char>::empty());
        assert(dotool_script_body(text_lines(Seq::<char>::empty())) =~= "type "@);
    }
    while i < v.len()
        invariant
            i <= v@.len(),
            v@ == text@,
            r@ == dotool_script_body(text_lines(v@.take(i as int))),
        decreases v.len() - i,
    {
        let c = v[i];
        proof {
            assert(v@.take(i + 1).drop_last() =~= v@.take(i as int));
            assert(v@.take(i + 1).last() == c);
            lemma_text_lines_nonempty(v@.take(i as int));
        }
        if c == '\n' {
            r.append("\nkey enter\ntype ");
            proof {
                let ls = text_lines(v@.take(i as int));
                assert(ls.push(seq![]).drop_last() =~= ls);
                assert(r@ =~= dotool_script_body(ls) + "\nkey enter\ntype "@ + Seq::<char>::empty());
            }
        } else {
            string_push(&mut r, c);
            proof {
                lemma_script_body_extend(text_lines(v@.take(i as int)), c);
            }
        }
        i += 1;
    }
    string_push(&mut r, '\n');
    proof {
        assert(v@.take(v@.len() as int) =~= v@);
    }
    r
}

proof fn lemma_views_2(a: &str, b: &str)
    ensures
        seq![a, b].map_values(|s: &str| s@) == seq![a@, b@],
{
    assert(seq![a, b].map_values(|s: &str| s@) =~= seq![a@, b@]);
}

proof fn lemma_views_3(a: &str, b: &str, c: &str)
    ensures
        seq![a, b, c].map_values(|s: &str| s@) == seq![a@, b@, c@],
{
    assert(seq![a, b, c].map_values(|s: &str| s@) =~= seq![a@, b@, c@]);
}

proof fn lemma_views_4(a: &str, b: &str, c: &str, d: &str)
    ensures
        seq![a, b, c, d].map_values(|s: &str| s@) == seq![a@, b@, c@, d@],
{
    assert(seq![a, b, c, d].map_values(|s: &str| s@) =~= seq![a@, b@, c@, d@]);
}

/// Type `text` directly with `tool`: the command line.
pub fn typing_command(tool: InputTool, text: &str) -> (c: ToolCommand)
    ensures
        runs(c, typing_spec(tool, text@).0, typing_spec(tool, text@).1, typing_spec(tool, text@).2),
{
    proof {
        lemma_views_2("--", text);
        lemma_views_3("type", "--", text);
        lemma_views_4("type", "--clearmodifiers", "--", text);
    }
    match tool {
        InputTool::Wtype => {
            let a = ["--", text];
            assert(a@ == seq!["--", text]);
            command("wtype", &a)
        },
        InputTool::Xdotool => {
            let a = ["type", "--clearmodifiers", "--", text];
            assert(a@ == seq!["type", "--clearmodifiers", "--", text]);
            command("xdotool", &a)
        },
        InputTool::Ydotool => {
            let a = ["type", "--", text];
            assert(a@ == seq!["type", "--", text]);
            command("ydotool", &a)
        },
        InputTool::Kwtype => {
            let a = ["--", text];
            assert(a@ == seq!["--", text]);
            command("kwtype", &a)
        },
        InputTool::Dotool => {
            let script = dotool_script(text);
            let a: [&str; 0] = [];
            assert(a@ =~= Seq::<&str>::empty());
            let c = command("dotool", &a);
            assert(a@.map_values(|s: &str| s@) =~= Seq::<Seq<char>>::empty());
            ToolCommand { program: c.program, args: c.args, stdin: Some(script) }
        },
    }
}

/// Write `text` to the Wayland clipboard with wl-copy: the command line.
pub fn wl_copy_command(text: &str) -> (c: ToolCommand)
    ensures
        runs(c, "wl-copy"@, seq!["--"@, text@], None),
{
    proof {
        lemma_views_2("--", text);
    }
    command("wl-copy", &["--", text])
}

/// A key that a trigger word can press.
#[derive(Debug, Clone, Copy, PartialEq, Eq, Structural)]
pub enum KeyName {
    Return,
    Tab,
    Backspace,
    Escape,
    Space,
    Delete,
    UpArrow,
    DownArrow,
    LeftArrow,
    RightArrow,
    Home,
    End,
    PageUp,
    PageDown,
}

/// The key that a lowercased key name denotes.
pub open spec fn key_of_name(name: Seq<char>) -> Option<KeyName> {
    if name == "enter"@ || name == "return"@ {
        Some(KeyName::Return)
    } else if name == "tab"@ {
        Some(KeyName::Tab)
    } else if name == "backspace"@ {
        Some(KeyName::Backspace)
    } else if name == "escape"@ || name == "esc"@ {
        Some(KeyName::Escape)
    } else if name == "space"@ {
        Some(KeyName::Space)
    } else if name == "delete"@ || name == "del"@ {
        Some(KeyName::Delete)
    } else if name == "up"@ || name == "uparrow"@ {
        Some(KeyName::UpArrow)
    } else if name == "down"@ || name == "downarrow"@ {
        Some(KeyName::DownArrow)
    } else if name == "left"@ || name == "leftarrow"@ {
        Some(KeyName::LeftArrow)
    } else if name == "right"@ || name == "rightarrow"@ {
        Some(KeyName::RightArrow)
    } else if name == "home"@ {
        Some(KeyName::Home)
    } else if name == "end"@ {
        Some(KeyName::End)
    } else if name == "pageup"@ {
        Some(KeyName::PageUp)
    } else if name == "pagedown"@ {
        Some(KeyName::PageDown)
    } else {
        None
    }
}

proof fn reveal_key_names()
    ensures
        "enter"@ == seq!['e', 'n', 't', 'e', 'r'],
        "return"@ == seq!['r', 'e', 't', 'u', 'r', 'n'],
        "tab"@ == seq!['t', 'a', 'b'],
        "backspace"@ == seq!['b', 'a', 'c', 'k', 's', 'p', 'a', 'c', 'e'],
        "escape"@ == seq!['e', 's', 'c', 'a', 'p', 'e'],
        "esc"@ == seq!['e', 's', 'c'],
        "space"@ == seq!['s', 'p', 'a', 'c', 'e'],
        "delete"@ == seq!['d', 'e', 'l', 'e', 't', 'e'],
        "del"@ == seq!['d', 'e', 'l'],
        "up"@ == seq!['u', 'p'],
        "uparrow"@ == seq!['u', 'p', 'a', 'r', 'r', 'o', 'w'],
        "down"@ == seq!['d', 'o', 'w', 'n'],
        "downarrow"@ == seq!['d', 'o', 'w', 'n', 'a', 'r', 'r', 'o', 'w'],
        "left"@ == seq!['l', 'e', 'f', 't'],
        "leftarrow"@ == seq!['l', 'e', 'f', 't', 'a', 'r', 'r', 'o', 'w'],
        "right"@ == seq!['r', 'i', 'g', 'h', 't'],
        "rightarrow"@ == seq!['r', 'i', 'g', 'h', 't', 'a', 'r', 'r', 'o', 'w'],
        "home"@ == seq!['h', 'o', 'm', 'e'],
        "end"@ == seq!['e', 'n', 'd'],
        "pageup"@ == seq!['p', 'a', 'g', 'e', 'u', 'p'],
        "pagedown"@ == seq!['p', 'a', 'g', 'e', 'd', 'o', 'w', 'n'],
{
    reveal_strlit("enter");
    reveal_strlit("return");
    reveal_strlit("tab");
    reveal_strlit("backspace");
    reveal_strlit("escape");
    reveal_strlit("esc");
    reveal_strlit("space");
    reveal_strlit("delete");
    reveal_strlit("del");
    reveal_strlit("up");
    reveal_strlit("uparrow");
    reveal_strlit("down");
    reveal_strlit("downarrow");
    reveal_strlit("left");
    reveal_strlit("leftarrow");
    reveal_strlit("right");
    reveal_strlit("rightarrow");
    reveal_strlit("home");
    reveal_strlit("end");
    reveal_strlit("pageup");
    reveal_strlit("pagedown");
}

/// Each key name denotes its own key: "enter" and "return" the Return key,
/// "tab" the Tab key, "esc" and "escape" the Escape key, "del" and "delete"
/// the Delete key, each arrow by its direction with or without "arrow", and
/// "backspace", "space", "home", "end", "pageup", "pagedown" their keys.
pub proof fn key_names_denote_their_keys()
    ensures
        key_of_name("enter"@) == Some(KeyName::Return),
        key_of_name("return"@) == Some(KeyName::Return),
        key_of_name("tab"@) == Some(KeyName::Tab),
        key_of_name("backspace"@) == Some(KeyName::Backspace),
        key_of_name("escape"@) == Some(KeyName::Escape),
        key_of_name("esc"@) == Some(KeyName::Escape),
        key_of_name("space"@) == Some(KeyName::Space),
        key_of_name("delete"@) == Some(KeyName::Delete),
        key_of_name("del"@) == Some(KeyName::Delete),
        key_of_name("up"@) == Some(KeyName::UpArrow),
        key_of_name("uparrow"@) == Some(KeyName::UpArrow),
        key_of_name("down"@) == Some(KeyName::DownArrow),
        key_of_name("downarrow"@) == Some(KeyName::DownArrow),
        key_of_name("left"@) == Some(KeyName::LeftArrow),
        key_of_name("leftarrow"@) == Some(KeyName::LeftArrow),
        key_of_name("right"@) == Some(KeyName::RightArrow),
        key_of_name("rightarrow"@) == Some(KeyName::RightArrow),
        key_of_name("home"@) == Some(KeyName::Home),
        key_of_name("end"@) == Some(KeyName::End),
        key_of_name("pageup"@) == Some(KeyName::PageUp),
        key_of_name("pagedown"@) == Some(KeyName::PageDown),
{
    reveal_key_names();
}

/// The lowercase name with which dotool presses a key names that same key.
pub proof fn linux_key_names_parse_back(key: KeyName)
    ensures
        linux_key_spec(key) matches Some((_, lower)) ==> key_of_name(lower) == Some(key),
{
    reveal_key_names();
    reveal_strlit("return");
}

/// Whether `a` holds the characters of `b`.
fn same_text(a: &String, b: &str) -> (r: bool)
    ensures
        r == (a@ == b@),
{
    let b = b.to_owned();
    a.eq(&b)
}

/// The key that a key name denotes, whatever its case; `None` for an unknown name.
pub fn parse_key_name(key_name: &str) -> (r: Option<KeyName>)
    ensures
        r == key_of_name(lowercase(key_name@)),
{
    let name = str_to_lowercase(key_name);
    if same_text(&name, "enter") || same_text(&name, "return") {
        Some(KeyName::Return)
    } else if same_text(&name, "tab") {
        Some(KeyName::Tab)
    } else if same_text(&name, "backspace") {
        Some(KeyName::Backspace)
    } else if same_text(&name, "escape") || same_text(&name, "esc") {
        Some(KeyName::Escape)
    } else if same_text(&name, "space") {
        Some(KeyName::Space)
    } else if same_text(&name, "delete") || same_text(&name, "del") {
        Some(KeyName::Delete)
    } else if same_text(&name, "up") || same_text(&name, "uparrow") {
        Some(KeyName::UpArrow)
    } else if same_text(&name, "down") || same_text(&name, "downarrow") {
        Some(KeyName::DownArrow)
    } else if same_text(&name, "left") || same_text(&name, "leftarrow") {
        Some(KeyName::LeftArrow)
    } else if same_text(&name, "right") || same_text(&name, "rightarrow") {
        Some(KeyName::RightArrow)
    } else if same_text(&name, "home") {
        Some(KeyName::Home)
    } else if same_text(&name, "end") {
        Some(KeyName::End)
    } else if same_text(&name, "pageup") {
        Some(KeyName::PageUp)
    } else if same_text(&name, "pagedown") {
        Some(KeyName::PageDown)
    } else {
        None
    }
}

/// The keysym name with which the Linux tools press `key`, and that name in
/// lowercase (as dotool takes it); `None` for keys left to simulated key events.
pub open spec fn linux_key_spec(key: KeyName) -> Option<(Seq<char>, Seq<char>)> {
    match key {
        KeyName::Return => Some(("Return"@, "return"@)),
        KeyName::Tab => Some(("Tab"@, "tab"@)),
        KeyName::Backspace => Some(("BackSpace"@, "backspace"@)),
        KeyName::Escape => Some(("Escape"@, "escape"@)),
        KeyName::Space => Some(("space"@, "space"@)),
        KeyName::Delete => Some(("Delete"@, "delete"@)),
        _ => None,
    }
}

/// The tool invocations that press `key`, to be tried in order until one
/// succeeds: on Wayland wtype (not on KDE) then dotool, on X11 xdotool.
pub open spec fn key_press_spec(env: InputEnvironment, key: KeyName) -> Seq<
    (Seq<char>, Seq<Seq<char>>),
> {
    match linux_key_spec(key) {
        None => seq![],
        Some((arg, lower)) => if env.wayland {
            (if !env.kde_wayland && env.wtype {
                seq![("wtype"@, seq!["-k"@, arg])]
            } else {
                seq![]
            }) + (if env.dotool {
                seq![("sh"@, seq!["-c"@, "echo key "@ + lower + " | dotool"@])]
            } else {
                seq![]
            })
        } else if env.xdotool {
            seq![("xdotool"@, seq!["key"@, "--clearmodifiers"@, arg])]
        } else {
            seq![]
        },
    }
}

/// Pressing a key with the Linux tools suits the session: wtype only on
/// Wayland sessions other than KDE and when installed, dotool (through `sh`)
/// only on Wayland when installed, xdotool only on X11 when installed; at most
/// one invocation per tool, wtype's before dotool's; none for keys left to
/// simulated key events, and none exactly when no suitable tool is installed.
pub proof fn key_press_tools_suit_session(env: InputEnvironment, key: KeyName)
    ensures
        ({
            let cmds = key_press_spec(env, key);
            &&& cmds.len() <= 2
            &&& linux_key_spec(key) is None ==> cmds.len() == 0
            &&& forall|i: int|
                0 <= i < cmds.len() ==> {
                    ||| (#[trigger] cmds[i]).0 == "wtype"@ && env.wayland && !env.kde_wayland
                        && env.wtype && i == 0
                    ||| cmds[i].0 == "sh"@ && env.wayland && env.dotool && i == cmds.len() - 1
                    ||| cmds[i].0 == "xdotool"@ && !env.wayland && env.xdotool
                }
            &&& linux_key_spec(key) is Some ==> (cmds.len() == 0 <==> (if env.wayland {
                !(!env.kde_wayland && env.wtype) && !env.dotool
            } else {
                !env.xdotool
            }))
        }),
{
}

/// Distinct keys are pressed under distinct keysym names.
pub proof fn keysyms_are_distinct(k1: KeyName, k2: KeyName)
    requires
        linux_key_spec(k1) is Some,
        linux_key_spec(k2) is Some,
        k1 != k2,
    ensures
        (linux_key_spec(k1)->0).0 != (linux_key_spec(k2)->0).0,
{
    reveal_strlit("Return");
    reveal_strlit("Tab");
    reveal_strlit("BackSpace");
    reveal_strlit("Escape");
    reveal_strlit("space");
    reveal_strlit("Delete");
    assert("Return"@ =~= seq!['R', 'e', 't', 'u', 'r', 'n']);
    assert("Tab"@ =~= seq!['T', 'a', 'b']);
    assert("BackSpace"@ =~= seq!['B', 'a', 'c', 'k', 'S', 'p', 'a', 'c', 'e']);
    assert("Escape"@ =~= seq!['E', 's', 'c', 'a', 'p', 'e']);
    assert("space"@ =~= seq!['s', 'p', 'a', 'c', 'e']);
    assert("Delete"@ =~= seq!['D', 'e', 'l', 'e', 't', 'e']);
}

/// Press `key` with the Linux tools: the invocations to try in order until one
/// succeeds (none where simulated key events must do it).
pub fn key_press_commands(env: &InputEnvironment, key: KeyName) -> (r: Vec<ToolCommand>)
    ensures
        r@.len() == key_press_spec(*env, key).len(),
        forall|i: int|
            0 <= i < r@.len() ==> runs(
                #[trigger] r@[i],
                key_press_spec(*env, key)[i].0,
                key_press_spec(*env, key)[i].1,
                None,
            ),
{
    let (arg, lower): (&str, &str) = match key {
        KeyName::Return => ("Return", "return"),
        KeyName::Tab => ("Tab", "tab"),
        KeyName::Backspace => ("BackSpace", "backspace"),
        KeyName::Escape => ("Escape", "escape"),
        KeyName::Space => ("space", "space"),
        KeyName::Delete => ("Delete", "delete"),
        _ => {
            return Vec::new();
        },
    };
    let ghost spec = key_press_spec(*env, key);
    assert(linux_key_spec(key) == Some((arg@, lower@)));
    let mut r: Vec<ToolCommand> = Vec::new();
    if env.wayland {
        if !env.kde_wayland && env.wtype {
            proof {
                lemma_views_2("-k", arg);
            }
            r.push(command("wtype", &["-k", arg]));
        }
        if env.dotool {
            let mut script = "echo key ".to_owned();
            script.append(lower);
            script.append(" | dotool");
            let script_str = script.as_str();
            proof {
                lemma_views_2("-c", script_str);
            }
            let ghost before = r@;
            r.push(command("sh", &["-c", script_str]));
            assert(r@.last() == r@[r@.len() - 1]);
        }
    } else if env.xdotool {
        proof {
            lemma_views_3("key", "--clearmodifiers", arg);
        }
        r.push(command("xdotool", &["key", "--clearmodifiers", arg]));
    }
    r
}


/// The text with its lines joined by line breaks.
pub open spec fn join_lines(lines: Seq<Seq<char>>) -> Seq<char>
    decreases lines.len(),
{
    if lines.len() <= 1 {
        if lines.len() == 1 {
            lines[0]
        } else {
            seq![]
        }
    } else {
        join_lines(lines.drop_last()) + seq!['\n'] + lines.last()
    }
}

/// The lines of a text hold no line break, and joined by line breaks they give
/// the text back. So dotool's input types exactly the text: each line with
/// one `type` action (which cannot spill into another action), each line break
/// with one `key enter` action.
pub proof fn dotool_types_exactly_the_text(text: Seq<char>)
    ensures
        forall|i: int, j: int|
            0 <= i < text_lines(text).len() && 0 <= j < text_lines(text)[i].len() ==> #[trigger] text_lines(
                text,
            )[i][j] != '\n',
        join_lines(text_lines(text)) == text,
        typing_spec(InputTool::Dotool, text).2 == Some(dotool_input(text)),
    decreases text.len(),
{
    if text.len() > 0 {
        let t = text.drop_last();
        dotool_types_exactly_the_text(t);
        lemma_text_lines_nonempty(t);
        let ls = text_lines(t);
        let c = text.last();
        assert(t.push(c) =~= text);
        if c == '\n' {
            assert(ls.push(seq![]).drop_last() =~= ls);
            assert(join_lines(ls.push(seq![])) =~= join_lines(ls) + seq!['\n']);
            assert forall|i: int, j: int|
                0 <= i < text_lines(text).len() && 0 <= j < text_lines(text)[i].len() implies #[trigger] text_lines(
                text,
            )[i][j] != '\n' by {
                if i < ls.len() {
                    assert(text_lines(text)[i] == ls[i]);
                }
            }
        } else {
            let u = ls.update(ls.len() - 1, ls.last().push(c));
            if ls.len() == 1 {
                assert(join_lines(u) =~= join_lines(ls).push(c));
            } else {
                assert(u.drop_last() =~= ls.drop_last());
                assert(join_lines(u) =~= join_lines(ls).push(c));
            }
            assert forall|i: int, j: int|
                0 <= i < text_lines(text).len() && 0 <= j < text_lines(text)[i].len() implies #[trigger] text_lines(
                text,
            )[i][j] != '\n' by {
                if i < ls.len() - 1 {
                    assert(text_lines(text)[i] == ls[i]);
                } else if j < ls.last().len() {
                    assert(text_lines(text)[i][j] == ls[i][j]);
                }
            }
        }
    } else {
        assert(join_lines(text_lines(text)) =~= text);
    }
}

/// The outcome of running one tool invocation.
#[derive(Debug, Clone, Copy, PartialEq, Eq, Structural)]
pub enum AttemptOutcome {
    /// The tool ran and exited successfully.
    Succeeded,
    /// The tool ran and exited with a failure status.
    Failed,
}

/// What to do next while pressing a key with the tools of `key_press_commands`.
#[derive(Debug, Clone, Copy, PartialEq, Eq, Structural)]
pub enum KeyPressStep {
    /// Run the invocation with this index.
    Try(usize),
    /// Stop: whether a tool pressed the key (else simulated key events must).
    Done(bool),
}

/// The first step of pressing a key with `count` tool invocations.
pub fn first_key_press_step(count: usize) -> (r: KeyPressStep)
    ensures
        r == (if count > 0 {
            KeyPressStep::Try(0)
        } else {
            KeyPressStep::Done(false)
        }),
{
    if count > 0 {
        KeyPressStep::Try(0)
    } else {
        KeyPressStep::Done(false)
    }
}

/// The step after invocation `index` of `count` ended with `outcome`: done at
/// the first success, else the next invocation, and not handled after the last.
pub fn next_key_press_step(index: usize, count: usize, outcome: AttemptOutcome) -> (r: KeyPressStep)
    requires
        index < count,
    ensures
        r == (if outcome == AttemptOutcome::Succeeded {
            KeyPressStep::Done(true)
        } else if index + 1 < count {
            KeyPressStep::Try((index + 1) as usize)
        } else {
            KeyPressStep::Done(false)
        }),
{
    match outcome {
        AttemptOutcome::Succeeded => KeyPressStep::Done(true),
        AttemptOutcome::Failed => if index + 1 < count {
            KeyPressStep::Try(index + 1)
        } else {
            KeyPressStep::Done(false)
        },
    }
}

} // verus!
