use handy_clipboard::output::{
    clipboard_via_wl_copy, direct_typing_tool, first_key_press_step, key_combo_command,
    key_combo_tool, key_press_commands, next_key_press_step, parse_key_name, tool_name,
    typing_command, wl_copy_command, AttemptOutcome, InputEnvironment, InputTool, KeyName,
    KeyPressStep, PasteMethod, ToolCommand,
};
use handy_clipboard::paste::{
    append_space_to_last_text, paste_route, plan_paste, segment_action, with_trailing_space,
    PastePlan, PasteRoute, SegmentAction,
};
use handy_clipboard::process::{
    apply_trigger, pick_trigger, process_trigger_words, process_trigger_words_checked,
};
use handy_clipboard::segments::{merge_text_segments, OutputSegment};
use handy_clipboard::triggers::{find_word_boundary_match, TriggerActionType, TriggerWord};

fn trigger(phrase: &str, action_type: TriggerActionType, value: &str) -> TriggerWord {
    TriggerWord {
        id: format!("t_{}", phrase),
        trigger_phrase: phrase.to_string(),
        action_type,
        action_value: value.to_string(),
        enabled: true,
        is_builtin: false,
    }
}

fn text(s: &str) -> OutputSegment {
    OutputSegment::Text(s.to_string())
}

fn key(s: &str) -> OutputSegment {
    OutputSegment::KeyPress(s.to_string())
}

fn env() -> InputEnvironment {
    InputEnvironment {
        wayland: false,
        kde_wayland: false,
        wtype: false,
        dotool: false,
        ydotool: false,
        xdotool: false,
        kwtype: false,
        wl_copy: false,
    }
}

fn args(c: &ToolCommand) -> Vec<&str> {
    c.args.iter().map(|a| a.as_str()).collect()
}

#[test]
fn find_reports_byte_offsets() {
    assert_eq!(find_word_boundary_match("grüße enter", "enter"), Some(8));
    assert_eq!(find_word_boundary_match("", ""), Some(0));
    assert_eq!(find_word_boundary_match("abc", ""), None);
    assert_eq!(find_word_boundary_match("a, b", ""), Some(2));
}

#[test]
fn find_skips_embedded_then_finds_whole_word() {
    assert_eq!(find_word_boundary_match("entering enter", "enter"), Some(9));
}

#[test]
fn find_resumes_at_next_character() {
    assert_eq!(find_word_boundary_match("überall über", "über"), Some(9));
    assert_eq!(find_word_boundary_match("xüber über", "über"), Some(7));
    assert_eq!(find_word_boundary_match("über x", "über"), Some(0));
    assert_eq!(find_word_boundary_match("hello", "enter"), None);
}

#[test]
fn process_without_triggers_keeps_text_unmerged() {
    let segs = process_trigger_words("", &[]);
    assert_eq!(segs, vec![text("")]);
    let segs = process_trigger_words("  a  ", &[]);
    assert_eq!(segs, vec![text("  a  ")]);
}

#[test]
fn process_empty_text_with_triggers_gives_nothing() {
    let t = vec![trigger("enter", TriggerActionType::KeyPress, "enter")];
    assert_eq!(process_trigger_words("", &t), Vec::<OutputSegment>::new());
}

#[test]
fn process_earliest_match_wins() {
    let t = vec![
        trigger("enter", TriggerActionType::KeyPress, "enter"),
        trigger("tab", TriggerActionType::KeyPress, "tab"),
    ];
    let segs = process_trigger_words("a tab b enter", &t);
    assert_eq!(segs, vec![text("a"), key("tab"), text("b"), key("enter")]);
}

#[test]
fn process_longer_phrase_wins_at_same_position() {
    let t = vec![
        trigger("new", TriggerActionType::TextReplacement, "NEW"),
        trigger("new line", TriggerActionType::KeyPress, "enter"),
    ];
    let segs = process_trigger_words("a new line b", &t);
    assert_eq!(segs, vec![text("a"), key("enter"), text("b")]);
}

#[test]
fn process_keeps_apostrophe_after_key_press() {
    let t = vec![trigger("enter", TriggerActionType::KeyPress, "enter")];
    let segs = process_trigger_words("enter?! 'quoted'", &t);
    assert_eq!(segs, vec![key("enter"), text("'quoted'")]);
}

#[test]
fn process_text_replacement_keeps_punctuation() {
    let t = vec![trigger("period", TriggerActionType::TextReplacement, ".")];
    let segs = process_trigger_words("a period, b", &t);
    assert_eq!(segs, vec![text("a . , b")]);
}

#[test]
fn process_non_ascii_text() {
    let t = vec![trigger("enter", TriggerActionType::KeyPress, "enter")];
    let segs = process_trigger_words("Grüße enter Welt", &t);
    assert_eq!(segs, vec![text("Grüße"), key("enter"), text("Welt")]);
}

#[test]
fn process_applies_lowercase_offsets_to_given_text() {
    // 'İ' lowercases to two characters taking one more byte, so the byte
    // offsets found in the lowercased text land one byte further.
    let t = vec![trigger("enter", TriggerActionType::KeyPress, "enter")];
    let segs = process_trigger_words("İ enter x", &t);
    assert_eq!(segs, vec![text("İ e"), key("enter"), text("x")]);
}

#[test]
fn process_checked_detects_endless_rewriting() {
    let t = vec![trigger("", TriggerActionType::TextReplacement, "x")];
    assert_eq!(process_trigger_words_checked("!a", &t), None);
}

#[test]
fn process_checked_detects_panic() {
    // The phrase is found at byte 4 of the lowercased text, which falls inside
    // 'é' of the given text, where the slicing panics.
    let t = vec![trigger("éx", TriggerActionType::KeyPress, "enter")];
    assert_eq!(process_trigger_words_checked("İ éx", &t), None);
    let u = vec![trigger("über", TriggerActionType::KeyPress, "enter")];
    assert_eq!(
        process_trigger_words_checked("xüber über", &u),
        Some(vec![text("xüber"), key("enter")])
    );
}

#[test]
fn pick_and_apply_on_given_lowercase() {
    let t = vec![
        trigger("new", TriggerActionType::TextReplacement, "NEW"),
        trigger("new line", TriggerActionType::KeyPress, "enter"),
    ];
    let lower: Vec<char> = "a new line. b".chars().collect();
    let phrases: Vec<Vec<char>> = vec!["new".chars().collect(), "new line".chars().collect()];
    let lens: Vec<u128> = vec![3, 8];
    assert_eq!(pick_trigger(&lower, &t, &phrases, &lens), Some((1, 2)));
    let rem: Vec<char> = "A NEW LINE. b".chars().collect();
    let (segs, rest) = apply_trigger(&rem, &lower, &t[1], 2, 8).unwrap();
    assert_eq!(segs, vec![text("A"), key("enter")]);
    assert_eq!(rest.iter().collect::<String>(), "b");
    let none: Vec<char> = "nothing here".chars().collect();
    assert_eq!(pick_trigger(&none, &t, &phrases, &lens), None);
}

#[test]
fn removing_disabled_trigger_changes_nothing() {
    let mut off = trigger("tab", TriggerActionType::KeyPress, "tab");
    off.enabled = false;
    let on = trigger("enter", TriggerActionType::KeyPress, "enter");
    let with = process_trigger_words("x tab enter y", &[off, on.clone()]);
    let without = process_trigger_words("x tab enter y", &[on]);
    assert_eq!(with, without);
    assert_eq!(with, vec![text("x tab"), key("enter"), text("y")]);
}

#[test]
fn merge_joins_texts_and_drops_empty() {
    let merged = merge_text_segments(vec![
        text(""),
        text("a"),
        text("b"),
        key("tab"),
        text(""),
        key("enter"),
        text("c"),
    ]);
    assert_eq!(merged, vec![text("a b"), key("tab"), key("enter"), text("c")]);
    assert_eq!(merge_text_segments(merged.clone()), merged);
    assert_eq!(merge_text_segments(vec![text("x"), text("")]), vec![text("x ")]);
}

#[test]
fn tool_choice_for_key_combos() {
    let mut e = env();
    e.wayland = true;
    e.wtype = true;
    e.ydotool = true;
    assert_eq!(key_combo_tool(&e), Some(InputTool::Wtype));
    e.kde_wayland = true;
    assert_eq!(key_combo_tool(&e), Some(InputTool::Ydotool));
    e.wayland = false;
    assert_eq!(key_combo_tool(&e), Some(InputTool::Ydotool));
    e.ydotool = false;
    assert_eq!(key_combo_tool(&e), None);
}

#[test]
fn tool_choice_for_typing() {
    let mut e = env();
    e.wayland = true;
    e.kde_wayland = true;
    e.kwtype = true;
    e.wtype = true;
    assert_eq!(direct_typing_tool(&e), Some(InputTool::Kwtype));
    e.kde_wayland = false;
    assert_eq!(direct_typing_tool(&e), Some(InputTool::Wtype));
    e.wtype = false;
    e.dotool = true;
    assert_eq!(direct_typing_tool(&e), Some(InputTool::Dotool));
    e.wayland = false;
    e.xdotool = true;
    assert_eq!(direct_typing_tool(&e), Some(InputTool::Xdotool));
}

#[test]
fn wl_copy_only_on_wayland() {
    let mut e = env();
    e.wl_copy = true;
    assert!(!clipboard_via_wl_copy(&e));
    e.wayland = true;
    assert!(clipboard_via_wl_copy(&e));
}

#[test]
fn key_combo_command_lines() {
    let c = key_combo_command(InputTool::Wtype, PasteMethod::CtrlShiftV).unwrap();
    assert_eq!(c.program, "wtype");
    assert_eq!(args(&c), vec!["-M", "ctrl", "-M", "shift", "-k", "v"]);
    let c = key_combo_command(InputTool::Ydotool, PasteMethod::ShiftInsert).unwrap();
    assert_eq!(args(&c), vec!["key", "42:1", "110:1", "110:0", "42:0"]);
    let c = key_combo_command(InputTool::Dotool, PasteMethod::CtrlV).unwrap();
    assert_eq!(c.program, "sh");
    assert_eq!(args(&c), vec!["-c", "echo key ctrl+v | dotool"]);
    let c = key_combo_command(InputTool::Xdotool, PasteMethod::ShiftInsert).unwrap();
    assert_eq!(args(&c), vec!["key", "--clearmodifiers", "shift+Insert"]);
    let e = key_combo_command(InputTool::Xdotool, PasteMethod::Direct).unwrap_err();
    assert_eq!(e, "Unsupported paste method");
    let e = key_combo_command(InputTool::Kwtype, PasteMethod::CtrlV).unwrap_err();
    assert_eq!(e, "Unsupported input tool for key combinations");
}

#[test]
fn typing_command_lines() {
    let c = typing_command(InputTool::Xdotool, "-x");
    assert_eq!(c.program, "xdotool");
    assert_eq!(args(&c), vec!["type", "--clearmodifiers", "--", "-x"]);
    assert_eq!(c.stdin, None);
    let c = typing_command(InputTool::Dotool, "hi");
    assert_eq!(c.program, "dotool");
    assert!(c.args.is_empty());
    assert_eq!(c.stdin.as_deref(), Some("type hi\n"));
    let c = typing_command(InputTool::Dotool, "hi\nkey ctrl+w");
    assert_eq!(c.stdin.as_deref(), Some("type hi\nkey enter\ntype key ctrl+w\n"));
    let c = typing_command(InputTool::Dotool, "\n\na");
    assert_eq!(
        c.stdin.as_deref(),
        Some("type \nkey enter\ntype \nkey enter\ntype a\n")
    );
    let c = typing_command(InputTool::Dotool, "");
    assert_eq!(c.stdin.as_deref(), Some("type \n"));
    let c = typing_command(InputTool::Wtype, "a\nb");
    assert_eq!(args(&c), vec!["--", "a\nb"]);
    let c = wl_copy_command("ä");
    assert_eq!(c.program, "wl-copy");
    assert_eq!(args(&c), vec!["--", "ä"]);
    assert_eq!(tool_name(InputTool::Kwtype), "kwtype");
}

#[test]
fn key_names() {
    assert_eq!(parse_key_name("ENTER"), Some(KeyName::Return));
    assert_eq!(parse_key_name("Esc"), Some(KeyName::Escape));
    assert_eq!(parse_key_name("pagedown"), Some(KeyName::PageDown));
    assert_eq!(parse_key_name("f1"), None);
}

#[test]
fn key_press_command_lines() {
    let mut e = env();
    e.wayland = true;
    e.wtype = true;
    e.dotool = true;
    let cs = key_press_commands(&e, KeyName::Backspace);
    assert_eq!(cs.len(), 2);
    assert_eq!(cs[0].program, "wtype");
    assert_eq!(args(&cs[0]), vec!["-k", "BackSpace"]);
    assert_eq!(args(&cs[1]), vec!["-c", "echo key backspace | dotool"]);
    assert!(key_press_commands(&e, KeyName::Home).is_empty());
    let mut x = env();
    x.xdotool = true;
    let cs = key_press_commands(&x, KeyName::Space);
    assert_eq!(args(&cs[0]), vec!["key", "--clearmodifiers", "space"]);
}

#[test]
fn segment_actions_and_routes() {
    assert_eq!(segment_action(&text("")), SegmentAction::Skip);
    assert_eq!(segment_action(&text("a")), SegmentAction::Paste("a".to_string()));
    assert_eq!(segment_action(&key("tab")), SegmentAction::PressKey("tab".to_string()));
    assert_eq!(paste_route(PasteMethod::NoPaste), PasteRoute::Skip);
    assert_eq!(paste_route(PasteMethod::Direct), PasteRoute::Direct);
    assert_eq!(paste_route(PasteMethod::CtrlShiftV), PasteRoute::Clipboard);
}

#[test]
fn trailing_space_goes_to_last_text() {
    let mut segs = vec![text("a"), text("b"), key("enter")];
    append_space_to_last_text(&mut segs);
    assert_eq!(segs, vec![text("a"), text("b "), key("enter")]);
    let mut keys = vec![key("enter")];
    append_space_to_last_text(&mut keys);
    assert_eq!(keys, vec![key("enter")]);
    assert_eq!(with_trailing_space("x".to_string(), true), "x ");
    assert_eq!(with_trailing_space("x".to_string(), false), "x");
}

#[test]
fn paste_plans() {
    let t = vec![trigger("enter", TriggerActionType::KeyPress, "enter")];
    assert_eq!(
        plan_paste("hi enter".to_string(), true, true, &t),
        Some(PastePlan {
            text: "hi enter ".to_string(),
            segments: Some(vec![text("hi"), key("enter")]),
        })
    );
    assert_eq!(
        plan_paste("hi enter".to_string(), true, false, &t),
        Some(PastePlan { text: "hi enter ".to_string(), segments: None })
    );
    assert_eq!(
        plan_paste("hi".to_string(), false, true, &[]),
        Some(PastePlan { text: "hi".to_string(), segments: None })
    );
    let empty = vec![trigger("", TriggerActionType::TextReplacement, "x")];
    assert_eq!(plan_paste("!a".to_string(), false, true, &empty), None);
}

#[test]
fn phrase_case_gives_same_output() {
    let upper = vec![trigger("ENTER", TriggerActionType::KeyPress, "enter")];
    let lower = vec![trigger("enter", TriggerActionType::KeyPress, "enter")];
    let a = process_trigger_words("Hello Enter World", &upper);
    let b = process_trigger_words("Hello Enter World", &lower);
    assert_eq!(a, b);
    assert_eq!(a, vec![text("Hello"), key("enter"), text("World")]);
}

#[test]
fn keys_come_only_from_enabled_key_triggers() {
    let mut off = trigger("tab", TriggerActionType::KeyPress, "tab");
    off.enabled = false;
    let t = vec![
        off,
        trigger("enter", TriggerActionType::KeyPress, "return"),
        trigger("comma", TriggerActionType::TextReplacement, ","),
    ];
    let segs = process_trigger_words("a tab b comma c enter", &t);
    assert_eq!(segs, vec![text("a tab b , c"), key("return")]);
}

#[test]
fn key_press_steps() {
    assert_eq!(first_key_press_step(0), KeyPressStep::Done(false));
    assert_eq!(first_key_press_step(2), KeyPressStep::Try(0));
    assert_eq!(next_key_press_step(0, 2, AttemptOutcome::Failed), KeyPressStep::Try(1));
    assert_eq!(next_key_press_step(1, 2, AttemptOutcome::Failed), KeyPressStep::Done(false));
    assert_eq!(next_key_press_step(0, 2, AttemptOutcome::Succeeded), KeyPressStep::Done(true));
}

#[test]
fn keeping_only_enabled_triggers_changes_nothing() {
    let mut off = trigger("enter", TriggerActionType::KeyPress, "enter");
    off.enabled = false;
    let all = vec![off.clone(), trigger("tab", TriggerActionType::KeyPress, "tab"), off];
    let enabled: Vec<TriggerWord> = all.iter().filter(|t| t.enabled).cloned().collect();
    let text_in = "a enter tab b";
    assert_eq!(process_trigger_words(text_in, &all), process_trigger_words(text_in, &enabled));
    let out = process_trigger_words(text_in, &all);
    assert_eq!(merge_text_segments(out.clone()), out);
}

#[test]
fn text_case_gives_same_segments_up_to_case() {
    let t = vec![
        trigger("enter", TriggerActionType::KeyPress, "enter"),
        trigger("comma", TriggerActionType::TextReplacement, ","),
    ];
    let a = process_trigger_words("Hello ENTER. World Comma Again", &t);
    let b = process_trigger_words("hello enter. world comma again", &t);
    assert_eq!(a, vec![text("Hello"), key("enter"), text("World , Again")]);
    assert_eq!(a.len(), b.len());
    for (x, y) in a.iter().zip(b.iter()) {
        match (x, y) {
            (OutputSegment::Text(p), OutputSegment::Text(q)) => assert!(p.eq_ignore_ascii_case(q)),
            (OutputSegment::KeyPress(p), OutputSegment::KeyPress(q)) => assert_eq!(p, q),
            _ => panic!("segments of different kinds"),
        }
    }
}
