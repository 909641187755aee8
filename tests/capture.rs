use capture_cli::{
    answer_enables_step_comments, contains_text, ends_with_text, find_text, folded_answer_is_yes,
    header_to_add, is_script_file, join_words, plan_capture, record_step, same_text,
    script_file_name, script_files, script_header, set_step_comments, setting_line_text,
    step_comments_enabled, step_text,
};

const ON: &str = "# - enable_step_comments=true";
const OFF: &str = "# - enable_step_comments=false";
const GREEN_HELLO: &str = "echo -e \"\\033[0;32mhello\\033[0m\"";

fn words(ws: &[&str]) -> Vec<String> {
    ws.iter().map(|w| w.to_string()).collect()
}

fn fresh_script() -> String {
    header_to_add(None)
}

fn count(text: &str, part: &str) -> usize {
    text.matches(part).count()
}

#[test]
fn find_text_gives_leftmost_char_index() {
    assert_eq!(find_text("abcabc", "bc"), Some(1));
    assert_eq!(find_text("héllo", "llo"), Some(2));
    assert_eq!(find_text("abc", "x"), None);
    assert_eq!(find_text("ab", "abc"), None);
    assert_eq!(find_text("abc", ""), Some(0));
}

#[test]
fn contains_and_ends_with() {
    assert!(contains_text("one two", "two"));
    assert!(!contains_text("one two", "three"));
    assert!(ends_with_text("run.sh", ".sh"));
    assert!(!ends_with_text("run.sh.bak", ".sh"));
    assert!(same_text("yes", "yes"));
    assert!(!same_text("yes", "ye"));
}

#[test]
fn header_holds_marker_and_settings_marker() {
    let h = script_header();
    assert!(h.starts_with("\n#!/bin/sh\n"));
    assert!(h.contains("# Script generated using CaptureCLI by coderipper"));
    assert!(h.ends_with("# CaptureSettings:\n"));
}

#[test]
fn new_script_gets_header_and_line_break() {
    let added = header_to_add(None);
    assert_eq!(added, format!("{}\n", script_header()));
}

#[test]
fn header_added_once() {
    let first = fresh_script();
    assert_eq!(header_to_add(Some(&first)), "");
    let mut foreign = String::from("ls\n");
    let add = header_to_add(Some(&foreign));
    assert_eq!(add, format!("{}\n", script_header()));
    foreign.push_str(&add);
    assert_eq!(header_to_add(Some(&foreign)), "");
    assert_eq!(count(&foreign, "# Script generated using CaptureCLI"), 1);
}

#[test]
fn script_file_names() {
    assert_eq!(script_file_name("foo"), "foo.sh");
    assert!(is_script_file("foo.sh"));
    assert!(is_script_file("a.b.sh"));
    assert!(!is_script_file(".sh"));
    assert!(!is_script_file("foo.shx"));
    assert!(!is_script_file("foo.txt"));
}

#[test]
fn listing_keeps_script_files_in_order() {
    let names = words(&["b.sh", "notes.txt", "a.sh", ".sh", "c.sh.bak"]);
    assert_eq!(script_files(&names), words(&["b.sh", "a.sh"]));
    assert_eq!(script_files(&Vec::new()), Vec::<String>::new());
}

#[test]
fn created_script_is_listed() {
    let mut names = words(&["a.sh", "notes.txt"]);
    names.push(script_file_name("new"));
    assert_eq!(script_files(&names), words(&["a.sh", "new.sh"]));
}

#[test]
fn setting_lines() {
    assert_eq!(setting_line_text(true), ON);
    assert_eq!(setting_line_text(false), OFF);
}

#[test]
fn setting_inserted_after_marker() {
    let script = fresh_script();
    let updated = set_step_comments(&script, true);
    assert!(updated.contains("# CaptureSettings:\n# - enable_step_comments=true\n"));
    assert_eq!(updated.len(), script.len() + ON.len() + 1);
    assert!(updated.ends_with("# CaptureSettings:\n# - enable_step_comments=true\n\n"));
}

#[test]
fn setting_replaced_in_place() {
    let text = "a\n# - enable_step_comments=true\nb\n";
    assert_eq!(
        set_step_comments(&format!("CaptureSettings:\n{}", text), false),
        "CaptureSettings:\na\n# - enable_step_comments=false\nb\n"
    );
}

#[test]
fn only_first_setting_line_replaced() {
    let text = "CaptureSettings:\n# - enable_step_comments=false\n# - enable_step_comments=false";
    assert_eq!(
        set_step_comments(text, true),
        "CaptureSettings:\n# - enable_step_comments=true\n# - enable_step_comments=false"
    );
}

#[test]
fn setting_not_whole_line_is_not_replaced() {
    let text = "CaptureSettings:\nx # - enable_step_comments=true\n";
    assert_eq!(
        set_step_comments(text, false),
        "CaptureSettings:\n# - enable_step_comments=false\nx # - enable_step_comments=true\n"
    );
}

#[test]
fn setting_goes_after_whole_marker_line() {
    assert_eq!(
        set_step_comments("CaptureSettings:\nx", true),
        "CaptureSettings:\n# - enable_step_comments=true\nx"
    );
    assert_eq!(
        set_step_comments("a\n# CaptureSettings: x\nb\n", false),
        "a\n# CaptureSettings: x\n# - enable_step_comments=false\nb\n"
    );
    assert_eq!(
        set_step_comments("CaptureSettings: x", true),
        "CaptureSettings: x\n# - enable_step_comments=true"
    );
}

#[test]
fn settings_section_appended_without_marker() {
    assert_eq!(
        set_step_comments("echo a\n", true),
        "echo a\n\nCaptureSettings:\n# - enable_step_comments=true\n"
    );
    assert_eq!(set_step_comments("", false), "\nCaptureSettings:\n# - enable_step_comments=false\n");
}

#[test]
fn setting_round_trip() {
    for v in [true, false] {
        let updated = set_step_comments(&fresh_script(), v);
        assert_eq!(step_comments_enabled(&updated), v);
        let again = set_step_comments(&updated, !v);
        assert_eq!(step_comments_enabled(&again), !v);
    }
}

#[test]
fn on_then_off_leaves_one_line() {
    let on = set_step_comments(&fresh_script(), true);
    let off = set_step_comments(&on, false);
    assert_eq!(count(&off, "# - enable_step_comments="), 1);
    assert_eq!(count(&off, OFF), 1);
    assert_eq!(count(&off, ON), 0);
}

#[test]
fn answers() {
    assert!(answer_enables_step_comments("y\n"));
    assert!(answer_enables_step_comments("  YES \n"));
    assert!(answer_enables_step_comments("Y"));
    assert!(!answer_enables_step_comments("\n"));
    assert!(!answer_enables_step_comments("no"));
    assert!(!answer_enables_step_comments("yess"));
    assert!(folded_answer_is_yes("yes"));
    assert!(!folded_answer_is_yes("YES"));
}

#[test]
fn step_lines() {
    assert_eq!(step_text("", "ls"), "ls\n");
    assert_eq!(step_text("hello", "echo hi"), format!("{}\necho hi\n", GREEN_HELLO));
}

#[test]
fn record_without_step_comments_ignores_answer() {
    assert_eq!(record_step(&fresh_script(), "hello", "make"), "make\n");
}

#[test]
fn record_trims_comment_and_skips_blank() {
    let script = set_step_comments(&fresh_script(), true);
    assert_eq!(
        record_step(&script, "  hello \n", "echo hi"),
        format!("{}\necho hi\n", GREEN_HELLO)
    );
    assert_eq!(record_step(&script, "   \n", "echo hi"), "echo hi\n");
}

#[test]
fn record_ends_unfinished_last_line() {
    assert_eq!(record_step("x", "", "ls"), "\nls\n");
    assert_eq!(record_step("x\n", "", "ls"), "ls\n");
    assert_eq!(record_step("", "", "ls"), "ls\n");
    let script = format!("{}echo a", set_step_comments(&fresh_script(), true));
    assert_eq!(record_step(&script, "hello", "echo hi"), format!("\n{}\necho hi\n", GREEN_HELLO));
}

#[test]
fn record_trims_unicode_white_space() {
    let script = set_step_comments(&fresh_script(), true);
    assert_eq!(
        record_step(&script, "\u{3000}\thello\u{a0}\r\n", "ls"),
        format!("{}\nls\n", GREEN_HELLO)
    );
    assert_eq!(record_step(&script, "\u{2028} \u{85}", "ls"), "ls\n");
}

#[test]
fn header_marker_stays_single() {
    let mut script = String::from("echo a");
    for _ in 0..2 {
        let add = header_to_add(Some(&script));
        script.push_str(&add);
    }
    assert_eq!(count(&script, "# Script generated using CaptureCLI"), 1);
}

#[test]
fn command_is_last_line() {
    let script = set_step_comments(&fresh_script(), true);
    for answer in ["", "note"] {
        let mut after = script.clone();
        after.push_str(&record_step(&script, answer, "false || exit 3"));
        assert!(after.ends_with("\nfalse || exit 3\n"));
    }
}

#[test]
fn joins_words_with_spaces() {
    let ws = words(&["foo", "echo", "hi"]);
    assert_eq!(join_words(&ws, 1), "echo hi");
    assert_eq!(join_words(&ws, 0), "foo echo hi");
    assert_eq!(join_words(&ws, 3), "");
}

#[test]
fn plans() {
    assert_eq!(plan_capture(&Vec::new()), None);
    assert_eq!(
        plan_capture(&words(&["foo", "echo", "hi"])),
        Some(("foo".to_string(), "echo hi".to_string()))
    );
}

#[test]
fn new_script_with_step_comments() {
    let file = script_file_name("foo");
    assert_eq!(file, "foo.sh");
    let script = header_to_add(None);
    assert!(script.contains("# Script generated using CaptureCLI"));
    let enabled = answer_enables_step_comments("y\n");
    let script = set_step_comments(&script, enabled);
    let marker = script.find("CaptureSettings:").unwrap();
    let line = script.find(ON).unwrap();
    assert!(marker < line);
}

#[test]
fn run_with_step_comment() {
    let (name, command) = plan_capture(&words(&["foo", "echo", "hi"])).unwrap();
    assert_eq!(name, "foo");
    let script = set_step_comments(&header_to_add(None), true);
    let added = record_step(&script, "hello\n", &command);
    assert_eq!(added, format!("{}\necho hi\n", GREEN_HELLO));
}

#[test]
fn bare_command_goes_to_default() {
    let (name, command) = plan_capture(&words(&["ls -la"])).unwrap();
    assert_eq!(script_file_name(&name), "default.sh");
    let script = header_to_add(None);
    let mut after = script.clone();
    after.push_str(&record_step(&script, "", &command));
    assert!(after.ends_with("\nls -la\n"));
}
