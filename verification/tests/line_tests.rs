use shell_core::builtin;
use shell_core::builtin_cmd::BuiltinAction;
use shell_core::history::CmdHistory;
use shell_core::misc::get_cmd_from_path;
use shell_core::output::OutputStrings;
use shell_core::tokenizer::tokenize;
use shell_core::userinput::{do_tab_completion, submit_line, tab_completion_fails, EditorAction, Key, LineEditor};

fn strings(v: &[&str]) -> Vec<String> {
    v.iter().map(|s| s.to_string()).collect()
}

fn tok(s: &str) -> Vec<String> {
    tokenize(&s.to_string())
}

#[test]
fn tokenize_plain_words() {
    assert_eq!(tok("echo hello   world"), strings(&["echo", "hello", "world"]));
    assert_eq!(tok(""), strings(&[""]));
    assert_eq!(tok(" a"), strings(&["", "a"]));
    assert_eq!(tok("a "), strings(&["a", ""]));
}

#[test]
fn tokenize_quotes() {
    assert_eq!(tok("echo 'a  b'"), strings(&["echo", "a  b"]));
    assert_eq!(tok("echo \"it's\""), strings(&["echo", "it's"]));
    assert_eq!(tok("'a b'"), strings(&["a b"]));
    assert_eq!(tok("\"\""), strings(&[""]));
    assert_eq!(tok("a''b"), strings(&["ab"]));
    assert_eq!(tok("'x''y'"), strings(&["xy"]));
    assert_eq!(tok("\"x\"\"y\""), strings(&["xy"]));
    assert_eq!(tok("'a'b"), strings(&["ab"]));
    assert_eq!(tok("'unclosed here"), strings(&["unclosed here"]));
}

#[test]
fn tokenize_unquoted_law_example() {
    let s = "  ls -l\t/tmp  ";
    let t = tok(s);
    assert_eq!(t.concat(), s.chars().filter(|c| !c.is_whitespace()).collect::<String>());
    assert!(t.iter().all(|w| !w.chars().any(char::is_whitespace)));
}

#[test]
fn tokenize_agrees_with_split_whitespace() {
    for s in ["a", "ls -l   /tmp", "echo\thello\u{3000}world"] {
        let expected: Vec<String> = s.split_whitespace().map(String::from).collect();
        assert_eq!(tok(s), expected);
    }
}

#[test]
fn output_line_ends() {
    let o = OutputStrings::from_out("hi");
    assert_eq!(o.out, "hi\n");
    assert_eq!(o.err, "");
    assert_eq!(OutputStrings::from_out("hi\n").out, "hi\n");
    assert_eq!(OutputStrings::from_out("").out, "");
    let e = OutputStrings::from_err("bad");
    assert_eq!(e.err, "bad\n");
    assert_eq!(e.out, "");
    assert_eq!(OutputStrings::from_out(&OutputStrings::from_out("x").out).out, "x\n");
}

fn history(entries: &[&str]) -> CmdHistory {
    CmdHistory { data: strings(entries), line_written_to_file: None }
}

fn shown(a: EditorAction) -> String {
    match a {
        EditorAction::ShowLine(s) => s,
        other => panic!("expected a redrawn line, got {:?}", other),
    }
}

#[test]
fn editor_typing_and_erasing() {
    let h = history(&[]);
    let mut ed = LineEditor::new();
    assert!(matches!(ed.handle_key(Key::Char('l'), &h, &[]), EditorAction::Echo('l')));
    assert!(matches!(ed.handle_key(Key::Char('s'), &h, &[]), EditorAction::Echo('s')));
    assert!(matches!(ed.handle_key(Key::Backspace, &h, &[]), EditorAction::EraseLast));
    assert_eq!(ed.user_input, "l");
    assert!(matches!(ed.handle_key(Key::Other, &h, &[]), EditorAction::Nothing));
    assert!(matches!(ed.handle_key(Key::Char('\n'), &h, &[]), EditorAction::Submit));
    assert_eq!(ed.user_input, "l\n");
    let mut empty = LineEditor::new();
    assert!(matches!(empty.handle_key(Key::Backspace, &h, &[]), EditorAction::EraseLast));
    assert_eq!(empty.user_input, "");
}

#[test]
fn editor_history_browsing() {
    let h = history(&["first", "second"]);
    let mut ed = LineEditor::new();
    assert_eq!(shown(ed.handle_key(Key::Up, &h, &[])), "second");
    assert_eq!(shown(ed.handle_key(Key::Up, &h, &[])), "first");
    assert!(matches!(ed.handle_key(Key::Up, &h, &[]), EditorAction::Nothing));
    assert_eq!(ed.user_input, "first");
    assert_eq!(ed.which_history_entry, 2);
    // the first Down after Up steps back twice
    assert_eq!(shown(ed.handle_key(Key::Down, &h, &[])), "second");
    assert_eq!(ed.which_history_entry, 0);
    assert_eq!(shown(ed.handle_key(Key::Down, &h, &[])), "second");
    assert!(ed.history_search_down);
}

#[test]
fn tab_completion() {
    let path_cmds = strings(&["grep", "git"]);
    assert_eq!(do_tab_completion("ec", &path_cmds), ("echo ".to_string(), false));
    assert_eq!(do_tab_completion("sudo hi", &path_cmds), ("sudo history ".to_string(), false));
    assert_eq!(do_tab_completion("gr", &path_cmds), ("grep ".to_string(), false));
    assert_eq!(do_tab_completion("zz", &path_cmds), ("zz".to_string(), true));
    assert_eq!(do_tab_completion("   ", &path_cmds), ("   ".to_string(), false));
    assert!(tab_completion_fails("ec ", &path_cmds));
    assert!(!tab_completion_fails("zz ", &path_cmds));
    assert!(!tab_completion_fails("ec", &path_cmds));
    let h = history(&[]);
    let mut ed = LineEditor::new();
    ed.handle_key(Key::Char('t'), &h, &[]);
    ed.handle_key(Key::Char('y'), &h, &[]);
    assert_eq!(shown(ed.handle_key(Key::Char('\t'), &h, &[])), "type ");
    let mut ed = LineEditor::new();
    ed.handle_key(Key::Char('q'), &h, &[]);
    assert!(matches!(ed.handle_key(Key::Char('\t'), &h, &[]), EditorAction::BellAndShowLine(s) if s == "q"));
}

#[test]
fn submitting_a_line() {
    let mut h = history(&["old"]);
    let words = submit_line("  echo  a b \n", &mut h);
    assert_eq!(words, strings(&["echo", "a", "b"]));
    assert_eq!(h.data, strings(&["old", "echo  a b"]));
    let words = submit_line("\n", &mut h);
    assert!(words.is_empty());
    assert_eq!(h.data.last().map(String::as_str), Some(""));
}

#[test]
fn first_form_builtins() {
    assert_eq!("pwd".parse::<builtin::Builtins>(), Ok(builtin::Builtins::Pwd));
    assert_eq!(builtin::Builtins::from_name("nope"), None);
    assert_eq!(builtin::echo_output(&strings(&["echo", "a", "b"])), "a b \n");
    assert_eq!(builtin::echo_output(&strings(&["echo"])), "\n");
    assert!(matches!(builtin::cd_request(&strings(&["cd"])), BuiltinAction::Print(s) if s.is_empty()));
    assert!(matches!(builtin::cd_request(&strings(&["cd", "~"])), BuiltinAction::ChangeDirHome));
    assert!(matches!(
        builtin::history_args(&strings(&["history", "-r", "f"])),
        Ok(shell_core::builtin_cmd::HistoryArgs::ReadHistory(p)) if p == "f"
    ));
    assert!(matches!(
        builtin::history_args(&strings(&["history", "-a"])),
        Err(shell_core::builtin_cmd::HistoryArgErrors::MissingPathArgument(_))
    ));
    assert!(matches!(
        builtin::history_args(&strings(&["history"])),
        Ok(shell_core::builtin_cmd::HistoryArgs::Show)
    ));
    assert_eq!(builtin::builtin_type(&strings(&["type", "exit"]), None), "exit is a shell builtin");
}

#[test]
fn search_path_lookup() {
    assert_eq!(get_cmd_from_path("no_such_program_here", "/nonexistent:/also-missing"), None);
    let sh = get_cmd_from_path("sh", "/nonexistent:/bin:/usr/bin");
    assert!(sh.as_deref() == Some("/bin/sh") || sh.as_deref() == Some("/usr/bin/sh"));
    // an empty search path has one empty directory, so the command is looked for at the root
    assert_eq!(get_cmd_from_path("no_such_program_here", ""), None);
}
