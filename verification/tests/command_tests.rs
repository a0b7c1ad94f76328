use shell_core::external_cmd::{candidates, from_path, pick_found};
use shell_core::builtin_cmd::{
    builtin_cd, builtin_echo, builtin_history, builtin_type, cd_failure, describe_type,
    BuiltinAction, Builtins, HistoryArgErrors, HistoryArgs,
};
use shell_core::cmd_parser::{Command, CommandErrors, CommandKind, OutputDirection};
use shell_core::history::{CmdHistory, HistHandling};

fn strings(v: &[&str]) -> Vec<String> {
    v.iter().map(|s| s.to_string()).collect()
}

fn history(entries: &[&str]) -> CmdHistory {
    CmdHistory { data: strings(entries), line_written_to_file: None }
}

fn printed(a: BuiltinAction) -> String {
    match a {
        BuiltinAction::Print(s) => s,
        other => panic!("expected printed text, got {:?}", other),
    }
}

#[test]
fn builtin_names_round_trip() {
    let all = [
        Builtins::Echo,
        Builtins::Exit,
        Builtins::Type,
        Builtins::Pwd,
        Builtins::Cd,
        Builtins::History,
    ];
    for b in all {
        assert_eq!(Builtins::from_name(&b.get_cmd_name()), Some(b));
        assert_eq!(b.get_cmd_name().parse::<Builtins>(), Ok(b));
    }
    assert_eq!(
        Builtins::all_cmd_names(),
        strings(&["echo", "exit", "type", "pwd", "cd", "history"])
    );
    assert_eq!(Builtins::from_name("ls"), None);
    assert_eq!(Builtins::from_name("Echo"), None);
    assert!("".parse::<Builtins>().is_err());
}

#[test]
fn echo_joins_with_spaces() {
    assert_eq!(builtin_echo(&strings(&["hello", "world"])), "hello world");
    assert_eq!(builtin_echo(&strings(&[])), "");
    assert_eq!(builtin_echo(&strings(&["a b", "", "c"])), "a b  c");
}

#[test]
fn history_arguments() {
    assert!(matches!(HistoryArgs::new(&strings(&[])), Ok(HistoryArgs::Show)));
    assert!(matches!(HistoryArgs::new(&strings(&["3"])), Ok(HistoryArgs::ShowLast(3))));
    assert!(matches!(HistoryArgs::new(&strings(&["+3"])), Ok(HistoryArgs::ShowLast(3))));
    assert!(matches!(
        HistoryArgs::new(&strings(&["-r", "f", "x"])),
        Ok(HistoryArgs::ReadHistory(p)) if p == "f"
    ));
    assert!(matches!(
        HistoryArgs::new(&strings(&["-w", "f", "x"])),
        Ok(HistoryArgs::WriteHistory(p)) if p == "f"
    ));
    assert!(matches!(
        HistoryArgs::new(&strings(&["-a", "f", "x"])),
        Ok(HistoryArgs::AppendHistory(p)) if p == "f"
    ));
    assert!(matches!(
        HistoryArgs::new(&strings(&["-w", "f"])),
        Ok(HistoryArgs::WriteHistory(p)) if p == "f"
    ));
    assert!(matches!(
        HistoryArgs::new(&strings(&["-r", "f"])),
        Ok(HistoryArgs::ReadHistory(p)) if p == "f"
    ));
    assert!(matches!(
        HistoryArgs::new(&strings(&["-a", "f"])),
        Ok(HistoryArgs::AppendHistory(p)) if p == "f"
    ));
    match HistoryArgs::new(&strings(&["-w"])) {
        Err(e) => assert_eq!(
            e.message(),
            "Missing Path Argument: Usage: history -w <Path_to_History>"
        ),
        Ok(_) => panic!("a path flag without a path is refused"),
    }
    match HistoryArgs::new(&strings(&["x"])) {
        Err(e @ HistoryArgErrors::NoIntArg) => {
            assert_eq!(e.message(), "Number of Entrys to Show must be Integer")
        }
        _ => panic!("a non-number is refused"),
    }
}

#[test]
fn history_listing() {
    let mut h = history(&["ls", "pwd", "echo hi"]);
    assert_eq!(
        printed(builtin_history(&strings(&[]), &mut h)),
        "    1 ls\n    2 pwd\n    3 echo hi\n"
    );
    assert_eq!(printed(builtin_history(&strings(&["2"]), &mut h)), "    2 pwd\n    3 echo hi\n");
    assert_eq!(printed(builtin_history(&strings(&["0"]), &mut h)), "");
    assert_eq!(
        printed(builtin_history(&strings(&["-r"]), &mut h)),
        "Missing Path Argument: Usage: history -r <Path_to_History>"
    );
    assert_eq!(h.line_written_to_file, None);
}

#[test]
fn history_saving_actions() {
    let mut h = history(&["a", "b"]);
    match builtin_history(&strings(&["-w", "file", "extra"]), &mut h) {
        BuiltinAction::WriteHistory { path, contents } => {
            assert_eq!(path, "file");
            assert_eq!(contents, "a\nb\n");
        }
        other => panic!("unexpected {:?}", other),
    }
    assert_eq!(h.line_written_to_file, Some(1));
    h.data.push("c".to_string());
    h.data.push("d".to_string());
    match builtin_history(&strings(&["-a", "file"]), &mut h) {
        BuiltinAction::AppendHistory { path, contents } => {
            assert_eq!(path, "file");
            assert_eq!(contents, "c\nd\n");
        }
        other => panic!("unexpected {:?}", other),
    }
    assert_eq!(h.line_written_to_file, Some(3));
    match builtin_history(&strings(&["-r", "in"]), &mut h) {
        BuiltinAction::ReadHistory(p) => assert_eq!(p, "in"),
        other => panic!("unexpected {:?}", other),
    }
}

#[test]
fn type_reports() {
    assert_eq!(builtin_type(&strings(&[]), None), "");
    assert_eq!(builtin_type(&strings(&["echo"]), None), "echo is a shell builtin");
    assert_eq!(
        builtin_type(&strings(&["no_such_program_here"]), Some("/nonexistent-dir")),
        "no_such_program_here: not found"
    );
    assert_eq!(describe_type("ls", Some("/bin/ls".to_string())), "ls is /bin/ls");
    assert_eq!(describe_type("zz", None), "zz: not found");
}

#[test]
fn type_finds_programs_on_the_path() {
    // `sh` is present on any Unix system.
    let out = builtin_type(&strings(&["sh"]), Some("/nonexistent-dir:/bin:/usr/bin"));
    assert!(out == "sh is /bin/sh" || out == "sh is /usr/bin/sh", "{}", out);
}

#[test]
fn cd_actions() {
    assert!(matches!(builtin_cd(&strings(&[])), BuiltinAction::Print(s) if s.is_empty()));
    assert!(matches!(builtin_cd(&strings(&["~"])), BuiltinAction::ChangeDirHome));
    assert!(matches!(builtin_cd(&strings(&["/tmp", "x"])), BuiltinAction::ChangeDir(p) if p == "/tmp"));
    assert_eq!(cd_failure("/nope"), "cd: /nope: No such file or directory");
}

#[test]
fn execute_dispatches() {
    let mut h = history(&["x"]);
    assert_eq!(printed(Builtins::Echo.execute(&strings(&["a", "b"]), &mut h, None)), "a b");
    assert!(matches!(Builtins::Exit.execute(&strings(&[]), &mut h, None), BuiltinAction::Exit));
    assert!(matches!(Builtins::Pwd.execute(&strings(&[]), &mut h, None), BuiltinAction::PrintWorkingDir));
    assert_eq!(
        printed(Builtins::Type.execute(&strings(&["cd"]), &mut h, None)),
        "cd is a shell builtin"
    );
    assert_eq!(printed(Builtins::History.execute(&strings(&[]), &mut h, None)), "    1 x\n");
    assert!(matches!(Builtins::Cd.execute(&strings(&["~"]), &mut h, None), BuiltinAction::ChangeDirHome));
}

fn parse_ok(words: &[&str]) -> Command {
    match Command::parse(&strings(words), Some("/nonexistent-dir")) {
        Ok(c) => c,
        Err(e) => panic!("unexpected error {}", e.message()),
    }
}

#[test]
fn parse_plain_builtin() {
    let c = parse_ok(&["echo", "a", "b"]);
    assert!(matches!(c.cmd, CommandKind::Builtin(Builtins::Echo)));
    assert_eq!(c.args, strings(&["a", "b"]));
    assert!(matches!(c.out_direct, OutputDirection::Terminal));
    assert!(matches!(c.err_direct, OutputDirection::Terminal));
}

#[test]
fn parse_redirections() {
    let c = parse_ok(&["echo", "a", ">", "out", "b", "2>>", "err"]);
    assert_eq!(c.args, strings(&["a", "b"]));
    assert!(matches!(c.out_direct, OutputDirection::File(ref p) if p == "out"));
    assert!(matches!(c.err_direct, OutputDirection::Append(ref p) if p == "err"));
    let c = parse_ok(&["pwd", "1>>", "o", "2>", "e"]);
    assert!(c.args.is_empty());
    assert!(matches!(c.out_direct, OutputDirection::Append(ref p) if p == "o"));
    assert!(matches!(c.err_direct, OutputDirection::File(ref p) if p == "e"));
    // the last redirection of a stream wins, and an operator can be a path
    let c = parse_ok(&["echo", ">>", "first", "1>", ">"]);
    assert!(matches!(c.out_direct, OutputDirection::File(ref p) if p == ">"));
}

#[test]
fn parse_errors() {
    match Command::parse(&strings(&[]), None) {
        Err(e @ CommandErrors::NoInput) => assert_eq!(e.message(), "input vector empty"),
        _ => panic!("empty input is refused"),
    }
    match Command::parse(&strings(&["no_such_program_here"]), Some("/nonexistent-dir")) {
        Err(e) => assert_eq!(e.message(), "no_such_program_here: command not found"),
        Ok(_) => panic!("unknown commands are refused"),
    }
    match Command::parse(&strings(&["echo", "x", "1>"]), None) {
        Err(e) => assert_eq!(e.message(), "Missing path after redirection operator (Stdout)"),
        Ok(_) => panic!("a redirection needs a path"),
    }
    match Command::parse(&strings(&["echo", "2>>"]), None) {
        Err(e) => assert_eq!(e.message(), "Missing path after redirection operator (Stderr)"),
        Ok(_) => panic!("a redirection needs a path"),
    }
}

#[test]
fn assemble_uses_the_resolved_path() {
    match Command::assemble(&strings(&["prog", "x", ">", "o"]), Some("/opt/prog".to_string())) {
        Ok(c) => {
            assert!(matches!(c.cmd, CommandKind::External(ref p) if p == "/opt/prog"));
            assert_eq!(c.args, strings(&["x"]));
            assert!(matches!(c.out_direct, OutputDirection::File(ref p) if p == "o"));
        }
        Err(e) => panic!("unexpected error {}", e.message()),
    }
    assert!(matches!(
        Command::assemble(&strings(&["prog"]), None),
        Err(CommandErrors::CmdNotFound(ref n)) if n == "prog"
    ));
    // a builtin ignores any resolved path
    assert!(matches!(
        Command::assemble(&strings(&["cd"]), Some("/x/cd".to_string())),
        Ok(Command { cmd: CommandKind::Builtin(Builtins::Cd), .. })
    ));
}

#[test]
fn parse_finds_programs_on_the_path() {
    match Command::parse(&strings(&["sh", "-c", "true"]), Some("/bin:/usr/bin")) {
        Ok(c) => {
            assert!(matches!(c.cmd, CommandKind::External(ref p) if p == "/bin/sh" || p == "/usr/bin/sh"));
            assert_eq!(c.args, strings(&["-c", "true"]));
        }
        Err(e) => panic!("unexpected error {}", e.message()),
    }
}

#[test]
fn history_read_write_round_trip() {
    let mut h = history(&["ls -l", "", "echo 'a  b'"]);
    let text = h.write_to();
    assert_eq!(text, "ls -l\n\necho 'a  b'\n");
    let back = CmdHistory::init(Some(&text));
    assert_eq!(back.data, h.data);
    assert_eq!(back.line_written_to_file, Some(2));
}

#[test]
fn history_read_in() {
    let mut h = history(&["x"]);
    assert_eq!(h.read_in("  a\nb \n\n"), Ok(3));
    assert_eq!(h.data, strings(&["x", "a", "b"]));
    let e = h.read_in("").unwrap_err();
    assert_eq!(e.message(), "File is empty");
    assert_eq!(h.data.len(), 3);
    let empty = CmdHistory::init(Some(""));
    assert!(empty.data.is_empty());
    assert_eq!(empty.line_written_to_file, None);
    let none = CmdHistory::init(None);
    assert!(none.data.is_empty());
}

#[test]
fn history_latest_entries() {
    let h = history(&["a", "b", "c"]);
    assert_eq!(h.get_latest(0), Some("c".to_string()));
    assert_eq!(h.get_latest(2), Some("a".to_string()));
    assert_eq!(h.get_latest(3), None);
    assert_eq!(h.show(), "    1 a\n    2 b\n    3 c\n");
    assert_eq!(h.show_last(1), "    3 c\n");
}

#[test]
fn history_numbers_wider_than_five_columns() {
    let entries: Vec<String> = (0..100001).map(|i| i.to_string()).collect();
    let h = CmdHistory { data: entries, line_written_to_file: None };
    assert_eq!(h.show_last(2), "100000 99999\n100001 100000\n");
}

#[test]
fn append_without_previous_save_writes_everything() {
    let mut h = history(&["a", "b"]);
    assert_eq!(h.append_to(), "a\nb\n");
    assert_eq!(h.line_written_to_file, Some(1));
    assert_eq!(h.append_to(), "\n");
}

#[test]
fn saved_then_appended_text_is_the_whole_history() {
    let mut h = history(&["a", "b"]);
    let saved = h.write_to();
    h.data.push("c".to_string());
    let appended = h.append_to();
    assert_eq!(saved + &appended, h.data.join("\n") + "\n");
}

#[test]
fn history_of_one_empty_entry_reads_back() {
    let mut h = history(&[""]);
    let text = h.write_to();
    assert_eq!(text, "\n");
    assert_eq!(CmdHistory::init(Some(&text)).data, strings(&[""]));
}

#[test]
fn search_path_candidates_and_first_found() {
    assert_eq!(candidates("ls", "/a::/b"), strings(&["/a/ls", "/ls", "/b/ls"]));
    let c = strings(&["x", "y", "z"]);
    assert_eq!(pick_found(&c, &[false, true, true]), Some("y".to_string()));
    assert_eq!(pick_found(&c, &[false, false]), None);
    assert_eq!(pick_found(&c, &[]), None);
    // the leftmost directory holding the program wins
    let first = if std::path::Path::new("/bin/sh").exists() { "/bin/sh" } else { "/usr/bin/sh" };
    assert_eq!(from_path("sh", "/nonexistent:/bin:/usr/bin").as_deref(), Some(first));
}
