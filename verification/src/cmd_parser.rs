//! Reading a command, its arguments and its output redirections from the words of a line.
use vstd::prelude::*;
use crate::builtin_cmd::{builtin_named, path_view, Builtins};
use crate::external_cmd::{
    answered, from_path, lemma_search_follows_file_system, path_candidates, search_result,
};
use crate::text::{opt_text, same_text, texts};

verus! {

/// What a command runs.
#[derive(Debug)]
pub enum CommandKind {
    /// A builtin of the shell.
    Builtin(Builtins),
    /// The program at this path.
    External(String),
}

/// Where an output stream goes.
#[derive(Debug)]
pub enum OutputDirection {
    Terminal,
    /// Into the file at this path, replacing it.
    File(String),
    /// At the end of the file at this path.
    Append(String),
}

/// A command with its arguments and where its output and errors go.
#[derive(Debug)]
pub struct Command {
    pub cmd: CommandKind,
    pub args: Vec<String>,
    pub out_direct: OutputDirection,
    pub err_direct: OutputDirection,
}

/// Why a line could not be read as a command.
#[derive(Debug)]
pub enum CommandErrors {
    NoInput,
    CmdNotFound(String),
    MissingRedirectionPath(String),
}

/// What a command runs, as a mathematical value.
pub enum KindView {
    Builtin(Builtins),
    External(Seq<char>),
}

/// Where an output stream goes, as a mathematical value.
pub enum Direction {
    Terminal,
    File(Seq<char>),
    Append(Seq<char>),
}

/// A command, as a mathematical value.
pub struct CommandView {
    pub kind: KindView,
    pub args: Seq<Seq<char>>,
    pub out: Direction,
    pub err: Direction,
}

/// Why a line could not be read as a command, as a mathematical value.
pub enum ParseProblem {
    NoInput,
    CmdNotFound(Seq<char>),
    MissingRedirectionPath(Seq<char>),
}

impl View for CommandKind {
    type V = KindView;

    open spec fn view(&self) -> KindView {
        match self {
            CommandKind::Builtin(b) => KindView::Builtin(*b),
            CommandKind::External(p) => KindView::External(p@),
        }
    }
}

impl View for OutputDirection {
    type V = Direction;

    open spec fn view(&self) -> Direction {
        match self {
            OutputDirection::Terminal => Direction::Terminal,
            OutputDirection::File(p) => Direction::File(p@),
            OutputDirection::Append(p) => Direction::Append(p@),
        }
    }
}

impl View for Command {
    type V = CommandView;

    open spec fn view(&self) -> CommandView {
        CommandView {
            kind: self.cmd@,
            args: texts(self.args@),
            out: self.out_direct@,
            err: self.err_direct@,
        }
    }
}

impl View for CommandErrors {
    type V = ParseProblem;

    open spec fn view(&self) -> ParseProblem {
        match self {
            CommandErrors::NoInput => ParseProblem::NoInput,
            CommandErrors::CmdNotFound(s) => ParseProblem::CmdNotFound(s@),
            CommandErrors::MissingRedirectionPath(s) => ParseProblem::MissingRedirectionPath(s@),
        }
    }
}

/// Redirects standard output into a file.
pub open spec fn is_out_file_op(t: Seq<char>) -> bool {
    t == ">"@ || t == "1>"@
}

/// Redirects standard output to the end of a file.
pub open spec fn is_out_append_op(t: Seq<char>) -> bool {
    t == ">>"@ || t == "1>>"@
}

/// Redirects standard error into a file.
pub open spec fn is_err_file_op(t: Seq<char>) -> bool {
    t == "2>"@
}

/// Redirects standard error to the end of a file.
pub open spec fn is_err_append_op(t: Seq<char>) -> bool {
    t == "2>>"@
}

/// A redirection operator.
pub open spec fn is_redirection(t: Seq<char>) -> bool {
    is_out_file_op(t) || is_out_append_op(t) || is_err_file_op(t) || is_err_append_op(t)
}

/// Reads the words from `toks[i]` on: a redirection operator takes the next word as its path,
/// any other word is an argument. The result is the arguments and the two directions, or the
/// stream whose operator lacks a path.
pub open spec fn scan(
    toks: Seq<Seq<char>>,
    i: int,
    args: Seq<Seq<char>>,
    out: Direction,
    err: Direction,
) -> Result<(Seq<Seq<char>>, Direction, Direction), Seq<char>>
    decreases toks.len() - i,
{
    if i < 0 || i >= toks.len() {
        Ok((args, out, err))
    } else {
        let t = toks[i];
        if is_out_file_op(t) {
            if i + 1 < toks.len() {
                scan(toks, i + 2, args, Direction::File(toks[i + 1]), err)
            } else {
                Err("Stdout"@)
            }
        } else if is_out_append_op(t) {
            if i + 1 < toks.len() {
                scan(toks, i + 2, args, Direction::Append(toks[i + 1]), err)
            } else {
                Err("Stdout"@)
            }
        } else if is_err_file_op(t) {
            if i + 1 < toks.len() {
                scan(toks, i + 2, args, out, Direction::File(toks[i + 1]))
            } else {
                Err("Stderr"@)
            }
        } else if is_err_append_op(t) {
            if i + 1 < toks.len() {
                scan(toks, i + 2, args, out, Direction::Append(toks[i + 1]))
            } else {
                Err("Stderr"@)
            }
        } else {
            scan(toks, i + 1, args.push(t), out, err)
        }
    }
}

/// The command that the words `input` make, where `resolved` is where the first word was found
/// on the search path, if it was looked for and found.
pub open spec fn command_of(input: Seq<Seq<char>>, resolved: Option<Seq<char>>) -> Result<
    CommandView,
    ParseProblem,
> {
    if input.len() == 0 {
        Err(ParseProblem::NoInput)
    } else {
        let kind = match builtin_named(input[0]) {
            Some(b) => Some(KindView::Builtin(b)),
            None => match resolved {
                Some(p) => Some(KindView::External(p)),
                None => None,
            },
        };
        match kind {
            None => Err(ParseProblem::CmdNotFound(input[0])),
            Some(k) => match scan(input, 1, seq![], Direction::Terminal, Direction::Terminal) {
                Ok((a, o, e)) => Ok(CommandView { kind: k, args: a, out: o, err: e }),
                Err(w) => Err(ParseProblem::MissingRedirectionPath(w)),
            },
        }
    }
}

/// A result of reading a command, as a mathematical value.
pub open spec fn result_view(r: Result<Command, CommandErrors>) -> Result<CommandView, ParseProblem> {
    match r {
        Ok(c) => Ok(c@),
        Err(e) => Err(e@),
    }
}

impl CommandErrors {
    /// The text shown for this error.
    pub fn message(&self) -> (r: String)
        ensures
            r@ == match self@ {
                ParseProblem::NoInput => "input vector empty"@,
                ParseProblem::CmdNotFound(s) => s + ": command not found"@,
                ParseProblem::MissingRedirectionPath(w) => "Missing path after redirection operator ("@
                    + w + ")"@,
            },
    {
        match self {
            CommandErrors::NoInput => "input vector empty".to_owned(),
            CommandErrors::CmdNotFound(s) => {
                let mut r = s.clone();
                r.append(": command not found");
                r
            },
            CommandErrors::MissingRedirectionPath(w) => {
                let mut r = "Missing path after redirection operator (".to_owned();
                r.append(w.as_str());
                r.append(")");
                r
            },
        }
    }
}

impl Command {
    /// The command that the words `input` make, given where the first word was found on the
    /// search path (`None` when it was not looked for or not found).
    pub fn assemble(input: &[String], resolved: Option<String>) -> (r: Result<Command, CommandErrors>)
        ensures
            result_view(r) == command_of(texts(input@), opt_text(resolved)),
    {
        let ghost toks = texts(input@);
        if input.len() == 0 {
            return Err(CommandErrors::NoInput);
        }
        assert(toks[0] == input@[0]@);
        let ghost rv = opt_text(resolved);
        let cmd = match Builtins::from_name(input[0].as_str()) {
            Some(b) => CommandKind::Builtin(b),
            None => match resolved {
                Some(p) => CommandKind::External(p),
                None => {
                    return Err(CommandErrors::CmdNotFound(input[0].clone()));
                },
            },
        };
        let mut args: Vec<String> = Vec::new();
        let mut stdout = OutputDirection::Terminal;
        let mut stderr = OutputDirection::Terminal;
        let mut i: usize = 1;
        assert(texts(args@) =~= seq![]);
        while i < input.len()
            invariant
                toks == texts(input@),
                toks.len() > 0,
                rv == opt_text(resolved),
                builtin_named(toks[0]) is Some || rv is Some,
                cmd@ == match builtin_named(toks[0]) {
                    Some(b) => KindView::Builtin(b),
                    None => KindView::External(rv.unwrap()),
                },
                1 <= i,
                scan(toks, 1, seq![], Direction::Terminal, Direction::Terminal) == scan(
                    toks,
                    i as int,
                    texts(args@),
                    stdout@,
                    stderr@,
                ),
            decreases input.len() - i,
        {
            let ele = input[i].as_str();
            assert(toks[i as int] == ele@);
            if same_text(ele, ">") || same_text(ele, "1>") {
                if i + 1 < input.len() {
                    assert(toks[i + 1] == input@[i + 1]@);
                    stdout = OutputDirection::File(input[i + 1].clone());
                    i = i + 2;
                } else {
                    return Err(CommandErrors::MissingRedirectionPath("Stdout".to_owned()));
                }
            } else if same_text(ele, ">>") || same_text(ele, "1>>") {
                if i + 1 < input.len() {
                    assert(toks[i + 1] == input@[i + 1]@);
                    stdout = OutputDirection::Append(input[i + 1].clone());
                    i = i + 2;
                } else {
                    return Err(CommandErrors::MissingRedirectionPath("Stdout".to_owned()));
                }
            } else if same_text(ele, "2>") {
                if i + 1 < input.len() {
                    assert(toks[i + 1] == input@[i + 1]@);
                    stderr = OutputDirection::File(input[i + 1].clone());
                    i = i + 2;
                } else {
                    return Err(CommandErrors::MissingRedirectionPath("Stderr".to_owned()));
                }
            } else if same_text(ele, "2>>") {
                if i + 1 < input.len() {
                    assert(toks[i + 1] == input@[i + 1]@);
                    stderr = OutputDirection::Append(input[i + 1].clone());
                    i = i + 2;
                } else {
                    return Err(CommandErrors::MissingRedirectionPath("Stderr".to_owned()));
                }
            } else {
                let ghost before = texts(args@);
                args.push(input[i].clone());
                assert(texts(args@) =~= before.push(ele@));
                i = i + 1;
            }
        }
        Ok(Command { cmd, args, out_direct: stdout, err_direct: stderr })
    }

    /// Reads a command from the words `input`. A first word that names no builtin is looked
    /// for on the search path `path_var`; which candidates hold an executable file depends on
    /// the file system, so the result is the command for what the search gave: the first
    /// candidate found, or none once every candidate was found wanting.
    pub fn parse(input: &[String], path_var: Option<&str>) -> (r: Result<Command, CommandErrors>)
        requires
            input.len() > 0 && builtin_named(input@[0]@) is None ==> path_var is Some,
        ensures
            exists|resolved: Option<Seq<char>>|
                (input.len() > 0 && builtin_named(input@[0]@) is None ==> search_result(
                    path_candidates(path_view(path_var).unwrap(), input@[0]@),
                    resolved,
                )) && result_view(r) == command_of(texts(input@), resolved),
    {
        if input.len() == 0 {
            let r = Command::assemble(input, None);
            assert(result_view(r) == command_of(texts(input@), None));
            return r;
        }
        let name = input[0].as_str();
        if Builtins::from_name(name).is_some() {
            let r = Command::assemble(input, None);
            assert(result_view(r) == command_of(texts(input@), None));
            return r;
        }
        let path = match path_var {
            Some(p) => p,
            None => {
                assert(false);
                return Err(CommandErrors::NoInput);
            },
        };
        let found = from_path(name, path);
        let ghost resolved = opt_text(found);
        let r = Command::assemble(input, found);
        assert(result_view(r) == command_of(texts(input@), resolved));
        r
    }
}

/// Words from `i` on that hold no redirection operator all become arguments, and the
/// directions stay as they are.
proof fn lemma_scan_plain(
    toks: Seq<Seq<char>>,
    i: int,
    args: Seq<Seq<char>>,
    out: Direction,
    err: Direction,
)
    requires
        0 <= i <= toks.len(),
        forall|k: int| i <= k < toks.len() ==> !is_redirection(#[trigger] toks[k]),
    ensures
        scan(toks, i, args, out, err) == Ok::<(Seq<Seq<char>>, Direction, Direction), Seq<char>>(
            (args + toks.subrange(i, toks.len() as int), out, err),
        ),
    decreases toks.len() - i,
{
    if i < toks.len() {
        assert(!is_redirection(toks[i]));
        lemma_scan_plain(toks, i + 1, args.push(toks[i]), out, err);
        assert(args.push(toks[i]) + toks.subrange(i + 1, toks.len() as int) =~= args
            + toks.subrange(i, toks.len() as int));
    } else {
        assert(args + toks.subrange(i, toks.len() as int) =~= args);
    }
}

/// A command without redirection operators takes every word after the first as an argument,
/// and its output and errors go to the terminal.
pub proof fn lemma_plain_command(input: Seq<Seq<char>>, resolved: Option<Seq<char>>)
    requires
        input.len() >= 1,
        forall|k: int| 1 <= k < input.len() ==> !is_redirection(#[trigger] input[k]),
        builtin_named(input[0]) is Some || resolved is Some,
    ensures
        command_of(input, resolved) matches Ok(c) && c.args == input.subrange(1, input.len() as int)
            && c.out == Direction::Terminal && c.err == Direction::Terminal,
{
    lemma_scan_plain(input, 1, seq![], Direction::Terminal, Direction::Terminal);
    assert(seq![] + input.subrange(1, input.len() as int) =~= input.subrange(1, input.len() as int));
}

/// The output direction after a redirection operator `op` with path `path`.
spec fn out_after(op: Seq<char>, path: Seq<char>, out: Direction) -> Direction {
    if is_out_file_op(op) {
        Direction::File(path)
    } else if is_out_append_op(op) {
        Direction::Append(path)
    } else {
        out
    }
}

/// The error direction after a redirection operator `op` with path `path`.
spec fn err_after(op: Seq<char>, path: Seq<char>, err: Direction) -> Direction {
    if is_out_file_op(op) || is_out_append_op(op) {
        err
    } else if is_err_file_op(op) {
        Direction::File(path)
    } else {
        Direction::Append(path)
    }
}

/// Appending a redirection operator and a path to words that scan cleanly changes only the
/// direction that the operator redirects.
proof fn lemma_scan_trailing(
    toks: Seq<Seq<char>>,
    i: int,
    args: Seq<Seq<char>>,
    out: Direction,
    err: Direction,
    op: Seq<char>,
    path: Seq<char>,
)
    requires
        0 <= i <= toks.len(),
        is_redirection(op),
        scan(toks, i, args, out, err) is Ok,
    ensures
        scan(toks + seq![op, path], i, args, out, err) == Ok::<
            (Seq<Seq<char>>, Direction, Direction),
            Seq<char>,
        >(
            (
                scan(toks, i, args, out, err)->Ok_0.0,
                out_after(op, path, scan(toks, i, args, out, err)->Ok_0.1),
                err_after(op, path, scan(toks, i, args, out, err)->Ok_0.2),
            ),
        ),
    decreases toks.len() - i,
{
    let ext = toks + seq![op, path];
    assert(ext.len() == toks.len() + 2);
    if i == toks.len() {
        assert(ext[i] == op);
        assert(ext[i + 1] == path);
        let o2 = out_after(op, path, out);
        let e2 = err_after(op, path, err);
        assert(scan(ext, i + 2, args, o2, e2) == Ok::<
            (Seq<Seq<char>>, Direction, Direction),
            Seq<char>,
        >((args, o2, e2)));
    } else {
        assert(ext[i] == toks[i]);
        let t = toks[i];
        if is_redirection(t) {
            assert(i + 1 < toks.len());
            assert(ext[i + 1] == toks[i + 1]);
            if is_out_file_op(t) {
                lemma_scan_trailing(toks, i + 2, args, Direction::File(toks[i + 1]), err, op, path);
            } else if is_out_append_op(t) {
                lemma_scan_trailing(toks, i + 2, args, Direction::Append(toks[i + 1]), err, op, path);
            } else if is_err_file_op(t) {
                lemma_scan_trailing(toks, i + 2, args, out, Direction::File(toks[i + 1]), op, path);
            } else {
                lemma_scan_trailing(toks, i + 2, args, out, Direction::Append(toks[i + 1]), op, path);
            }
        } else {
            lemma_scan_trailing(toks, i + 1, args.push(t), out, err, op, path);
        }
    }
}

/// What separates the redirection operators from one another.
proof fn lemma_operators_differ()
    ensures
        is_out_file_op(">"@) && !is_out_append_op(">"@) && !is_err_file_op(">"@) && !is_err_append_op(">"@),
        is_out_file_op("1>"@) && !is_out_append_op("1>"@) && !is_err_file_op("1>"@) && !is_err_append_op("1>"@),
        !is_out_file_op(">>"@) && is_out_append_op(">>"@),
        !is_out_file_op("1>>"@) && is_out_append_op("1>>"@),
        !is_out_file_op("2>"@) && !is_out_append_op("2>"@) && is_err_file_op("2>"@),
        !is_out_file_op("2>>"@) && !is_out_append_op("2>>"@) && !is_err_file_op("2>>"@) && is_err_append_op("2>>"@),
{
    reveal_strlit(">");
    reveal_strlit("1>");
    reveal_strlit(">>");
    reveal_strlit("1>>");
    reveal_strlit("2>");
    reveal_strlit("2>>");
    assert(">"@ != ">>"@) by { assert(">"@.len() != ">>"@.len()); }
    assert(">"@ != "1>>"@) by { assert(">"@.len() != "1>>"@.len()); }
    assert(">"@ != "2>"@) by { assert(">"@.len() != "2>"@.len()); }
    assert(">"@ != "2>>"@) by { assert(">"@.len() != "2>>"@.len()); }
    assert("1>"@ != ">>"@) by { assert("1>"@[0] != ">>"@[0]); }
    assert("1>"@ != "1>>"@) by { assert("1>"@.len() != "1>>"@.len()); }
    assert("1>"@ != "2>"@) by { assert("1>"@[0] != "2>"@[0]); }
    assert("1>"@ != "2>>"@) by { assert("1>"@.len() != "2>>"@.len()); }
    assert(">>"@ != ">"@) by { assert(">>"@.len() != ">"@.len()); }
    assert(">>"@ != "1>"@) by { assert(">>"@[0] != "1>"@[0]); }
    assert("1>>"@ != ">"@) by { assert("1>>"@.len() != ">"@.len()); }
    assert("1>>"@ != "1>"@) by { assert("1>>"@.len() != "1>"@.len()); }
    assert("2>"@ != ">"@) by { assert("2>"@.len() != ">"@.len()); }
    assert("2>"@ != "1>"@) by { assert("2>"@[0] != "1>"@[0]); }
    assert("2>"@ != ">>"@) by { assert("2>"@[0] != ">>"@[0]); }
    assert("2>"@ != "1>>"@) by { assert("2>"@.len() != "1>>"@.len()); }
    assert("2>>"@ != ">"@) by { assert("2>>"@.len() != ">"@.len()); }
    assert("2>>"@ != "1>"@) by { assert("2>>"@.len() != "1>"@.len()); }
    assert("2>>"@ != ">>"@) by { assert("2>>"@[0] != ">>"@[0]); }
    assert("2>>"@ != "1>>"@) by { assert("2>>"@[0] != "1>>"@[0]); }
    assert("2>>"@ != "2>"@) by { assert("2>>"@.len() != "2>"@.len()); }
}

/// A trailing `> path` (or `1> path`) sends the output of a command into that file, replacing
/// it: the command, its arguments and where its errors go stay as they were.
pub proof fn lemma_trailing_output_redirect(
    input: Seq<Seq<char>>,
    resolved: Option<Seq<char>>,
    op: Seq<char>,
    path: Seq<char>,
)
    requires
        op == ">"@ || op == "1>"@,
        command_of(input, resolved) is Ok,
    ensures
        command_of(input + seq![op, path], resolved) matches Ok(c2) && c2.kind == command_of(
            input,
            resolved,
        )->Ok_0.kind && c2.args == command_of(input, resolved)->Ok_0.args && c2.err
            == command_of(input, resolved)->Ok_0.err && c2.out == Direction::File(path),
{
    lemma_operators_differ();
    let ext = input + seq![op, path];
    assert(ext[0] == input[0]);
    lemma_scan_trailing(input, 1, seq![], Direction::Terminal, Direction::Terminal, op, path);
}

/// A trailing `>> path` (or `1>> path`) sends the output of a command to the end of that file:
/// the command, its arguments and where its errors go stay as they were.
pub proof fn lemma_trailing_append_redirect(
    input: Seq<Seq<char>>,
    resolved: Option<Seq<char>>,
    op: Seq<char>,
    path: Seq<char>,
)
    requires
        op == ">>"@ || op == "1>>"@,
        command_of(input, resolved) is Ok,
    ensures
        command_of(input + seq![op, path], resolved) matches Ok(c2) && c2.kind == command_of(
            input,
            resolved,
        )->Ok_0.kind && c2.args == command_of(input, resolved)->Ok_0.args && c2.err
            == command_of(input, resolved)->Ok_0.err && c2.out == Direction::Append(path),
{
    lemma_operators_differ();
    let ext = input + seq![op, path];
    assert(ext[0] == input[0]);
    lemma_scan_trailing(input, 1, seq![], Direction::Terminal, Direction::Terminal, op, path);
}

/// A trailing `2> path` sends the errors of a command into that file, replacing it, and a
/// trailing `2>> path` to the end of that file: the command, its arguments and where its
/// output goes stay as they were.
pub proof fn lemma_trailing_error_redirect(
    input: Seq<Seq<char>>,
    resolved: Option<Seq<char>>,
    op: Seq<char>,
    path: Seq<char>,
)
    requires
        op == "2>"@ || op == "2>>"@,
        command_of(input, resolved) is Ok,
    ensures
        command_of(input + seq![op, path], resolved) matches Ok(c2) && c2.kind == command_of(
            input,
            resolved,
        )->Ok_0.kind && c2.args == command_of(input, resolved)->Ok_0.args && c2.out
            == command_of(input, resolved)->Ok_0.out && c2.err == (if op == "2>"@ {
            Direction::File(path)
        } else {
            Direction::Append(path)
        }),
{
    lemma_operators_differ();
    let ext = input + seq![op, path];
    assert(ext[0] == input[0]);
    lemma_scan_trailing(input, 1, seq![], Direction::Terminal, Direction::Terminal, op, path);
}

/// Scanning fails only at a redirection operator that is the last word.
proof fn lemma_scan_error(
    toks: Seq<Seq<char>>,
    i: int,
    args: Seq<Seq<char>>,
    out: Direction,
    err: Direction,
)
    requires
        0 <= i,
        scan(toks, i, args, out, err) is Err,
    ensures
        toks.len() > 0 && is_redirection(toks.last()),
    decreases toks.len() - i,
{
    if i < toks.len() {
        let t = toks[i];
        if is_redirection(t) && i + 1 >= toks.len() {
            assert(toks.last() == t);
        } else if is_out_file_op(t) {
            lemma_scan_error(toks, i + 2, args, Direction::File(toks[i + 1]), err);
        } else if is_out_append_op(t) {
            lemma_scan_error(toks, i + 2, args, Direction::Append(toks[i + 1]), err);
        } else if is_err_file_op(t) {
            lemma_scan_error(toks, i + 2, args, out, Direction::File(toks[i + 1]));
        } else if is_err_append_op(t) {
            lemma_scan_error(toks, i + 2, args, out, Direction::Append(toks[i + 1]));
        } else {
            lemma_scan_error(toks, i + 1, args.push(t), out, err);
        }
    }
}

/// A redirection is refused for want of a path only when the line ends with a redirection
/// operator.
pub proof fn lemma_missing_path_at_end(input: Seq<Seq<char>>, resolved: Option<Seq<char>>)
    requires
        command_of(input, resolved) matches Err(ParseProblem::MissingRedirectionPath(_)),
    ensures
        input.len() > 1 && is_redirection(input.last()),
{
    lemma_scan_error(input, 1, seq![], Direction::Terminal, Direction::Terminal);
}

/// For a first word that names no builtin, reading the command goes by the search of the path:
/// "command not found" comes only when the file system answered no for every place on the
/// search path, and a command that is read runs the program at the first place it answered yes
/// for.
pub proof fn lemma_parse_follows_search(
    input: Seq<Seq<char>>,
    path_var: Seq<char>,
    resolved: Option<Seq<char>>,
)
    requires
        input.len() > 0,
        builtin_named(input[0]) is None,
        search_result(path_candidates(path_var, input[0]), resolved),
    ensures
        command_of(input, resolved) matches Err(ParseProblem::CmdNotFound(_)) ==> forall|k: int|
            0 <= k < path_candidates(path_var, input[0]).len() ==> answered(
                #[trigger] path_candidates(path_var, input[0])[k],
                false,
            ),
        command_of(input, resolved) matches Ok(c) ==> c.kind matches KindView::External(p)
            && exists|i: int|
            0 <= i < path_candidates(path_var, input[0]).len() && path_candidates(
                path_var,
                input[0],
            )[i] == p && answered(path_candidates(path_var, input[0])[i], true) && forall|k: int|
                0 <= k < i ==> answered(#[trigger] path_candidates(path_var, input[0])[k], false),
{
    lemma_search_follows_file_system(path_candidates(path_var, input[0]), resolved);
}

} // verus!
