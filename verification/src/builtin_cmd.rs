//! The commands that the shell runs itself.
use vstd::prelude::*;
use crate::external_cmd::{from_path, path_candidates, search_result};
use crate::history::{listing, file_text, unsaved_from, CmdHistory, HistHandling};
use crate::text::{join, join_from, opt_text, parse_usize, parsed_usize, same_text, texts};

verus! {

/// A command that the shell implements itself.
#[derive(Clone, Copy, Debug, PartialEq, Eq, Structural)]
pub enum Builtins {
    Echo,
    Exit,
    Type,
    Pwd,
    Cd,
    History,
}

/// The name under which a builtin is invoked.
pub open spec fn name_of(b: Builtins) -> Seq<char> {
    match b {
        Builtins::Echo => seq!['e', 'c', 'h', 'o'],
        Builtins::Exit => seq!['e', 'x', 'i', 't'],
        Builtins::Type => seq!['t', 'y', 'p', 'e'],
        Builtins::Pwd => seq!['p', 'w', 'd'],
        Builtins::Cd => seq!['c', 'd'],
        Builtins::History => seq!['h', 'i', 's', 't', 'o', 'r', 'y'],
    }
}

/// The builtin invoked by the name `s`, if any.
pub open spec fn builtin_named(s: Seq<char>) -> Option<Builtins> {
    if s == name_of(Builtins::Cd) {
        Some(Builtins::Cd)
    } else if s == name_of(Builtins::Echo) {
        Some(Builtins::Echo)
    } else if s == name_of(Builtins::Exit) {
        Some(Builtins::Exit)
    } else if s == name_of(Builtins::History) {
        Some(Builtins::History)
    } else if s == name_of(Builtins::Pwd) {
        Some(Builtins::Pwd)
    } else if s == name_of(Builtins::Type) {
        Some(Builtins::Type)
    } else {
        None
    }
}

impl Builtins {
    /// The builtin whose name is `s`, if any.
    pub fn from_name(s: &str) -> (r: Option<Builtins>)
        ensures
            r == builtin_named(s@),
    {
        proof {
            reveal_strlit("cd");
            reveal_strlit("echo");
            reveal_strlit("exit");
            reveal_strlit("history");
            reveal_strlit("pwd");
            reveal_strlit("type");
            assert("cd"@ =~= name_of(Builtins::Cd));
            assert("echo"@ =~= name_of(Builtins::Echo));
            assert("exit"@ =~= name_of(Builtins::Exit));
            assert("history"@ =~= name_of(Builtins::History));
            assert("pwd"@ =~= name_of(Builtins::Pwd));
            assert("type"@ =~= name_of(Builtins::Type));
        }
        if same_text(s, "cd") {
            Some(Builtins::Cd)
        } else if same_text(s, "echo") {
            Some(Builtins::Echo)
        } else if same_text(s, "exit") {
            Some(Builtins::Exit)
        } else if same_text(s, "history") {
            Some(Builtins::History)
        } else if same_text(s, "pwd") {
            Some(Builtins::Pwd)
        } else if same_text(s, "type") {
            Some(Builtins::Type)
        } else {
            None
        }
    }

    /// The name under which this builtin is invoked.
    pub fn get_cmd_name(&self) -> (r: String)
        ensures
            r@ == name_of(*self),
    {
        proof {
            reveal_strlit("cd");
            reveal_strlit("echo");
            reveal_strlit("exit");
            reveal_strlit("history");
            reveal_strlit("pwd");
            reveal_strlit("type");
        }
        match self {
            Builtins::Cd => "cd".to_owned(),
            Builtins::Echo => "echo".to_owned(),
            Builtins::Exit => "exit".to_owned(),
            Builtins::History => "history".to_owned(),
            Builtins::Pwd => "pwd".to_owned(),
            Builtins::Type => "type".to_owned(),
        }
    }
}

impl std::str::FromStr for Builtins {
    type Err = ();

    fn from_str(s: &str) -> (r: Result<Builtins, ()>)
        ensures
            r == match builtin_named(s@) {
                Some(b) => Ok::<Builtins, ()>(b),
                None => Err(()),
            },
    {
        match Builtins::from_name(s) {
            Some(b) => Ok(b),
            None => Err(()),
        }
    }
}

/// The names of all builtins, in declaration order.
pub open spec fn all_names() -> Seq<Seq<char>> {
    seq![
        name_of(Builtins::Echo),
        name_of(Builtins::Exit),
        name_of(Builtins::Type),
        name_of(Builtins::Pwd),
        name_of(Builtins::Cd),
        name_of(Builtins::History),
    ]
}

impl Builtins {
    /// The names of all builtins, in declaration order.
    pub fn all_cmd_names() -> (names: Vec<String>)
        ensures
            texts(names@) == all_names(),
    {
        let mut names: Vec<String> = Vec::new();
        names.push(Builtins::Echo.get_cmd_name());
        names.push(Builtins::Exit.get_cmd_name());
        names.push(Builtins::Type.get_cmd_name());
        names.push(Builtins::Pwd.get_cmd_name());
        names.push(Builtins::Cd.get_cmd_name());
        names.push(Builtins::History.get_cmd_name());
        assert(texts(names@) =~= all_names());
        names
    }
}

/// A builtin's name leads back to it, and the names of different builtins differ.
pub proof fn lemma_name_round_trip(b: Builtins)
    ensures
        builtin_named(name_of(b)) == Some(b),
        all_names().contains(name_of(b)),
        all_names().no_duplicates(),
{
    assert(name_of(Builtins::Echo) != name_of(Builtins::Exit)) by {
        assert(name_of(Builtins::Echo)[1] != name_of(Builtins::Exit)[1]);
    }
    assert(name_of(Builtins::Echo) != name_of(Builtins::Type)) by {
        assert(name_of(Builtins::Echo)[0] != name_of(Builtins::Type)[0]);
    }
    assert(name_of(Builtins::Echo) != name_of(Builtins::Pwd));
    assert(name_of(Builtins::Echo) != name_of(Builtins::Cd));
    assert(name_of(Builtins::Echo) != name_of(Builtins::History));
    assert(name_of(Builtins::Exit) != name_of(Builtins::Type)) by {
        assert(name_of(Builtins::Exit)[0] != name_of(Builtins::Type)[0]);
    }
    assert(name_of(Builtins::Exit) != name_of(Builtins::Pwd));
    assert(name_of(Builtins::Exit) != name_of(Builtins::Cd));
    assert(name_of(Builtins::Exit) != name_of(Builtins::History));
    assert(name_of(Builtins::Type) != name_of(Builtins::Pwd));
    assert(name_of(Builtins::Type) != name_of(Builtins::Cd));
    assert(name_of(Builtins::Type) != name_of(Builtins::History));
    assert(name_of(Builtins::Pwd) != name_of(Builtins::Cd));
    assert(name_of(Builtins::Pwd) != name_of(Builtins::History));
    assert(name_of(Builtins::Cd) != name_of(Builtins::History));
    let n = all_names();
    assert(n[0] == name_of(Builtins::Echo));
    assert(n[1] == name_of(Builtins::Exit));
    assert(n[2] == name_of(Builtins::Type));
    assert(n[3] == name_of(Builtins::Pwd));
    assert(n[4] == name_of(Builtins::Cd));
    assert(n[5] == name_of(Builtins::History));
    match b {
        Builtins::Echo => assert(n[0] == name_of(b)),
        Builtins::Exit => assert(n[1] == name_of(b)),
        Builtins::Type => assert(n[2] == name_of(b)),
        Builtins::Pwd => assert(n[3] == name_of(b)),
        Builtins::Cd => assert(n[4] == name_of(b)),
        Builtins::History => assert(n[5] == name_of(b)),
    }
}

/// `echo`: the arguments separated by single spaces.
pub fn builtin_echo(args: &[String]) -> (r: String)
    ensures
        r@ == join(texts(args@), seq![' ']),
{
    proof {
        reveal_strlit(" ");
        assert(" "@ =~= seq![' ']);
    }
    let r = join_from(args, 0, " ");
    assert(texts(args@).subrange(0, args@.len() as int) =~= texts(args@));
    r
}

/// What `history` was asked to do.
pub enum HistoryArgs {
    Show,
    ShowLast(usize),
    ReadHistory(String),
    WriteHistory(String),
    AppendHistory(String),
}

/// Why the arguments of `history` were refused.
pub enum HistoryArgErrors {
    MissingPathArgument(String),
    NoIntArg,
}

/// What `history` was asked to do, as a mathematical value.
pub enum HistoryRequest {
    Show,
    ShowLast(usize),
    Read(Seq<char>),
    Write(Seq<char>),
    Append(Seq<char>),
}

/// Why the arguments of `history` were refused, as a mathematical value.
pub enum HistoryArgProblem {
    MissingPath(Seq<char>),
    NotANumber,
}

impl View for HistoryArgs {
    type V = HistoryRequest;

    open spec fn view(&self) -> HistoryRequest {
        match self {
            HistoryArgs::Show => HistoryRequest::Show,
            HistoryArgs::ShowLast(n) => HistoryRequest::ShowLast(*n),
            HistoryArgs::ReadHistory(p) => HistoryRequest::Read(p@),
            HistoryArgs::WriteHistory(p) => HistoryRequest::Write(p@),
            HistoryArgs::AppendHistory(p) => HistoryRequest::Append(p@),
        }
    }
}

impl View for HistoryArgErrors {
    type V = HistoryArgProblem;

    open spec fn view(&self) -> HistoryArgProblem {
        match self {
            HistoryArgErrors::MissingPathArgument(u) => HistoryArgProblem::MissingPath(u@),
            HistoryArgErrors::NoIntArg => HistoryArgProblem::NotANumber,
        }
    }
}

/// How `history` is read from its arguments: no argument lists everything, a path flag
/// (`-r`, `-w`, `-a`) takes the path that follows it, and anything else is a count.
pub open spec fn history_request(args: Seq<Seq<char>>) -> Result<HistoryRequest, HistoryArgProblem> {
    if args.len() == 0 {
        Ok(HistoryRequest::Show)
    } else if args[0] == "-r"@ {
        if args.len() >= 2 {
            Ok(HistoryRequest::Read(args[1]))
        } else {
            Err(HistoryArgProblem::MissingPath("Usage: history -r <Path_to_History>"@))
        }
    } else if args[0] == "-w"@ {
        if args.len() >= 2 {
            Ok(HistoryRequest::Write(args[1]))
        } else {
            Err(HistoryArgProblem::MissingPath("Usage: history -w <Path_to_History>"@))
        }
    } else if args[0] == "-a"@ {
        if args.len() >= 2 {
            Ok(HistoryRequest::Append(args[1]))
        } else {
            Err(HistoryArgProblem::MissingPath("Usage: history -a <Path_to_History>"@))
        }
    } else {
        match parsed_usize(args[0]) {
            Some(n) => Ok(HistoryRequest::ShowLast(n)),
            None => Err(HistoryArgProblem::NotANumber),
        }
    }
}

/// The text shown for refused `history` arguments.
pub open spec fn history_problem_message(p: HistoryArgProblem) -> Seq<char> {
    match p {
        HistoryArgProblem::MissingPath(u) => "Missing Path Argument: "@ + u,
        HistoryArgProblem::NotANumber => "Number of Entrys to Show must be Integer"@,
    }
}

impl HistoryArgs {
    /// Reads what `history` is asked to do from its arguments.
    pub fn new(user_str: &[String]) -> (r: Result<HistoryArgs, HistoryArgErrors>)
        ensures
            match r {
                Ok(a) => history_request(texts(user_str@)) == Ok::<HistoryRequest, HistoryArgProblem>(
                    a@,
                ),
                Err(e) => history_request(texts(user_str@)) == Err::<HistoryRequest, HistoryArgProblem>(
                    e@,
                ),
            },
    {
        let ghost a = texts(user_str@);
        if user_str.len() == 0 {
            return Ok(HistoryArgs::Show);
        }
        assert(a[0] == user_str@[0]@);
        let first = user_str[0].as_str();
        if same_text(first, "-r") {
            if user_str.len() >= 2 {
                assert(a[1] == user_str@[1]@);
                return Ok(HistoryArgs::ReadHistory(user_str[1].clone()));
            } else {
                return Err(
                    HistoryArgErrors::MissingPathArgument(
                        "Usage: history -r <Path_to_History>".to_owned(),
                    ),
                );
            }
        }
        if same_text(first, "-w") {
            if user_str.len() >= 2 {
                assert(a[1] == user_str@[1]@);
                return Ok(HistoryArgs::WriteHistory(user_str[1].clone()));
            } else {
                return Err(
                    HistoryArgErrors::MissingPathArgument(
                        "Usage: history -w <Path_to_History>".to_owned(),
                    ),
                );
            }
        }
        if same_text(first, "-a") {
            if user_str.len() >= 2 {
                assert(a[1] == user_str@[1]@);
                return Ok(HistoryArgs::AppendHistory(user_str[1].clone()));
            } else {
                return Err(
                    HistoryArgErrors::MissingPathArgument(
                        "Usage: history -a <Path_to_History>".to_owned(),
                    ),
                );
            }
        }
        match parse_usize(first) {
            Some(val) => Ok(HistoryArgs::ShowLast(val)),
            None => Err(HistoryArgErrors::NoIntArg),
        }
    }
}

impl HistoryArgErrors {
    /// The text shown for this error.
    pub fn message(&self) -> (r: String)
        ensures
            r@ == history_problem_message(self@),
    {
        match self {
            HistoryArgErrors::MissingPathArgument(u) => {
                let mut r = "Missing Path Argument: ".to_owned();
                r.append(u.as_str());
                r
            },
            HistoryArgErrors::NoIntArg => "Number of Entrys to Show must be Integer".to_owned(),
        }
    }
}

/// What running a builtin leaves for the caller to do.
#[derive(Debug)]
pub enum BuiltinAction {
    /// Print this text.
    Print(String),
    /// Change the working directory to this path.
    ChangeDir(String),
    /// Change the working directory to the home directory.
    ChangeDirHome,
    /// Print the working directory.
    PrintWorkingDir,
    /// Save the history to the history file, if one is set, and leave the shell.
    Exit,
    /// Read the history file at this path into the history.
    ReadHistory(String),
    /// Write `contents` to the file at `path`, replacing it.
    WriteHistory { path: String, contents: String },
    /// Append `contents` to the file at `path`.
    AppendHistory { path: String, contents: String },
}

/// What running a builtin leaves for the caller to do, as a mathematical value.
pub enum ActionView {
    Print(Seq<char>),
    ChangeDir(Seq<char>),
    ChangeDirHome,
    PrintWorkingDir,
    Exit,
    ReadHistory(Seq<char>),
    WriteHistory(Seq<char>, Seq<char>),
    AppendHistory(Seq<char>, Seq<char>),
}

impl View for BuiltinAction {
    type V = ActionView;

    open spec fn view(&self) -> ActionView {
        match self {
            BuiltinAction::Print(s) => ActionView::Print(s@),
            BuiltinAction::ChangeDir(p) => ActionView::ChangeDir(p@),
            BuiltinAction::ChangeDirHome => ActionView::ChangeDirHome,
            BuiltinAction::PrintWorkingDir => ActionView::PrintWorkingDir,
            BuiltinAction::Exit => ActionView::Exit,
            BuiltinAction::ReadHistory(p) => ActionView::ReadHistory(p@),
            BuiltinAction::WriteHistory { path, contents } => ActionView::WriteHistory(
                path@,
                contents@,
            ),
            BuiltinAction::AppendHistory { path, contents } => ActionView::AppendHistory(
                path@,
                contents@,
            ),
        }
    }
}

/// Whether `history` with these arguments can run on a history with these entries and saved
/// mark: a count must not exceed the entries, and saving needs at least one entry.
pub open spec fn history_runs(
    args: Seq<Seq<char>>,
    entries: Seq<Seq<char>>,
    saved: Option<usize>,
) -> bool {
    match history_request(args) {
        Ok(HistoryRequest::ShowLast(n)) => n <= entries.len(),
        Ok(HistoryRequest::Write(_)) => entries.len() > 0,
        Ok(HistoryRequest::Append(_)) => entries.len() > 0 && unsaved_from(saved) <= entries.len(),
        _ => true,
    }
}

/// What `history` with these arguments leaves to do.
pub open spec fn history_action(
    args: Seq<Seq<char>>,
    entries: Seq<Seq<char>>,
    saved: Option<usize>,
) -> ActionView {
    match history_request(args) {
        Err(p) => ActionView::Print(history_problem_message(p)),
        Ok(HistoryRequest::Show) => ActionView::Print(listing(entries, 0, entries.len() as int)),
        Ok(HistoryRequest::ShowLast(n)) => ActionView::Print(
            listing(entries, entries.len() - n, entries.len() as int),
        ),
        Ok(HistoryRequest::Read(path)) => ActionView::ReadHistory(path),
        Ok(HistoryRequest::Write(path)) => ActionView::WriteHistory(path, file_text(entries)),
        Ok(HistoryRequest::Append(path)) => ActionView::AppendHistory(
            path,
            file_text(entries.subrange(unsaved_from(saved), entries.len() as int)),
        ),
    }
}

/// The saved mark after `history` with these arguments: saving marks every entry saved.
pub open spec fn history_saved_after(
    args: Seq<Seq<char>>,
    entries: Seq<Seq<char>>,
    saved: Option<usize>,
) -> Option<usize> {
    match history_request(args) {
        Ok(HistoryRequest::Write(_)) => Some((entries.len() - 1) as usize),
        Ok(HistoryRequest::Append(_)) => Some((entries.len() - 1) as usize),
        _ => saved,
    }
}

/// `history`: lists the history, or asks for it to be read from or saved to a file.
pub fn builtin_history(args: &[String], cmd_history: &mut CmdHistory) -> (r: BuiltinAction)
    requires
        history_runs(
            texts(args@),
            texts(old(cmd_history).data@),
            old(cmd_history).line_written_to_file,
        ),
    ensures
        r@ == history_action(
            texts(args@),
            texts(old(cmd_history).data@),
            old(cmd_history).line_written_to_file,
        ),
        texts(final(cmd_history).data@) == texts(old(cmd_history).data@),
        final(cmd_history).line_written_to_file == history_saved_after(
            texts(args@),
            texts(old(cmd_history).data@),
            old(cmd_history).line_written_to_file,
        ),
{
    match HistoryArgs::new(args) {
        Err(e) => BuiltinAction::Print(e.message()),
        Ok(HistoryArgs::Show) => BuiltinAction::Print(cmd_history.show()),
        Ok(HistoryArgs::ShowLast(n)) => BuiltinAction::Print(cmd_history.show_last(n)),
        Ok(HistoryArgs::ReadHistory(path)) => BuiltinAction::ReadHistory(path),
        Ok(HistoryArgs::WriteHistory(path)) => {
            let contents = cmd_history.write_to();
            BuiltinAction::WriteHistory { path, contents }
        },
        Ok(HistoryArgs::AppendHistory(path)) => {
            let contents = cmd_history.append_to();
            BuiltinAction::AppendHistory { path, contents }
        },
    }
}

/// The report of `type` on a command that is not a builtin, given where on the search path it
/// was found, if anywhere.
pub open spec fn type_line(name: Seq<char>, found: Option<Seq<char>>) -> Seq<char> {
    match found {
        Some(p) => name + " is "@ + p,
        None => name + ": not found"@,
    }
}

/// The report of `type` on a command that is not a builtin, given where on the search path it
/// was found, if anywhere.
pub fn describe_type(name: &str, found: Option<String>) -> (r: String)
    ensures
        r@ == type_line(name@, opt_text(found)),
{
    let mut r = name.to_owned();
    match found {
        Some(p) => {
            r.append(" is ");
            r.append(p.as_str());
        },
        None => {
            r.append(": not found");
        },
    }
    r
}

/// Whether `type` can run on these arguments: a name that is not a builtin is looked up on the
/// search path, which must then be known.
pub open spec fn type_runs(args: Seq<Seq<char>>, path_var: Option<Seq<char>>) -> bool {
    args.len() > 0 && builtin_named(args[0]) is None ==> path_var is Some
}

/// What `type` may report on these arguments: nothing without arguments, that a builtin is a
/// builtin, or else what the search of the path gave: where the name was found first, or that
/// it was not found.
pub open spec fn type_report(args: Seq<Seq<char>>, path_var: Option<Seq<char>>, out: Seq<char>) -> bool {
    if args.len() == 0 {
        out == Seq::<char>::empty()
    } else if builtin_named(args[0]) is Some {
        out == args[0] + " is a shell builtin"@
    } else {
        exists|found: Option<Seq<char>>|
            search_result(path_candidates(path_var.unwrap(), args[0]), found) && out == type_line(
                args[0],
                found,
            )
    }
}

/// The optional search path as a mathematical value.
pub open spec fn path_view(path_var: Option<&str>) -> Option<Seq<char>> {
    match path_var {
        Some(p) => Some(p@),
        None => None,
    }
}

/// `type`: whether the first argument names a builtin or a program on the search path
/// `path_var`.
pub fn builtin_type(args: &[String], path_var: Option<&str>) -> (r: String)
    requires
        type_runs(texts(args@), path_view(path_var)),
    ensures
        type_report(texts(args@), path_view(path_var), r@),
{
    if args.len() == 0 {
        return String::new();
    }
    let ghost a = texts(args@);
    assert(a[0] == args@[0]@);
    let name = args[0].as_str();
    if Builtins::from_name(name).is_some() {
        let mut r = name.to_owned();
        r.append(" is a shell builtin");
        return r;
    }
    let path = match path_var {
        Some(p) => p,
        None => {
            assert(false);
            return String::new();
        },
    };
    let found = from_path(name, path);
    let ghost fv = opt_text(found);
    let r = describe_type(name, found);
    assert(search_result(path_candidates(path_view(path_var).unwrap(), a[0]), fv));
    r
}

/// What `cd` with these arguments leaves to do.
pub open spec fn cd_action(args: Seq<Seq<char>>) -> ActionView {
    if args.len() == 0 {
        ActionView::Print(Seq::<char>::empty())
    } else if args[0] == "~"@ {
        ActionView::ChangeDirHome
    } else {
        ActionView::ChangeDir(args[0])
    }
}

/// `cd`: where to change the working directory to.
pub fn builtin_cd(args: &[String]) -> (r: BuiltinAction)
    ensures
        r@ == cd_action(texts(args@)),
{
    if args.len() == 0 {
        return BuiltinAction::Print(String::new());
    }
    assert(texts(args@)[0] == args@[0]@);
    if same_text(args[0].as_str(), "~") {
        BuiltinAction::ChangeDirHome
    } else {
        BuiltinAction::ChangeDir(args[0].clone())
    }
}

/// The report of `cd` when the directory cannot be entered.
pub fn cd_failure(path: &str) -> (r: String)
    ensures
        r@ == "cd: "@ + path@ + ": No such file or directory"@,
{
    let mut r = "cd: ".to_owned();
    r.append(path);
    r.append(": No such file or directory");
    r
}

/// Whether this builtin can run on these arguments, history and search path.
pub open spec fn execute_runs(
    b: Builtins,
    args: Seq<Seq<char>>,
    entries: Seq<Seq<char>>,
    saved: Option<usize>,
    path_var: Option<Seq<char>>,
) -> bool {
    match b {
        Builtins::History => history_runs(args, entries, saved),
        Builtins::Type => type_runs(args, path_var),
        _ => true,
    }
}

impl Builtins {
    /// Whether this builtin can run on these arguments, history and search path.
    pub fn runs(&self, args: &[String], cmd_history: &CmdHistory, path_var: Option<&str>) -> (r:
        bool)
        ensures
            r == execute_runs(
                *self,
                texts(args@),
                texts(cmd_history.data@),
                cmd_history.line_written_to_file,
                path_view(path_var),
            ),
    {
        match self {
            Builtins::History => {
                let len = cmd_history.data.len();
                assert(texts(cmd_history.data@).len() == len);
                match HistoryArgs::new(args) {
                    Ok(HistoryArgs::ShowLast(n)) => n <= len,
                    Ok(HistoryArgs::WriteHistory(_)) => len > 0,
                    Ok(HistoryArgs::AppendHistory(_)) => len > 0 && match cmd_history.line_written_to_file {
                        None => true,
                        Some(n) => n < len,
                    },
                    _ => true,
                }
            },
            Builtins::Type => {
                if args.len() == 0 || path_var.is_some() {
                    true
                } else {
                    assert(texts(args@)[0] == args@[0]@);
                    Builtins::from_name(args[0].as_str()).is_some()
                }
            },
            _ => true,
        }
    }

    /// Runs this builtin on `args`; what needs the outside world is left to the caller.
    pub fn execute(
        &self,
        args: &[String],
        cmd_history: &mut CmdHistory,
        path_var: Option<&str>,
    ) -> (r: BuiltinAction)
        requires
            execute_runs(
                *self,
                texts(args@),
                texts(old(cmd_history).data@),
                old(cmd_history).line_written_to_file,
                path_view(path_var),
            ),
        ensures
            texts(final(cmd_history).data@) == texts(old(cmd_history).data@),
            *self != Builtins::History ==> final(cmd_history).line_written_to_file == old(
                cmd_history,
            ).line_written_to_file,
            match *self {
                Builtins::Cd => r@ == cd_action(texts(args@)),
                Builtins::Echo => r@ == ActionView::Print(join(texts(args@), seq![' '])),
                Builtins::Exit => r@ == ActionView::Exit,
                Builtins::History => r@ == history_action(
                    texts(args@),
                    texts(old(cmd_history).data@),
                    old(cmd_history).line_written_to_file,
                ) && final(cmd_history).line_written_to_file == history_saved_after(
                    texts(args@),
                    texts(old(cmd_history).data@),
                    old(cmd_history).line_written_to_file,
                ),
                Builtins::Pwd => r@ == ActionView::PrintWorkingDir,
                Builtins::Type => exists|out: Seq<char>|
                    r@ == ActionView::Print(out) && type_report(
                        texts(args@),
                        path_view(path_var),
                        out,
                    ),
            },
    {
        match self {
            Builtins::Cd => builtin_cd(args),
            Builtins::Echo => BuiltinAction::Print(builtin_echo(args)),
            Builtins::Exit => BuiltinAction::Exit,
            Builtins::History => builtin_history(args, cmd_history),
            Builtins::Pwd => BuiltinAction::PrintWorkingDir,
            Builtins::Type => {
                let out = builtin_type(args, path_var);
                BuiltinAction::Print(out)
            },
        }
    }
}

} // verus!
