//! The first form of the shell's builtins. They read their arguments with the command's own
//! name still in front, and print what they report themselves; what they print is computed here.
use vstd::prelude::*;
use crate::builtin_cmd::{
    builtin_named as current_named, builtin_type as current_type, path_view, type_report,
    type_runs, BuiltinAction, Builtins as Current, HistoryArgErrors, HistoryArgProblem, HistoryArgs,
    HistoryRequest,
};
use crate::text::{parse_usize, parsed_usize, push_char, same_text, tail, texts};

verus! {

/// A command that the shell implements itself.
#[derive(Clone, Copy, Debug, PartialEq, Eq, Structural)]
pub enum Builtins {
    Echo,
    Exit,
    Type,
    Pwd,
    Cd,
    History,
}

/// The builtin of this form that corresponds to one of the current form.
pub open spec fn from_current(b: Current) -> Builtins {
    match b {
        Current::Echo => Builtins::Echo,
        Current::Exit => Builtins::Exit,
        Current::Type => Builtins::Type,
        Current::Pwd => Builtins::Pwd,
        Current::Cd => Builtins::Cd,
        Current::History => Builtins::History,
    }
}

/// The builtin invoked by the name `s`, if any; the names are those of the current form.
pub open spec fn builtin_named(s: Seq<char>) -> Option<Builtins> {
    match current_named(s) {
        Some(b) => Some(from_current(b)),
        None => None,
    }
}

impl Builtins {
    /// The builtin whose name is `s`, if any.
    pub fn from_name(s: &str) -> (r: Option<Builtins>)
        ensures
            r == builtin_named(s@),
    {
        match Current::from_name(s) {
            Some(Current::Echo) => Some(Builtins::Echo),
            Some(Current::Exit) => Some(Builtins::Exit),
            Some(Current::Type) => Some(Builtins::Type),
            Some(Current::Pwd) => Some(Builtins::Pwd),
            Some(Current::Cd) => Some(Builtins::Cd),
            Some(Current::History) => Some(Builtins::History),
            None => None,
        }
    }
}

impl std::str::FromStr for Builtins {
    type Err = ();

    fn from_str(s: &str) -> (r: Result<Builtins, ()>)
        ensures
            r == match builtin_named(s@) {
                Some(b) => Ok::<Builtins, ()>(b),
                None => Err(()),
            },
    {
        match Builtins::from_name(s) {
            Some(b) => Ok(b),
            None => Err(()),
        }
    }
}

/// Each argument followed by a space.
pub open spec fn spaced(args: Seq<Seq<char>>) -> Seq<char>
    decreases args.len(),
{
    if args.len() == 0 {
        seq![]
    } else {
        spaced(args.drop_last()) + args.last() + seq![' ']
    }
}

/// What `echo` prints: each argument after the command name followed by a space, then a
/// newline.
pub fn echo_output(user_str: &[String]) -> (r: String)
    requires
        user_str.len() >= 1,
    ensures
        r@ == spaced(texts(user_str@).drop_first()).push('\n'),
{
    let ghost args = texts(user_str@).drop_first();
    let mut r = String::new();
    let mut i: usize = 1;
    assert(args.take(0) =~= seq![]);
    while i < user_str.len()
        invariant
            args == texts(user_str@).drop_first(),
            1 <= i <= user_str.len(),
            r@ == spaced(args.take(i - 1)),
        decreases user_str.len() - i,
    {
        r.append(user_str[i].as_str());
        push_char(&mut r, ' ');
        assert(args.take(i as int).drop_last() =~= args.take(i - 1));
        assert(args.take(i as int).last() == user_str@[i as int]@);
        i = i + 1;
    }
    assert(args.take(i - 1) =~= args);
    push_char(&mut r, '\n');
    r
}

/// What `cd` is asked to do: nothing without a path, else as the current form does with the
/// arguments after the command name.
pub fn cd_request(user_str: &[String]) -> (r: BuiltinAction)
    requires
        user_str.len() >= 1,
    ensures
        r@ == crate::builtin_cmd::cd_action(texts(user_str@).drop_first()),
{
    let rest = tail(user_str);
    crate::builtin_cmd::builtin_cd(rest.as_slice())
}

/// How `history` is read from its words, the command name first: a path flag wants a path
/// after it.
pub open spec fn history_request(user_str: Seq<Seq<char>>) -> Result<HistoryRequest, HistoryArgProblem> {
    if user_str.len() <= 1 {
        Ok(HistoryRequest::Show)
    } else if user_str[1] == "-r"@ {
        if user_str.len() >= 3 {
            Ok(HistoryRequest::Read(user_str[2]))
        } else {
            Err(HistoryArgProblem::MissingPath("Usage: history -r <Path_to_History>"@))
        }
    } else if user_str[1] == "-w"@ {
        if user_str.len() >= 3 {
            Ok(HistoryRequest::Write(user_str[2]))
        } else {
            Err(HistoryArgProblem::MissingPath("Usage: history -w <Path_to_History>"@))
        }
    } else if user_str[1] == "-a"@ {
        if user_str.len() >= 3 {
            Ok(HistoryRequest::Append(user_str[2]))
        } else {
            Err(HistoryArgProblem::MissingPath("Usage: history -a <Path_to_History>"@))
        }
    } else {
        match parsed_usize(user_str[1]) {
            Some(n) => Ok(HistoryRequest::ShowLast(n)),
            None => Err(HistoryArgProblem::NotANumber),
        }
    }
}

/// Reads what `history` is asked to do from its words, the command name first.
pub fn history_args(user_str: &[String]) -> (r: Result<HistoryArgs, HistoryArgErrors>)
    requires
        user_str.len() >= 1,
    ensures
        match r {
            Ok(a) => history_request(texts(user_str@)) == Ok::<HistoryRequest, HistoryArgProblem>(a@),
            Err(e) => history_request(texts(user_str@)) == Err::<HistoryRequest, HistoryArgProblem>(
                e@,
            ),
        },
{
    let ghost a = texts(user_str@);
    if user_str.len() == 1 {
        return Ok(HistoryArgs::Show);
    }
    assert(a[1] == user_str@[1]@);
    let flag = user_str[1].as_str();
    if same_text(flag, "-r") {
        if user_str.len() >= 3 {
            assert(a[2] == user_str@[2]@);
            return Ok(HistoryArgs::ReadHistory(user_str[2].clone()));
        }
        return Err(
            HistoryArgErrors::MissingPathArgument("Usage: history -r <Path_to_History>".to_owned()),
        );
    }
    if same_text(flag, "-w") {
        if user_str.len() >= 3 {
            assert(a[2] == user_str@[2]@);
            return Ok(HistoryArgs::WriteHistory(user_str[2].clone()));
        }
        return Err(
            HistoryArgErrors::MissingPathArgument("Usage: history -w <Path_to_History>".to_owned()),
        );
    }
    if same_text(flag, "-a") {
        if user_str.len() >= 3 {
            assert(a[2] == user_str@[2]@);
            return Ok(HistoryArgs::AppendHistory(user_str[2].clone()));
        }
        return Err(
            HistoryArgErrors::MissingPathArgument("Usage: history -a <Path_to_History>".to_owned()),
        );
    }
    match parse_usize(flag) {
        Some(val) => Ok(HistoryArgs::ShowLast(val)),
        None => Err(HistoryArgErrors::NoIntArg),
    }
}

/// What `type` prints, without the newline: as the current form reports on the words after the
/// command name, of which there must be one.
pub fn builtin_type(str_split: &[String], path_var: Option<&str>) -> (r: String)
    requires
        str_split.len() >= 2,
        type_runs(texts(str_split@).drop_first(), path_view(path_var)),
    ensures
        type_report(texts(str_split@).drop_first(), path_view(path_var), r@),
{
    let rest = tail(str_split);
    current_type(rest.as_slice(), path_var)
}

} // verus!
