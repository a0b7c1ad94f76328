//! The search-path lookup as the first form of the shell's builtins used it.
use vstd::prelude::*;
use crate::external_cmd::{from_path, path_candidates, search_result};
use crate::text::opt_text;

verus! {

/// The first path candidate for `cmd` under the search path `path_var` at which an executable
/// file is found, or `None`; the same search as `external_cmd::from_path`.
pub fn get_cmd_from_path(cmd: &str, path_var: &str) -> (r: Option<String>)
    ensures
        search_result(path_candidates(path_var@, cmd@), opt_text(r)),
        r matches Some(p) ==> path_candidates(path_var@, cmd@).contains(p@),
{
    from_path(cmd, path_var)
}

} // verus!
