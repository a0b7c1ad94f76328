//! Finding programs on the search path.
use vstd::prelude::*;
use crate::text::{opt_text, split, split_on, texts};

verus! {

/// Whether a file exists at `path` and is executable, asked of `is_executable::is_executable`.
/// Trusted, and nothing is claimed of the answer: it depends on the file system at the time of
/// the call, so no clause states it.
#[verifier::external_body]
fn executable_at(path: &str) -> bool {
    is_executable::is_executable(path)
}

/// The paths at which `cmd` is looked for: each `:`-separated directory of `path_var`,
/// followed by `/` and `cmd`, in order.
pub open spec fn path_candidates(path_var: Seq<char>, cmd: Seq<char>) -> Seq<Seq<char>> {
    split(path_var, ':').map_values(|dir: Seq<char>| dir + seq!['/'] + cmd)
}

/// The first candidate whose answer is yes, among the candidates that have an answer.
pub open spec fn first_found(cands: Seq<Seq<char>>, answers: Seq<bool>) -> Option<Seq<char>>
    decreases answers.len(),
{
    if answers.len() == 0 || cands.len() == 0 {
        None
    } else if answers[0] {
        Some(cands[0])
    } else {
        first_found(cands.drop_first(), answers.drop_first())
    }
}

/// `found` is what searching `cands` in order gives, going by the file system's answers to
/// "is there an executable file here?": the first candidate answered yes, or nothing once every
/// candidate was answered no.
pub open spec fn search_result(cands: Seq<Seq<char>>, found: Option<Seq<char>>) -> bool {
    exists|answers: Seq<bool>|
        answers.len() <= cands.len() && found == first_found(cands, answers) && (found is None
            ==> answers.len() == cands.len()) && forall|k: int|
            0 <= k < answers.len() ==> answered(cands[k], #[trigger] answers[k])
}

/// What a search finds is one of the candidates.
pub proof fn lemma_found_is_candidate(cands: Seq<Seq<char>>, answers: Seq<bool>)
    ensures
        first_found(cands, answers) matches Some(p) ==> cands.contains(p),
    decreases answers.len(),
{
    if answers.len() > 0 && cands.len() > 0 && !answers[0] {
        lemma_found_is_candidate(cands.drop_first(), answers.drop_first());
        if let Some(p) = first_found(cands.drop_first(), answers.drop_first()) {
            let k = choose|k: int| 0 <= k < cands.drop_first().len() && cands.drop_first()[k] == p;
            assert(cands[k + 1] == p);
        }
    }
}

/// The file system answered `yes` when asked whether an executable file is at `path`: this is
/// an answer that asking `is_executable::is_executable` about `path` can give.
pub closed spec fn answered(path: Seq<char>, yes: bool) -> bool {
    exists|p: &str| p@ == path && call_ensures(executable_at, (p,), yes)
}

/// Asks `f` about `p`; the answer is one that `f` can give.
fn ask<F: Fn(&str) -> bool>(f: &F, p: &str) -> (r: bool)
    requires
        call_requires(*f, (p,)),
    ensures
        call_ensures(*f, (p,), r),
{
    f(p)
}

/// The paths at which `cmd` is looked for under the search path `path_var`, in order.
pub fn candidates(cmd: &str, path_var: &str) -> (r: Vec<String>)
    ensures
        texts(r@) == path_candidates(path_var@, cmd@),
{
    let dirs = split_on(path_var, ':');
    let ghost cands = path_candidates(path_var@, cmd@);
    let mut r: Vec<String> = Vec::new();
    let mut i: usize = 0;
    while i < dirs.len()
        invariant
            texts(dirs@) == split(path_var@, ':'),
            cands == path_candidates(path_var@, cmd@),
            i <= dirs.len(),
            texts(r@) == cands.take(i as int),
        decreases dirs.len() - i,
    {
        proof {
            reveal_strlit("/");
            assert("/"@ =~= seq!['/']);
        }
        let mut full = dirs[i].clone();
        full.append("/");
        full.append(cmd);
        assert(texts(dirs@)[i as int] == dirs@[i as int]@);
        assert(cands[i as int] =~= full@);
        let ghost before = texts(r@);
        r.push(full);
        assert(texts(r@) =~= before.push(cands[i as int]));
        assert(cands.take(i + 1) =~= cands.take(i as int).push(cands[i as int]));
        i = i + 1;
    }
    assert(cands.take(dirs.len() as int) =~= cands);
    r
}

/// The first of `cands` whose answer in `answers` is yes, among those that have an answer.
pub fn pick_found(cands: &[String], answers: &[bool]) -> (r: Option<String>)
    ensures
        opt_text(r) == first_found(texts(cands@), answers@),
{
    let ghost c = texts(cands@);
    let mut i: usize = 0;
    assert(c.subrange(0, c.len() as int) =~= c);
    assert(answers@.subrange(0, answers@.len() as int) =~= answers@);
    while i < answers.len() && i < cands.len()
        invariant
            c == texts(cands@),
            i <= answers.len(),
            i <= cands.len(),
            first_found(c, answers@) == first_found(
                c.subrange(i as int, c.len() as int),
                answers@.subrange(i as int, answers@.len() as int),
            ),
        decreases cands.len() - i,
    {
        let ghost cs = c.subrange(i as int, c.len() as int);
        let ghost ans = answers@.subrange(i as int, answers@.len() as int);
        assert(cs.drop_first() =~= c.subrange(i + 1, c.len() as int));
        assert(ans.drop_first() =~= answers@.subrange(i + 1, answers@.len() as int));
        assert(cs[0] == cands@[i as int]@);
        if answers[i] {
            return Some(cands[i].clone());
        }
        i = i + 1;
    }
    None
}

/// The first of the path candidates for `cmd` under the search path `path_var` at which an
/// executable file is found, or `None` when there is none. The candidates are asked about in
/// order, each by its full path; which of them holds an executable file depends on the file
/// system, so the contract says that the result is the first candidate that the file system
/// answered yes for, and that `None` comes only when it answered no for every candidate.
pub fn from_path(cmd: &str, path_var: &str) -> (r: Option<String>)
    ensures
        search_result(path_candidates(path_var@, cmd@), opt_text(r)),
        r matches Some(p) ==> path_candidates(path_var@, cmd@).contains(p@),
{
    let cands = candidates(cmd, path_var);
    let ghost c = texts(cands@);
    let mut answers: Vec<bool> = Vec::new();
    let mut found = false;
    let mut i: usize = 0;
    while i < cands.len() && !found
        invariant
            c == texts(cands@),
            i <= cands.len(),
            answers@.len() == i,
            found ==> i >= 1 && answers@[i - 1],
            !found ==> forall|k: int| 0 <= k < i ==> !answers@[k],
            forall|k: int| 0 <= k < i ==> answered(c[k], #[trigger] answers@[k]),
        decreases cands.len() - i,
    {
        let q = cands[i].as_str();
        let yes = ask(&executable_at, q);
        assert(answered(c[i as int], yes)) by {
            assert(q@ == c[i as int]);
        }
        answers.push(yes);
        found = yes;
        i = i + 1;
    }
    let r = pick_found(cands.as_slice(), answers.as_slice());
    proof {
        lemma_found_is_candidate(c, answers@);
        lemma_none_means_all_no(c, answers@);
        if opt_text(r) is None {
            assert(!found);
        }
        assert(answers@.len() <= c.len() && opt_text(r) == first_found(c, answers@) && (opt_text(r)
            is None ==> answers@.len() == c.len()) && forall|k: int|
            0 <= k < answers@.len() ==> answered(c[k], #[trigger] answers@[k]));
    }
    r
}

/// A search that found nothing had every candidate it asked about answered no.
proof fn lemma_none_means_all_no(cands: Seq<Seq<char>>, answers: Seq<bool>)
    requires
        answers.len() <= cands.len(),
    ensures
        first_found(cands, answers) is None ==> forall|k: int|
            0 <= k < answers.len() ==> !#[trigger] answers[k],
    decreases answers.len(),
{
    if answers.len() > 0 && !answers[0] {
        lemma_none_means_all_no(cands.drop_first(), answers.drop_first());
        if first_found(cands, answers) is None {
            assert forall|k: int| 0 <= k < answers.len() implies !#[trigger] answers[k] by {
                if k > 0 {
                    assert(answers[k] == answers.drop_first()[k - 1]);
                }
            }
        }
    }
}

/// A search that found a candidate found it at an index answered yes, after answers no.
proof fn lemma_found_index(cands: Seq<Seq<char>>, answers: Seq<bool>)
    requires
        first_found(cands, answers) is Some,
    ensures
        exists|i: int|
            0 <= i < answers.len() && i < cands.len() && answers[i] && cands[i] == first_found(
                cands,
                answers,
            )->0 && forall|k: int| 0 <= k < i ==> !#[trigger] answers[k],
    decreases answers.len(),
{
    if !answers[0] {
        lemma_found_index(cands.drop_first(), answers.drop_first());
        let j = choose|j: int|
            0 <= j < answers.drop_first().len() && j < cands.drop_first().len()
                && answers.drop_first()[j] && cands.drop_first()[j] == first_found(
                cands.drop_first(),
                answers.drop_first(),
            )->0 && forall|k: int| 0 <= k < j ==> !#[trigger] answers.drop_first()[k];
        assert(answers[j + 1] && cands[j + 1] == first_found(cands, answers)->0);
        assert forall|k: int| 0 <= k < j + 1 implies !#[trigger] answers[k] by {
            if k > 0 {
                assert(answers[k] == answers.drop_first()[k - 1]);
            }
        }
    } else {
        assert(forall|k: int| 0 <= k < 0 ==> !#[trigger] answers[k]);
    }
}

/// The search goes by the file system: nothing is found only when the file system answered no
/// for every candidate, and a found path is a candidate that it answered yes for, every earlier
/// candidate having been answered no.
pub proof fn lemma_search_follows_file_system(cands: Seq<Seq<char>>, found: Option<Seq<char>>)
    requires
        search_result(cands, found),
    ensures
        found is None ==> forall|k: int| 0 <= k < cands.len() ==> answered(#[trigger] cands[k], false),
        found matches Some(p) ==> exists|i: int|
            0 <= i < cands.len() && cands[i] == p && answered(cands[i], true) && forall|k: int|
                0 <= k < i ==> answered(#[trigger] cands[k], false),
{
    let answers = choose|answers: Seq<bool>|
        answers.len() <= cands.len() && found == first_found(cands, answers) && (found is None
            ==> answers.len() == cands.len()) && forall|k: int|
            0 <= k < answers.len() ==> answered(cands[k], #[trigger] answers[k]);
    lemma_none_means_all_no(cands, answers);
    if found is None {
        assert forall|k: int| 0 <= k < cands.len() implies answered(#[trigger] cands[k], false) by {
            assert(!answers[k]);
            assert(answered(cands[k], answers[k]));
        }
    } else {
        lemma_found_index(cands, answers);
        let i = choose|i: int|
            0 <= i < answers.len() && i < cands.len() && answers[i] && cands[i] == first_found(
                cands,
                answers,
            )->0 && forall|k: int| 0 <= k < i ==> !#[trigger] answers[k];
        assert(answered(cands[i], answers[i]));
        assert forall|k: int| 0 <= k < i implies answered(#[trigger] cands[k], false) by {
            assert(!answers[k]);
            assert(answered(cands[k], answers[k]));
        }
    }
}

} // verus!
