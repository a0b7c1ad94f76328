//! The text that a command leaves for its output and error streams.
use vstd::prelude::*;
use crate::text::push_char;

verus! {

/// What a command printed to its output and error streams.
pub struct OutputStrings {
    pub out: String,
    pub err: String,
}

/// `s`, ended by a newline unless it is empty or already ends with one.
pub open spec fn with_line_end(s: Seq<char>) -> Seq<char> {
    if s.len() > 0 && s.last() != '\n' {
        s.push('\n')
    } else {
        s
    }
}

/// `s`, ended by a newline unless it is empty or already ends with one.
fn line_ended(s: &str) -> (r: String)
    ensures
        r@ == with_line_end(s@),
{
    let mut r = s.to_owned();
    let n = s.unicode_len();
    if n > 0 && s.get_char(n - 1) != '\n' {
        push_char(&mut r, '\n');
    }
    r
}

impl OutputStrings {
    /// Output `out`, ended by a newline, and no error text.
    pub fn from_out(out: &str) -> (r: OutputStrings)
        ensures
            r.out@ == with_line_end(out@),
            r.err@ == Seq::<char>::empty(),
    {
        OutputStrings { out: line_ended(out), err: String::new() }
    }

    /// Error text `err`, ended by a newline, and no output.
    pub fn from_err(err: &str) -> (r: OutputStrings)
        ensures
            r.out@ == Seq::<char>::empty(),
            r.err@ == with_line_end(err@),
    {
        OutputStrings { out: String::new(), err: line_ended(err) }
    }
}

/// Ending a text by a newline leaves it empty or ending in a newline, and doing it again
/// changes nothing.
pub proof fn lemma_line_end(s: Seq<char>)
    ensures
        with_line_end(s).len() == 0 || with_line_end(s).last() == '\n',
        with_line_end(with_line_end(s)) == with_line_end(s),
        s.len() <= with_line_end(s).len() <= s.len() + 1,
        with_line_end(s).take(s.len() as int) == s,
{
    assert(with_line_end(s).take(s.len() as int) =~= s);
}

} // verus!
