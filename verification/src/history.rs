//! The list of commands entered so far, and how it is listed and saved.
use vstd::prelude::*;
use crate::text::{
    lemma_split_join, trim_end, trim_start,
    decimal, decimal_right_aligned, is_ws, join, join_from, pad_left, push_char, split, split_on,
    texts, trim, trimmed,
};

verus! {

/// The commands entered so far, oldest first.
pub struct CmdHistory {
    pub data: Vec<String>,
    /// Index of the last entry already saved to a history file.
    pub line_written_to_file: Option<usize>,
}

/// Why a history file could not be read in.
#[derive(Clone, Copy, Debug, PartialEq, Eq, Structural)]
pub enum ReadError {
    /// The file holds nothing.
    EmptyFile,
}

impl ReadError {
    /// The text shown for this error.
    pub fn message(&self) -> (r: String)
        ensures
            r@ == seq!['F', 'i', 'l', 'e', ' ', 'i', 's', ' ', 'e', 'm', 'p', 't', 'y'],
    {
        proof {
            reveal_strlit("File is empty");
        }
        let r = "File is empty".to_owned();
        assert(r@ =~= seq!['F', 'i', 'l', 'e', ' ', 'i', 's', ' ', 'e', 'm', 'p', 't', 'y']);
        r
    }
}

/// One line of a history listing: the entry's number right-aligned in five columns, a space,
/// the entry and a newline.
pub open spec fn listing_line(entries: Seq<Seq<char>>, i: int) -> Seq<char> {
    pad_left(decimal((i + 1) as nat), 5) + seq![' '] + entries[i] + seq!['\n']
}

/// The listing lines of `entries[from..to]`.
pub open spec fn listing(entries: Seq<Seq<char>>, from: int, to: int) -> Seq<char>
    decreases to - from,
{
    if to <= from {
        seq![]
    } else {
        listing(entries, from, to - 1) + listing_line(entries, to - 1)
    }
}

/// The first entry not yet saved, given the index of the last saved one.
pub open spec fn unsaved_from(saved: Option<usize>) -> int {
    match saved {
        None => 0,
        Some(n) => n + 1,
    }
}

/// The saved mark points at an existing entry.
pub open spec fn history_wf(entries: Seq<Seq<char>>, saved: Option<usize>) -> bool {
    saved matches Some(n) ==> n < entries.len()
}

/// The text written to a history file for `entries`: one entry per line.
pub open spec fn file_text(entries: Seq<Seq<char>>) -> Seq<char> {
    join(entries, seq!['\n']) + seq!['\n']
}

/// The entries that reading a history file holding `content` adds.
pub open spec fn file_entries(content: Seq<char>) -> Seq<Seq<char>> {
    split(trim(content), '\n')
}

/// The report of writing a history file: nothing, or that it failed.
pub fn write_report(succeeded: bool) -> (r: String)
    ensures
        r@ == if succeeded {
            Seq::<char>::empty()
        } else {
            "Failed to write to history file!"@
        },
{
    if succeeded {
        String::new()
    } else {
        "Failed to write to history file!".to_owned()
    }
}

/// The report of appending to a history file: nothing, or that it failed.
pub fn append_report(succeeded: bool) -> (r: String)
    ensures
        r@ == if succeeded {
            Seq::<char>::empty()
        } else {
            "Failed to append to history file!"@
        },
{
    if succeeded {
        String::new()
    } else {
        "Failed to append to history file!".to_owned()
    }
}

/// The operations on a command history.
pub trait HistHandling: Sized {
    /// The recorded commands, oldest first.
    spec fn entries(&self) -> Seq<Seq<char>>;

    /// The index of the last entry already saved to a history file.
    spec fn saved_upto(&self) -> Option<usize>;

    /// The listing of the whole history.
    fn show(&self) -> (r: String)
        ensures
            r@ == listing(self.entries(), 0, self.entries().len() as int),
    ;

    /// The listing of the last `num_entry_toshow` entries.
    fn show_last(&self, num_entry_toshow: usize) -> (r: String)
        requires
            num_entry_toshow <= self.entries().len(),
        ensures
            r@ == listing(
                self.entries(),
                self.entries().len() - num_entry_toshow,
                self.entries().len() as int,
            ),
    ;

    /// Adds the lines of a history file's `content`; an empty file is refused.
    fn read_in(&mut self, content: &str) -> (r: Result<usize, ReadError>)
        ensures
            content@.len() == 0 ==> r == Err::<usize, ReadError>(ReadError::EmptyFile)
                && final(self).entries() == old(self).entries(),
            content@.len() > 0 ==> final(self).entries() == old(self).entries() + file_entries(
                content@,
            ) && r == Ok::<usize, ReadError>(final(self).entries().len() as usize),
            final(self).saved_upto() == old(self).saved_upto(),
            history_wf(old(self).entries(), old(self).saved_upto()) ==> history_wf(
                final(self).entries(),
                final(self).saved_upto(),
            ),
    ;

    /// The text to write to a history file holding the whole history; marks every entry saved.
    fn write_to(&mut self) -> (contents: String)
        requires
            old(self).entries().len() > 0,
        ensures
            contents@ == file_text(old(self).entries()),
            final(self).entries() == old(self).entries(),
            final(self).saved_upto() == Some((old(self).entries().len() - 1) as usize),
            history_wf(final(self).entries(), final(self).saved_upto()),
    ;

    /// The text to append to a history file: the entries not saved yet; marks every entry
    /// saved.
    fn append_to(&mut self) -> (contents: String)
        requires
            old(self).entries().len() > 0,
            unsaved_from(old(self).saved_upto()) <= old(self).entries().len(),
        ensures
            contents@ == file_text(
                old(self).entries().subrange(
                    unsaved_from(old(self).saved_upto()),
                    old(self).entries().len() as int,
                ),
            ),
            final(self).entries() == old(self).entries(),
            final(self).saved_upto() == Some((old(self).entries().len() - 1) as usize),
            history_wf(final(self).entries(), final(self).saved_upto()),
    ;

    /// The entry `entry_num` places before the most recent one.
    fn get_latest(&self, entry_num: usize) -> (r: Option<String>)
        requires
            entry_num <= i64::MAX,
        ensures
            match r {
                None => entry_num >= self.entries().len(),
                Some(s) => entry_num < self.entries().len() && s@ == self.entries()[self.entries().len()
                    - 1 - entry_num],
            },
    ;

    /// A history holding the lines of a history file's content, all marked saved, or an empty
    /// history when there is no such content or it is empty.
    fn init(histfile_content: Option<&str>) -> (h: CmdHistory)
        ensures
            match histfile_content {
                Some(c) if c@.len() > 0 => texts(h.data@) == file_entries(c@) && h.line_written_to_file
                    == Some((file_entries(c@).len() - 1) as usize),
                _ => h.data@.len() == 0 && h.line_written_to_file == None::<usize>,
            },
            history_wf(texts(h.data@), h.line_written_to_file),
    ;
}

impl CmdHistory {
    /// The entries from index `from` on, joined by newlines, with a final newline.
    fn file_text_from(&self, from: usize) -> (r: String)
        requires
            from <= self.data.len(),
        ensures
            r@ == file_text(texts(self.data@).subrange(from as int, self.data@.len() as int)),
    {
        proof {
            reveal_strlit("\n");
            assert("\n"@ =~= seq!['\n']);
        }
        let mut r = join_from(self.data.as_slice(), from, "\n");
        push_char(&mut r, '\n');
        r
    }
}

impl HistHandling for CmdHistory {
    open spec fn entries(&self) -> Seq<Seq<char>> {
        texts(self.data@)
    }

    open spec fn saved_upto(&self) -> Option<usize> {
        self.line_written_to_file
    }

    fn show(&self) -> (r: String) {
        self.show_last(self.data.len())
    }

    fn show_last(&self, num_entry_toshow: usize) -> (r: String) {
        let ghost e = texts(self.data@);
        let from_index = self.data.len() - num_entry_toshow;
        let mut output = String::new();
        let mut i = from_index;
        while i < self.data.len()
            invariant
                e == texts(self.data@),
                from_index <= i <= self.data.len(),
                output@ == listing(e, from_index as int, i as int),
            decreases self.data.len() - i,
        {
            let number = decimal_right_aligned(i + 1, 5);
            output.append(number.as_str());
            push_char(&mut output, ' ');
            output.append(self.data[i].as_str());
            push_char(&mut output, '\n');
            assert(e[i as int] == self.data@[i as int]@);
            assert(output@ =~= listing(e, from_index as int, i + 1));
            i = i + 1;
        }
        output
    }

    fn read_in(&mut self, content: &str) -> (r: Result<usize, ReadError>) {
        if content.is_empty() {
            return Err(ReadError::EmptyFile);
        }
        let t = trimmed(content);
        let lines = split_on(t.as_str(), '\n');
        let ghost before = texts(self.data@);
        let mut i: usize = 0;
        while i < lines.len()
            invariant
                texts(lines@) == file_entries(content@),
                i <= lines.len(),
                texts(self.data@) == before + texts(lines@).take(i as int),
                self.line_written_to_file == old(self).line_written_to_file,
            decreases lines.len() - i,
        {
            let ghost prev = texts(self.data@);
            self.data.push(lines[i].clone());
            assert(texts(self.data@) =~= prev.push(lines@[i as int]@));
            assert(texts(lines@).take(i + 1) =~= texts(lines@).take(i as int).push(lines@[i as int]@));
            assert(texts(self.data@) =~= before + texts(lines@).take(i + 1));
            i = i + 1;
        }
        assert(texts(lines@).take(lines.len() as int) =~= texts(lines@));
        Ok(self.data.len())
    }

    fn write_to(&mut self) -> (contents: String) {
        let contents = self.file_text_from(0);
        assert(texts(self.data@).subrange(0, self.data@.len() as int) =~= texts(self.data@));
        self.line_written_to_file = Some(self.data.len() - 1);
        contents
    }

    fn append_to(&mut self) -> (contents: String) {
        assert(self.saved_upto() == self.line_written_to_file);
        assert(self.entries().len() == self.data.len());
        assert(unsaved_from(self.line_written_to_file) <= self.data.len());
        let write_from: usize = match self.line_written_to_file {
            None => 0,
            Some(n) => n + 1,
        };
        let contents = self.file_text_from(write_from);
        self.line_written_to_file = Some(self.data.len() - 1);
        contents
    }

    fn get_latest(&self, entry_num: usize) -> (r: Option<String>) {
        if entry_num >= self.data.len() {
            return None;
        }
        let from_index = self.data.len() - entry_num - 1;
        Some(self.data[from_index].clone())
    }

    fn init(histfile_content: Option<&str>) -> (h: CmdHistory) {
        let mut cmd_history = CmdHistory { data: Vec::new(), line_written_to_file: None };
        assert(texts(cmd_history.data@) =~= seq![]);
        if let Some(content) = histfile_content {
            proof {
                crate::text::lemma_split_len(trim(content@), '\n');
                assert(seq![] + file_entries(content@) =~= file_entries(content@));
            }
            let r = cmd_history.read_in(content);
            assert(cmd_history.entries() == texts(cmd_history.data@));
            assert(texts(cmd_history.data@).len() == cmd_history.data.len());
            if let Ok(n) = r {
                assert(n == texts(cmd_history.data@).len());
                cmd_history.line_written_to_file = Some(n - 1);
            }
        }
        cmd_history
    }
}

/// Trimming the front never lengthens a text, and shortens one that starts with white space.
proof fn lemma_trim_start_len(s: Seq<char>)
    ensures
        trim_start(s).len() <= s.len(),
        s.len() > 0 && is_ws(s[0]) ==> trim_start(s).len() < s.len(),
    decreases s.len(),
{
    if s.len() > 0 && is_ws(s[0]) {
        lemma_trim_start_len(s.drop_first());
    }
}

/// Trimming the end never lengthens a text, and shortens one that ends with white space.
proof fn lemma_trim_end_len(s: Seq<char>)
    ensures
        trim_end(s).len() <= s.len(),
        s.len() > 0 && is_ws(s.last()) ==> trim_end(s).len() < s.len(),
    decreases s.len(),
{
    if s.len() > 0 && is_ws(s.last()) {
        lemma_trim_end_len(s.drop_last());
    }
}

/// Reading back the text that saving the history writes gives the same entries, provided no
/// entry holds a newline and the entries joined by newlines have no white space at either end
/// (reading trims the file's text).
pub proof fn lemma_file_text_reads_back(entries: Seq<Seq<char>>)
    requires
        entries.len() >= 1,
        forall|i: int| 0 <= i < entries.len() ==> !(#[trigger] entries[i]).contains('\n'),
        trim(join(entries, seq!['\n'])) == join(entries, seq!['\n']),
    ensures
        file_text(entries).len() > 0,
        file_entries(file_text(entries)) == entries,
{
    let j = join(entries, seq!['\n']);
    let t = file_text(entries);
    assert(t.drop_last() =~= j);
    assert(is_ws(t.last()));
    if j.len() == 0 {
        if entries.len() >= 2 {
            assert(j.len() >= 1);
        }
        assert(entries.len() == 1);
        assert(entries[0] == j);
        assert(entries[0] =~= Seq::<char>::empty());
        assert(t =~= seq!['\n']);
        assert(trim_start(t.drop_first()) == t.drop_first());
        assert(trim_start(t) =~= Seq::<char>::empty());
        assert(trim(t) =~= Seq::<char>::empty());
        assert(split(Seq::<char>::empty(), '\n') =~= seq![Seq::<char>::empty()]);
        assert(entries =~= seq![Seq::<char>::empty()]);
    } else {
        lemma_trim_start_len(j);
        lemma_trim_end_len(trim_start(j));
        assert(!is_ws(j[0]));
        assert(trim_start(j) == j);
        lemma_trim_end_len(j);
        assert(!is_ws(j.last()));
        assert(t[0] == j[0]);
        assert(trim_start(t) == t);
        assert(trim_end(t) == trim_end(j));
        assert(trim_end(j) == j);
        lemma_split_join(entries, '\n');
    }
}

/// Joining two non-empty lists of parts is joining each and putting the separator between.
proof fn lemma_join_concat(a: Seq<Seq<char>>, b: Seq<Seq<char>>, sep: Seq<char>)
    requires
        a.len() >= 1,
        b.len() >= 1,
    ensures
        join(a + b, sep) == join(a, sep) + sep + join(b, sep),
    decreases b.len(),
{
    let ab = a + b;
    if b.len() == 1 {
        assert(ab.drop_last() =~= a);
        assert(ab.last() == b[0]);
    } else {
        assert(ab.drop_last() =~= a + b.drop_last());
        assert(ab.last() == b.last());
        lemma_join_concat(a, b.drop_last(), sep);
        assert(join(a, sep) + sep + join(b.drop_last(), sep) + sep + b.last() =~= join(a, sep) + sep
            + join(b, sep));
    }
}

/// Once every entry is saved, appending writes exactly the entries recorded since, so that the
/// saved text followed by the appended text is the text of the whole history.
pub proof fn lemma_append_after_save(saved: Seq<Seq<char>>, added: Seq<Seq<char>>)
    requires
        1 <= saved.len() <= usize::MAX,
    ensures
        file_text(
            (saved + added).subrange(
                unsaved_from(Some((saved.len() - 1) as usize)),
                (saved + added).len() as int,
            ),
        ) == file_text(added),
        added.len() >= 1 ==> file_text(saved) + file_text(added) == file_text(saved + added),
{
    assert((saved + added).subrange(saved.len() as int, (saved + added).len() as int) =~= added);
    if added.len() >= 1 {
        lemma_join_concat(saved, added, seq!['\n']);
        assert(file_text(saved) + file_text(added) =~= file_text(saved + added));
    }
}

} // verus!
