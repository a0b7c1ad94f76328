//! The decisions of the line editor: what each key press does to the line being typed and to
//! the screen. Reading keys and drawing are left to the caller.
use vstd::prelude::*;
use crate::builtin_cmd::{all_names, Builtins};
use crate::history::{CmdHistory, HistHandling};
use crate::text::{
    chars_of, has_prefix, push_char, starts_with, string_of, texts, trim, trimmed, words, words_of,
    opt_text,
};

verus! {

/// A key press, as the line editor sees it.
#[derive(Clone, Copy, Debug, PartialEq, Eq, Structural)]
pub enum Key {
    /// A character key; `'\n'` is Enter and `'\t'` is Tab.
    Char(char),
    Up,
    Down,
    Backspace,
    /// Any other key, which is ignored.
    Other,
}

/// What the screen should show after a key press.
#[derive(Debug)]
pub enum EditorAction {
    /// Nothing changes on screen.
    Nothing,
    /// The line is complete.
    Submit,
    /// Show this character after the cursor.
    Echo(char),
    /// Remove the character before the cursor, unless only the prompt is left.
    EraseLast,
    /// Redraw the current line as the prompt followed by this text.
    ShowLine(String),
    /// Ring the bell, then redraw the current line as the prompt followed by this text.
    BellAndShowLine(String),
}

/// What the screen should show after a key press, as a mathematical value.
pub enum ScreenChange {
    Nothing,
    Submit,
    Echo(char),
    EraseLast,
    ShowLine(Seq<char>),
    BellAndShowLine(Seq<char>),
}

impl View for EditorAction {
    type V = ScreenChange;

    open spec fn view(&self) -> ScreenChange {
        match self {
            EditorAction::Nothing => ScreenChange::Nothing,
            EditorAction::Submit => ScreenChange::Submit,
            EditorAction::Echo(c) => ScreenChange::Echo(*c),
            EditorAction::EraseLast => ScreenChange::EraseLast,
            EditorAction::ShowLine(s) => ScreenChange::ShowLine(s@),
            EditorAction::BellAndShowLine(s) => ScreenChange::BellAndShowLine(s@),
        }
    }
}

/// The line being typed, and where browsing the history has got to.
pub struct LineEditor {
    pub user_input: String,
    /// How many entries back from the most recent one the next Up shows.
    pub which_history_entry: usize,
    /// Whether the last history move was Down.
    pub history_search_down: bool,
}

/// The first candidate that starts with `w`.
pub open spec fn first_match(cands: Seq<Seq<char>>, w: Seq<char>) -> Option<Seq<char>>
    decreases cands.len(),
{
    if cands.len() == 0 {
        None
    } else if has_prefix(cands[0], w) {
        Some(cands[0])
    } else {
        first_match(cands.drop_first(), w)
    }
}

/// `s` ends with `suffix`.
pub open spec fn has_suffix(s: Seq<char>, suffix: Seq<char>) -> bool {
    suffix.len() <= s.len() && s.subrange(s.len() - suffix.len(), s.len() as int) == suffix
}

/// The completion of the last word of `input`: the first builtin name, or else the first of
/// `path_cmds`, that starts with it.
pub open spec fn completion_match(input: Seq<char>, path_cmds: Seq<Seq<char>>) -> Option<Seq<char>> {
    let ws = words(input);
    if ws.len() == 0 {
        None
    } else {
        match first_match(all_names(), ws.last()) {
            Some(m) => Some(m),
            None => first_match(path_cmds, ws.last()),
        }
    }
}

/// Tab completion cannot cut the last word off the line: the line ends in white space after
/// it, yet a completion was found.
pub open spec fn completion_fails(input: Seq<char>, path_cmds: Seq<Seq<char>>) -> bool {
    completion_match(input, path_cmds) is Some && !has_suffix(input, words(input).last())
}

/// The line after Tab, and whether the bell rings: the last word is replaced by its completion
/// and a space; with no completion the line stays and the bell rings, unless there is no word.
pub open spec fn completed(input: Seq<char>, path_cmds: Seq<Seq<char>>) -> (Seq<char>, bool) {
    let ws = words(input);
    if ws.len() == 0 {
        (input, false)
    } else {
        match completion_match(input, path_cmds) {
            Some(m) => (input.subrange(0, input.len() - ws.last().len()) + m + seq![' '], false),
            None => (input, true),
        }
    }
}

/// The first of `cands` that starts with `w`.
fn find_match(cands: &[String], w: &str) -> (r: Option<String>)
    ensures
        opt_text(r) == first_match(texts(cands@), w@),
{
    let ghost all = texts(cands@);
    let mut i: usize = 0;
    assert(all.subrange(0, all.len() as int) =~= all);
    while i < cands.len()
        invariant
            all == texts(cands@),
            i <= cands.len(),
            first_match(all, w@) == first_match(all.subrange(i as int, all.len() as int), w@),
        decreases cands.len() - i,
    {
        let ghost rest = all.subrange(i as int, all.len() as int);
        assert(rest[0] == cands@[i as int]@);
        if starts_with(cands[i].as_str(), w) {
            return Some(cands[i].clone());
        }
        assert(rest.drop_first() =~= all.subrange(i + 1, all.len() as int));
        i = i + 1;
    }
    None
}

/// The completion of the last word of `input`, if any, with that word.
fn completion_of(input: &str, path_cmds: &[String]) -> (r: Option<(String, String)>)
    ensures
        match r {
            None => completion_match(input@, texts(path_cmds@)) is None,
            Some((w, m)) => words(input@).len() > 0 && w@ == words(input@).last() && Some(m@)
                == completion_match(input@, texts(path_cmds@)),
        },
{
    let ws = words_of(input);
    if ws.len() == 0 {
        return None;
    }
    let last = ws[ws.len() - 1].clone();
    assert(last@ == words(input@).last());
    let names = Builtins::all_cmd_names();
    match find_match(names.as_slice(), last.as_str()) {
        Some(m) => Some((last, m)),
        None => match find_match(path_cmds, last.as_str()) {
            Some(m) => Some((last, m)),
            None => None,
        },
    }
}

/// Whether `s` ends with `suffix`.
fn ends_with(s: &str, suffix: &str) -> (r: bool)
    ensures
        r == has_suffix(s@, suffix@),
{
    let x = chars_of(s);
    let y = chars_of(suffix);
    if y.len() > x.len() {
        return false;
    }
    let off = x.len() - y.len();
    let mut i: usize = 0;
    while i < y.len()
        invariant
            x@ == s@,
            y@ == suffix@,
            off == x.len() - y.len(),
            i <= y.len(),
            forall|j: int| 0 <= j < i ==> x@[off + j] == y@[j],
        decreases y.len() - i,
    {
        if x[off + i] != y[i] {
            assert(s@.subrange(off as int, s@.len() as int)[i as int] != suffix@[i as int]);
            return false;
        }
        i = i + 1;
    }
    assert(s@.subrange(off as int, s@.len() as int) =~= suffix@);
    true
}

/// Whether pressing Tab on this line would fail to cut off its last word.
pub fn tab_completion_fails(input: &str, path_cmds: &[String]) -> (r: bool)
    ensures
        r == completion_fails(input@, texts(path_cmds@)),
{
    match completion_of(input, path_cmds) {
        None => false,
        Some((w, _)) => !ends_with(input, w.as_str()),
    }
}

/// Tab completion: the line with its last word completed, and whether the bell rings.
pub fn do_tab_completion(user_input: &str, path_cmds: &[String]) -> (r: (String, bool))
    requires
        !completion_fails(user_input@, texts(path_cmds@)),
    ensures
        (r.0@, r.1) == completed(user_input@, texts(path_cmds@)),
{
    let ws = words_of(user_input);
    if ws.len() == 0 {
        return (user_input.to_owned(), false);
    }
    match completion_of(user_input, path_cmds) {
        None => (user_input.to_owned(), true),
        Some((last, m)) => {
            let v = chars_of(user_input);
            let n = last.as_str().unicode_len();
            assert(has_suffix(user_input@, last@));
            let mut r = string_of(&v, 0, v.len() - n);
            r.append(m.as_str());
            push_char(&mut r, ' ');
            (r, false)
        },
    }
}

/// `n - 1`, or 0 for 0.
pub open spec fn step_back(n: usize) -> usize {
    if n == 0 {
        0
    } else {
        (n - 1) as usize
    }
}

/// The state and screen change after a key press, from the line, the history position, the
/// direction of the last history move, the history's entries and the commands on the search
/// path.
pub open spec fn key_effect(
    input: Seq<char>,
    entry: usize,
    down: bool,
    key: Key,
    entries: Seq<Seq<char>>,
    path_cmds: Seq<Seq<char>>,
) -> (Seq<char>, usize, bool, ScreenChange) {
    match key {
        Key::Char(c) => if c == '\n' {
            (input.push('\n'), entry, down, ScreenChange::Submit)
        } else if c == '\t' {
            let (line, bell) = completed(input, path_cmds);
            (
                line,
                entry,
                down,
                if bell {
                    ScreenChange::BellAndShowLine(line)
                } else {
                    ScreenChange::ShowLine(line)
                },
            )
        } else {
            (input.push(c), entry, down, ScreenChange::Echo(c))
        },
        Key::Up => if entry < entries.len() {
            let s = entries[entries.len() - 1 - entry];
            (s, (entry + 1) as usize, false, ScreenChange::ShowLine(s))
        } else {
            (input, entry, down, ScreenChange::Nothing)
        },
        Key::Down => {
            let e = step_back(
                if down {
                    entry
                } else {
                    step_back(entry)
                },
            );
            if e < entries.len() {
                let s = entries[entries.len() - 1 - e];
                (s, e, true, ScreenChange::ShowLine(s))
            } else {
                (input, e, true, ScreenChange::Nothing)
            }
        },
        Key::Backspace => (
            if input.len() > 0 {
                input.drop_last()
            } else {
                input
            },
            entry,
            down,
            ScreenChange::EraseLast,
        ),
        Key::Other => (input, entry, down, ScreenChange::Nothing),
    }
}

/// Whether a key press can be handled: the history position stays within the history, and Tab
/// does not meet a line that it cannot complete.
pub open spec fn key_handled(
    input: Seq<char>,
    entry: usize,
    key: Key,
    entries: Seq<Seq<char>>,
    path_cmds: Seq<Seq<char>>,
) -> bool {
    &&& entries.len() <= i64::MAX
    &&& entry <= entries.len()
    &&& key == Key::Char('\t') ==> !completion_fails(input, path_cmds)
}

impl LineEditor {
    /// An empty line at the most recent end of the history.
    pub fn new() -> (r: LineEditor)
        ensures
            r.user_input@ == Seq::<char>::empty(),
            r.which_history_entry == 0,
            !r.history_search_down,
    {
        LineEditor { user_input: String::new(), which_history_entry: 0, history_search_down: false }
    }

    /// Handles one key press; `path_cmds` are the commands on the search path, which only Tab
    /// consults.
    pub fn handle_key(&mut self, key: Key, cmd_history: &CmdHistory, path_cmds: &[String]) -> (r:
        EditorAction)
        requires
            key_handled(
                old(self).user_input@,
                old(self).which_history_entry,
                key,
                texts(cmd_history.data@),
                texts(path_cmds@),
            ),
        ensures
            (
                final(self).user_input@,
                final(self).which_history_entry,
                final(self).history_search_down,
                r@,
            ) == key_effect(
                old(self).user_input@,
                old(self).which_history_entry,
                old(self).history_search_down,
                key,
                texts(cmd_history.data@),
                texts(path_cmds@),
            ),
            final(self).which_history_entry <= cmd_history.data@.len(),
    {
        let ghost entries = texts(cmd_history.data@);
        assert(cmd_history.entries() == entries);
        assert(entries.len() == cmd_history.data.len());
        match key {
            Key::Char(c) => {
                if c == '\n' {
                    push_char(&mut self.user_input, '\n');
                    EditorAction::Submit
                } else if c == '\t' {
                    let (line, bell) = do_tab_completion(self.user_input.as_str(), path_cmds);
                    self.user_input = line.clone();
                    if bell {
                        EditorAction::BellAndShowLine(line)
                    } else {
                        EditorAction::ShowLine(line)
                    }
                } else {
                    push_char(&mut self.user_input, c);
                    EditorAction::Echo(c)
                }
            },
            Key::Up => {
                match cmd_history.get_latest(self.which_history_entry) {
                    Some(cmd_string) => {
                        self.user_input = cmd_string.clone();
                        self.which_history_entry = self.which_history_entry + 1;
                        self.history_search_down = false;
                        EditorAction::ShowLine(cmd_string)
                    },
                    None => EditorAction::Nothing,
                }
            },
            Key::Down => {
                if !self.history_search_down {
                    self.which_history_entry = if self.which_history_entry == 0 {
                        0
                    } else {
                        self.which_history_entry - 1
                    };
                    self.history_search_down = true;
                }
                self.which_history_entry = if self.which_history_entry == 0 {
                    0
                } else {
                    self.which_history_entry - 1
                };
                match cmd_history.get_latest(self.which_history_entry) {
                    Some(cmd_string) => {
                        self.user_input = cmd_string.clone();
                        EditorAction::ShowLine(cmd_string)
                    },
                    None => EditorAction::Nothing,
                }
            },
            Key::Backspace => {
                let v = chars_of(self.user_input.as_str());
                if v.len() > 0 {
                    self.user_input = string_of(&v, 0, v.len() - 1);
                    assert(self.user_input@ =~= old(self).user_input@.drop_last());
                }
                EditorAction::EraseLast
            },
            Key::Other => EditorAction::Nothing,
        }
    }
}

/// Ends the line: records it, trimmed, in the history, and gives its words.
pub fn submit_line(user_input: &str, cmd_history: &mut CmdHistory) -> (r: Vec<String>)
    ensures
        texts(final(cmd_history).data@) == texts(old(cmd_history).data@).push(trim(user_input@)),
        final(cmd_history).line_written_to_file == old(cmd_history).line_written_to_file,
        texts(r@) == words(trim(user_input@)),
{
    let line = trimmed(user_input);
    let ghost before = texts(cmd_history.data@);
    cmd_history.data.push(line.clone());
    assert(texts(cmd_history.data@) =~= before.push(trim(user_input@)));
    words_of(line.as_str())
}

/// Typing a character and deleting it again gives back the line, history position and
/// direction, and shows the character and then erases it.
pub proof fn lemma_type_then_erase(
    input: Seq<char>,
    entry: usize,
    down: bool,
    c: char,
    entries: Seq<Seq<char>>,
    path_cmds: Seq<Seq<char>>,
)
    requires
        c != '\n',
        c != '\t',
    ensures
        ({
            let (line, e, d, shown) = key_effect(input, entry, down, Key::Char(c), entries, path_cmds);
            let (line2, e2, d2, shown2) = key_effect(line, e, d, Key::Backspace, entries, path_cmds);
            line2 == input && e2 == entry && d2 == down && shown == ScreenChange::Echo(c)
                && shown2 == ScreenChange::EraseLast
        }),
{
    assert(input.push(c).drop_last() =~= input);
}

/// The first candidate with a prefix is the first one that has it; with none, nothing.
proof fn lemma_first_match(cands: Seq<Seq<char>>, w: Seq<char>)
    ensures
        (forall|j: int| 0 <= j < cands.len() ==> !has_prefix(#[trigger] cands[j], w))
            ==> first_match(cands, w) is None,
        forall|k: int|
            0 <= k < cands.len() && has_prefix(#[trigger] cands[k], w) && (forall|j: int|
                0 <= j < k ==> !has_prefix(#[trigger] cands[j], w)) ==> first_match(cands, w)
                == Some(cands[k]),
    decreases cands.len(),
{
    if cands.len() > 0 {
        let rest = cands.drop_first();
        lemma_first_match(rest, w);
        assert forall|k: int|
            0 <= k < cands.len() && has_prefix(#[trigger] cands[k], w) && (forall|j: int|
                0 <= j < k ==> !has_prefix(#[trigger] cands[j], w)) implies first_match(cands, w)
            == Some(cands[k]) by {
            if k > 0 {
                assert(!has_prefix(cands[0], w));
                assert(rest[k - 1] == cands[k]);
                assert forall|j: int| 0 <= j < k - 1 implies !has_prefix(#[trigger] rest[j], w) by {
                    assert(rest[j] == cands[j + 1]);
                }
            }
        }
        if forall|j: int| 0 <= j < cands.len() ==> !has_prefix(#[trigger] cands[j], w) {
            assert(!has_prefix(cands[0], w));
            assert forall|j: int| 0 <= j < rest.len() implies !has_prefix(#[trigger] rest[j], w) by {
                assert(rest[j] == cands[j + 1]);
            }
        }
    }
}

/// When a builtin name starts with the last word of the line, Tab completes that word to the
/// first such builtin name, in declaration order, followed by a space, whatever commands the
/// search path holds, and the bell stays silent.
pub proof fn lemma_builtins_complete_first(input: Seq<char>, path_cmds: Seq<Seq<char>>, k: int)
    requires
        words(input).len() > 0,
        0 <= k < all_names().len(),
        has_prefix(all_names()[k], words(input).last()),
        forall|j: int| 0 <= j < k ==> !has_prefix(#[trigger] all_names()[j], words(input).last()),
    ensures
        completed(input, path_cmds) == (
            input.subrange(0, input.len() - words(input).last().len()) + all_names()[k] + seq![' '],
            false,
        ),
{
    lemma_first_match(all_names(), words(input).last());
}

/// When no builtin name starts with the last word of the line, Tab completes it to the first
/// command of the search path that starts with it, followed by a space; when none does, the
/// line stays as it is and the bell rings.
pub proof fn lemma_path_commands_complete_otherwise(
    input: Seq<char>,
    path_cmds: Seq<Seq<char>>,
)
    requires
        words(input).len() > 0,
        forall|j: int|
            0 <= j < all_names().len() ==> !has_prefix(#[trigger] all_names()[j], words(input).last()),
    ensures
        forall|k: int|
            0 <= k < path_cmds.len() && has_prefix(#[trigger] path_cmds[k], words(input).last())
                && (forall|j: int|
                0 <= j < k ==> !has_prefix(#[trigger] path_cmds[j], words(input).last()))
                ==> completed(input, path_cmds) == (
                input.subrange(0, input.len() - words(input).last().len()) + path_cmds[k] + seq![' '],
                false,
            ),
        (forall|j: int| 0 <= j < path_cmds.len() ==> !has_prefix(#[trigger] path_cmds[j], words(input).last()))
            ==> completed(input, path_cmds) == (input, true),
{
    lemma_first_match(all_names(), words(input).last());
    lemma_first_match(path_cmds, words(input).last());
}

/// Up from a position inside the history shows the entry that many places before the most
/// recent one and moves one place further back; a Down right after it shows the entry one
/// place newer than the one Up showed (the most recent one again when Up showed the most
/// recent), whatever moves came before.
pub proof fn lemma_up_then_down(
    input: Seq<char>,
    entry: usize,
    down: bool,
    entries: Seq<Seq<char>>,
    path_cmds: Seq<Seq<char>>,
)
    requires
        entry < entries.len() <= usize::MAX,
    ensures
        ({
            let n = entries.len();
            let (line1, e1, d1, shown1) = key_effect(input, entry, down, Key::Up, entries, path_cmds);
            let (line2, e2, d2, shown2) = key_effect(line1, e1, d1, Key::Down, entries, path_cmds);
            &&& line1 == entries[n - 1 - entry]
            &&& e1 == entry + 1
            &&& shown1 == ScreenChange::ShowLine(entries[n - 1 - entry])
            &&& entry >= 1 ==> line2 == entries[n - entry] && e2 == entry - 1 && shown2
                == ScreenChange::ShowLine(entries[n - entry])
            &&& entry == 0 ==> line2 == entries[n - 1] && e2 == 0 && shown2 == ScreenChange::ShowLine(
                entries[n - 1],
            )
            &&& d2
        }),
{
    let n = entries.len();
    let e1 = (entry + 1) as usize;
    assert(key_effect(input, entry, down, Key::Up, entries, path_cmds) == (
        entries[n - 1 - entry],
        e1,
        false,
        ScreenChange::ShowLine(entries[n - 1 - entry]),
    ));
    assert(step_back(e1) == entry);
    let e2 = step_back(entry);
    assert(entry >= 1 ==> e2 == entry - 1);
    assert(entry == 0 ==> e2 == 0);
    assert(e2 < n);
    assert(key_effect(entries[n - 1 - entry], e1, false, Key::Down, entries, path_cmds) == (
        entries[n - 1 - e2],
        e2,
        true,
        ScreenChange::ShowLine(entries[n - 1 - e2]),
    ));
}

/// A further Down moves one place toward the most recent entry and shows it, and stays at the
/// most recent entry once there.
pub proof fn lemma_down_again(
    input: Seq<char>,
    entry: usize,
    entries: Seq<Seq<char>>,
    path_cmds: Seq<Seq<char>>,
)
    requires
        entry < entries.len(),
    ensures
        ({
            let n = entries.len();
            let next: int = if entry == 0 {
                0
            } else {
                entry - 1
            };
            key_effect(input, entry, true, Key::Down, entries, path_cmds) == (
                entries[n - 1 - next],
                next as usize,
                true,
                ScreenChange::ShowLine(entries[n - 1 - next]),
            )
        }),
{
}

} // verus!
