//! Splitting a line into words, honouring single and double quotes.
use vstd::prelude::*;
use crate::text::{chars_of, is_whitespace, is_ws, push_char, texts, words};

verus! {

/// Which kind of quote the tokenizer is inside.
#[derive(Clone, Copy, Debug, PartialEq, Eq, Structural)]
pub enum Quotation {
    No,
    Single,
    Double,
}

/// The first index from `j` on that does not hold white space (or the end of `s`).
pub open spec fn skip_ws(s: Seq<char>, j: int) -> int
    decreases s.len() - j,
{
    if 0 <= j < s.len() && is_ws(s[j]) {
        skip_ws(s, j + 1)
    } else {
        j
    }
}

/// Skipping white space never moves back, and stops at the end or at a non-space character.
pub proof fn lemma_skip_ws(s: Seq<char>, j: int)
    requires
        0 <= j,
    ensures
        j <= skip_ws(s, j),
        j <= s.len() ==> skip_ws(s, j) <= s.len(),
        forall|k: int| j <= k < skip_ws(s, j) ==> is_ws(#[trigger] s[k]),
        skip_ws(s, j) < s.len() ==> !is_ws(s[skip_ws(s, j)]),
    decreases s.len() - j,
{
    if 0 <= j < s.len() && is_ws(s[j]) {
        lemma_skip_ws(s, j + 1);
    }
}

/// `toks` with `c` added to its last word.
pub open spec fn append_last(toks: Seq<Seq<char>>, c: char) -> Seq<Seq<char>> {
    toks.update(toks.len() - 1, toks.last().push(c))
}

/// The words of `s` from index `i` on, continuing from the words `toks` read so far inside the
/// quotation `q`. Outside quotes a white-space run ends a word; a quote opens a quotation,
/// except that an empty pair of quotes is dropped. Inside a quotation every character belongs
/// to the word, and a doubled closing quote continues the quotation.
pub open spec fn lex(s: Seq<char>, i: int, toks: Seq<Seq<char>>, q: Quotation) -> Seq<Seq<char>>
    decreases s.len() - i,
{
    if i < 0 || i >= s.len() {
        toks
    } else {
        let c = s[i];
        let doubled = i + 1 < s.len() && s[i + 1] == c;
        match q {
            Quotation::No => {
                if is_ws(c) {
                    proof {
                        lemma_skip_ws(s, i + 1);
                    }
                    lex(s, skip_ws(s, i + 1), toks.push(seq![]), Quotation::No)
                } else if c == '\'' {
                    if doubled {
                        lex(s, i + 2, toks, Quotation::No)
                    } else {
                        lex(s, i + 1, toks, Quotation::Single)
                    }
                } else if c == '"' {
                    if doubled {
                        lex(s, i + 2, toks, Quotation::No)
                    } else {
                        lex(s, i + 1, toks, Quotation::Double)
                    }
                } else {
                    lex(s, i + 1, append_last(toks, c), Quotation::No)
                }
            },
            Quotation::Single => {
                if c == '\'' {
                    if doubled {
                        lex(s, i + 2, toks, Quotation::Single)
                    } else {
                        lex(s, i + 1, toks, Quotation::No)
                    }
                } else {
                    lex(s, i + 1, append_last(toks, c), Quotation::Single)
                }
            },
            Quotation::Double => {
                if c == '"' {
                    if doubled {
                        lex(s, i + 2, toks, Quotation::Double)
                    } else {
                        lex(s, i + 1, toks, Quotation::No)
                    }
                } else {
                    lex(s, i + 1, append_last(toks, c), Quotation::Double)
                }
            },
        }
    }
}

/// The words of a line.
pub open spec fn tokens(s: Seq<char>) -> Seq<Seq<char>> {
    lex(s, 0, seq![seq![]], Quotation::No)
}

/// Splits `input` into words: white space outside quotes separates words, quotes group
/// characters into a word and are dropped.
pub fn tokenize(input: &String) -> (r: Vec<String>)
    ensures
        texts(r@) == tokens(input@),
{
    let v = chars_of(input.as_str());
    let mut done: Vec<String> = Vec::new();
    let mut cur = String::new();
    let mut q = Quotation::No;
    let mut i: usize = 0;
    assert(texts(done@).push(cur@) =~= seq![seq![]]);
    while i < v.len()
        invariant
            v@ == input@,
            i <= v.len(),
            tokens(input@) == lex(v@, i as int, texts(done@).push(cur@), q),
        decreases v.len() - i,
    {
        let c = v[i];
        let ghost toks = texts(done@).push(cur@);
        let doubled = i + 1 < v.len() && v[i + 1] == c;
        match q {
            Quotation::No => {
                if is_whitespace(c) {
                    let ghost prev = texts(done@);
                    done.push(cur);
                    cur = String::new();
                    assert(texts(done@).push(cur@) =~= toks.push(seq![]));
                    let mut j = i + 1;
                    proof {
                        crate::tokenizer::lemma_skip_ws(v@, i + 1);
                    }
                    while j < v.len() && is_whitespace(v[j])
                        invariant
                            i + 1 <= j <= v.len(),
                            skip_ws(v@, j as int) == skip_ws(v@, i + 1),
                        decreases v.len() - j,
                    {
                        j = j + 1;
                    }
                    i = j;
                } else if c == '\'' || c == '"' {
                    if doubled {
                        i = i + 2;
                    } else {
                        q = if c == '\'' {
                            Quotation::Single
                        } else {
                            Quotation::Double
                        };
                        i = i + 1;
                    }
                } else {
                    push_char(&mut cur, c);
                    assert(texts(done@).push(cur@) =~= append_last(toks, c));
                    i = i + 1;
                }
            },
            Quotation::Single | Quotation::Double => {
                let closing = if q == Quotation::Single {
                    '\''
                } else {
                    '"'
                };
                if c == closing {
                    if doubled {
                        i = i + 2;
                    } else {
                        q = Quotation::No;
                        i = i + 1;
                    }
                } else {
                    push_char(&mut cur, c);
                    assert(texts(done@).push(cur@) =~= append_last(toks, c));
                    i = i + 1;
                }
            },
        }
    }
    let ghost prev = texts(done@);
    done.push(cur);
    assert(texts(done@) =~= prev.push(cur@));
    done
}

/// Lexing never drops a word already read.
proof fn lemma_lex_len(s: Seq<char>, i: int, toks: Seq<Seq<char>>, q: Quotation)
    requires
        toks.len() >= 1,
    ensures
        lex(s, i, toks, q).len() >= toks.len(),
    decreases s.len() - i,
{
    if 0 <= i < s.len() {
        let c = s[i];
        lemma_skip_ws(s, i + 1);
        lemma_lex_len(s, i + 1, toks, Quotation::No);
        lemma_lex_len(s, i + 1, toks, Quotation::Single);
        lemma_lex_len(s, i + 1, toks, Quotation::Double);
        if i + 2 <= s.len() {
            lemma_lex_len(s, i + 2, toks, q);
            lemma_lex_len(s, i + 2, toks, Quotation::No);
        }
        lemma_lex_len(s, i + 1, append_last(toks, c), q);
        lemma_lex_len(s, skip_ws(s, i + 1), toks.push(seq![]), Quotation::No);
    }
}

/// A line always has at least one word, possibly empty.
pub proof fn lemma_tokens_nonempty(s: Seq<char>)
    ensures
        tokens(s).len() >= 1,
{
    lemma_lex_len(s, 0, seq![seq![]], Quotation::No);
}

/// `s` with its white space removed.
pub open spec fn strip_ws(s: Seq<char>) -> Seq<char>
    decreases s.len(),
{
    if s.len() == 0 {
        seq![]
    } else {
        (if is_ws(s[0]) {
            seq![]
        } else {
            seq![s[0]]
        }) + strip_ws(s.drop_first())
    }
}

/// The words one after the other.
pub open spec fn concat(toks: Seq<Seq<char>>) -> Seq<char>
    decreases toks.len(),
{
    if toks.len() == 0 {
        seq![]
    } else {
        concat(toks.drop_last()) + toks.last()
    }
}

/// The line holds no quote character.
pub open spec fn quote_free(s: Seq<char>) -> bool {
    forall|k: int| 0 <= k < s.len() ==> #[trigger] s[k] != '\'' && s[k] != '"'
}

/// No word holds white space.
pub open spec fn ws_free(toks: Seq<Seq<char>>) -> bool {
    forall|k: int, j: int|
        0 <= k < toks.len() && 0 <= j < toks[k].len() ==> !is_ws(#[trigger] toks[k][j])
}

/// White space skipped over contributes nothing once white space is removed.
proof fn lemma_strip_skipped(s: Seq<char>, i: int, j: int)
    requires
        0 <= i <= j <= s.len(),
        forall|k: int| i <= k < j ==> is_ws(#[trigger] s[k]),
    ensures
        strip_ws(s.subrange(i, s.len() as int)) == strip_ws(s.subrange(j, s.len() as int)),
    decreases j - i,
{
    if i < j {
        let t = s.subrange(i, s.len() as int);
        assert(t.drop_first() =~= s.subrange(i + 1, s.len() as int));
        assert(is_ws(s[i]));
        assert(t[0] == s[i]);
        assert(strip_ws(t) =~= strip_ws(s.subrange(i + 1, s.len() as int)));
        lemma_strip_skipped(s, i + 1, j);
    }
}

/// Adding a character to the last word adds it to the end of the words put together.
proof fn lemma_concat_append_last(toks: Seq<Seq<char>>, c: char)
    requires
        toks.len() >= 1,
    ensures
        concat(append_last(toks, c)) == concat(toks).push(c),
{
    let t2 = append_last(toks, c);
    assert(t2.drop_last() =~= toks.drop_last());
    assert(concat(t2) =~= concat(toks).push(c));
}

/// On a line without quotes, lexing from `i` adds exactly the non-space characters from `i` on
/// and never puts white space into a word.
proof fn lemma_lex_unquoted(s: Seq<char>, i: int, toks: Seq<Seq<char>>)
    requires
        quote_free(s),
        0 <= i <= s.len(),
        toks.len() >= 1,
        ws_free(toks),
    ensures
        concat(lex(s, i, toks, Quotation::No)) == concat(toks) + strip_ws(
            s.subrange(i, s.len() as int),
        ),
        ws_free(lex(s, i, toks, Quotation::No)),
    decreases s.len() - i,
{
    if i == s.len() {
        assert(s.subrange(i, s.len() as int) =~= seq![]);
        assert(concat(toks) + seq![] =~= concat(toks));
    } else {
        let c = s[i];
        assert(c != '\'' && c != '"');
        let t = s.subrange(i, s.len() as int);
        assert(t.drop_first() =~= s.subrange(i + 1, s.len() as int));
        assert(t[0] == c);
        if is_ws(c) {
            lemma_skip_ws(s, i + 1);
            let j = skip_ws(s, i + 1);
            let t2 = toks.push(seq![]);
            assert(t2.drop_last() =~= toks);
            assert(concat(t2) =~= concat(toks));
            assert forall|k: int, m: int|
                0 <= k < t2.len() && 0 <= m < t2[k].len() implies !is_ws(#[trigger] t2[k][m]) by {
                assert(k < toks.len());
                assert(t2[k] == toks[k]);
            }
            lemma_lex_unquoted(s, j, t2);
            lemma_strip_skipped(s, i + 1, j);
            assert(strip_ws(t) =~= strip_ws(s.subrange(i + 1, s.len() as int)));
        } else {
            let t2 = append_last(toks, c);
            lemma_concat_append_last(toks, c);
            assert forall|k: int, m: int|
                0 <= k < t2.len() && 0 <= m < t2[k].len() implies !is_ws(#[trigger] t2[k][m]) by {
                if k == toks.len() - 1 {
                    if m < toks[k].len() {
                        assert(t2[k][m] == toks[k][m]);
                    } else {
                        assert(t2[k][m] == c);
                    }
                } else {
                    assert(t2[k] == toks[k]);
                }
            }
            lemma_lex_unquoted(s, i + 1, t2);
            assert(strip_ws(t) =~= seq![c] + strip_ws(s.subrange(i + 1, s.len() as int)));
            assert(concat(toks).push(c) + strip_ws(s.subrange(i + 1, s.len() as int))
                =~= concat(toks) + strip_ws(t));
        }
    }
}

/// On a line without quotes the words are the line's non-space characters, in order, and
/// no word holds white space.
pub proof fn lemma_unquoted_tokens(s: Seq<char>)
    requires
        quote_free(s),
    ensures
        concat(tokens(s)) == strip_ws(s),
        ws_free(tokens(s)),
{
    let start: Seq<Seq<char>> = seq![seq![]];
    assert(start.drop_last() =~= seq![]);
    assert(concat(start.drop_last()) == Seq::<char>::empty());
    assert(start.last() == Seq::<char>::empty());
    assert(concat(start) =~= seq![]);
    assert(ws_free(start));
    lemma_lex_unquoted(s, 0, start);
    assert(s.subrange(0, s.len() as int) =~= s);
    assert(seq![] + strip_ws(s) =~= strip_ws(s));
}

/// The quote character that closes a quotation.
pub open spec fn closing(q: Quotation) -> char {
    if q == Quotation::Single {
        '\''
    } else {
        '"'
    }
}

/// Inside a quotation that the last character of `s` closes, and that holds no other quote of
/// its kind, every character up to the closing quote joins the last word.
proof fn lemma_lex_quoted(s: Seq<char>, i: int, toks: Seq<Seq<char>>, q: Quotation)
    requires
        q != Quotation::No,
        s.len() >= 1,
        s.last() == closing(q),
        0 <= i <= s.len() - 1,
        forall|k: int| i <= k < s.len() - 1 ==> #[trigger] s[k] != closing(q),
        toks.len() >= 1,
    ensures
        lex(s, i, toks, q) == toks.update(
            toks.len() - 1,
            toks.last() + s.subrange(i, s.len() - 1),
        ),
    decreases s.len() - i,
{
    if i == s.len() - 1 {
        assert(s[i] == closing(q));
        assert(lex(s, i, toks, q) == lex(s, i + 1, toks, Quotation::No));
        assert(toks.last() + s.subrange(i, s.len() - 1) =~= toks.last());
        assert(toks.update(toks.len() - 1, toks.last()) =~= toks);
    } else {
        let c = s[i];
        assert(c != closing(q));
        assert(lex(s, i, toks, q) == lex(s, i + 1, append_last(toks, c), q));
        lemma_lex_quoted(s, i + 1, append_last(toks, c), q);
        let t2 = append_last(toks, c);
        assert(t2.last() + s.subrange(i + 1, s.len() - 1) =~= toks.last() + s.subrange(
            i,
            s.len() - 1,
        ));
        assert(t2.update(t2.len() - 1, t2.last() + s.subrange(i + 1, s.len() - 1)) =~= toks.update(
            toks.len() - 1,
            toks.last() + s.subrange(i, s.len() - 1),
        ));
    }
}

/// A line that is one quoted text, holding no quote of the kind that encloses it, is one word:
/// that text, white space and other quotes included.
pub proof fn lemma_quoted_word(body: Seq<char>, quote: char)
    requires
        quote == '\'' || quote == '"',
        !body.contains(quote),
    ensures
        tokens(seq![quote] + body + seq![quote]) == seq![body],
{
    let s = seq![quote] + body + seq![quote];
    let q = if quote == '\'' {
        Quotation::Single
    } else {
        Quotation::Double
    };
    assert(s[0] == quote);
    if body.len() == 0 {
        assert(s[1] == quote);
        let start: Seq<Seq<char>> = seq![seq![]];
        assert(lex(s, 2, start, Quotation::No) == start);
        assert(body =~= seq![]);
    } else {
        assert(s[1] == body[0]);
        assert(body[0] != quote) by {
            assert(!body.contains(quote));
            if body[0] == quote {
                assert(body.contains(quote));
            }
        }
        assert forall|k: int| 1 <= k < s.len() - 1 implies #[trigger] s[k] != closing(q) by {
            assert(s[k] == body[k - 1]);
            if body[k - 1] == quote {
                assert(body.contains(quote));
            }
        }
        assert(s.last() == quote);
        lemma_lex_quoted(s, 1, seq![seq![]], q);
        assert(s.subrange(1, s.len() - 1) =~= body);
        assert(seq![seq![]].update(0, seq![] + body) =~= seq![body]) by {
            assert(seq![] + body =~= body);
        }
    }
}

/// A run of white space adds no word.
proof fn lemma_words_ws_run(s: Seq<char>, i: int, k: int)
    requires
        0 <= i <= k <= s.len(),
        forall|m: int| i <= m < k ==> is_ws(#[trigger] s[m]),
    ensures
        words(s.take(k)) == words(s.take(i)),
    decreases k - i,
{
    if i < k {
        let t = s.take(k);
        assert(t.drop_last() =~= s.take(k - 1));
        assert(t.last() == s[k - 1]);
        lemma_words_ws_run(s, i, k - 1);
    }
}

/// Inside a word of a quote-free line that ends in a non-space character, lexing the rest of
/// the line gives the line's words.
proof fn lemma_lex_words(s: Seq<char>, i: int, toks: Seq<Seq<char>>)
    requires
        quote_free(s),
        1 <= i <= s.len(),
        !is_ws(s[i - 1]),
        !is_ws(s.last()),
        toks == words(s.take(i)),
    ensures
        lex(s, i, toks, Quotation::No) == words(s),
    decreases s.len() - i,
{
    if i == s.len() {
        assert(s.take(i) =~= s);
    } else {
        let c = s[i];
        assert(c != '\'' && c != '"');
        if !is_ws(c) {
            let t = s.take(i + 1);
            assert(t.drop_last() =~= s.take(i));
            assert(t.last() == c);
            assert(t[t.len() - 2] == s[i - 1]);
            lemma_lex_words(s, i + 1, append_last(toks, c));
        } else {
            assert(i + 1 < s.len()) by {
                if i + 1 >= s.len() {
                    assert(s.last() == s[i]);
                }
            }
            lemma_skip_ws(s, i + 1);
            let j = skip_ws(s, i + 1);
            assert(j < s.len()) by {
                if j >= s.len() {
                    assert(is_ws(s[s.len() - 1]));
                }
            }
            let d = s[j];
            assert(!is_ws(d));
            assert(d != '\'' && d != '"');
            let pushed = toks.push(seq![]);
            assert(lex(s, i, toks, Quotation::No) == lex(s, j, pushed, Quotation::No));
            assert(lex(s, j, pushed, Quotation::No) == lex(
                s,
                j + 1,
                append_last(pushed, d),
                Quotation::No,
            ));
            assert(append_last(pushed, d) =~= toks.push(seq![d]));
            assert forall|m: int| i <= m < j implies is_ws(#[trigger] s[m]) by {
                if m > i {
                    assert(i + 1 <= m < skip_ws(s, i + 1));
                }
            }
            lemma_words_ws_run(s, i, j);
            let t = s.take(j + 1);
            assert(t.drop_last() =~= s.take(j));
            assert(t.last() == d);
            assert(t[t.len() - 2] == s[j - 1]);
            assert(is_ws(s[j - 1]));
            lemma_lex_words(s, j + 1, toks.push(seq![d]));
        }
    }
}

/// On a non-empty line without quotes that neither starts nor ends with white space, the words
/// are exactly the line's white-space separated words (`str::split_whitespace`).
pub proof fn lemma_tokens_are_words(s: Seq<char>)
    requires
        quote_free(s),
        s.len() > 0,
        !is_ws(s[0]),
        !is_ws(s.last()),
    ensures
        tokens(s) == words(s),
{
    let c = s[0];
    assert(c != '\'' && c != '"');
    let start: Seq<Seq<char>> = seq![seq![]];
    assert(append_last(start, c) =~= seq![seq![c]]);
    let t = s.take(1);
    assert(t.drop_last() =~= Seq::<char>::empty());
    assert(t.last() == c);
    assert(words(Seq::<char>::empty()) == Seq::<Seq<char>>::empty());
    assert(words(t) =~= seq![seq![c]]);
    lemma_lex_words(s, 1, seq![seq![c]]);
}

/// Outside quotes, a run of characters that are neither white space nor quotes joins the last
/// word.
proof fn lemma_lex_plain(s: Seq<char>, i: int, k: int, toks: Seq<Seq<char>>)
    requires
        0 <= i <= k <= s.len(),
        forall|m: int| i <= m < k ==> !is_ws(#[trigger] s[m]) && s[m] != '\'' && s[m] != '"',
        toks.len() >= 1,
    ensures
        lex(s, i, toks, Quotation::No) == lex(
            s,
            k,
            toks.update(toks.len() - 1, toks.last() + s.subrange(i, k)),
            Quotation::No,
        ),
    decreases k - i,
{
    if i == k {
        assert(toks.last() + s.subrange(i, k) =~= toks.last());
        assert(toks.update(toks.len() - 1, toks.last()) =~= toks);
    } else {
        let c = s[i];
        assert(!is_ws(c) && c != '\'' && c != '"');
        let t2 = append_last(toks, c);
        lemma_lex_plain(s, i + 1, k, t2);
        assert(t2.last() + s.subrange(i + 1, k) =~= toks.last() + s.subrange(i, k));
        assert(t2.update(t2.len() - 1, t2.last() + s.subrange(i + 1, k)) =~= toks.update(
            toks.len() - 1,
            toks.last() + s.subrange(i, k),
        ));
    }
}

/// Inside a quotation closed at index `e` by a quote that is not doubled, everything up to that
/// quote joins the last word, and lexing goes on outside quotes after it.
proof fn lemma_lex_quoted_to(s: Seq<char>, i: int, e: int, toks: Seq<Seq<char>>, q: Quotation)
    requires
        q != Quotation::No,
        0 <= i <= e < s.len(),
        s[e] == closing(q),
        e + 1 >= s.len() || s[e + 1] != closing(q),
        forall|m: int| i <= m < e ==> #[trigger] s[m] != closing(q),
        toks.len() >= 1,
    ensures
        lex(s, i, toks, q) == lex(
            s,
            e + 1,
            toks.update(toks.len() - 1, toks.last() + s.subrange(i, e)),
            Quotation::No,
        ),
    decreases e - i,
{
    if i == e {
        assert(lex(s, i, toks, q) == lex(s, i + 1, toks, Quotation::No));
        assert(toks.last() + s.subrange(i, e) =~= toks.last());
        assert(toks.update(toks.len() - 1, toks.last()) =~= toks);
    } else {
        let c = s[i];
        assert(c != closing(q));
        assert(lex(s, i, toks, q) == lex(s, i + 1, append_last(toks, c), q));
        let t2 = append_last(toks, c);
        lemma_lex_quoted_to(s, i + 1, e, t2, q);
        assert(t2.last() + s.subrange(i + 1, e) =~= toks.last() + s.subrange(i, e));
        assert(t2.update(t2.len() - 1, t2.last() + s.subrange(i + 1, e)) =~= toks.update(
            toks.len() - 1,
            toks.last() + s.subrange(i, e),
        ));
    }
}

/// A quotation that opens inside a word (as in `--name='John Smith'`) is part of that word: the
/// word runs on before and after it, the quotes are dropped and what they enclose, white space
/// and the other kind of quote included, is kept.
pub proof fn lemma_quote_inside_word(a: Seq<char>, body: Seq<char>, b: Seq<char>, quote: char)
    requires
        quote == '\'' || quote == '"',
        !body.contains(quote),
        quote_free(a),
        quote_free(b),
        forall|m: int| 0 <= m < a.len() ==> !is_ws(#[trigger] a[m]),
        forall|m: int| 0 <= m < b.len() ==> !is_ws(#[trigger] b[m]),
    ensures
        tokens(a + seq![quote] + body + seq![quote] + b) == seq![a + body + b],
{
    let s = a + seq![quote] + body + seq![quote] + b;
    let n = a.len() as int;
    let e = n + 1 + body.len();
    let q = if quote == '\'' {
        Quotation::Single
    } else {
        Quotation::Double
    };
    let start: Seq<Seq<char>> = seq![seq![]];
    assert forall|m: int| 0 <= m < n implies !is_ws(#[trigger] s[m]) && s[m] != '\'' && s[m] != '"' by {
        assert(s[m] == a[m]);
    }
    lemma_lex_plain(s, 0, n, start);
    assert(s.subrange(0, n) =~= a);
    assert(start.update(0, seq![] + a) =~= seq![a]) by {
        assert(Seq::<char>::empty() + a =~= a);
    }
    let ta: Seq<Seq<char>> = seq![a];
    assert(s[n] == quote);
    assert(s[e] == quote);
    let after_b = e + 1;
    assert forall|m: int| after_b <= m < s.len() implies !is_ws(#[trigger] s[m]) && s[m] != '\''
        && s[m] != '"' by {
        assert(s[m] == b[m - after_b]);
    }
    let tab: Seq<Seq<char>> = seq![a + body];
    if body.len() == 0 {
        assert(s[n + 1] == quote);
        assert(lex(s, n, ta, Quotation::No) == lex(s, n + 2, ta, Quotation::No));
        assert(a + body =~= a);
        assert(tab =~= ta);
    } else {
        assert(s[n + 1] == body[0]);
        assert(body[0] != quote) by {
            if body[0] == quote {
                assert(body.contains(quote));
            }
        }
        assert(lex(s, n, ta, Quotation::No) == lex(s, n + 1, ta, q));
        assert forall|m: int| n + 1 <= m < e implies #[trigger] s[m] != closing(q) by {
            assert(s[m] == body[m - n - 1]);
            if body[m - n - 1] == quote {
                assert(body.contains(quote));
            }
        }
        if e + 1 < s.len() {
            assert(s[e + 1] == b[0]);
        }
        lemma_lex_quoted_to(s, n + 1, e, ta, q);
        assert(s.subrange(n + 1, e) =~= body);
        assert(ta.update(0, a + s.subrange(n + 1, e)) =~= tab);
    }
    lemma_lex_plain(s, after_b, s.len() as int, tab);
    assert(s.subrange(after_b, s.len() as int) =~= b);
    assert(tab.update(0, (a + body) + b) =~= seq![a + body + b]);
}

} // verus!
