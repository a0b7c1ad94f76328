//! Character-level helpers shared by the shell's parsers and formatters.
use vstd::prelude::*;

verus! {

/// Appends one character to a `String` with `String::push`. Trusted, not proved: the text
/// afterwards is the text before with `c` added at the end, as the standard library documents.
#[verifier::external_body]
pub(crate) fn push_char(s: &mut String, c: char)
    ensures
        final(s)@ == old(s)@.push(c),
{
    s.push(c);
}

/// The texts of a sequence of strings.
pub open spec fn texts(v: Seq<String>) -> Seq<Seq<char>> {
    v.map_values(|s: String| s@)
}

/// The text of an optional string.
pub open spec fn opt_text(o: Option<String>) -> Option<Seq<char>> {
    match o {
        Some(s) => Some(s@),
        None => None,
    }
}

/// Unicode `White_Space`, the property that `char::is_whitespace` reports.
pub open spec fn is_ws(c: char) -> bool {
    ||| c == '\t'
    ||| c == '\n'
    ||| c == '\x0B'
    ||| c == '\x0C'
    ||| c == '\r'
    ||| c == ' '
    ||| c == '\u{85}'
    ||| c == '\u{A0}'
    ||| c == '\u{1680}'
    ||| ('\u{2000}' <= c && c <= '\u{200A}')
    ||| c == '\u{2028}'
    ||| c == '\u{2029}'
    ||| c == '\u{202F}'
    ||| c == '\u{205F}'
    ||| c == '\u{3000}'
}

/// Whether `c` is Unicode white space.
pub fn is_whitespace(c: char) -> (r: bool)
    ensures
        r == is_ws(c),
{
    c == '\t' || c == '\n' || c == '\x0B' || c == '\x0C' || c == '\r' || c == ' ' || c == '\u{85}'
        || c == '\u{A0}' || c == '\u{1680}' || ('\u{2000}' <= c && c <= '\u{200A}') || c
        == '\u{2028}' || c == '\u{2029}' || c == '\u{202F}' || c == '\u{205F}' || c == '\u{3000}'
}

/// The characters of `s`, in order.
pub fn chars_of(s: &str) -> (v: Vec<char>)
    ensures
        v@ == s@,
{
    let mut v: Vec<char> = Vec::new();
    for c in it: s.chars()
        invariant
            v@ == it.seq().take(it.index() as int),
    {
        v.push(c);
    }
    v
}

/// A `String` holding the characters of `cs[from..to]`.
pub fn string_of(cs: &Vec<char>, from: usize, to: usize) -> (s: String)
    requires
        from <= to <= cs.len(),
    ensures
        s@ == cs@.subrange(from as int, to as int),
{
    let mut s = String::new();
    let mut i = from;
    while i < to
        invariant
            from <= i <= to <= cs.len(),
            s@ == cs@.subrange(from as int, i as int),
        decreases to - i,
    {
        push_char(&mut s, cs[i]);
        i = i + 1;
        assert(s@ =~= cs@.subrange(from as int, i as int));
    }
    s
}

/// Whether two texts are equal, character for character.
pub fn same_text(a: &str, b: &str) -> (r: bool)
    ensures
        r == (a@ == b@),
{
    let x = chars_of(a);
    let y = chars_of(b);
    if x.len() != y.len() {
        return false;
    }
    let mut i: usize = 0;
    while i < x.len()
        invariant
            x@ == a@,
            y@ == b@,
            x.len() == y.len(),
            i <= x.len(),
            forall|j: int| 0 <= j < i ==> x@[j] == y@[j],
        decreases x.len() - i,
    {
        if x[i] != y[i] {
            return false;
        }
        i = i + 1;
    }
    assert(x@ =~= y@);
    true
}

/// Copies of all strings but the first.
pub fn tail(v: &[String]) -> (r: Vec<String>)
    requires
        v.len() >= 1,
    ensures
        texts(r@) == texts(v@).drop_first(),
{
    let mut r: Vec<String> = Vec::new();
    let mut i: usize = 1;
    while i < v.len()
        invariant
            1 <= i <= v.len(),
            texts(r@) == texts(v@).subrange(1, i as int),
        decreases v.len() - i,
    {
        let ghost before = texts(r@);
        r.push(v[i].clone());
        assert(texts(r@) =~= texts(v@).subrange(1, i + 1)) by {
            assert(texts(r@) =~= before.push(v@[i as int]@));
        }
        i = i + 1;
    }
    assert(texts(v@).subrange(1, v.len() as int) =~= texts(v@).drop_first());
    r
}

/// `parts` joined with `sep` between neighbours.
pub open spec fn join(parts: Seq<Seq<char>>, sep: Seq<char>) -> Seq<char>
    decreases parts.len(),
{
    if parts.len() == 0 {
        seq![]
    } else if parts.len() == 1 {
        parts[0]
    } else {
        join(parts.drop_last(), sep) + sep + parts.last()
    }
}

/// The texts of `parts[from..]` joined with `sep` (`[String]::join`).
pub fn join_from(parts: &[String], from: usize, sep: &str) -> (s: String)
    requires
        from <= parts.len(),
    ensures
        s@ == join(texts(parts@).subrange(from as int, parts@.len() as int), sep@),
{
    let ghost all = texts(parts@);
    let mut s = String::new();
    let mut i = from;
    while i < parts.len()
        invariant
            from <= i <= parts.len(),
            all == texts(parts@),
            s@ == join(all.subrange(from as int, i as int), sep@),
        decreases parts.len() - i,
    {
        let ghost before = all.subrange(from as int, i as int);
        if i != from {
            s.append(sep);
        }
        s.append(parts[i].as_str());
        i = i + 1;
        let ghost after = all.subrange(from as int, i as int);
        assert(after.drop_last() =~= before);
        assert(after.last() == parts@[i - 1]@);
        proof {
            if before.len() == 0 {
                assert(s@ =~= join(after, sep@));
            }
        }
    }
    s
}


/// `s` cut at every occurrence of `d` (`str::split` with a character pattern).
pub open spec fn split(s: Seq<char>, d: char) -> Seq<Seq<char>>
    decreases s.len(),
{
    if s.len() == 0 {
        seq![seq![]]
    } else {
        let prev = split(s.drop_last(), d);
        if s.last() == d {
            prev.push(seq![])
        } else {
            prev.update(prev.len() - 1, prev.last().push(s.last()))
        }
    }
}

/// Splitting always yields at least one piece.
pub proof fn lemma_split_len(s: Seq<char>, d: char)
    ensures
        split(s, d).len() >= 1,
    decreases s.len(),
{
    if s.len() > 0 {
        lemma_split_len(s.drop_last(), d);
    }
}

/// The pieces of `s` between occurrences of `d`, in order.
pub fn split_on(s: &str, d: char) -> (parts: Vec<String>)
    ensures
        texts(parts@) == split(s@, d),
{
    let v = chars_of(s);
    let mut parts: Vec<String> = Vec::new();
    let mut start: usize = 0;
    let mut i: usize = 0;
    assert(v@.take(0) =~= seq![]);
    while i < v.len()
        invariant
            v@ == s@,
            start <= i <= v.len(),
            split(v@.take(i as int), d) =~= texts(parts@).push(v@.subrange(start as int, i as int)),
        decreases v.len() - i,
    {
        assert(v@.take(i + 1).drop_last() =~= v@.take(i as int));
        let ghost prev = texts(parts@);
        let ghost cur = v@.subrange(start as int, i as int);
        assert(v@.take(i + 1).last() == v@[i as int]);
        if v[i] == d {
            let piece = string_of(&v, start, i);
            parts.push(piece);
            start = i + 1;
            assert(texts(parts@) =~= prev.push(cur));
            i = i + 1;
            assert(v@.subrange(start as int, i as int) =~= seq![]);
            assert(texts(parts@).push(v@.subrange(start as int, i as int)) =~= prev.push(cur).push(
                seq![],
            ));
        } else {
            i = i + 1;
            assert(v@.subrange(start as int, i as int) =~= cur.push(v@[i - 1]));
            assert(prev.push(cur).update(prev.len() as int, cur.push(v@[i - 1])) =~= prev.push(
                cur.push(v@[i - 1]),
            ));
        }
    }
    let last = string_of(&v, start, v.len());
    parts.push(last);
    assert(v@.take(v.len() as int) =~= v@);
    assert(texts(parts@) =~= split(s@, d));
    parts
}

/// Replacing the last part by itself with one more character appends that character to the joined text.
proof fn lemma_join_extend_last(parts: Seq<Seq<char>>, sep: Seq<char>, c: char)
    requires
        parts.len() >= 1,
    ensures
        join(parts.update(parts.len() - 1, parts.last().push(c)), sep) == join(parts, sep).push(c),
{
    let q = parts.update(parts.len() - 1, parts.last().push(c));
    if parts.len() >= 2 {
        assert(q.drop_last() =~= parts.drop_last());
    }
    assert(join(q, sep) =~= join(parts, sep).push(c));
}

/// Joining the pieces of a split with the same delimiter gives back the text.
pub proof fn lemma_join_split(s: Seq<char>, d: char)
    ensures
        join(split(s, d), seq![d]) == s,
    decreases s.len(),
{
    if s.len() == 0 {
        assert(join(split(s, d), seq![d]) =~= s);
    } else {
        let prev = split(s.drop_last(), d);
        lemma_join_split(s.drop_last(), d);
        lemma_split_len(s.drop_last(), d);
        if s.last() == d {
            assert(prev.push(seq![]).drop_last() =~= prev);
            assert(join(prev.push(seq![]), seq![d]) =~= s);
        } else {
            lemma_join_extend_last(prev, seq![d], s.last());
            assert(s.drop_last().push(s.last()) =~= s);
        }
    }
}

/// Splitting a text that does not hold the delimiter gives the text alone.
proof fn lemma_split_without_delimiter(s: Seq<char>, d: char)
    requires
        !s.contains(d),
    ensures
        split(s, d) == seq![s],
    decreases s.len(),
{
    if s.len() == 0 {
        assert(s =~= seq![]);
    } else {
        assert(!s.drop_last().contains(d)) by {
            if s.drop_last().contains(d) {
                let k = choose|k: int| 0 <= k < s.drop_last().len() && s.drop_last()[k] == d;
                assert(s[k] == d);
            }
        }
        lemma_split_without_delimiter(s.drop_last(), d);
        assert(s.last() != d) by {
            assert(s[s.len() - 1] == s.last());
        }
        assert(s.drop_last().push(s.last()) =~= s);
        assert(seq![s.drop_last()].update(0, s.drop_last().push(s.last())) =~= seq![s]);
    }
}

/// A delimiter in the middle splits into the pieces of either side.
proof fn lemma_split_concat(a: Seq<char>, b: Seq<char>, d: char)
    ensures
        split(a + seq![d] + b, d) == split(a, d) + split(b, d),
    decreases b.len(),
{
    if b.len() == 0 {
        assert((a + seq![d] + b).drop_last() =~= a);
        assert(split(a, d).push(seq![]) =~= split(a, d) + split(b, d));
    } else {
        let s = a + seq![d] + b;
        assert(s.drop_last() =~= a + seq![d] + b.drop_last());
        lemma_split_concat(a, b.drop_last(), d);
        lemma_split_len(b.drop_last(), d);
        lemma_split_len(a, d);
        let l = split(a, d);
        let r = split(b.drop_last(), d);
        assert(s.last() == b.last());
        if b.last() == d {
            assert((l + r).push(seq![]) =~= l + r.push(seq![]));
        } else {
            assert((l + r).update((l + r).len() - 1, (l + r).last().push(b.last())) =~= l + r.update(
                r.len() - 1,
                r.last().push(b.last()),
            ));
        }
    }
}

/// Splitting the join of parts that do not hold the delimiter gives back the parts.
pub proof fn lemma_split_join(parts: Seq<Seq<char>>, d: char)
    requires
        parts.len() >= 1,
        forall|i: int| 0 <= i < parts.len() ==> !(#[trigger] parts[i]).contains(d),
    ensures
        split(join(parts, seq![d]), d) == parts,
    decreases parts.len(),
{
    if parts.len() == 1 {
        lemma_split_without_delimiter(parts[0], d);
        assert(seq![parts[0]] =~= parts);
    } else {
        let init = parts.drop_last();
        assert forall|i: int| 0 <= i < init.len() implies !(#[trigger] init[i]).contains(d) by {
            assert(init[i] == parts[i]);
        }
        lemma_split_join(init, d);
        assert(!parts[parts.len() - 1].contains(d));
        lemma_split_without_delimiter(parts.last(), d);
        lemma_split_concat(join(init, seq![d]), parts.last(), d);
        assert(init + seq![parts.last()] =~= parts);
    }
}


/// `s` without its leading white space.
pub open spec fn trim_start(s: Seq<char>) -> Seq<char>
    decreases s.len(),
{
    if s.len() > 0 && is_ws(s[0]) {
        trim_start(s.drop_first())
    } else {
        s
    }
}

/// `s` without its trailing white space.
pub open spec fn trim_end(s: Seq<char>) -> Seq<char>
    decreases s.len(),
{
    if s.len() > 0 && is_ws(s.last()) {
        trim_end(s.drop_last())
    } else {
        s
    }
}

/// `s` without leading and trailing white space (`str::trim`).
pub open spec fn trim(s: Seq<char>) -> Seq<char> {
    trim_end(trim_start(s))
}

/// `s` with leading and trailing white space removed.
pub fn trimmed(s: &str) -> (r: String)
    ensures
        r@ == trim(s@),
{
    let v = chars_of(s);
    let mut a: usize = 0;
    assert(v@.subrange(0, v.len() as int) =~= v@);
    while a < v.len() && is_whitespace(v[a])
        invariant
            v@ == s@,
            a <= v.len(),
            trim_start(s@) == trim_start(v@.subrange(a as int, v.len() as int)),
        decreases v.len() - a,
    {
        assert(v@.subrange(a as int, v.len() as int).drop_first() =~= v@.subrange(
            a + 1,
            v.len() as int,
        ));
        a = a + 1;
    }
    assert(v@.subrange(0, v.len() as int) =~= v@);
    let mut b: usize = v.len();
    while b > a && is_whitespace(v[b - 1])
        invariant
            v@ == s@,
            a <= b <= v.len(),
            trim(s@) == trim_end(v@.subrange(a as int, b as int)),
        decreases b,
    {
        assert(v@.subrange(a as int, b as int).drop_last() =~= v@.subrange(a as int, b - 1));
        b = b - 1;
    }
    string_of(&v, a, b)
}

/// The maximal runs of non-white-space characters of `s` (`str::split_whitespace`).
pub open spec fn words(s: Seq<char>) -> Seq<Seq<char>>
    decreases s.len(),
{
    if s.len() == 0 {
        seq![]
    } else if is_ws(s.last()) {
        words(s.drop_last())
    } else if s.len() == 1 || is_ws(s[s.len() - 2]) {
        words(s.drop_last()).push(seq![s.last()])
    } else {
        let w = words(s.drop_last());
        w.update(w.len() - 1, w.last().push(s.last()))
    }
}

/// The white-space separated words of `s`.
pub fn words_of(s: &str) -> (ws: Vec<String>)
    ensures
        texts(ws@) == words(s@),
{
    let v = chars_of(s);
    let mut ws: Vec<String> = Vec::new();
    let mut start: usize = 0;
    let mut i: usize = 0;
    assert(v@.take(0) =~= seq![]);
    assert(texts(ws@) =~= seq![]);
    while i < v.len()
        invariant
            v@ == s@,
            start <= i <= v.len(),
            start == i || !is_ws(v@[i - 1]),
            start == i && i > 0 ==> is_ws(v@[i - 1]),
            start == i ==> words(v@.take(i as int)) == texts(ws@),
            start < i ==> words(v@.take(i as int)) == texts(ws@).push(
                v@.subrange(start as int, i as int),
            ),
            start < i ==> (start == 0 || is_ws(v@[start - 1])),
            forall|k: int| start <= k < i ==> !is_ws(#[trigger] v@[k]),
        decreases v.len() - i,
    {
        let c = v[i];
        let ghost t = v@.take(i + 1);
        assert(t.drop_last() =~= v@.take(i as int));
        assert(t.last() == c);
        let ghost prev = texts(ws@);
        if is_whitespace(c) {
            if start < i {
                let w = string_of(&v, start, i);
                ws.push(w);
                assert(texts(ws@) =~= prev.push(v@.subrange(start as int, i as int)));
            }
            i = i + 1;
            start = i;
        } else {
            if start == i {
                proof {
                    if i > 0 {
                        assert(t[t.len() - 2] == v@[i - 1]);
                    }
                }
                i = i + 1;
                assert(v@.subrange(start as int, i as int) =~= seq![c]);
            } else {
                assert(t[t.len() - 2] == v@[i - 1]);
                i = i + 1;
                assert(v@.subrange(start as int, i as int) =~= v@.subrange(start as int, i - 1).push(
                    c,
                ));
                assert(prev.push(v@.subrange(start as int, i - 1)).update(
                    prev.len() as int,
                    v@.subrange(start as int, i - 1).push(c),
                ) =~= prev.push(v@.subrange(start as int, i as int)));
            }
        }
    }
    assert(v@.take(v.len() as int) =~= v@);
    if start < v.len() {
        let ghost prev = texts(ws@);
        let w = string_of(&v, start, v.len());
        ws.push(w);
        assert(texts(ws@) =~= prev.push(v@.subrange(start as int, v.len() as int)));
    }
    ws
}

/// `p` is a prefix of `s`.
pub open spec fn has_prefix(s: Seq<char>, p: Seq<char>) -> bool {
    p.len() <= s.len() && s.take(p.len() as int) == p
}

/// Whether `s` starts with `p` (`str::starts_with`).
pub fn starts_with(s: &str, p: &str) -> (r: bool)
    ensures
        r == has_prefix(s@, p@),
{
    let x = chars_of(s);
    let y = chars_of(p);
    if y.len() > x.len() {
        return false;
    }
    let mut i: usize = 0;
    while i < y.len()
        invariant
            x@ == s@,
            y@ == p@,
            y.len() <= x.len(),
            i <= y.len(),
            forall|j: int| 0 <= j < i ==> x@[j] == y@[j],
        decreases y.len() - i,
    {
        if x[i] != y[i] {
            assert(s@.take(p@.len() as int)[i as int] != p@[i as int]);
            return false;
        }
        i = i + 1;
    }
    assert(s@.take(p@.len() as int) =~= p@);
    true
}

/// The digit character of a value below ten.
pub open spec fn digit_char(d: nat) -> char {
    (d + 48) as char
}

/// The decimal representation of `n`, without leading zeros.
pub open spec fn decimal(n: nat) -> Seq<char>
    decreases n,
{
    if n < 10 {
        seq![digit_char(n)]
    } else {
        decimal(n / 10).push(digit_char(n % 10))
    }
}

/// Appends the decimal representation of `n` to `s`.
pub fn push_decimal(s: &mut String, n: usize)
    ensures
        final(s)@ == old(s)@ + decimal(n as nat),
    decreases n,
{
    if n >= 10 {
        push_decimal(s, n / 10);
    }
    let d = (n % 10) as u8;
    let c = (d + 48) as char;
    push_char(s, c);
    assert(final(s)@ =~= old(s)@ + decimal(n as nat));
}

/// `s` preceded by as many spaces as make it `width` characters wide.
pub open spec fn pad_left(s: Seq<char>, width: nat) -> Seq<char> {
    if s.len() >= width {
        s
    } else {
        Seq::new((width - s.len()) as nat, |i: int| ' ') + s
    }
}

/// `n` in decimal, right-aligned in a field of `width` characters (`format!("{:>width$}", n)`).
pub fn decimal_right_aligned(n: usize, width: usize) -> (r: String)
    ensures
        r@ == pad_left(decimal(n as nat), width as nat),
{
    let mut digits = String::new();
    push_decimal(&mut digits, n);
    assert(digits@ =~= decimal(n as nat));
    let len = digits.as_str().unicode_len();
    if len >= width {
        return digits;
    }
    let mut r = String::new();
    let mut k: usize = 0;
    while k < width - len
        invariant
            len < width,
            k <= width - len,
            r@ == Seq::new(k as nat, |i: int| ' '),
        decreases width - len - k,
    {
        push_char(&mut r, ' ');
        k = k + 1;
        assert(r@ =~= Seq::new(k as nat, |i: int| ' '));
    }
    r.append(digits.as_str());
    r
}

/// An ASCII decimal digit.
pub open spec fn is_digit(c: char) -> bool {
    '0' <= c && c <= '9'
}

/// The value of a decimal digit character.
pub open spec fn digit_value(c: char) -> nat {
    (c as int - 48) as nat
}

/// The value of a string of decimal digits.
pub open spec fn value_of(s: Seq<char>) -> nat
    decreases s.len(),
{
    if s.len() == 0 {
        0
    } else {
        value_of(s.drop_last()) * 10 + digit_value(s.last())
    }
}

/// The digits after an optional leading `+`.
pub open spec fn unsigned_body(s: Seq<char>) -> Seq<char> {
    if s.len() > 0 && s[0] == '+' {
        s.drop_first()
    } else {
        s
    }
}

/// What `str::parse::<usize>` accepts: an optional `+`, then one or more ASCII digits whose
/// value fits in `usize`.
pub open spec fn parsed_usize(s: Seq<char>) -> Option<usize> {
    let b = unsigned_body(s);
    if b.len() > 0 && (forall|i: int| 0 <= i < b.len() ==> is_digit(#[trigger] b[i])) && value_of(b)
        <= usize::MAX {
        Some(value_of(b) as usize)
    } else {
        None
    }
}

/// A prefix of a string of digits has a value no larger than the whole.
proof fn lemma_value_prefix(s: Seq<char>, k: int)
    requires
        0 <= k <= s.len(),
    ensures
        value_of(s.take(k)) <= value_of(s),
    decreases s.len(),
{
    if k < s.len() {
        assert(s.drop_last().take(k) =~= s.take(k));
        lemma_value_prefix(s.drop_last(), k);
    } else {
        assert(s.take(k) =~= s);
    }
}

/// `s` read as an unsigned decimal number, as `str::parse::<usize>` reads it.
pub fn parse_usize(s: &str) -> (r: Option<usize>)
    ensures
        r == parsed_usize(s@),
{
    let v = chars_of(s);
    let start: usize = if v.len() > 0 && v[0] == '+' {
        1
    } else {
        0
    };
    let ghost b = unsigned_body(s@);
    assert(b =~= v@.subrange(start as int, v.len() as int));
    if start == v.len() {
        return None;
    }
    let mut acc: usize = 0;
    let mut i: usize = start;
    assert(b.take(0) =~= seq![]);
    while i < v.len()
        invariant
            v@ == s@,
            b == v@.subrange(start as int, v.len() as int),
            b == unsigned_body(s@),
            start <= i <= v.len(),
            acc == value_of(b.take(i - start)),
            forall|j: int| 0 <= j < i - start ==> is_digit(#[trigger] b[j]),
        decreases v.len() - i,
    {
        let c = v[i];
        assert(c == b[i - start]);
        if !('0' <= c && c <= '9') {
            assert(!is_digit(b[i - start]));
            return None;
        }
        let d = (c as u32 - 48) as usize;
        let ghost t = b.take(i - start + 1);
        assert(t.drop_last() =~= b.take(i - start));
        assert(t.last() == c);
        assert(d == digit_value(c));
        assert(value_of(t) == acc * 10 + d);
        match acc.checked_mul(10) {
            None => {
                proof {
                    assert(value_of(t) > usize::MAX);
                    lemma_value_prefix(b, i - start + 1);
                }
                return None;
            },
            Some(m) => match m.checked_add(d) {
                None => {
                    proof {
                        assert(value_of(t) > usize::MAX);
                        lemma_value_prefix(b, i - start + 1);
                    }
                    return None;
                },
                Some(n) => {
                    acc = n;
                },
            },
        }
        i = i + 1;
    }
    assert(b.take(v.len() - start) =~= b);
    Some(acc)
}

} // verus!
