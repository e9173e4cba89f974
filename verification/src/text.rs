//! Character sequences: the operations on text that the rest of the crate is
//! stated with, and their executable counterparts.
//!
//! Contracts speak of `Seq<char>`, the view of `str` and `String`. Executable
//! code scans a `Vec<char>` and builds a `String` at the end.

use vstd::prelude::*;

verus! {

/// Taken on trust: `String::push` appends the given character to the end of
/// the string and leaves what was there as it was.
pub assume_specification[ String::push ](s: &mut String, ch: char)
    ensures
        final(s)@ == old(s)@.push(ch),
;

/// The classes of characters that the crate's grammars are made of.
#[derive(Clone, Copy, Debug, PartialEq, Eq, Structural)]
pub enum CharClass {
    /// What a name is made of: ASCII letters and digits, `_` and `-`.
    Name,
    /// White space: the characters that Unicode classes as White_Space.
    Space,
    /// What a line is made of: every character but the line feed.
    Inline,
}

/// Whether `c` is an ASCII letter or digit, `_` or `-`.
pub open spec fn is_name_char(c: char) -> bool {
    ||| 'a' <= c <= 'z'
    ||| 'A' <= c <= 'Z'
    ||| '0' <= c <= '9'
    ||| c == '_'
    ||| c == '-'
}

/// Whether Unicode classes `c` as White_Space.
pub open spec fn is_space(c: char) -> bool {
    ||| '\u{9}' <= c <= '\u{d}'
    ||| c == ' '
    ||| c == '\u{85}'
    ||| c == '\u{a0}'
    ||| c == '\u{1680}'
    ||| '\u{2000}' <= c <= '\u{200a}'
    ||| c == '\u{2028}'
    ||| c == '\u{2029}'
    ||| c == '\u{202f}'
    ||| c == '\u{205f}'
    ||| c == '\u{3000}'
}

impl CharClass {
    /// Whether `c` belongs to the class.
    pub open spec fn has(self, c: char) -> bool {
        match self {
            CharClass::Name => is_name_char(c),
            CharClass::Space => is_space(c),
            CharClass::Inline => c != '\n',
        }
    }

    /// Whether `c` belongs to the class.
    pub fn holds(self, c: char) -> (b: bool)
        ensures
            b == self.has(c),
    {
        match self {
            CharClass::Name => {
                ('a' <= c && c <= 'z') || ('A' <= c && c <= 'Z') || ('0' <= c && c <= '9') || c
                    == '_' || c == '-'
            },
            CharClass::Space => {
                ('\u{9}' <= c && c <= '\u{d}') || c == ' ' || c == '\u{85}' || c == '\u{a0}' || c
                    == '\u{1680}' || ('\u{2000}' <= c && c <= '\u{200a}') || c == '\u{2028}' || c
                    == '\u{2029}' || c == '\u{202f}' || c == '\u{205f}' || c == '\u{3000}'
            },
            CharClass::Inline => c != '\n',
        }
    }
}

/// The number of leading characters of `s` that belong to `class`.
pub open spec fn run_len(s: Seq<char>, class: CharClass) -> nat
    decreases s.len(),
{
    if s.len() == 0 || !class.has(s[0]) {
        0
    } else {
        1 + run_len(s.skip(1), class)
    }
}

/// Whether every character of `s` belongs to `class`.
pub open spec fn all_in(s: Seq<char>, class: CharClass) -> bool {
    forall|i: int| 0 <= i < s.len() ==> class.has(#[trigger] s[i])
}

/// Whether `pat` stands somewhere in `text`.
pub open spec fn occurs(text: Seq<char>, pat: Seq<char>) -> bool {
    exists|i: int| 0 <= i <= text.len() && pat.is_prefix_of(#[trigger] text.skip(i))
}

/// `text` with every occurrence of `pat` replaced by `to`. Occurrences are
/// found from left to right and do not overlap; what a replacement puts in
/// is not searched again. An empty `pat` occurs nowhere.
pub open spec fn replace_all(text: Seq<char>, pat: Seq<char>, to: Seq<char>) -> Seq<char>
    decreases text.len(),
{
    if text.len() == 0 || pat.len() == 0 {
        text
    } else if pat.is_prefix_of(text) {
        to + replace_all(text.skip(pat.len() as int), pat, to)
    } else {
        seq![text[0]] + replace_all(text.skip(1), pat, to)
    }
}

/// The length of the first line of `text`: the position of its first line
/// feed, or its length where it has none.
pub open spec fn line_len(text: Seq<char>) -> nat {
    run_len(text, CharClass::Inline)
}

/// The lines of `text`: the pieces between its line feeds. A text without a
/// line feed is one line, the empty text too; a text that ends in a line
/// feed has an empty last line.
pub open spec fn split_lines(text: Seq<char>) -> Seq<Seq<char>>
    decreases text.len(),
    via split_lines_decreases
{
    let k = line_len(text) as int;
    if k == text.len() {
        seq![text]
    } else {
        seq![text.take(k)] + split_lines(text.skip(k + 1))
    }
}

#[via_fn]
proof fn split_lines_decreases(text: Seq<char>) {
    lemma_run_len(text, CharClass::Inline);
}

/// The lines joined by single line feeds, with none after the last.
pub open spec fn join_lines(lines: Seq<Seq<char>>) -> Seq<char>
    decreases lines.len(),
{
    if lines.len() == 0 {
        Seq::empty()
    } else if lines.len() == 1 {
        lines[0]
    } else {
        join_lines(lines.drop_last()) + seq!['\n'] + lines.last()
    }
}

/// Lexicographic order by code point, the order of `str` and `String`.
pub open spec fn lex_lt(a: Seq<char>, b: Seq<char>) -> bool
    decreases a.len(),
{
    if b.len() == 0 {
        false
    } else if a.len() == 0 {
        true
    } else if a[0] != b[0] {
        a[0] < b[0]
    } else {
        lex_lt(a.skip(1), b.skip(1))
    }
}

/// The views of a sequence of character vectors.
pub open spec fn seqs_of(lines: Seq<Vec<char>>) -> Seq<Seq<char>> {
    lines.map_values(|l: Vec<char>| l@)
}

/// The views of a sequence of strings.
pub open spec fn texts_of(words: Seq<String>) -> Seq<Seq<char>> {
    words.map_values(|w: String| w@)
}

/// The characters of `s`, in order.
pub fn chars_of(s: &str) -> (v: Vec<char>)
    ensures
        v@ == s@,
{
    broadcast use vstd::string::group_string_axioms;

    let mut v: Vec<char> = Vec::new();
    for c in it: s.chars()
        invariant
            it.seq() == s@,
            v@ == s@.take(it.index()),
    {
        v.push(c);
    }
    v
}

/// The string made of the characters of `v`, in order.
pub fn string_of(v: &Vec<char>) -> (s: String)
    ensures
        s@ == v@,
{
    let mut s = String::new();
    let mut i: usize = 0;
    while i < v.len()
        invariant
            i <= v.len(),
            s@ == v@.take(i as int),
        decreases v.len() - i,
    {
        s.push(v[i]);
        i = i + 1;
    }
    s
}

/// Whether `pat` stands in `text` at position `at`.
pub(crate) fn occurs_at(text: &Vec<char>, at: usize, pat: &Vec<char>) -> (b: bool)
    requires
        at <= text.len(),
    ensures
        b == pat@.is_prefix_of(text@.skip(at as int)),
{
    if pat.len() > text.len() - at {
        return false;
    }
    let mut j: usize = 0;
    while j < pat.len()
        invariant
            at <= text.len(),
            pat.len() <= text.len() - at,
            j <= pat.len(),
            forall|k: int| 0 <= k < j ==> pat@[k] == text@[at + k],
        decreases pat.len() - j,
    {
        if pat[j] != text[at + j] {
            return false;
        }
        j = j + 1;
    }
    true
}

/// Replaces every occurrence of `pat` in `text` by `to`.
pub fn replace(text: &Vec<char>, pat: &Vec<char>, to: &Vec<char>) -> (out: Vec<char>)
    ensures
        out@ == replace_all(text@, pat@, to@),
{
    let mut out: Vec<char> = Vec::new();
    if pat.len() == 0 {
        out.extend_from_slice(text.as_slice());
        return out;
    }
    let mut i: usize = 0;
    assert(text@.skip(0) =~= text@);
    while i < text.len()
        invariant
            i <= text.len(),
            pat.len() > 0,
            out@ + replace_all(text@.skip(i as int), pat@, to@) == replace_all(text@, pat@, to@),
        decreases text.len() - i,
    {
        let ghost rest = text@.skip(i as int);
        if occurs_at(text, i, pat) {
            out.extend_from_slice(to.as_slice());
            i = i + pat.len();
            assert(rest.skip(pat@.len() as int) =~= text@.skip(i as int));
        } else {
            out.push(text[i]);
            i = i + 1;
            assert(rest.skip(1) =~= text@.skip(i as int));
        }
    }
    out
}

/// Whether `a` and `b` hold the same characters.
pub fn same(a: &Vec<char>, b: &Vec<char>) -> (r: bool)
    ensures
        r == (a@ == b@),
{
    if a.len() != b.len() {
        return false;
    }
    let mut i: usize = 0;
    while i < a.len()
        invariant
            a.len() == b.len(),
            i <= a.len(),
            forall|k: int| 0 <= k < i ==> a@[k] == b@[k],
        decreases a.len() - i,
    {
        if a[i] != b[i] {
            return false;
        }
        i = i + 1;
    }
    assert(a@ =~= b@);
    true
}

/// Whether `a` comes before `b` in lexicographic order.
pub fn lex_less(a: &Vec<char>, b: &Vec<char>) -> (r: bool)
    ensures
        r == lex_lt(a@, b@),
{
    let mut i: usize = 0;
    assert(a@.skip(0) =~= a@ && b@.skip(0) =~= b@);
    while i < a.len() && i < b.len()
        invariant
            i <= a.len(),
            i <= b.len(),
            lex_lt(a@, b@) == lex_lt(a@.skip(i as int), b@.skip(i as int)),
        decreases a.len() - i,
    {
        if a[i] != b[i] {
            return a[i] < b[i];
        }
        assert(a@.skip(i as int).skip(1) =~= a@.skip(i + 1));
        assert(b@.skip(i as int).skip(1) =~= b@.skip(i + 1));
        i = i + 1;
    }
    i < b.len()
}

/// The number of characters of `s` from position `from` on that belong to
/// `class`, up to the first that does not.
pub(crate) fn run_from(s: &Vec<char>, from: usize, class: CharClass) -> (n: usize)
    requires
        from <= s.len(),
    ensures
        n == run_len(s@.skip(from as int), class),
        from + n <= s.len(),
{
    let mut n: usize = 0;
    while from + n < s.len() && class.holds(s[from + n])
        invariant
            from + n <= s.len(),
            forall|i: int| 0 <= i < n ==> class.has(#[trigger] s@.skip(from as int)[i]),
        decreases s.len() - n,
    {
        n = n + 1;
    }
    proof {
        lemma_run_len_is(s@.skip(from as int), class, n as int);
    }
    n
}

/// The characters of `s` from position `from` up to `to`.
pub(crate) fn slice_of(s: &Vec<char>, from: usize, to: usize) -> (out: Vec<char>)
    requires
        from <= to <= s.len(),
    ensures
        out@ == s@.subrange(from as int, to as int),
{
    let mut out: Vec<char> = Vec::new();
    let mut i: usize = from;
    while i < to
        invariant
            from <= i <= to,
            to <= s.len(),
            out@ == s@.subrange(from as int, i as int),
        decreases to - i,
    {
        out.push(s[i]);
        i = i + 1;
    }
    out
}

/// The lines of `text`.
pub fn lines_of(text: &Vec<char>) -> (lines: Vec<Vec<char>>)
    ensures
        seqs_of(lines@) == split_lines(text@),
{
    let mut lines: Vec<Vec<char>> = Vec::new();
    let mut start: usize = 0;
    assert(text@.skip(0) =~= text@);
    loop
        invariant
            start <= text.len(),
            seqs_of(lines@) + split_lines(text@.skip(start as int)) == split_lines(text@),
        decreases text.len() - start,
    {
        let ghost rest = text@.skip(start as int);
        let ghost done = seqs_of(lines@);
        let n = run_from(text, start, CharClass::Inline);
        let line = slice_of(text, start, start + n);
        assert(line@ =~= rest.take(n as int));
        proof {
            lemma_run_len(rest, CharClass::Inline);
        }
        lines.push(line);
        assert(seqs_of(lines@) =~= done.push(rest.take(n as int)));
        if start + n == text.len() {
            return lines;
        }
        assert(rest.skip(n + 1) =~= text@.skip(start + n + 1));
        start = start + n + 1;
    }
}

/// A run ends at the first element that fails `p`, or at the end.
pub proof fn lemma_run_len(s: Seq<char>, p: CharClass)
    ensures
        run_len(s, p) <= s.len(),
        forall|i: int| 0 <= i < run_len(s, p) ==> p.has(#[trigger] s[i]),
        run_len(s, p) < s.len() ==> !p.has(s[run_len(s, p) as int]),
    decreases s.len(),
{
    if s.len() != 0 && p.has(s[0]) {
        let t = s.skip(1);
        lemma_run_len(t, p);
        assert forall|i: int| 0 <= i < run_len(s, p) implies p.has(#[trigger] s[i]) by {
            if i > 0 {
                assert(s[i] == t[i - 1]);
            }
        }
        if run_len(s, p) < s.len() {
            assert(s[run_len(s, p) as int] == t[run_len(t, p) as int]);
        }
    }
}

/// The run length is the only position that a run can end at.
pub proof fn lemma_run_len_is(s: Seq<char>, p: CharClass, k: int)
    requires
        0 <= k <= s.len(),
        forall|i: int| 0 <= i < k ==> p.has(#[trigger] s[i]),
        k < s.len() ==> !p.has(s[k]),
    ensures
        run_len(s, p) == k,
    decreases s.len(),
{
    if k > 0 {
        let t = s.skip(1);
        if k - 1 < t.len() {
            assert(t[k - 1] == s[k]);
        }
        lemma_run_len_is(t, p, k - 1);
    }
}

/// Replacing what does not occur changes nothing.
pub proof fn lemma_replace_absent(text: Seq<char>, pat: Seq<char>, to: Seq<char>)
    requires
        !occurs(text, pat),
    ensures
        replace_all(text, pat, to) == text,
    decreases text.len(),
{
    if text.len() > 0 && pat.len() > 0 {
        assert(text.skip(0) =~= text);
        let rest = text.skip(1);
        assert forall|i: int| 0 <= i <= rest.len() implies !pat.is_prefix_of(
            #[trigger] rest.skip(i),
        ) by {
            assert(rest.skip(i) =~= text.skip(i + 1));
        }
        lemma_replace_absent(rest, pat, to);
    }
}

/// A text without a line feed is one line.
pub proof fn lemma_split_one(text: Seq<char>)
    requires
        all_in(text, CharClass::Inline),
    ensures
        split_lines(text) == seq![text],
{
    lemma_run_len_is(text, CharClass::Inline, text.len() as int);
}

/// A text splits at its first line feed.
pub proof fn lemma_split_first(text: Seq<char>, k: int)
    requires
        0 <= k < text.len(),
        all_in(text.take(k), CharClass::Inline),
        text[k] == '\n',
    ensures
        split_lines(text) == seq![text.take(k)] + split_lines(text.skip(k + 1)),
{
    assert forall|i: int| 0 <= i < k implies CharClass::Inline.has(#[trigger] text[i]) by {
        assert(text[i] == text.take(k)[i]);
    }
    lemma_run_len_is(text, CharClass::Inline, k);
}

/// The lines of two texts joined by a line feed are the lines of the first
/// followed by the lines of the second.
pub proof fn lemma_split_concat(front: Seq<char>, back: Seq<char>)
    ensures
        split_lines(front + seq!['\n'] + back) == split_lines(front) + split_lines(back),
    decreases front.len(),
{
    let whole = front + seq!['\n'] + back;
    let k = line_len(front) as int;
    lemma_run_len(front, CharClass::Inline);
    assert(whole.take(k) =~= front.take(k));
    if k == front.len() {
        assert(front.take(k) =~= front);
        assert(whole.skip(k + 1) =~= back);
        lemma_split_first(whole, k);
        lemma_split_one(front);
    } else {
        assert(whole.skip(k + 1) =~= front.skip(k + 1) + seq!['\n'] + back);
        lemma_split_first(whole, k);
        lemma_split_first(front, k);
        lemma_split_concat(front.skip(k + 1), back);
    }
}

/// Lines without a line feed, joined and split again, come back as they
/// were.
pub proof fn lemma_split_join(lines: Seq<Seq<char>>)
    requires
        lines.len() > 0,
        forall|i: int| 0 <= i < lines.len() ==> all_in(#[trigger] lines[i], CharClass::Inline),
    ensures
        split_lines(join_lines(lines)) == lines,
    decreases lines.len(),
{
    lemma_split_one(lines.last());
    if lines.len() == 1 {
        assert(lines =~= seq![lines[0]]);
    } else {
        let init = lines.drop_last();
        lemma_split_join(init);
        lemma_split_concat(join_lines(init), lines.last());
    }
}

/// No text is below itself.
pub proof fn lemma_lex_irreflexive(a: Seq<char>)
    ensures
        !lex_lt(a, a),
    decreases a.len(),
{
    if a.len() > 0 {
        lemma_lex_irreflexive(a.skip(1));
    }
}

/// The order is transitive.
pub proof fn lemma_lex_transitive(a: Seq<char>, b: Seq<char>, c: Seq<char>)
    requires
        lex_lt(a, b),
        lex_lt(b, c),
    ensures
        lex_lt(a, c),
    decreases a.len(),
{
    if a.len() > 0 && a[0] == b[0] && b[0] == c[0] {
        lemma_lex_transitive(a.skip(1), b.skip(1), c.skip(1));
    }
}

/// The order is total: of two different texts one is below the other.
pub proof fn lemma_lex_total(a: Seq<char>, b: Seq<char>)
    ensures
        lex_lt(a, b) || lex_lt(b, a) || a == b,
    decreases a.len(),
{
    if a.len() > 0 && b.len() > 0 && a[0] == b[0] {
        lemma_lex_total(a.skip(1), b.skip(1));
        if a.skip(1) == b.skip(1) {
            assert(a =~= seq![a[0]] + a.skip(1));
        }
    } else if a.len() == 0 && b.len() == 0 {
        assert(a =~= b);
    }
}

} // verus!
