//! Reading reference words out of text: one word on each line of a word
//! list, or words set apart by whitespace.

use crate::words::{cut, next_span, spans_from, strs_view, CharClass};
use vstd::prelude::*;
use vstd::string::StrSliceExecFns;

verus! {

/// Whether `c` has the Unicode `White_Space` property.
pub uninterp spec fn is_whitespace(c: char) -> bool;

/// `char::is_whitespace`: the answer is a fixed property of the character,
/// named by [`is_whitespace`].
#[verifier::external_body]
fn char_is_whitespace(c: char) -> (r: bool)
    ensures
        r == is_whitespace(c),
{
    c.is_whitespace()
}

/// How a character bears on reading a word list.
#[derive(Clone, Copy, Debug, PartialEq, Eq, Hash, Structural)]
pub enum LineClass {
    /// The line feed, which ends a line.
    Feed,
    /// Whitespace other than the line feed.
    Blank,
    /// Anything else.
    Other,
}

/// The class of `c` in a word list.
pub open spec fn line_class_of(c: char) -> LineClass {
    if c == '\n' {
        LineClass::Feed
    } else if is_whitespace(c) {
        LineClass::Blank
    } else {
        LineClass::Other
    }
}

/// The classes of the characters of the word list `s`.
pub open spec fn line_classes_of(s: Seq<char>) -> Seq<LineClass> {
    Seq::new(s.len(), |i: int| line_class_of(s[i]))
}

/// The end of the line that holds index `j`: the next line feed at or after
/// `j`, or the end of the text.
pub open spec fn line_end(k: Seq<LineClass>, j: int) -> int
    decreases k.len() - j,
{
    if j < 0 || j >= k.len() || k[j] == LineClass::Feed {
        j
    } else {
        line_end(k, j + 1)
    }
}

/// A line starts at `i`: at the start of the text or after a line feed. No
/// line starts at the end of the text.
pub open spec fn starts_line(k: Seq<LineClass>, i: int) -> bool {
    0 <= i < k.len() && (i == 0 || k[i - 1] == LineClass::Feed)
}

/// The first index from `a` on, before `b`, that holds no blank; `b` if
/// there is none.
pub open spec fn skip_blanks(k: Seq<LineClass>, a: int, b: int) -> int
    decreases b - a,
{
    if a >= b || k[a] != LineClass::Blank {
        a
    } else {
        skip_blanks(k, a + 1, b)
    }
}

/// The index just past the last character before `b`, not before `a`, that
/// is no blank; `a` if there is none.
pub open spec fn drop_blanks(k: Seq<LineClass>, a: int, b: int) -> int
    decreases b - a,
{
    if b <= a || k[b - 1] != LineClass::Blank {
        b
    } else {
        drop_blanks(k, a, b - 1)
    }
}

/// The stretch from `a` to `b` without the blanks at its ends.
pub open spec fn trimmed(k: Seq<LineClass>, a: int, b: int) -> (int, int) {
    let from = skip_blanks(k, a, b);
    (from, drop_blanks(k, from, b))
}

/// The lines that start at `i` or later, each without the blanks at its
/// ends, by its first index and the index past its last.
pub open spec fn lines_from(k: Seq<LineClass>, i: int) -> Seq<(int, int)>
    decreases k.len() - i,
{
    if i < 0 || i >= k.len() {
        Seq::empty()
    } else if starts_line(k, i) {
        seq![trimmed(k, i, line_end(k, i))] + lines_from(k, i + 1)
    } else {
        lines_from(k, i + 1)
    }
}

/// The words of a word list: its lines, each without the whitespace at its
/// ends. An empty line gives an empty word; a line feed at the very end
/// opens no further line.
pub open spec fn word_list(s: Seq<char>) -> Seq<Seq<char>> {
    cut(s, lines_from(line_classes_of(s), 0))
}

/// The class of `c` where whitespace sets words apart: whitespace is a
/// separator, and everything else continues a word.
pub open spec fn token_class_of(c: char) -> CharClass {
    if is_whitespace(c) {
        CharClass::Separator
    } else {
        CharClass::Small
    }
}

/// The classes of the characters of `s` where whitespace sets words apart.
pub open spec fn token_classes_of(s: Seq<char>) -> Seq<CharClass> {
    Seq::new(s.len(), |i: int| token_class_of(s[i]))
}

/// The words that whitespace sets apart in `s`: its longest stretches
/// without whitespace.
pub open spec fn tokens(s: Seq<char>) -> Seq<Seq<char>> {
    cut(s, spans_from(token_classes_of(s), 0))
}

proof fn lemma_no_line_starts(k: Seq<LineClass>, j: int, e: int)
    requires
        1 <= j <= e + 1,
        e <= k.len(),
        forall|m: int| j - 1 <= m < e ==> k[m] != LineClass::Feed,
    ensures
        lines_from(k, j) == lines_from(k, e + 1),
    decreases e + 1 - j,
{
    if j <= e {
        lemma_no_line_starts(k, j + 1, e);
        assert(!starts_line(k, j));
    }
}

/// Reads the line that starts at `pos`: the stretch that is left of it
/// without the blanks at its ends, and the index past the line feed that
/// ends it, or the end of the text where none does. `None` at the end of
/// the text, where no line starts.
pub fn next_line(k: &Vec<LineClass>, pos: usize) -> (r: Option<(usize, usize, usize)>)
    ensures
        match r {
            None => pos >= k.len(),
            Some((a, b, next)) => {
                &&& pos <= a <= b <= next <= k.len()
                &&& pos < next
                &&& (a as int, b as int) == trimmed(k@, pos as int, line_end(k@, pos as int))
                &&& next == if line_end(k@, pos as int) < k.len() {
                    line_end(k@, pos as int) + 1
                } else {
                    k.len() as int
                }
                &&& next < k.len() ==> starts_line(k@, next as int)
                &&& starts_line(k@, pos as int) ==> lines_from(k@, pos as int) == seq![
                    (a as int, b as int),
                ] + lines_from(k@, next as int)
            },
        },
{
    let n = k.len();
    if pos >= n {
        return None;
    }
    let mut e: usize = pos;
    while e < n && k[e] != LineClass::Feed
        invariant
            n == k.len(),
            pos <= e <= n,
            line_end(k@, e as int) == line_end(k@, pos as int),
            forall|m: int| pos <= m < e ==> k[m] != LineClass::Feed,
        decreases n - e,
    {
        e += 1;
    }
    let mut a: usize = pos;
    while a < e && k[a] == LineClass::Blank
        invariant
            n == k.len(),
            pos <= a <= e <= n,
            skip_blanks(k@, a as int, e as int) == skip_blanks(k@, pos as int, e as int),
        decreases e - a,
    {
        a += 1;
    }
    let mut b: usize = e;
    while b > a && k[b - 1] == LineClass::Blank
        invariant
            n == k.len(),
            a <= b <= e <= n,
            drop_blanks(k@, a as int, b as int) == drop_blanks(k@, a as int, e as int),
        decreases b - a,
    {
        b -= 1;
    }
    proof {
        lemma_no_line_starts(k@, pos + 1, e as int);
    }
    if e < n {
        Some((a, b, e + 1))
    } else {
        Some((a, b, n))
    }
}

/// The classes of the characters of the word list `s`, in order.
pub fn line_classes(s: &str) -> (v: Vec<LineClass>)
    ensures
        v@ == line_classes_of(s@),
{
    let mut v: Vec<LineClass> = Vec::new();
    for c in it: s.chars()
        invariant
            it.seq() == s@,
            v@ == line_classes_of(s@).take(it.index() as int),
    {
        let class = if c == '\n' {
            LineClass::Feed
        } else if char_is_whitespace(c) {
            LineClass::Blank
        } else {
            LineClass::Other
        };
        v.push(class);
        assert(v@ =~= line_classes_of(s@).take(it.index() + 1));
    }
    assert(line_classes_of(s@).take(s@.len() as int) =~= line_classes_of(s@));
    v
}

/// The classes of the characters of `s` where whitespace sets words apart.
pub fn token_classes(s: &str) -> (v: Vec<CharClass>)
    ensures
        v@ == token_classes_of(s@),
{
    let mut v: Vec<CharClass> = Vec::new();
    for c in it: s.chars()
        invariant
            it.seq() == s@,
            v@ == token_classes_of(s@).take(it.index() as int),
    {
        let class = if char_is_whitespace(c) {
            CharClass::Separator
        } else {
            CharClass::Small
        };
        v.push(class);
        assert(v@ =~= token_classes_of(s@).take(it.index() + 1));
    }
    assert(token_classes_of(s@).take(s@.len() as int) =~= token_classes_of(s@));
    v
}

/// Reads a word list: the lines of `text`, each without the whitespace at
/// its ends.
pub fn parse_word_list<'a>(text: &'a str) -> (out: Vec<&'a str>)
    ensures
        strs_view(out@) == word_list(text@),
{
    let ghost s = text@;
    let k = line_classes(text);
    let n = k.len();
    let mut out: Vec<&'a str> = Vec::new();
    let mut i: usize = 0;
    assert(strs_view(out@) + cut(s, lines_from(k@, 0)) =~= word_list(s));
    loop
        invariant
            s == text@,
            k@ == line_classes_of(s),
            n == k.len(),
            i <= n,
            i < n ==> starts_line(k@, i as int),
            strs_view(out@) + cut(s, lines_from(k@, i as int)) == word_list(s),
        ensures
            strs_view(out@) == word_list(s),
        decreases n - i,
    {
        match next_line(&k, i) {
            None => {
                assert(strs_view(out@) + cut(s, lines_from(k@, i as int)) =~= strs_view(out@));
                break ;
            },
            Some((a, b, next)) => {
                let line = text.substring_char(a, b);
                proof {
                    let before = strs_view(out@);
                    let rest = lines_from(k@, next as int);
                    assert(cut(s, lines_from(k@, i as int)) =~= seq![line@] + cut(s, rest));
                    assert(before + (seq![line@] + cut(s, rest)) =~= before.push(line@) + cut(
                        s,
                        rest,
                    ));
                    assert(strs_view(out@.push(line)) =~= before.push(line@));
                }
                out.push(line);
                i = next;
            },
        }
    }
    out
}

/// Splits `text` at whitespace into the words that it holds.
pub fn split_words<'a>(text: &'a str) -> (out: Vec<&'a str>)
    ensures
        strs_view(out@) == tokens(text@),
{
    let ghost s = text@;
    let k = token_classes(text);
    let mut out: Vec<&'a str> = Vec::new();
    let mut pos: usize = 0;
    assert(strs_view(out@) + cut(s, spans_from(k@, 0)) =~= tokens(s));
    loop
        invariant
            s == text@,
            k@ == token_classes_of(s),
            pos <= k.len(),
            strs_view(out@) + cut(s, spans_from(k@, pos as int)) == tokens(s),
        ensures
            strs_view(out@) == tokens(s),
        decreases k.len() - pos,
    {
        match next_span(&k, pos) {
            None => {
                assert(strs_view(out@) + cut(s, spans_from(k@, pos as int)) =~= strs_view(out@));
                break ;
            },
            Some((a, b)) => {
                let word = text.substring_char(a, b);
                proof {
                    let before = strs_view(out@);
                    let rest = spans_from(k@, b as int);
                    assert(cut(s, spans_from(k@, pos as int)) =~= seq![word@] + cut(s, rest));
                    assert(before + (seq![word@] + cut(s, rest)) =~= before.push(word@) + cut(
                        s,
                        rest,
                    ));
                    assert(strs_view(out@.push(word)) =~= before.push(word@));
                }
                out.push(word);
                pos = b;
            },
        }
    }
    out
}

} // verus!
