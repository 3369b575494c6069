//! Splitting a string into the sub-words that are checked for spelling.

use vstd::prelude::*;
use vstd::string::StrSliceExecFns;

verus! {

/// Whether `c` has the Unicode `Alphabetic` property.
pub uninterp spec fn is_alphabetic(c: char) -> bool;

/// Whether `c` has the Unicode `Uppercase` property.
pub uninterp spec fn is_uppercase(c: char) -> bool;

/// `char::is_alphabetic`: the answer is a fixed property of the character,
/// named by [`is_alphabetic`].
#[verifier::external_body]
pub(crate) fn char_is_alphabetic(c: char) -> (r: bool)
    ensures
        r == is_alphabetic(c),
{
    c.is_alphabetic()
}

/// `char::is_uppercase`: the answer is a fixed property of the character,
/// named by [`is_uppercase`].
#[verifier::external_body]
pub(crate) fn char_is_uppercase(c: char) -> (r: bool)
    ensures
        r == is_uppercase(c),
{
    c.is_uppercase()
}

/// How a character bears on splitting.
#[derive(Clone, Copy, Debug, PartialEq, Eq, Hash, Structural)]
pub enum CharClass {
    /// No part of any word.
    Separator,
    /// A letter that opens a word wherever it stands.
    Capital,
    /// A letter that continues a word that is open.
    Small,
}

/// The class of `c`: a separator unless alphabetic, and among the letters a
/// capital if uppercase.
pub open spec fn class_of(c: char) -> CharClass {
    if !is_alphabetic(c) {
        CharClass::Separator
    } else if is_uppercase(c) {
        CharClass::Capital
    } else {
        CharClass::Small
    }
}

/// The classes of the characters of `s`.
pub open spec fn classes_of(s: Seq<char>) -> Seq<CharClass> {
    Seq::new(s.len(), |i: int| class_of(s[i]))
}

/// The end of the word that is open at `j`: the first index at or after `j`
/// that holds no small letter.
pub open spec fn span_end(k: Seq<CharClass>, j: int) -> int
    decreases k.len() - j,
{
    if j < 0 || j >= k.len() || k[j] != CharClass::Small {
        j
    } else {
        span_end(k, j + 1)
    }
}

/// A word starts at `i`: with a letter at the start, a letter after a
/// separator, or a capital.
pub open spec fn starts_span(k: Seq<CharClass>, i: int) -> bool {
    &&& 0 <= i < k.len()
    &&& k[i] != CharClass::Separator
    &&& (i == 0 || k[i - 1] == CharClass::Separator || k[i] == CharClass::Capital)
}

/// The words that start at index `i` or later, from left to right, each by
/// its first index and the index past its last.
pub open spec fn spans_from(k: Seq<CharClass>, i: int) -> Seq<(int, int)>
    decreases k.len() - i,
{
    if i < 0 || i >= k.len() {
        Seq::empty()
    } else if starts_span(k, i) {
        seq![(i, span_end(k, i + 1))] + spans_from(k, i + 1)
    } else {
        spans_from(k, i + 1)
    }
}

/// The stretches of `s` that `spans` marks.
pub open spec fn cut(s: Seq<char>, spans: Seq<(int, int)>) -> Seq<Seq<char>> {
    Seq::new(spans.len(), |n: int| s.subrange(spans[n].0, spans[n].1))
}

/// The sub-words of `s`: one for each index at which a word starts.
pub open spec fn subwords_spec(s: Seq<char>) -> Seq<Seq<char>> {
    cut(s, spans_from(classes_of(s), 0))
}

/// The strings of `v` as sequences of characters.
pub open spec fn strs_view(v: Seq<&str>) -> Seq<Seq<char>> {
    Seq::new(v.len(), |i: int| v[i]@)
}

/// Every character of `w` is alphabetic.
pub open spec fn all_alphabetic(w: Seq<char>) -> bool {
    forall|i: int| 0 <= i < w.len() ==> is_alphabetic(#[trigger] w[i])
}

/// A word in one piece: a letter, followed only by small letters.
pub open spec fn is_single_span(k: Seq<CharClass>) -> bool {
    &&& k.len() > 0
    &&& k[0] != CharClass::Separator
    &&& forall|i: int| 1 <= i < k.len() ==> #[trigger] k[i] == CharClass::Small
}

/// A word that is open at `j` ends within the sequence, and only small
/// letters stand between `j` and its end.
pub proof fn lemma_span_end_bounds(k: Seq<CharClass>, j: int)
    requires
        0 <= j <= k.len(),
    ensures
        j <= span_end(k, j) <= k.len(),
        forall|i: int| j <= i < span_end(k, j) ==> #[trigger] k[i] == CharClass::Small,
    decreases k.len() - j,
{
    if j < k.len() && k[j] == CharClass::Small {
        lemma_span_end_bounds(k, j + 1);
    }
}

/// Each word found from `i` on lies within the sequence and is a word in
/// one piece.
pub proof fn lemma_spans_are_single(k: Seq<CharClass>, i: int)
    requires
        0 <= i,
    ensures
        forall|n: int|
            0 <= n < spans_from(k, i).len() ==> {
                let r = #[trigger] spans_from(k, i)[n];
                0 <= r.0 < r.1 <= k.len() && is_single_span(k.subrange(r.0, r.1))
            },
    decreases k.len() - i,
{
    if i < k.len() {
        lemma_spans_are_single(k, i + 1);
        let rest = spans_from(k, i + 1);
        if starts_span(k, i) {
            lemma_span_end_bounds(k, i + 1);
            assert forall|n: int| 0 <= n < spans_from(k, i).len() implies {
                let r = #[trigger] spans_from(k, i)[n];
                0 <= r.0 < r.1 <= k.len() && is_single_span(k.subrange(r.0, r.1))
            } by {
                if n > 0 {
                    assert(spans_from(k, i)[n] == rest[n - 1]);
                }
            }
        }
    }
}

proof fn lemma_single_span_end(k: Seq<CharClass>, j: int)
    requires
        is_single_span(k),
        1 <= j <= k.len(),
    ensures
        span_end(k, j) == k.len(),
        spans_from(k, j) == Seq::<(int, int)>::empty(),
    decreases k.len() - j,
{
    if j < k.len() {
        lemma_single_span_end(k, j + 1);
        assert(k[j] == CharClass::Small);
        if j > 1 {
            assert(k[j - 1] == CharClass::Small);
        }
        assert(!starts_span(k, j));
    }
}

/// A word in one piece is split into itself and nothing else.
pub proof fn lemma_single_span(k: Seq<CharClass>)
    requires
        is_single_span(k),
    ensures
        spans_from(k, 0) == seq![(0int, k.len() as int)],
{
    lemma_single_span_end(k, 1);
    assert(starts_span(k, 0));
    assert(spans_from(k, 0) =~= seq![(0int, k.len() as int)]);
}

/// Every sub-word is non-empty and holds letters only.
pub proof fn lemma_subwords_alphabetic(s: Seq<char>, n: int)
    requires
        0 <= n < subwords_spec(s).len(),
    ensures
        subwords_spec(s)[n].len() > 0,
        all_alphabetic(subwords_spec(s)[n]),
{
    let k = classes_of(s);
    lemma_spans_are_single(k, 0);
    let r = spans_from(k, 0)[n];
    let w = subwords_spec(s)[n];
    assert forall|i: int| 0 <= i < w.len() implies is_alphabetic(#[trigger] w[i]) by {
        assert(w[i] == s[r.0 + i]);
        assert(k.subrange(r.0, r.1)[i] == class_of(s[r.0 + i]));
    }
}

/// Splitting a sub-word again gives that sub-word back and nothing else.
pub proof fn lemma_subwords_idempotent(s: Seq<char>, n: int)
    requires
        0 <= n < subwords_spec(s).len(),
    ensures
        subwords_spec(subwords_spec(s)[n]) == seq![subwords_spec(s)[n]],
{
    let k = classes_of(s);
    lemma_spans_are_single(k, 0);
    let r = spans_from(k, 0)[n];
    let w = subwords_spec(s)[n];
    assert(classes_of(w) =~= k.subrange(r.0, r.1));
    lemma_single_span(classes_of(w));
    assert(w.subrange(0, w.len() as int) =~= w);
    assert(subwords_spec(w) =~= seq![w]);
}

/// The class of `c`.
pub fn classify(c: char) -> (r: CharClass)
    ensures
        r == class_of(c),
{
    if !char_is_alphabetic(c) {
        CharClass::Separator
    } else if char_is_uppercase(c) {
        CharClass::Capital
    } else {
        CharClass::Small
    }
}

/// The classes of the characters of `s`, in order.
pub fn classes(s: &str) -> (v: Vec<CharClass>)
    ensures
        v@ == classes_of(s@),
{
    let mut v: Vec<CharClass> = Vec::new();
    for c in it: s.chars()
        invariant
            it.seq() == s@,
            v@ == classes_of(s@).take(it.index() as int),
    {
        v.push(classify(c));
        assert(v@ =~= classes_of(s@).take(it.index() + 1));
    }
    assert(classes_of(s@).take(s@.len() as int) =~= classes_of(s@));
    v
}

/// Finds the first word that starts at `pos` or later: its first index and
/// the index past its last. `None` where no word starts from `pos` on.
pub fn next_span(k: &Vec<CharClass>, pos: usize) -> (r: Option<(usize, usize)>)
    ensures
        match r {
            Some((a, b)) => {
                &&& pos <= a < b <= k.len()
                &&& spans_from(k@, pos as int).len() > 0
                &&& spans_from(k@, pos as int)[0] == (a as int, b as int)
                &&& spans_from(k@, b as int) == spans_from(k@, pos as int).drop_first()
            },
            None => spans_from(k@, pos as int).len() == 0,
        },
{
    let n = k.len();
    if pos >= n {
        return None;
    }
    let mut i: usize = pos;
    while i < n && (k[i] == CharClass::Separator || (i > 0 && k[i - 1] != CharClass::Separator
        && k[i] == CharClass::Small))
        invariant
            n == k.len(),
            pos <= i <= n,
            spans_from(k@, i as int) == spans_from(k@, pos as int),
        decreases n - i,
    {
        assert(!starts_span(k@, i as int));
        i += 1;
    }
    if i >= n {
        return None;
    }
    assert(starts_span(k@, i as int));
    let mut j: usize = i + 1;
    while j < n && k[j] == CharClass::Small
        invariant
            n == k.len(),
            i < j <= n,
            k[i as int] != CharClass::Separator,
            span_end(k@, j as int) == span_end(k@, i + 1),
            spans_from(k@, j as int) == spans_from(k@, i + 1),
            forall|m: int| i < m < j ==> k[m] == CharClass::Small,
        decreases n - j,
    {
        assert(!starts_span(k@, j as int));
        j += 1;
    }
    proof {
        let rest = spans_from(k@, j as int);
        assert(spans_from(k@, pos as int) == seq![(i as int, j as int)] + rest);
        assert(spans_from(k@, pos as int).drop_first() =~= rest);
    }
    Some((i, j))
}

/// The sub-words of a string, handed out one at a time from left to right.
pub struct SubwordIter<'a> {
    s: &'a str,
    classes: Vec<CharClass>,
    pos: usize,
}

impl<'a> SubwordIter<'a> {
    /// The string that is being split.
    pub closed spec fn source(&self) -> Seq<char> {
        self.s@
    }

    /// The sub-words that have not been handed out yet.
    pub closed spec fn remaining(&self) -> Seq<Seq<char>> {
        cut(self.s@, spans_from(self.classes@, self.pos as int))
    }

    /// The iterator knows the class of each character of its source.
    pub closed spec fn wf(&self) -> bool {
        &&& self.classes@ == classes_of(self.s@)
        &&& self.pos <= self.classes.len()
    }

    /// Hands out the next sub-word, or `None` when the string is used up.
    pub fn next(&mut self) -> (r: Option<&'a str>)
        requires
            old(self).wf(),
        ensures
            final(self).wf(),
            final(self).source() == old(self).source(),
            match r {
                Some(w) => {
                    &&& old(self).remaining().len() > 0
                    &&& w@ == old(self).remaining()[0]
                    &&& final(self).remaining() == old(self).remaining().drop_first()
                },
                None => old(self).remaining().len() == 0 && final(self).remaining().len() == 0,
            },
    {
        match next_span(&self.classes, self.pos) {
            None => None,
            Some((a, b)) => {
                let w = self.s.substring_char(a, b);
                self.pos = b;
                assert(self.remaining() =~= old(self).remaining().drop_first());
                Some(w)
            },
        }
    }
}

/// Splits `s` into its sub-words: `FooBar` gives `Foo`, `Bar`; `foo_bar`
/// gives `foo`, `bar`; `AB Cd123e` gives `A`, `B`, `Cd`, `e`.
pub fn subwords<'a>(s: &'a str) -> (it: SubwordIter<'a>)
    ensures
        it.wf(),
        it.source() == s@,
        it.remaining() == subwords_spec(s@),
{
    SubwordIter { s: s, classes: classes(s), pos: 0 }
}

} // verus!
