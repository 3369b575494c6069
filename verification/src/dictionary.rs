//! The reference word list and the test for a correctly spelled word.

use crate::wordlist::{parse_word_list, split_words, tokens, word_list};
use crate::words::{all_alphabetic, char_is_alphabetic, strs_view};
use vstd::hash_set::StringHashSet;
use vstd::prelude::*;

verus! {

/// The stem that the Porter algorithm gives for `w`.
pub uninterp spec fn porter_stem(w: Seq<char>) -> Seq<char>;

/// `c` with an ASCII capital letter replaced by its small letter.
pub open spec fn ascii_lower_char(c: char) -> char {
    if 'A' <= c && c <= 'Z' {
        ((c as u32) + 32) as char
    } else {
        c
    }
}

/// `w` with each ASCII capital letter replaced by its small letter; every
/// other character, non-ASCII letters included, stays as it is.
pub open spec fn ascii_lower(w: Seq<char>) -> Seq<char> {
    Seq::new(w.len(), |i: int| ascii_lower_char(w[i]))
}

/// `w` is spelled correctly against `words`: it is listed as it stands, or
/// it holds letters only and its lower-case form is listed, or, with
/// stemming, the stem of that lower-case form is listed.
pub open spec fn is_known(words: Set<Seq<char>>, stemming: bool, w: Seq<char>) -> bool {
    ||| words.contains(w)
    ||| (all_alphabetic(w) && words.contains(ascii_lower(w)))
    ||| (all_alphabetic(w) && stemming && words.contains(porter_stem(ascii_lower(w))))
}

/// `str::to_ascii_lowercase`: a copy of the string in which `A` to `Z` have
/// become `a` to `z` and nothing else has changed.
#[verifier::external_body]
fn to_ascii_lowercase(w: &str) -> (r: String)
    ensures
        r@ == ascii_lower(w@),
{
    w.to_ascii_lowercase()
}

/// `porter_stemmer::stem`: the stem of the word, which depends on the word
/// alone and is named by [`porter_stem`].
#[verifier::external_body]
fn stem(w: &str) -> (r: String)
    ensures
        r@ == porter_stem(w@),
{
    porter_stemmer::stem(w)
}

/// Whether `w` holds letters only.
pub fn is_all_alphabetic(w: &str) -> (r: bool)
    ensures
        r == all_alphabetic(w@),
{
    let mut all: bool = true;
    for c in it: w.chars()
        invariant
            it.seq() == w@,
            all == all_alphabetic(w@.take(it.index() as int)),
    {
        let ghost before = w@.take(it.index() as int);
        let ghost after = w@.take(it.index() + 1);
        assert(after[it.index() as int] == c);
        assert(forall|k: int| 0 <= k < before.len() ==> before[k] == after[k]);
        all = all && char_is_alphabetic(c);
    }
    assert(w@.take(w@.len() as int) =~= w@);
    all
}

/// A set of reference words, with or without the stemming fallback.
pub struct Dictionary {
    words: StringHashSet,
    stemming: bool,
}

impl Dictionary {
    /// The reference words.
    pub closed spec fn words(&self) -> Set<Seq<char>> {
        self.words@
    }

    /// Whether a word may also be matched by its stem.
    pub closed spec fn stemming(&self) -> bool {
        self.stemming
    }

    /// `w` counts as correctly spelled.
    pub open spec fn knows(&self, w: Seq<char>) -> bool {
        is_known(self.words(), self.stemming(), w)
    }

    /// An empty dictionary.
    pub fn new(stemming: bool) -> (d: Dictionary)
        ensures
            d.words() == Set::<Seq<char>>::empty(),
            d.stemming() == stemming,
    {
        Dictionary { words: StringHashSet::new(), stemming }
    }

    /// Adds `w` as it stands, case preserved.
    pub fn insert(&mut self, w: String)
        ensures
            final(self).words() == old(self).words().insert(w@),
            final(self).stemming() == old(self).stemming(),
    {
        self.words.insert(w);
    }

    /// Adds each of `words` as it stands.
    pub fn insert_all(&mut self, words: &Vec<&str>)
        ensures
            final(self).words() == old(self).words().union(strs_view(words@).to_set()),
            final(self).stemming() == old(self).stemming(),
    {
        let ghost all = strs_view(words@);
        let n = words.len();
        let mut i: usize = 0;
        assert(self.words() =~= old(self).words().union(all.take(0).to_set()));
        while i < n
            invariant
                n == words.len(),
                i <= n,
                all == strs_view(words@),
                self.stemming() == old(self).stemming(),
                self.words() == old(self).words().union(all.take(i as int).to_set()),
            decreases n - i,
        {
            let ghost before = all.take(i as int);
            let ghost after = all.take(i + 1);
            self.insert(words[i].to_owned());
            proof {
                assert(after =~= before.push(all[i as int]));
                assert forall|w: Seq<char>| after.to_set().contains(w) <==> (before.to_set().contains(
                    w,
                ) || w == all[i as int]) by {
                    if before.contains(w) {
                        let k = choose|k: int| 0 <= k < before.len() && before[k] == w;
                        assert(after[k] == w);
                    }
                    if w == all[i as int] {
                        assert(after[i as int] == w);
                    }
                }
                assert(self.words() =~= old(self).words().union(after.to_set()));
            }
            i += 1;
        }
        assert(all.take(n as int) =~= all);
    }

    /// Adds the words of a word list: the lines of `text`, each without the
    /// whitespace at its ends and with its case kept.
    pub fn add_word_list(&mut self, text: &str)
        ensures
            final(self).words() == old(self).words().union(word_list(text@).to_set()),
            final(self).stemming() == old(self).stemming(),
    {
        let words = parse_word_list(text);
        self.insert_all(&words);
    }

    /// Adds the words that whitespace sets apart in `text`.
    pub fn add_words(&mut self, text: &str)
        ensures
            final(self).words() == old(self).words().union(tokens(text@).to_set()),
            final(self).stemming() == old(self).stemming(),
    {
        let words = split_words(text);
        self.insert_all(&words);
    }

    /// Whether `w` is listed exactly as given.
    pub fn contains(&self, w: &str) -> (r: bool)
        ensures
            r == self.words().contains(w@),
    {
        self.words.contains(w)
    }

    /// Whether no word is listed.
    pub fn is_empty(&self) -> (r: bool)
        ensures
            r == self.words().is_empty(),
    {
        self.words.is_empty()
    }

    /// Whether stemming is on and the stem of `w` is listed.
    pub fn stemmed_word_is_correct(&self, w: &str) -> (r: bool)
        ensures
            r == (self.stemming() && self.words().contains(porter_stem(w@))),
    {
        if !self.stemming {
            return false;
        }
        let stemmed = stem(w);
        self.contains(stemmed.as_str())
    }

    /// Whether `w`, taken whole and without splitting, is correctly spelled.
    pub fn raw_word_is_correct(&self, w: &str) -> (r: bool)
        ensures
            r == self.knows(w@),
    {
        if self.contains(w) {
            return true;
        }
        if !is_all_alphabetic(w) {
            return false;
        }
        let lower = to_ascii_lowercase(w);
        self.contains(lower.as_str()) || self.stemmed_word_is_correct(lower.as_str())
    }
}

} // verus!
