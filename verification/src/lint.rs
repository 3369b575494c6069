//! The check as a lint: word lists are loaded once, and each tree gives a
//! list of warnings.

use crate::dictionary::Dictionary;
use crate::policy::{Mode, VisibilityRule};
use crate::position::Position;
use crate::record::{has_position, is_report_of, words_view, Entry};
use crate::tree::{ExportedItems, Node};
use crate::visitor::{analyze, gather, node_findings};
use crate::wordlist::{tokens, word_list};
use vstd::prelude::*;
use vstd::string::StringExecFns;

verus! {

/// A warning about the words misspelled at one position.
#[derive(Debug)]
pub struct Lint {
    pub position: Position,
    pub message: String,
}

/// The words of `words`, with a comma and a space between each two.
pub open spec fn joined(words: Seq<Seq<char>>) -> Seq<char>
    decreases words.len(),
{
    if words.len() == 0 {
        Seq::empty()
    } else if words.len() == 1 {
        words[0]
    } else {
        joined(words.drop_last()) + ", "@ + words.last()
    }
}

/// The text of the warning for the misspelled words `words`.
pub open spec fn message_spec(words: Seq<Seq<char>>) -> Seq<char> {
    if words.len() == 1 {
        "misspelled word: "@ + joined(words)
    } else {
        "misspelled words: "@ + joined(words)
    }
}

/// The text with which a failure to load the word lists is reported.
pub open spec fn failure_spec(error: Seq<char>) -> Seq<char> {
    "failed to start misspelling lint: "@ + error
}

/// Every word found in one of the word lists `texts`.
pub open spec fn listed_words(texts: Seq<String>) -> Set<Seq<char>> {
    Set::new(
        |w: Seq<char>| exists|k: int| 0 <= k < texts.len() && #[trigger] word_list(texts[k]@).contains(w),
    )
}

/// Every word that whitespace sets apart in one of `texts`.
pub open spec fn extra_words(texts: Seq<String>) -> Set<Seq<char>> {
    Set::new(
        |w: Seq<char>| exists|k: int| 0 <= k < texts.len() && #[trigger] tokens(texts[k]@).contains(w),
    )
}

/// `lints` warns of `m`: in ascending order of position, one warning for
/// each position of `m`, naming the words that `m` has there.
pub open spec fn is_lint_report(lints: Seq<Lint>, m: Map<Position, Seq<Seq<char>>>) -> bool {
    &&& forall|i: int, j: int|
        0 <= i < j < lints.len() ==> (#[trigger] lints[i]).position.precedes(
            (#[trigger] lints[j]).position,
        )
    &&& forall|i: int|
        0 <= i < lints.len() ==> m.contains_key((#[trigger] lints[i]).position)
            && lints[i].message@ == message_spec(m[lints[i].position])
    &&& forall|p: Position|
        m.contains_key(p) ==> exists|i: int| 0 <= i < lints.len() && (#[trigger] lints[i]).position == p
}

/// Writes the warning for the misspelled words `words`.
pub fn message(words: &Vec<String>) -> (r: String)
    ensures
        r@ == message_spec(words_view(words@)),
{
    let ghost all = words_view(words@);
    let n = words.len();
    let mut out = if n == 1 {
        String::from_str("misspelled word: ")
    } else {
        String::from_str("misspelled words: ")
    };
    let ghost head = out@;
    let mut i: usize = 0;
    assert(head + joined(all.take(0)) =~= head);
    while i < n
        invariant
            n == words.len(),
            i <= n,
            all == words_view(words@),
            out@ == head + joined(all.take(i as int)),
        decreases n - i,
    {
        let ghost before = joined(all.take(i as int));
        if i > 0 {
            out.append(", ");
        }
        out.append(words[i].as_str());
        proof {
            assert(all.take(i + 1).drop_last() =~= all.take(i as int));
            assert(all.take(i + 1).last() == words[i as int]@);
            if i > 0 {
                assert(head + before + ", "@ + words[i as int]@ =~= head + (before + ", "@
                    + words[i as int]@));
            } else {
                assert(before =~= Seq::<char>::empty());
                assert(head + before + words[i as int]@ =~= head + words[i as int]@);
            }
        }
        i += 1;
    }
    assert(all.take(n as int) =~= all);
    out
}

/// The reference words of the lint, or the reason why they could not be
/// loaded.
pub struct Misspellings {
    words: Dictionary,
    loading_error: Option<String>,
}

impl Misspellings {
    /// The reference words.
    pub closed spec fn dict(&self) -> &Dictionary {
        &self.words
    }

    /// Why the word lists could not be loaded, if they could not.
    pub closed spec fn loading_error(&self) -> Option<Seq<char>> {
        match self.loading_error {
            Some(e) => Some(e@),
            None => None,
        }
    }

    /// Builds the lint from the word lists that were read, or from the
    /// reason why they could not be read.
    pub fn load(lists: Result<Vec<String>, String>, stemming: bool) -> (r: Misspellings)
        ensures
            r.dict().stemming() == stemming,
            match lists {
                Ok(texts) => r.loading_error() is None && r.dict().words() == listed_words(texts@),
                Err(e) => r.loading_error() == Some(e@) && r.dict().words() == Set::<
                    Seq<char>,
                >::empty(),
            },
    {
        let mut words = Dictionary::new(stemming);
        match lists {
            Err(e) => Misspellings { words, loading_error: Some(e) },
            Ok(texts) => {
                let n = texts.len();
                let mut i: usize = 0;
                assert(words.words() =~= listed_words(texts@.take(0)));
                while i < n
                    invariant
                        n == texts.len(),
                        i <= n,
                        words.stemming() == stemming,
                        words.words() == listed_words(texts@.take(i as int)),
                    decreases n - i,
                {
                    let ghost before = texts@.take(i as int);
                    let ghost after = texts@.take(i + 1);
                    words.add_word_list(texts[i].as_str());
                    proof {
                        assert forall|w: Seq<char>| listed_words(after).contains(w) <==> (
                        listed_words(before).contains(w) || word_list(texts[i as int]@).contains(
                            w,
                        )) by {
                            if listed_words(before).contains(w) {
                                let k = choose|k: int|
                                    0 <= k < before.len() && #[trigger] word_list(
                                        before[k]@,
                                    ).contains(w);
                                assert(after[k] == before[k]);
                            }
                            if word_list(texts[i as int]@).contains(w) {
                                assert(after[i as int] == texts[i as int]);
                            }
                            if listed_words(after).contains(w) {
                                let k = choose|k: int|
                                    0 <= k < after.len() && #[trigger] word_list(
                                        after[k]@,
                                    ).contains(w);
                                if k < i {
                                    assert(before[k] == after[k]);
                                }
                            }
                        }
                        assert(words.words() =~= listed_words(after));
                    }
                    i += 1;
                }
                assert(texts@.take(n as int) =~= texts@);
                Misspellings { words, loading_error: None }
            },
        }
    }

    /// Adds to the reference words every word that whitespace sets apart
    /// in one of `texts`.
    pub fn add_extra_words(&mut self, texts: &Vec<String>)
        ensures
            final(self).loading_error() == old(self).loading_error(),
            final(self).dict().stemming() == old(self).dict().stemming(),
            final(self).dict().words() == old(self).dict().words().union(extra_words(texts@)),
    {
        let n = texts.len();
        let mut i: usize = 0;
        assert(self.words.words() =~= old(self).words.words().union(extra_words(texts@.take(0))));
        while i < n
            invariant
                n == texts.len(),
                i <= n,
                self.loading_error() == old(self).loading_error(),
                self.words.stemming() == old(self).words.stemming(),
                self.words.words() == old(self).words.words().union(
                    extra_words(texts@.take(i as int)),
                ),
            decreases n - i,
        {
            let ghost before = texts@.take(i as int);
            let ghost after = texts@.take(i + 1);
            self.words.add_words(texts[i].as_str());
            proof {
                assert forall|w: Seq<char>| extra_words(after).contains(w) <==> (extra_words(
                    before,
                ).contains(w) || tokens(texts[i as int]@).contains(w)) by {
                    if extra_words(before).contains(w) {
                        let k = choose|k: int|
                            0 <= k < before.len() && #[trigger] tokens(before[k]@).contains(w);
                        assert(after[k] == before[k]);
                    }
                    if tokens(texts[i as int]@).contains(w) {
                        assert(after[i as int] == texts[i as int]);
                    }
                    if extra_words(after).contains(w) {
                        let k = choose|k: int|
                            0 <= k < after.len() && #[trigger] tokens(after[k]@).contains(w);
                        if k < i {
                            assert(before[k] == after[k]);
                        }
                    }
                }
                assert(self.words.words() =~= old(self).words.words().union(extra_words(after)));
            }
            i += 1;
        }
        assert(texts@.take(n as int) =~= texts@);
    }

    /// Checks the tree `krate`. Where the word lists could not be loaded,
    /// nothing is checked and the failure is reported. Else the words of
    /// `extra` join the reference words, each node goes by its own export
    /// status, and each position with misspelled words gives one warning.
    pub fn check_crate(&mut self, krate: &Node, extra: &Vec<String>, exported: &ExportedItems) -> (r:
        Result<Vec<Lint>, String>)
        ensures
            final(self).loading_error() == old(self).loading_error(),
            final(self).dict().stemming() == old(self).dict().stemming(),
            match r {
                Err(e) => {
                    &&& old(self).loading_error() is Some
                    &&& e@ == failure_spec(old(self).loading_error()->0)
                    &&& final(self).dict().words() == old(self).dict().words()
                },
                Ok(lints) => {
                    &&& old(self).loading_error() is None
                    &&& final(self).dict().words() == old(self).dict().words().union(
                        extra_words(extra@),
                    )
                    &&& is_lint_report(
                        lints@,
                        gather(
                            Map::<Position, Seq<Seq<char>>>::empty(),
                            node_findings(
                                final(self).dict(),
                                exported@,
                                VisibilityRule::Own,
                                krate,
                                Mode::Normal,
                                true,
                            ),
                        ),
                    )
                },
            },
    {
        match &self.loading_error {
            Some(e) => {
                let mut text = String::from_str("failed to start misspelling lint: ");
                text.append(e.as_str());
                return Err(text);
            },
            None => {},
        }
        self.add_extra_words(extra);
        let entries = analyze(krate, &self.words, exported, VisibilityRule::Own).into_sorted_vec();
        let ghost m = gather(
            Map::<Position, Seq<Seq<char>>>::empty(),
            node_findings(&self.words, exported@, VisibilityRule::Own, krate, Mode::Normal, true),
        );
        let mut lints: Vec<Lint> = Vec::new();
        let n = entries.len();
        let mut i: usize = 0;
        while i < n
            invariant
                n == entries.len(),
                i <= n,
                lints.len() == i,
                forall|k: int|
                    0 <= k < i ==> (#[trigger] lints[k]).position == entries[k].position
                        && lints[k].message@ == message_spec(words_view(entries[k].words@)),
            decreases n - i,
        {
            let text = message(&entries[i].words);
            lints.push(Lint { position: entries[i].position, message: text });
            i += 1;
        }
        proof {
            lemma_lint_report(lints@, entries@, m);
        }
        Ok(lints)
    }
}

proof fn lemma_lint_report(lints: Seq<Lint>, entries: Seq<Entry>, m: Map<Position, Seq<Seq<char>>>)
    requires
        is_report_of(entries, m),
        lints.len() == entries.len(),
        forall|k: int|
            0 <= k < lints.len() ==> (#[trigger] lints[k]).position == entries[k].position
                && lints[k].message@ == message_spec(words_view(entries[k].words@)),
    ensures
        is_lint_report(lints, m),
{
    assert forall|i: int, j: int| 0 <= i < j < lints.len() implies (#[trigger] lints[i]).position.precedes(
        (#[trigger] lints[j]).position,
    ) by {
        assert(entries[i].position.precedes(entries[j].position));
    }
    assert forall|i: int| 0 <= i < lints.len() implies m.contains_key(
        (#[trigger] lints[i]).position,
    ) && lints[i].message@ == message_spec(m[lints[i].position]) by {
        assert(m.contains_key(entries[i].position));
    }
    assert forall|p: Position| m.contains_key(p) implies exists|i: int|
        0 <= i < lints.len() && (#[trigger] lints[i]).position == p by {
        assert(has_position(entries, p));
        let k = choose|k: int| 0 <= k < entries.len() && (#[trigger] entries[k]).position == p;
        assert(lints[k].position == p);
    }
}

} // verus!
