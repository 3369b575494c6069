//! The misspelled sub-words found so far, kept by position.

use crate::position::Position;
use vstd::prelude::*;

verus! {

/// The misspelled sub-words found at one position, in the order in which
/// they were found.
#[derive(Debug)]
pub struct Entry {
    pub position: Position,
    pub words: Vec<String>,
}

/// The words of `v` as sequences of characters.
pub open spec fn words_view(v: Seq<String>) -> Seq<Seq<char>> {
    Seq::new(v.len(), |i: int| v[i]@)
}

/// The record `m` after the words `ws` were found, in this order, at `pos`.
/// Finding nothing leaves the record as it is.
pub open spec fn append_at(
    m: Map<Position, Seq<Seq<char>>>,
    pos: Position,
    ws: Seq<Seq<char>>,
) -> Map<Position, Seq<Seq<char>>> {
    if ws.len() == 0 {
        m
    } else if m.contains_key(pos) {
        m.insert(pos, m[pos] + ws)
    } else {
        m.insert(pos, ws)
    }
}

/// Some entry of `e` stands at `p`.
pub open spec fn has_position(e: Seq<Entry>, p: Position) -> bool {
    exists|i: int| 0 <= i < e.len() && (#[trigger] e[i]).position == p
}

/// The index of an entry of `e` that stands at `p`.
pub open spec fn index_of(e: Seq<Entry>, p: Position) -> int {
    choose|i: int| 0 <= i < e.len() && (#[trigger] e[i]).position == p
}

/// The entries as a map from position to the words found there.
pub open spec fn map_of(e: Seq<Entry>) -> Map<Position, Seq<Seq<char>>> {
    Map::new(|p: Position| has_position(e, p), |p: Position| words_view(e[index_of(e, p)].words@))
}

/// The entries ascend strictly by position.
pub open spec fn ascending(e: Seq<Entry>) -> bool {
    forall|i: int, j: int|
        0 <= i < j < e.len() ==> (#[trigger] e[i]).position.precedes((#[trigger] e[j]).position)
}

/// Every entry holds at least one word.
pub open spec fn none_empty(e: Seq<Entry>) -> bool {
    forall|i: int| 0 <= i < e.len() ==> (#[trigger] e[i]).words.len() > 0
}

/// `e` lists `m`: in ascending order of position, one entry for each
/// position of `m`, holding the words that `m` has there, at least one.
pub open spec fn is_report_of(e: Seq<Entry>, m: Map<Position, Seq<Seq<char>>>) -> bool {
    &&& ascending(e)
    &&& none_empty(e)
    &&& forall|i: int|
        0 <= i < e.len() ==> m.contains_key((#[trigger] e[i]).position) && m[e[i].position]
            == words_view(e[i].words@)
    &&& forall|p: Position| m.contains_key(p) ==> has_position(e, p)
}

proof fn lemma_index_of(e: Seq<Entry>, i: int)
    requires
        ascending(e),
        0 <= i < e.len(),
    ensures
        has_position(e, e[i].position),
        index_of(e, e[i].position) == i,
{
    let k = index_of(e, e[i].position);
    assert(has_position(e, e[i].position));
    if k < i {
        assert(e[k].position.precedes(e[i].position));
    } else if i < k {
        assert(e[i].position.precedes(e[k].position));
    }
}

proof fn lemma_report(e: Seq<Entry>)
    requires
        ascending(e),
        none_empty(e),
    ensures
        is_report_of(e, map_of(e)),
{
    assert forall|i: int| 0 <= i < e.len() implies map_of(e).contains_key(
        (#[trigger] e[i]).position,
    ) && map_of(e)[e[i].position] == words_view(e[i].words@) by {
        lemma_index_of(e, i);
    }
}

proof fn lemma_update(e: Seq<Entry>, i: int, x: Entry, w: Seq<char>)
    requires
        ascending(e),
        0 <= i < e.len(),
        x.position == e[i].position,
        words_view(x.words@) == words_view(e[i].words@).push(w),
    ensures
        ascending(e.update(i, x)),
        map_of(e.update(i, x)) == append_at(map_of(e), x.position, seq![w]),
{
    let f = e.update(i, x);
    let pos = x.position;
    assert forall|a: int, b: int| 0 <= a < b < f.len() implies (#[trigger] f[a]).position.precedes(
        (#[trigger] f[b]).position,
    ) by {
        assert(f[a].position == e[a].position);
        assert(f[b].position == e[b].position);
    }
    lemma_index_of(e, i);
    lemma_index_of(f, i);
    let target = append_at(map_of(e), pos, seq![w]);
    assert(words_view(e[i].words@) + seq![w] =~= words_view(e[i].words@).push(w));
    assert forall|p: Position| map_of(f).contains_key(p) <==> target.contains_key(p) by {
        if has_position(f, p) {
            let k = index_of(f, p);
            assert(e[k].position == p);
        }
        if has_position(e, p) {
            let k = index_of(e, p);
            assert(f[k].position == p);
        }
    }
    assert forall|p: Position| map_of(f).contains_key(p) implies map_of(f)[p] == target[p] by {
        let k = index_of(f, p);
        assert(e[k].position == p);
        lemma_index_of(e, k);
        lemma_index_of(f, k);
    }
    assert(map_of(f) =~= target);
}

proof fn lemma_insert(e: Seq<Entry>, i: int, x: Entry, w: Seq<char>)
    requires
        ascending(e),
        0 <= i <= e.len(),
        forall|k: int| 0 <= k < i ==> (#[trigger] e[k]).position.precedes(x.position),
        forall|k: int| i <= k < e.len() ==> x.position.precedes((#[trigger] e[k]).position),
        words_view(x.words@) == seq![w],
    ensures
        ascending(e.insert(i, x)),
        map_of(e.insert(i, x)) == append_at(map_of(e), x.position, seq![w]),
{
    let f = e.insert(i, x);
    let pos = x.position;
    assert forall|a: int, b: int| 0 <= a < b < f.len() implies (#[trigger] f[a]).position.precedes(
        (#[trigger] f[b]).position,
    ) by {
        if a < i {
            assert(f[a] == e[a]);
        } else if a > i {
            assert(f[a] == e[a - 1]);
        }
        if b < i {
            assert(f[b] == e[b]);
        } else if b > i {
            assert(f[b] == e[b - 1]);
        }
    }
    lemma_index_of(f, i);
    if has_position(e, pos) {
        let k = index_of(e, pos);
        assert(false);
    }
    let target = append_at(map_of(e), pos, seq![w]);
    assert forall|p: Position| map_of(f).contains_key(p) <==> target.contains_key(p) by {
        if has_position(f, p) && p != pos {
            let k = index_of(f, p);
            if k < i {
                assert(e[k].position == p);
            } else {
                assert(e[k - 1].position == p);
            }
        }
        if has_position(e, p) {
            let k = index_of(e, p);
            if k < i {
                assert(f[k].position == p);
            } else {
                assert(f[k + 1].position == p);
            }
        }
    }
    assert forall|p: Position| map_of(f).contains_key(p) implies map_of(f)[p] == target[p] by {
        let k = index_of(f, p);
        lemma_index_of(f, k);
        if k < i {
            assert(e[k] == f[k]);
            lemma_index_of(e, k);
        } else if k > i {
            assert(e[k - 1] == f[k]);
            lemma_index_of(e, k - 1);
        }
    }
    assert(map_of(f) =~= target);
}

/// The misspelled sub-words of one run over one declaration tree: for each
/// position at which any were found, the words in order of discovery, the
/// same word as often as it was found.
pub struct MisspellingRecord {
    entries: Vec<Entry>,
}

impl View for MisspellingRecord {
    type V = Map<Position, Seq<Seq<char>>>;

    closed spec fn view(&self) -> Map<Position, Seq<Seq<char>>> {
        map_of(self.entries@)
    }
}

impl MisspellingRecord {
    /// The positions are kept in ascending order, each once and with at
    /// least one word.
    pub closed spec fn wf(&self) -> bool {
        ascending(self.entries@) && none_empty(self.entries@)
    }

    /// A record with nothing in it.
    pub fn new() -> (r: MisspellingRecord)
        ensures
            r.wf(),
            r@ == Map::<Position, Seq<Seq<char>>>::empty(),
    {
        let r = MisspellingRecord { entries: Vec::new() };
        assert(r@ =~= Map::<Position, Seq<Seq<char>>>::empty());
        r
    }

    /// Forgets everything, so that the record can serve another run.
    pub fn clear(&mut self)
        ensures
            final(self).wf(),
            final(self)@ == Map::<Position, Seq<Seq<char>>>::empty(),
    {
        self.entries.clear();
        assert(self@ =~= Map::<Position, Seq<Seq<char>>>::empty());
    }

    /// Whether nothing was recorded.
    pub fn is_empty(&self) -> (r: bool)
        requires
            self.wf(),
        ensures
            r == (self@ == Map::<Position, Seq<Seq<char>>>::empty()),
    {
        proof {
            if self.entries.len() > 0 {
                lemma_index_of(self.entries@, 0);
                assert(self@.contains_key(self.entries[0].position));
            } else {
                assert(self@ =~= Map::<Position, Seq<Seq<char>>>::empty());
            }
        }
        self.entries.len() == 0
    }

    /// Records that the misspelled word `w` was found at `pos`, after the
    /// words that were found there before.
    pub fn push(&mut self, pos: Position, w: String)
        requires
            old(self).wf(),
        ensures
            final(self).wf(),
            final(self)@ == append_at(old(self)@, pos, seq![w@]),
    {
        let n = self.entries.len();
        let mut i: usize = 0;
        while i < n && self.entries[i].position < pos
            invariant
                n == self.entries.len(),
                i <= n,
                self.entries == old(self).entries,
                forall|k: int| 0 <= k < i ==> (#[trigger] self.entries[k]).position.precedes(pos),
            decreases n - i,
        {
            i += 1;
        }
        let ghost before = self.entries@;
        if i < n && self.entries[i].position == pos {
            let mut entry = self.entries.remove(i);
            let ghost found = words_view(entry.words@);
            entry.words.push(w);
            proof {
                assert(words_view(entry.words@) =~= found.push(w@));
                lemma_update(before, i as int, entry, w@);
                assert(before.remove(i as int).insert(i as int, entry) =~= before.update(
                    i as int,
                    entry,
                ));
            }
            self.entries.insert(i, entry);
        } else {
            let mut words: Vec<String> = Vec::new();
            words.push(w);
            let entry = Entry { position: pos, words };
            proof {
                assert(words_view(entry.words@) =~= seq![w@]);
                assert forall|k: int| i <= k < before.len() implies pos.precedes(
                    (#[trigger] before[k]).position,
                ) by {
                    if k > i {
                        assert(before[i as int].position.precedes(before[k].position));
                    }
                }
                lemma_insert(before, i as int, entry, w@);
            }
            self.entries.insert(i, entry);
        }
    }

    /// The record as a list: one entry for each position with misspelled
    /// words, in ascending order of position.
    pub fn into_sorted_vec(self) -> (r: Vec<Entry>)
        requires
            self.wf(),
        ensures
            is_report_of(r@, self@),
    {
        proof {
            lemma_report(self.entries@);
        }
        self.entries
    }
}

} // verus!
