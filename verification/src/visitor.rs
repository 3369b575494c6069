//! The walk over a declaration tree that records misspelled sub-words.

use crate::dictionary::{ascii_lower, Dictionary};
use crate::policy::{
    decide, decide_spec, effective_status, effective_status_spec, is_container, Mode,
    VisibilityRule,
};
use crate::position::Position;
use crate::record::{append_at, MisspellingRecord};
use crate::tree::{DocAttr, ExportedItems, Node};
use crate::words::{all_alphabetic, strs_view, subwords, subwords_spec};
use vstd::prelude::*;
use vstd::string::StrSliceExecFns;

verus! {

/// The words found at one position, in order.
pub type Finding = (Position, Seq<Seq<char>>);

/// The test that picks the words that `dict` does not know.
pub open spec fn unknown_to(dict: &Dictionary) -> spec_fn(Seq<char>) -> bool {
    |w: Seq<char>| !dict.knows(w)
}

/// The sub-words of `text` that `dict` does not know, in order.
pub open spec fn misspelled(dict: &Dictionary, text: Seq<char>) -> Seq<Seq<char>> {
    subwords_spec(text).filter(unknown_to(dict))
}

/// What a check of `text` finds: nothing where the text as a whole is
/// known, else its misspelled sub-words.
pub open spec fn check_spec(dict: &Dictionary, text: Seq<char>) -> Seq<Seq<char>> {
    if dict.knows(text) {
        Seq::empty()
    } else {
        misspelled(dict, text)
    }
}

/// The name begins with two underscores, as reserved names do.
pub open spec fn is_reserved(name: Seq<char>) -> bool {
    name.len() >= 2 && name[0] == '_' && name[1] == '_'
}

/// What a check of the name `name` finds: nothing for a reserved name.
pub open spec fn ident_spec(dict: &Dictionary, name: Seq<char>) -> Seq<Seq<char>> {
    if is_reserved(name) {
        Seq::empty()
    } else {
        check_spec(dict, name)
    }
}

/// What the documentation strings `docs` of node `id` give, one finding for
/// each string.
pub open spec fn docs_findings(dict: &Dictionary, docs: Seq<DocAttr>, id: u32) -> Seq<Finding> {
    Seq::new(
        docs.len(),
        |i: int| (Position { span: docs[i].span, id }, check_spec(dict, docs[i].text@)),
    )
}

/// What the walk finds at `node` and below it, in the order of the walk:
/// the node's name, its documentation, then its children from first to
/// last. `mode` is the mode in which the node is reached and `container`
/// the status by which its parent was treated.
pub open spec fn node_findings(
    dict: &Dictionary,
    exported: Set<u32>,
    rule: VisibilityRule,
    node: &Node,
    mode: Mode,
    container: bool,
) -> Seq<Finding>
    decreases node, node.children.len() + 1,
{
    let status = effective_status_spec(rule, node.kind, exported.contains(node.id), container);
    let d = decide_spec(node.kind, status, mode);
    let of_name = if d.check_name {
        seq![(Position { span: node.span, id: node.id }, ident_spec(dict, node.name@))]
    } else {
        Seq::empty()
    };
    let of_docs = if d.check_docs {
        docs_findings(dict, node.docs@, node.id)
    } else {
        Seq::empty()
    };
    let below = if d.recurse {
        children_findings(
            dict,
            exported,
            rule,
            node,
            node.children.len() as int,
            d.child_mode,
            status,
        )
    } else {
        Seq::empty()
    };
    of_name + of_docs + below
}

/// What the walk finds at the first `n` children of `node` and below them.
pub open spec fn children_findings(
    dict: &Dictionary,
    exported: Set<u32>,
    rule: VisibilityRule,
    node: &Node,
    n: int,
    mode: Mode,
    container: bool,
) -> Seq<Finding>
    decreases node, n,
{
    if n <= 0 || n > node.children.len() {
        Seq::empty()
    } else {
        children_findings(dict, exported, rule, node, n - 1, mode, container) + node_findings(
            dict,
            exported,
            rule,
            &node.children[n - 1],
            mode,
            container,
        )
    }
}

/// The record `m` after the findings `f` were made, in this order.
pub open spec fn gather(m: Map<Position, Seq<Seq<char>>>, f: Seq<Finding>) -> Map<
    Position,
    Seq<Seq<char>>,
>
    decreases f.len(),
{
    if f.len() == 0 {
        m
    } else {
        append_at(gather(m, f.drop_last()), f.last().0, f.last().1)
    }
}

/// Findings made one after the other are gathered as one list.
pub proof fn lemma_gather_concat(m: Map<Position, Seq<Seq<char>>>, a: Seq<Finding>, b: Seq<Finding>)
    ensures
        gather(m, a + b) == gather(gather(m, a), b),
    decreases b.len(),
{
    if b.len() == 0 {
        assert(a + b =~= a);
    } else {
        assert((a + b).drop_last() =~= a + b.drop_last());
        lemma_gather_concat(m, a, b.drop_last());
    }
}

proof fn lemma_gather_one(m: Map<Position, Seq<Seq<char>>>, pos: Position, ws: Seq<Seq<char>>)
    ensures
        gather(m, seq![(pos, ws)]) == append_at(m, pos, ws),
{
    let f = seq![(pos, ws)];
    assert(f.drop_last().len() == 0);
    assert(gather(m, f.drop_last()) == m);
}

proof fn lemma_append_twice(
    m: Map<Position, Seq<Seq<char>>>,
    pos: Position,
    a: Seq<Seq<char>>,
    b: Seq<Seq<char>>,
)
    ensures
        append_at(append_at(m, pos, a), pos, b) == append_at(m, pos, a + b),
{
    if a.len() == 0 {
        assert(a + b =~= b);
    } else if b.len() == 0 {
        assert(a + b =~= a);
    } else {
        if m.contains_key(pos) {
            assert((m[pos] + a) + b =~= m[pos] + (a + b));
        }
        assert(append_at(append_at(m, pos, a), pos, b) =~= append_at(m, pos, a + b));
    }
}

/// Checking a word that the dictionary lists records nothing, whether it is
/// checked as a text or as a name.
pub proof fn lemma_listed_word_records_nothing(
    dict: &Dictionary,
    m: Map<Position, Seq<Seq<char>>>,
    pos: Position,
    w: Seq<char>,
)
    requires
        dict.words().contains(w),
    ensures
        append_at(m, pos, check_spec(dict, w)) == m,
        append_at(m, pos, ident_spec(dict, w)) == m,
{
}

/// Checking a word of letters whose lower-case form the dictionary lists
/// records nothing.
pub proof fn lemma_case_folded_word_records_nothing(
    dict: &Dictionary,
    m: Map<Position, Seq<Seq<char>>>,
    pos: Position,
    w: Seq<char>,
)
    requires
        all_alphabetic(w),
        dict.words().contains(ascii_lower(w)),
    ensures
        append_at(m, pos, check_spec(dict, w)) == m,
        append_at(m, pos, ident_spec(dict, w)) == m,
{
}

/// `w` with a first letter from `a` to `z` replaced by its capital.
pub open spec fn capitalized(w: Seq<char>) -> Seq<char> {
    if w.len() > 0 && 'a' <= w[0] && w[0] <= 'z' {
        w.update(0, ((w[0] as u32) - 32) as char)
    } else {
        w
    }
}

/// Checking a listed word with its first letter capitalized records
/// nothing, where the word holds no capital from `A` to `Z` and the
/// capitalized word holds letters only.
pub proof fn lemma_capitalized_word_records_nothing(
    dict: &Dictionary,
    m: Map<Position, Seq<Seq<char>>>,
    pos: Position,
    w: Seq<char>,
)
    requires
        dict.words().contains(w),
        forall|k: int| 0 <= k < w.len() ==> !('A' <= #[trigger] w[k] && w[k] <= 'Z'),
        all_alphabetic(capitalized(w)),
    ensures
        append_at(m, pos, check_spec(dict, capitalized(w))) == m,
        append_at(m, pos, ident_spec(dict, capitalized(w))) == m,
{
    assert(ascii_lower(capitalized(w)) =~= w);
}

/// A name that begins with two underscores records nothing, whatever the
/// dictionary holds.
pub proof fn lemma_reserved_name_records_nothing(
    dict: &Dictionary,
    m: Map<Position, Seq<Seq<char>>>,
    pos: Position,
    name: Seq<char>,
)
    requires
        is_reserved(name),
    ensures
        append_at(m, pos, ident_spec(dict, name)) == m,
{
}

/// A node that is not treated as exported and is not entered gives no
/// finding: neither its name, nor its documentation, nor anything below
/// it.
pub proof fn lemma_unexported_leaf_finds_nothing(
    dict: &Dictionary,
    exported: Set<u32>,
    rule: VisibilityRule,
    node: &Node,
    mode: Mode,
    container: bool,
)
    requires
        !effective_status_spec(rule, node.kind, exported.contains(node.id), container),
        !is_container(node.kind),
    ensures
        node_findings(dict, exported, rule, node, mode, container) == Seq::<Finding>::empty(),
{
    assert(node_findings(dict, exported, rule, node, mode, container) =~= Seq::<Finding>::empty());
}

/// A member of an implementation block that is reached in
/// documentation-only mode gives the findings of its documentation and no
/// other, where it is treated as exported.
pub proof fn lemma_doc_only_member_finds_docs_only(
    dict: &Dictionary,
    exported: Set<u32>,
    rule: VisibilityRule,
    node: &Node,
    container: bool,
)
    requires
        node.kind is ImplMember,
        effective_status_spec(rule, node.kind, exported.contains(node.id), container),
    ensures
        node_findings(dict, exported, rule, node, Mode::DocOnly, container) == docs_findings(
            dict,
            node.docs@,
            node.id,
        ),
{
    assert(node_findings(dict, exported, rule, node, Mode::DocOnly, container) =~= docs_findings(
        dict,
        node.docs@,
        node.id,
    ));
}

/// With an empty dictionary every sub-word of a text is recorded.
pub proof fn lemma_empty_dictionary_flags_everything(dict: &Dictionary, text: Seq<char>)
    requires
        dict.words() == Set::<Seq<char>>::empty(),
    ensures
        misspelled(dict, text) == subwords_spec(text),
{
    lemma_filter_all(subwords_spec(text), unknown_to(dict));
}

proof fn lemma_filter_all(s: Seq<Seq<char>>, keep: spec_fn(Seq<char>) -> bool)
    requires
        forall|i: int| 0 <= i < s.len() ==> keep(#[trigger] s[i]),
    ensures
        s.filter(keep) == s,
    decreases s.len(),
{
    reveal(Seq::filter);
    if s.len() > 0 {
        lemma_filter_all(s.drop_last(), keep);
        assert(s.drop_last().push(s.last()) =~= s);
    }
}

/// Keeps the reference dictionary, the set of exported nodes and the
/// misspelled words through a walk over a declaration tree.
pub struct SpellingVisitor<'a> {
    words: &'a Dictionary,
    exported: &'a ExportedItems,
    rule: VisibilityRule,
    misspellings: MisspellingRecord,
}

impl<'a> SpellingVisitor<'a> {
    /// The reference dictionary.
    pub closed spec fn dict(&self) -> &Dictionary {
        self.words
    }

    /// The identifiers of the exported nodes.
    pub closed spec fn exported(&self) -> Set<u32> {
        self.exported@
    }

    /// How the status of fields, variants and members is taken.
    pub closed spec fn rule(&self) -> VisibilityRule {
        self.rule
    }

    /// The misspelled words found so far, by position.
    pub closed spec fn found(&self) -> Map<Position, Seq<Seq<char>>> {
        self.misspellings@
    }

    /// The record of misspelled words is in order.
    pub closed spec fn wf(&self) -> bool {
        self.misspellings.wf()
    }

    /// The same dictionary, exported nodes and rule as `other`.
    pub open spec fn same_setup(&self, other: &Self) -> bool {
        &&& self.dict() == other.dict()
        &&& self.exported() == other.exported()
        &&& self.rule() == other.rule()
    }

    /// A visitor with an empty record, in which each node goes by its own
    /// export status.
    pub fn new(words: &'a Dictionary, exported: &'a ExportedItems) -> (v: SpellingVisitor<'a>)
        ensures
            v.dict() == words,
            v.exported() == exported@,
            v.rule() == VisibilityRule::Own,
            v.wf(),
            v.found() == Map::<Position, Seq<Seq<char>>>::empty(),
    {
        SpellingVisitor {
            words,
            exported,
            rule: VisibilityRule::Own,
            misspellings: MisspellingRecord::new(),
        }
    }

    /// The same visitor, taking the status of fields, variants and members
    /// by `rule`.
    pub fn with_rule(self, rule: VisibilityRule) -> (v: SpellingVisitor<'a>)
        ensures
            v.dict() == self.dict(),
            v.exported() == self.exported(),
            v.rule() == rule,
            v.found() == self.found(),
            v.wf() == self.wf(),
    {
        SpellingVisitor {
            words: self.words,
            exported: self.exported,
            rule,
            misspellings: self.misspellings,
        }
    }

    /// The misspelled words found so far.
    pub fn misspellings(&self) -> (r: &MisspellingRecord)
        ensures
            r@ == self.found(),
            r.wf() == self.wf(),
    {
        &self.misspellings
    }

    /// Ends the walk and hands out what was found.
    pub fn into_misspellings(self) -> (r: MisspellingRecord)
        ensures
            r@ == self.found(),
            r.wf() == self.wf(),
    {
        self.misspellings
    }

    /// Forgets what was found, so that the visitor can walk another tree.
    pub fn clear(&mut self)
        ensures
            final(self).wf(),
            final(self).same_setup(old(self)),
            final(self).found() == Map::<Position, Seq<Seq<char>>>::empty(),
    {
        self.misspellings.clear();
    }

    /// Splits `w` into sub-words, records at `pos` each one that the
    /// dictionary does not know, and hands those out.
    pub fn check_subwords<'b>(&mut self, w: &'b str, pos: Position) -> (bad_words: Vec<&'b str>)
        requires
            old(self).wf(),
        ensures
            final(self).wf(),
            final(self).same_setup(old(self)),
            strs_view(bad_words@) == misspelled(old(self).dict(), w@),
            final(self).found() == append_at(
                old(self).found(),
                pos,
                misspelled(old(self).dict(), w@),
            ),
    {
        let mut bad_words: Vec<&'b str> = Vec::new();
        let ghost all = subwords_spec(w@);
        let ghost start = self.misspellings@;
        let ghost bad = unknown_to(self.words);
        let ghost mut done: int = 0;
        let mut it = subwords(w);
        proof {
            reveal(Seq::filter);
            assert(all.take(0).filter(bad) =~= Seq::<Seq<char>>::empty());
            assert(all.skip(0) =~= all);
            assert(strs_view(bad_words@) =~= Seq::<Seq<char>>::empty());
        }
        loop
            invariant
                it.wf(),
                0 <= done <= all.len(),
                it.remaining() == all.skip(done),
                self.misspellings.wf(),
                self.same_setup(old(self)),
                bad == unknown_to(self.words),
                strs_view(bad_words@) == all.take(done).filter(bad),
                self.misspellings@ == append_at(start, pos, all.take(done).filter(bad)),
            ensures
                done == all.len(),
            decreases all.len() - done,
        {
            let ghost before = all.take(done).filter(bad);
            match it.next() {
                None => {
                    break ;
                },
                Some(word) => {
                    proof {
                        reveal(Seq::filter);
                        assert(word@ == all[done]);
                        assert(all.take(done + 1).drop_last() =~= all.take(done));
                        assert(all.take(done + 1).last() == all[done]);
                        assert(all.skip(done).drop_first() =~= all.skip(done + 1));
                    }
                    if !self.words.raw_word_is_correct(word) {
                        let owned = word.to_owned();
                        self.misspellings.push(pos, owned);
                        bad_words.push(word);
                        proof {
                            lemma_append_twice(start, pos, before, seq![word@]);
                            assert(before + seq![word@] =~= before.push(word@));
                            assert(strs_view(bad_words@) =~= before.push(word@));
                        }
                    }
                    proof {
                        done = done + 1;
                    }
                },
            }
        }
        assert(all.take(done) =~= all);
        bad_words
    }

    /// Checks `candidate` at `pos`: records nothing where it is known as a
    /// whole, else each of its sub-words that is not known. Hands out what
    /// it recorded.
    pub fn check<'b>(&mut self, candidate: &'b str, pos: Position) -> (bad_words: Vec<&'b str>)
        requires
            old(self).wf(),
        ensures
            final(self).wf(),
            final(self).same_setup(old(self)),
            strs_view(bad_words@) == check_spec(old(self).dict(), candidate@),
            final(self).found() == append_at(
                old(self).found(),
                pos,
                check_spec(old(self).dict(), candidate@),
            ),
    {
        if self.words.raw_word_is_correct(candidate) {
            let nothing: Vec<&'b str> = Vec::new();
            assert(strs_view(nothing@) =~= Seq::<Seq<char>>::empty());
            return nothing;
        }
        self.check_subwords(candidate, pos)
    }

    /// Checks the name `ident` at `pos`, and hands out what it recorded. A
    /// name that begins with two underscores is reserved and never
    /// recorded.
    pub fn check_ident<'b>(&mut self, ident: &'b str, pos: Position) -> (bad_words: Vec<&'b str>)
        requires
            old(self).wf(),
        ensures
            final(self).wf(),
            final(self).same_setup(old(self)),
            strs_view(bad_words@) == ident_spec(old(self).dict(), ident@),
            final(self).found() == append_at(
                old(self).found(),
                pos,
                ident_spec(old(self).dict(), ident@),
            ),
    {
        if ident.unicode_len() >= 2 && ident.get_char(0) == '_' && ident.get_char(1) == '_' {
            let nothing: Vec<&'b str> = Vec::new();
            assert(strs_view(nothing@) =~= Seq::<Seq<char>>::empty());
            return nothing;
        }
        self.check(ident, pos)
    }

    /// Checks each documentation string of node `id`, at the string's own
    /// span.
    pub fn check_doc_attrs(&mut self, attrs: &Vec<DocAttr>, id: u32)
        requires
            old(self).wf(),
        ensures
            final(self).wf(),
            final(self).same_setup(old(self)),
            final(self).found() == gather(
                old(self).found(),
                docs_findings(old(self).dict(), attrs@, id),
            ),
    {
        let ghost all = docs_findings(self.words, attrs@, id);
        let ghost start = self.misspellings@;
        let n = attrs.len();
        let mut i: usize = 0;
        while i < n
            invariant
                n == attrs.len(),
                i <= n,
                all == docs_findings(self.words, attrs@, id),
                self.misspellings.wf(),
                self.same_setup(old(self)),
                self.misspellings@ == gather(start, all.take(i as int)),
            decreases n - i,
        {
            let attr = &attrs[i];
            let _ = self.check(attr.text.as_str(), Position::new(attr.span, id));
            proof {
                assert(all.take(i + 1).drop_last() =~= all.take(i as int));
                assert(all.take(i + 1).last() == all[i as int]);
            }
            i += 1;
        }
        assert(all.take(n as int) =~= all);
    }

    /// Walks `node` and what lies below it, and records what is found.
    /// `mode` is the mode in which the node is reached and `container` the
    /// status by which its parent was treated.
    pub fn visit(&mut self, node: &Node, mode: Mode, container: bool)
        requires
            old(self).wf(),
        ensures
            final(self).wf(),
            final(self).same_setup(old(self)),
            final(self).found() == gather(
                old(self).found(),
                node_findings(
                    old(self).dict(),
                    old(self).exported(),
                    old(self).rule(),
                    node,
                    mode,
                    container,
                ),
            ),
        decreases node,
    {
        let ghost start = self.misspellings@;
        let ghost dict = self.words;
        let ghost exported = self.exported@;
        let ghost rule = self.rule;
        let status = effective_status(
            self.rule,
            node.kind,
            self.exported.contains(node.id),
            container,
        );
        let d = decide(node.kind, status, mode);
        let ghost of_name = if d.check_name {
            seq![(Position { span: node.span, id: node.id }, ident_spec(dict, node.name@))]
        } else {
            Seq::<Finding>::empty()
        };
        let ghost of_docs = if d.check_docs {
            docs_findings(dict, node.docs@, node.id)
        } else {
            Seq::<Finding>::empty()
        };
        if d.check_name {
            let _ = self.check_ident(node.name.as_str(), Position::new(node.span, node.id));
            proof {
                lemma_gather_one(start, Position { span: node.span, id: node.id }, ident_spec(dict, node.name@));
            }
        }
        assert(self.misspellings@ == gather(start, of_name));
        if d.check_docs {
            self.check_doc_attrs(&node.docs, node.id);
        }
        proof {
            lemma_gather_concat(start, of_name, of_docs);
        }
        assert(self.misspellings@ == gather(start, of_name + of_docs));
        let ghost own = of_name + of_docs;
        if d.recurse {
            let n = node.children.len();
            let mut i: usize = 0;
            proof {
                assert(own + children_findings(dict, exported, rule, node, 0, d.child_mode, status) =~= own);
            }
            while i < n
                invariant
                    n == node.children.len(),
                    i <= n,
                    self.wf(),
                    self.same_setup(old(self)),
                    dict == self.words,
                    exported == self.exported@,
                    rule == self.rule,
                    self.misspellings@ == gather(
                        start,
                        own + children_findings(
                            dict,
                            exported,
                            rule,
                            node,
                            i as int,
                            d.child_mode,
                            status,
                        ),
                    ),
                decreases n - i,
            {
                let ghost so_far = own + children_findings(
                    dict,
                    exported,
                    rule,
                    node,
                    i as int,
                    d.child_mode,
                    status,
                );
                let ghost next = node_findings(
                    dict,
                    exported,
                    rule,
                    &node.children[i as int],
                    d.child_mode,
                    status,
                );
                self.visit(&node.children[i], d.child_mode, status);
                proof {
                    lemma_gather_concat(start, so_far, next);
                    assert(so_far + next =~= own + children_findings(
                        dict,
                        exported,
                        rule,
                        node,
                        i + 1,
                        d.child_mode,
                        status,
                    ));
                }
                i += 1;
            }
        } else {
            assert(own + Seq::<Finding>::empty() =~= own);
        }
    }

    /// Checks a whole tree from its root: the root is reached in normal
    /// mode and counts as standing in an exported container.
    pub fn check_crate(&mut self, krate: &Node)
        requires
            old(self).wf(),
        ensures
            final(self).wf(),
            final(self).same_setup(old(self)),
            final(self).found() == gather(
                old(self).found(),
                node_findings(
                    old(self).dict(),
                    old(self).exported(),
                    old(self).rule(),
                    krate,
                    Mode::Normal,
                    true,
                ),
            ),
    {
        self.visit(krate, Mode::Normal, true)
    }
}

/// Checks the tree `tree` against `dictionary` from an empty record, and
/// hands out what was found.
pub fn analyze(
    tree: &Node,
    dictionary: &Dictionary,
    exported: &ExportedItems,
    rule: VisibilityRule,
) -> (r: MisspellingRecord)
    ensures
        r.wf(),
        r@ == gather(
            Map::<Position, Seq<Seq<char>>>::empty(),
            node_findings(dictionary, exported@, rule, tree, Mode::Normal, true),
        ),
{
    let mut visitor = SpellingVisitor::new(dictionary, exported).with_rule(rule);
    visitor.check_crate(tree);
    visitor.into_misspellings()
}

} // verus!
