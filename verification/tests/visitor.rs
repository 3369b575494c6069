use spellck::dictionary::Dictionary;
use spellck::policy::{Mode, VisibilityRule};
use spellck::position::{Position, Span};
use spellck::record::Entry;
use spellck::tree::{DocAttr, ExportedItems, Node, NodeKind};
use spellck::visitor::{analyze, SpellingVisitor};

fn dict(words: &[&str]) -> Dictionary {
    let mut d = Dictionary::new(false);
    for w in words {
        d.insert(w.to_string());
    }
    d
}

fn exported(ids: &[u32]) -> ExportedItems {
    let mut e = ExportedItems::new();
    for id in ids {
        e.insert(*id);
    }
    e
}

fn pos(lo: u32, hi: u32, id: u32) -> Position {
    Position::new(Span { lo, hi }, id)
}

fn doc(lo: u32, hi: u32, text: &str) -> DocAttr {
    DocAttr { span: Span { lo, hi }, text: text.to_string() }
}

fn node(kind: NodeKind, id: u32, name: &str, docs: Vec<DocAttr>, children: Vec<Node>) -> Node {
    Node {
        kind,
        id,
        span: Span { lo: id * 100, hi: id * 100 + 50 },
        name: name.to_string(),
        docs,
        children,
    }
}

fn root(children: Vec<Node>) -> Node {
    node(NodeKind::CrateRoot, 0, "", vec![], children)
}

fn found(entries: &[Entry]) -> Vec<(Position, Vec<&str>)> {
    entries
        .iter()
        .map(|e| (e.position, e.words.iter().map(|w| w.as_str()).collect()))
        .collect()
}

fn run(tree: &Node, d: &Dictionary, e: &ExportedItems) -> Vec<Entry> {
    analyze(tree, d, e, VisibilityRule::Own).into_sorted_vec()
}

#[test]
fn a_listed_word_records_nothing() {
    let d = dict(&["hello", "multi word", "snake_case", "x7"]);
    let e = exported(&[]);
    for w in ["hello", "multi word", "snake_case", "x7"] {
        let mut v = SpellingVisitor::new(&d, &e);
        v.check(w, pos(1, 2, 3));
        v.check_ident(w, pos(1, 2, 3));
        assert!(v.misspellings().is_empty());
    }
}

#[test]
fn a_capitalized_listed_word_records_nothing() {
    let d = dict(&["hello", "world"]);
    let e = exported(&[]);
    let mut v = SpellingVisitor::new(&d, &e);
    v.check("Hello", pos(1, 2, 3));
    v.check_ident("World", pos(1, 2, 3));
    v.check_ident("WORLD", pos(1, 2, 3));
    assert!(v.into_misspellings().is_empty());
}

#[test]
fn a_reserved_name_records_nothing() {
    let d = Dictionary::new(false);
    let e = exported(&[]);
    let mut v = SpellingVisitor::new(&d, &e);
    assert_eq!(v.check_ident("__reserved_x7q", pos(1, 2, 3)), Vec::<&str>::new());
    assert_eq!(v.check_ident("__", pos(1, 2, 3)), Vec::<&str>::new());
    assert!(v.misspellings().is_empty());
    assert_eq!(v.check_ident("_reserved", pos(1, 2, 3)), vec!["reserved"]);
    let out = v.into_misspellings().into_sorted_vec();
    assert_eq!(found(&out), vec![(pos(1, 2, 3), vec!["reserved"])]);
}

#[test]
fn an_empty_dictionary_flags_every_subword() {
    let d = Dictionary::new(false);
    let e = exported(&[]);
    let mut v = SpellingVisitor::new(&d, &e);
    assert_eq!(v.check("FooBar baz_qux", pos(4, 9, 1)), vec!["Foo", "Bar", "baz", "qux"]);
    let out = v.into_misspellings().into_sorted_vec();
    assert_eq!(found(&out), vec![(pos(4, 9, 1), vec!["Foo", "Bar", "baz", "qux"])]);
}

#[test]
fn only_unknown_subwords_are_recorded_in_order_with_repeats() {
    let d = dict(&["the", "of"]);
    let e = exported(&[]);
    let mut v = SpellingVisitor::new(&d, &e);
    let bad = v.check_subwords("teh name of teh Thing", pos(0, 5, 2));
    assert_eq!(bad, vec!["teh", "name", "teh", "Thing"]);
    let out = v.into_misspellings().into_sorted_vec();
    assert_eq!(found(&out), vec![(pos(0, 5, 2), vec!["teh", "name", "teh", "Thing"])]);
}

#[test]
fn a_text_known_as_a_whole_is_not_split() {
    let d = dict(&["foobar"]);
    let e = exported(&[]);
    let mut v = SpellingVisitor::new(&d, &e);
    assert_eq!(v.check("fooBar", pos(0, 5, 2)), Vec::<&str>::new());
    assert!(v.misspellings().is_empty());
    assert_eq!(v.check_subwords("fooBar", pos(0, 5, 2)), vec!["foo", "Bar"]);
    let out = v.into_misspellings().into_sorted_vec();
    assert_eq!(found(&out), vec![(pos(0, 5, 2), vec!["foo", "Bar"])]);
}

#[test]
fn a_cleared_visitor_starts_afresh() {
    let d = Dictionary::new(false);
    let e = exported(&[]);
    let mut v = SpellingVisitor::new(&d, &e);
    v.check("abc", pos(0, 5, 2));
    assert!(!v.misspellings().is_empty());
    v.clear();
    assert!(v.misspellings().is_empty());
}

#[test]
fn a_trait_impl_member_is_flagged_by_its_docs_not_its_name() {
    let d = dict(&["some", "trait"]);
    let member = node(NodeKind::ImplMember, 2, "nwe", vec![doc(7, 14, " nwe")], vec![]);
    let tree = root(vec![node(NodeKind::TraitImpl, 1, "", vec![], vec![member])]);
    let e = exported(&[1, 2]);
    assert_eq!(found(&run(&tree, &d, &e)), vec![(pos(7, 14, 2), vec!["nwe"])]);
}

#[test]
fn an_inherent_impl_member_is_flagged_by_name_and_docs() {
    let d = Dictionary::new(false);
    let member = node(NodeKind::ImplMember, 2, "nwe", vec![doc(7, 14, " nwe")], vec![]);
    let hidden = node(NodeKind::ImplMember, 3, "hiden", vec![doc(20, 24, " hiden")], vec![]);
    let tree = root(vec![node(NodeKind::InherentImpl, 1, "", vec![], vec![member, hidden])]);
    let e = exported(&[2]);
    assert_eq!(
        found(&run(&tree, &d, &e)),
        vec![(pos(7, 14, 2), vec!["nwe"]), (pos(200, 250, 2), vec!["nwe"])]
    );
}

fn module_with_function(module_id: u32, function_id: u32) -> Node {
    let f = node(NodeKind::Function, function_id, "recieve", vec![], vec![]);
    root(vec![node(NodeKind::Module, module_id, "net", vec![], vec![f])])
}

#[test]
fn a_private_function_in_a_private_module_is_not_flagged() {
    let d = dict(&["net"]);
    let tree = module_with_function(1, 2);
    assert_eq!(found(&run(&tree, &d, &exported(&[]))), vec![]);
}

#[test]
fn an_exported_function_is_flagged() {
    let d = dict(&["net"]);
    let tree = module_with_function(1, 2);
    let expected = vec![(pos(200, 250, 2), vec!["recieve"])];
    assert_eq!(found(&run(&tree, &d, &exported(&[2]))), expected);
    assert_eq!(found(&run(&tree, &d, &exported(&[1, 2]))), expected);
}

#[test]
fn a_function_goes_by_its_own_status_not_by_its_modules() {
    let d = dict(&["net"]);
    let tree = module_with_function(1, 2);
    assert_eq!(found(&run(&tree, &d, &exported(&[1]))), vec![]);
}

#[test]
fn the_roots_documentation_is_always_checked() {
    let d = Dictionary::new(false);
    let tree = node(NodeKind::CrateRoot, 0, "ignored", vec![doc(0, 9, "Teh crate")], vec![]);
    assert_eq!(found(&run(&tree, &d, &exported(&[]))), vec![(pos(0, 9, 0), vec!["Teh", "crate"])]);
}

#[test]
fn variants_and_fields_go_by_their_own_status() {
    let d = Dictionary::new(false);
    let enum_ = node(
        NodeKind::Enum,
        1,
        "Colour",
        vec![],
        vec![
            node(NodeKind::Variant, 2, "Redd", vec![], vec![]),
            node(NodeKind::Variant, 3, "Grean", vec![], vec![]),
        ],
    );
    let struct_ = node(
        NodeKind::Struct,
        4,
        "Pointt",
        vec![],
        vec![
            node(NodeKind::Field, 5, "xx", vec![doc(1, 3, "teh")], vec![]),
            node(NodeKind::Field, 6, "yy", vec![], vec![]),
        ],
    );
    let tree = root(vec![enum_, struct_]);
    let e = exported(&[1, 3, 5]);
    assert_eq!(
        found(&run(&tree, &d, &e)),
        vec![
            (pos(1, 3, 5), vec!["teh"]),
            (pos(100, 150, 1), vec!["Colour"]),
            (pos(300, 350, 3), vec!["Grean"]),
            (pos(500, 550, 5), vec!["xx"]),
        ]
    );
}

#[test]
fn members_of_an_unexported_container_can_be_left_out_by_rule() {
    let d = Dictionary::new(false);
    let struct_ = node(
        NodeKind::Struct,
        4,
        "Pointt",
        vec![],
        vec![node(NodeKind::Field, 5, "xx", vec![], vec![])],
    );
    let tree = root(vec![struct_]);
    let e = exported(&[5]);
    let own = analyze(&tree, &d, &e, VisibilityRule::Own).into_sorted_vec();
    assert_eq!(found(&own), vec![(pos(500, 550, 5), vec!["xx"])]);
    let within = analyze(&tree, &d, &e, VisibilityRule::WithinContainer).into_sorted_vec();
    assert_eq!(found(&within), vec![]);
    let both = exported(&[4, 5]);
    let within = analyze(&tree, &d, &both, VisibilityRule::WithinContainer).into_sorted_vec();
    assert_eq!(
        found(&within),
        vec![(pos(400, 450, 4), vec!["Pointt"]), (pos(500, 550, 5), vec!["xx"])]
    );
}

#[test]
fn trait_members_are_checked_only_in_an_exported_trait() {
    let d = Dictionary::new(false);
    let members = |base: u32| {
        vec![
            node(NodeKind::RequiredMember, base + 1, "requird", vec![], vec![]),
            node(NodeKind::ProvidedMember, base + 2, "providd", vec![doc(3, 4, "dokk")], vec![]),
        ]
    };
    let tree = root(vec![
        node(NodeKind::Trait, 1, "Shap", vec![], members(1)),
        node(NodeKind::Trait, 5, "Hiden", vec![], members(5)),
    ]);
    let e = exported(&[1, 2, 3, 6, 7]);
    assert_eq!(
        found(&run(&tree, &d, &e)),
        vec![
            (pos(3, 4, 3), vec!["dokk"]),
            (pos(100, 150, 1), vec!["Shap"]),
            (pos(200, 250, 2), vec!["requird"]),
            (pos(300, 350, 3), vec!["providd"]),
        ]
    );
}

#[test]
fn foreign_items_are_checked_by_docs_only() {
    let d = Dictionary::new(false);
    let item = node(NodeKind::ForeignItem, 2, "strlen", vec![doc(5, 6, "lenght")], vec![]);
    let tree = root(vec![node(NodeKind::ForeignBlock, 1, "", vec![], vec![item])]);
    assert_eq!(found(&run(&tree, &d, &exported(&[2]))), vec![(pos(5, 6, 2), vec!["lenght"])]);
    assert_eq!(found(&run(&tree, &d, &exported(&[]))), vec![]);
}

#[test]
fn nothing_below_a_function_is_entered() {
    let d = Dictionary::new(false);
    let inner = node(NodeKind::Function, 2, "innr", vec![], vec![]);
    let tree = root(vec![node(NodeKind::Function, 1, "outr", vec![], vec![inner])]);
    assert_eq!(
        found(&run(&tree, &d, &exported(&[1, 2]))),
        vec![(pos(100, 150, 1), vec!["outr"])]
    );
}

#[test]
fn visiting_in_doc_only_mode_skips_names() {
    let d = Dictionary::new(false);
    let e = exported(&[1]);
    let f = node(NodeKind::Function, 1, "recieve", vec![doc(1, 2, "recieve")], vec![]);
    let mut v = SpellingVisitor::new(&d, &e);
    v.visit(&f, Mode::DocOnly, true);
    let out = v.into_misspellings().into_sorted_vec();
    assert_eq!(found(&out), vec![(pos(1, 2, 1), vec!["recieve"])]);
}

#[test]
fn doc_strings_are_recorded_at_their_own_span() {
    let d = dict(&["a"]);
    let e = exported(&[]);
    let mut v = SpellingVisitor::new(&d, &e);
    v.check_doc_attrs(&vec![doc(9, 12, "a typpo"), doc(1, 5, "a"), doc(1, 5, "anothr")], 7);
    let out = v.into_misspellings().into_sorted_vec();
    assert_eq!(
        found(&out),
        vec![(pos(1, 5, 7), vec!["anothr"]), (pos(9, 12, 7), vec!["typpo"])]
    );
}
