use spellck::policy::{decide, effective_status, Decision, Mode, VisibilityRule};
use spellck::tree::NodeKind;

const ALL: [NodeKind; 15] = [
    NodeKind::CrateRoot,
    NodeKind::Module,
    NodeKind::ForeignBlock,
    NodeKind::ForeignItem,
    NodeKind::Struct,
    NodeKind::Enum,
    NodeKind::Variant,
    NodeKind::Field,
    NodeKind::Function,
    NodeKind::Trait,
    NodeKind::RequiredMember,
    NodeKind::ProvidedMember,
    NodeKind::InherentImpl,
    NodeKind::TraitImpl,
    NodeKind::ImplMember,
];

#[test]
fn the_root_is_entered_and_its_docs_checked_whatever_its_status() {
    for exported in [false, true] {
        assert_eq!(
            decide(NodeKind::CrateRoot, exported, Mode::Normal),
            Decision { check_name: false, check_docs: true, recurse: true, child_mode: Mode::Normal }
        );
    }
}

#[test]
fn unexported_nodes_are_never_checked() {
    for kind in ALL {
        for mode in [Mode::Normal, Mode::DocOnly] {
            let d = decide(kind, false, mode);
            assert!(!d.check_name);
            assert_eq!(d.check_docs, kind == NodeKind::CrateRoot);
        }
    }
}

#[test]
fn unexported_containers_are_still_entered() {
    for kind in [
        NodeKind::Module,
        NodeKind::ForeignBlock,
        NodeKind::Struct,
        NodeKind::Enum,
        NodeKind::InherentImpl,
        NodeKind::TraitImpl,
    ] {
        assert!(decide(kind, false, Mode::Normal).recurse);
    }
    for kind in [NodeKind::Function, NodeKind::Trait, NodeKind::RequiredMember, NodeKind::Variant] {
        assert!(!decide(kind, false, Mode::Normal).recurse);
    }
}

#[test]
fn doc_only_mode_checks_no_name() {
    for kind in ALL {
        for exported in [false, true] {
            assert!(!decide(kind, exported, Mode::DocOnly).check_name);
        }
    }
}

#[test]
fn only_a_trait_impl_switches_to_doc_only() {
    for kind in ALL {
        for mode in [Mode::Normal, Mode::DocOnly] {
            let expected = if kind == NodeKind::TraitImpl { Mode::DocOnly } else { Mode::Normal };
            assert_eq!(decide(kind, true, mode).child_mode, expected);
        }
    }
}

#[test]
fn exported_items_are_checked_by_name_and_docs() {
    assert_eq!(
        decide(NodeKind::Function, true, Mode::Normal),
        Decision { check_name: true, check_docs: true, recurse: false, child_mode: Mode::Normal }
    );
    assert_eq!(
        decide(NodeKind::Trait, true, Mode::Normal),
        Decision { check_name: true, check_docs: true, recurse: true, child_mode: Mode::Normal }
    );
    assert_eq!(
        decide(NodeKind::InherentImpl, true, Mode::Normal),
        Decision { check_name: false, check_docs: true, recurse: true, child_mode: Mode::Normal }
    );
    assert_eq!(
        decide(NodeKind::TraitImpl, true, Mode::Normal),
        Decision { check_name: false, check_docs: true, recurse: true, child_mode: Mode::DocOnly }
    );
    assert_eq!(
        decide(NodeKind::ForeignItem, true, Mode::Normal),
        Decision { check_name: false, check_docs: true, recurse: false, child_mode: Mode::Normal }
    );
    assert_eq!(
        decide(NodeKind::ProvidedMember, true, Mode::Normal),
        Decision { check_name: true, check_docs: true, recurse: false, child_mode: Mode::Normal }
    );
    assert_eq!(
        decide(NodeKind::RequiredMember, true, Mode::Normal),
        Decision { check_name: true, check_docs: true, recurse: true, child_mode: Mode::Normal }
    );
}

#[test]
fn a_members_status_can_depend_on_its_container() {
    assert!(effective_status(VisibilityRule::Own, NodeKind::Field, true, false));
    assert!(!effective_status(VisibilityRule::WithinContainer, NodeKind::Field, true, false));
    assert!(effective_status(VisibilityRule::WithinContainer, NodeKind::Field, true, true));
    assert!(effective_status(VisibilityRule::WithinContainer, NodeKind::Function, true, false));
    assert!(!effective_status(VisibilityRule::Own, NodeKind::Field, false, true));
    assert!(!effective_status(VisibilityRule::WithinContainer, NodeKind::Variant, false, true));
}
