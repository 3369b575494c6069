//! Which names and documentation strings of a declaration tree are checked.

use crate::tree::NodeKind;
use vstd::prelude::*;

verus! {

/// Whether names are checked along with documentation.
#[derive(Clone, Copy, Debug, PartialEq, Eq, Hash, Structural)]
pub enum Mode {
    /// Names and documentation are checked.
    Normal,
    /// Only documentation is checked.
    DocOnly,
}

/// How the export status of a field, a variant or a member is taken.
#[derive(Clone, Copy, Debug, PartialEq, Eq, Hash, Structural)]
pub enum VisibilityRule {
    /// By the node's own status alone.
    Own,
    /// By its own status, and only inside a container that is exported
    /// itself.
    WithinContainer,
}

/// What is done at one node.
#[derive(Clone, Copy, Debug, PartialEq, Eq, Hash, Structural)]
pub struct Decision {
    pub check_name: bool,
    pub check_docs: bool,
    pub recurse: bool,
    pub child_mode: Mode,
}

/// The nodes whose name the author chose. The root and implementation
/// blocks have none; a foreign item's name is given from outside.
pub open spec fn has_own_name(kind: NodeKind) -> bool {
    !(kind is CrateRoot || kind is InherentImpl || kind is TraitImpl || kind is ForeignItem)
}

/// The nodes that are entered whether exported or not, because what they
/// hold may be exported by itself.
pub open spec fn is_container(kind: NodeKind) -> bool {
    kind is CrateRoot || kind is Module || kind is ForeignBlock || kind is Struct || kind is Enum
        || kind is InherentImpl || kind is TraitImpl
}

/// The nodes that are entered only when exported.
pub open spec fn is_entered_when_exported(kind: NodeKind) -> bool {
    kind is Trait || kind is RequiredMember
}

/// The nodes whose status may depend on their container's.
pub open spec fn is_member(kind: NodeKind) -> bool {
    kind is Variant || kind is Field || kind is ImplMember || kind is RequiredMember
        || kind is ProvidedMember
}

/// The status by which a node is treated, from its own status `own` and the
/// status `container` by which its parent was treated.
pub open spec fn effective_status_spec(
    rule: VisibilityRule,
    kind: NodeKind,
    own: bool,
    container: bool,
) -> bool {
    own && (rule is Own || !is_member(kind) || container)
}

/// What is done at a node of kind `kind` that is treated as exported or
/// not, reached in mode `mode`.
pub open spec fn decide_spec(kind: NodeKind, exported: bool, mode: Mode) -> Decision {
    Decision {
        check_name: exported && mode is Normal && has_own_name(kind),
        check_docs: exported || kind is CrateRoot,
        recurse: is_container(kind) || (exported && is_entered_when_exported(kind)),
        child_mode: if kind is TraitImpl {
            Mode::DocOnly
        } else {
            Mode::Normal
        },
    }
}

/// In documentation-only mode no name is checked, at any node.
pub proof fn lemma_doc_only_checks_no_name(kind: NodeKind, exported: bool)
    ensures
        !decide_spec(kind, exported, Mode::DocOnly).check_name,
{
}

/// A node that is not treated as exported has neither its name nor its
/// documentation checked, unless it is the root, whose documentation
/// always is.
pub proof fn lemma_unexported_is_not_checked(kind: NodeKind, mode: Mode)
    ensures
        !decide_spec(kind, false, mode).check_name,
        !(kind is CrateRoot) ==> !decide_spec(kind, false, mode).check_docs,
{
}

/// The status by which a node is treated.
pub fn effective_status(rule: VisibilityRule, kind: NodeKind, own: bool, container: bool) -> (r:
    bool)
    ensures
        r == effective_status_spec(rule, kind, own, container),
{
    if !own {
        return false;
    }
    match rule {
        VisibilityRule::Own => true,
        VisibilityRule::WithinContainer => match kind {
            NodeKind::Variant
            | NodeKind::Field
            | NodeKind::ImplMember
            | NodeKind::RequiredMember
            | NodeKind::ProvidedMember => container,
            _ => true,
        },
    }
}

/// Decides what is done at a node.
pub fn decide(kind: NodeKind, exported: bool, mode: Mode) -> (d: Decision)
    ensures
        d == decide_spec(kind, exported, mode),
{
    let names = match mode {
        Mode::Normal => exported,
        Mode::DocOnly => false,
    };
    let normal = Mode::Normal;
    match kind {
        NodeKind::CrateRoot => Decision {
            check_name: false,
            check_docs: true,
            recurse: true,
            child_mode: normal,
        },
        NodeKind::Module | NodeKind::ForeignBlock | NodeKind::Struct | NodeKind::Enum => Decision {
            check_name: names,
            check_docs: exported,
            recurse: true,
            child_mode: normal,
        },
        NodeKind::InherentImpl => Decision {
            check_name: false,
            check_docs: exported,
            recurse: true,
            child_mode: normal,
        },
        NodeKind::TraitImpl => Decision {
            check_name: false,
            check_docs: exported,
            recurse: true,
            child_mode: Mode::DocOnly,
        },
        NodeKind::Trait | NodeKind::RequiredMember => Decision {
            check_name: names,
            check_docs: exported,
            recurse: exported,
            child_mode: normal,
        },
        NodeKind::ForeignItem => Decision {
            check_name: false,
            check_docs: exported,
            recurse: false,
            child_mode: normal,
        },
        NodeKind::Variant
        | NodeKind::Field
        | NodeKind::Function
        | NodeKind::ProvidedMember
        | NodeKind::ImplMember => Decision {
            check_name: names,
            check_docs: exported,
            recurse: false,
            child_mode: normal,
        },
    }
}

} // verus!
