//! The declaration tree that is checked, and the set of exported nodes.

use crate::position::Span;
use std::collections::HashSet;
use vstd::prelude::*;

verus! {

broadcast use vstd::std_specs::hash::group_hash_axioms;

/// What a node of the declaration tree declares.
#[derive(Clone, Copy, Debug, PartialEq, Eq, Hash, Structural)]
pub enum NodeKind {
    /// The root of the tree.
    CrateRoot,
    /// A module.
    Module,
    /// A block of declarations with foreign linkage.
    ForeignBlock,
    /// A declaration inside a foreign block.
    ForeignItem,
    /// A struct or a union; its children are its fields.
    Struct,
    /// An enum; its children are its variants.
    Enum,
    /// A variant of an enum.
    Variant,
    /// A field of a struct or a union.
    Field,
    /// A free function, or any other item that holds nothing to check
    /// below it.
    Function,
    /// A trait definition; its children are its members.
    Trait,
    /// A trait member that is only a signature.
    RequiredMember,
    /// A trait member with a default body.
    ProvidedMember,
    /// An implementation block of a type's own members.
    InherentImpl,
    /// An implementation block of a trait for a type.
    TraitImpl,
    /// A member of an implementation block.
    ImplMember,
}

/// One documentation string of a node.
#[derive(Debug)]
pub struct DocAttr {
    pub span: Span,
    pub text: String,
}

/// A node of the declaration tree, with its name as plain text.
#[derive(Debug)]
pub struct Node {
    pub kind: NodeKind,
    pub id: u32,
    pub span: Span,
    pub name: String,
    pub docs: Vec<DocAttr>,
    pub children: Vec<Node>,
}

/// The identifiers of the nodes that are visible from outside.
pub struct ExportedItems {
    ids: HashSet<u32>,
}

impl View for ExportedItems {
    type V = Set<u32>;

    closed spec fn view(&self) -> Set<u32> {
        self.ids@
    }
}

impl ExportedItems {
    /// No node is exported.
    pub fn new() -> (e: ExportedItems)
        ensures
            e@ == Set::<u32>::empty(),
    {
        ExportedItems { ids: HashSet::new() }
    }

    /// Marks node `id` as exported.
    pub fn insert(&mut self, id: u32)
        ensures
            final(self)@ == old(self)@.insert(id),
    {
        self.ids.insert(id);
    }

    /// Whether node `id` is exported.
    pub fn contains(&self, id: u32) -> (r: bool)
        ensures
            r == self@.contains(id),
    {
        self.ids.contains(&id)
    }
}

} // verus!
