//! Where a checked name or documentation string stands in the source.

use std::cmp::Ordering;
use vstd::prelude::*;

verus! {

/// A stretch of source text: the offset of its first byte and the offset
/// just past its last one.
#[derive(Clone, Copy, Debug, PartialEq, Eq, PartialOrd, Ord, Hash, Structural)]
pub struct Span {
    pub lo: u32,
    pub hi: u32,
}

/// One checkable place: a span, and the identifier of the node it belongs
/// to, which tells apart places whose spans coincide.
#[derive(Clone, Copy, Debug, PartialEq, Eq, Ord, Hash, Structural)]
pub struct Position {
    pub span: Span,
    pub id: u32,
}

impl Position {
    /// `self` comes strictly before `other`: by start, then by end, then by
    /// node identifier.
    pub open spec fn precedes(self, other: Position) -> bool {
        ||| self.span.lo < other.span.lo
        ||| (self.span.lo == other.span.lo && self.span.hi < other.span.hi)
        ||| (self.span.lo == other.span.lo && self.span.hi == other.span.hi && self.id
            < other.id)
    }

    /// The place of node `id` at `span`.
    pub fn new(span: Span, id: u32) -> (p: Position)
        ensures
            p.span == span,
            p.id == id,
    {
        Position { span, id }
    }
}

impl PartialOrd for Position {
    fn partial_cmp(&self, other: &Position) -> (r: Option<Ordering>) {
        if self.span.lo < other.span.lo {
            Some(Ordering::Less)
        } else if self.span.lo > other.span.lo {
            Some(Ordering::Greater)
        } else if self.span.hi < other.span.hi {
            Some(Ordering::Less)
        } else if self.span.hi > other.span.hi {
            Some(Ordering::Greater)
        } else if self.id < other.id {
            Some(Ordering::Less)
        } else if self.id > other.id {
            Some(Ordering::Greater)
        } else {
            Some(Ordering::Equal)
        }
    }
}

impl vstd::std_specs::cmp::PartialOrdSpecImpl for Position {
    open spec fn obeys_partial_cmp_spec() -> bool {
        true
    }

    open spec fn partial_cmp_spec(&self, other: &Position) -> Option<Ordering> {
        if self.precedes(*other) {
            Some(Ordering::Less)
        } else if other.precedes(*self) {
            Some(Ordering::Greater)
        } else {
            Some(Ordering::Equal)
        }
    }
}

/// The order of positions is total: of two different positions exactly one
/// precedes the other, and none precedes itself.
pub proof fn lemma_precedes_total(a: Position, b: Position)
    ensures
        a == b <==> !a.precedes(b) && !b.precedes(a),
        !(a.precedes(b) && b.precedes(a)),
{
}

/// The order of positions is transitive.
pub proof fn lemma_precedes_transitive(a: Position, b: Position, c: Position)
    requires
        a.precedes(b),
        b.precedes(c),
    ensures
        a.precedes(c),
{
}

} // verus!
