//! Flag geometries, before and after their named parts are resolved.

use crate::color::Color;
use std::rc::Rc;
use vstd::prelude::*;

verus! {

/// The direction along which a split divides its rectangle.
#[derive(Copy, Clone, Debug, PartialEq, Eq, Structural)]
pub enum Axis {
    Horizontal,
    Vertical,
}

/// A child of an unresolved split: a geometry and its weight.
#[derive(Debug, PartialEq, Eq)]
pub struct UnresolvedFlagElement(pub UnresolvedFlagGeometry, pub u32);

/// A geometry that may still name parts (`Tag`) and cite them (`Reference`).
#[derive(Debug, PartialEq, Eq)]
pub enum UnresolvedFlagGeometry {
    Solid(Color),
    Horizontal(Vec<UnresolvedFlagElement>),
    Vertical(Vec<UnresolvedFlagElement>),
    Tag(String, Rc<UnresolvedFlagGeometry>),
    Reference(String),
}

/// A child of a split: a geometry and its weight.
#[derive(Debug, PartialEq, Eq)]
pub struct FlagElement(pub FlagGeometry, pub u32);

/// A geometry made of solid areas and weighted splits alone.
#[derive(Debug, PartialEq, Eq)]
pub enum FlagGeometry {
    Solid(Color),
    Horizontal(Vec<FlagElement>),
    Vertical(Vec<FlagElement>),
}

/// The mathematical value of an [`UnresolvedFlagGeometry`]. Both kinds of
/// split are one variant, told apart by their axis.
pub enum Unresolved {
    Solid(Color),
    Split(Axis, Seq<(Unresolved, nat)>),
    Tag(Seq<char>, Box<Unresolved>),
    Reference(Seq<char>),
}

/// The mathematical value of a [`FlagGeometry`].
pub enum Resolved {
    Solid(Color),
    Split(Axis, Seq<(Resolved, nat)>),
}

impl UnresolvedFlagGeometry {
    /// The value of this geometry.
    pub open spec fn view(&self) -> Unresolved
        decreases self,
    {
        match self {
            UnresolvedFlagGeometry::Solid(color) => Unresolved::Solid(*color),
            UnresolvedFlagGeometry::Horizontal(elements) => Unresolved::Split(
                Axis::Horizontal,
                unresolved_children(elements@),
            ),
            UnresolvedFlagGeometry::Vertical(elements) => Unresolved::Split(
                Axis::Vertical,
                unresolved_children(elements@),
            ),
            UnresolvedFlagGeometry::Tag(name, geometry) => Unresolved::Tag(
                name@,
                Box::new((**geometry).view()),
            ),
            UnresolvedFlagGeometry::Reference(name) => Unresolved::Reference(name@),
        }
    }
}

/// The values of the children of an unresolved split, in order.
pub open spec fn unresolved_children(elements: Seq<UnresolvedFlagElement>) -> Seq<
    (Unresolved, nat),
>
    decreases elements,
{
    Seq::new(
        elements.len(),
        |i: int|
            if 0 <= i < elements.len() {
                (elements[i].0.view(), elements[i].1 as nat)
            } else {
                (Unresolved::Solid(Color::Black), 0nat)
            },
    )
}

impl UnresolvedFlagElement {
    /// The value of this child and its weight.
    pub open spec fn view(&self) -> (Unresolved, nat) {
        (self.0@, self.1 as nat)
    }
}

impl FlagGeometry {
    /// The value of this geometry.
    pub open spec fn view(&self) -> Resolved
        decreases self,
    {
        match self {
            FlagGeometry::Solid(color) => Resolved::Solid(*color),
            FlagGeometry::Horizontal(elements) => Resolved::Split(
                Axis::Horizontal,
                resolved_children(elements@),
            ),
            FlagGeometry::Vertical(elements) => Resolved::Split(
                Axis::Vertical,
                resolved_children(elements@),
            ),
        }
    }
}

/// The values of the children of a split, in order.
pub open spec fn resolved_children(elements: Seq<FlagElement>) -> Seq<(Resolved, nat)>
    decreases elements,
{
    Seq::new(
        elements.len(),
        |i: int|
            if 0 <= i < elements.len() {
                (elements[i].0.view(), elements[i].1 as nat)
            } else {
                (Resolved::Solid(Color::Black), 0nat)
            },
    )
}

impl FlagElement {
    /// The value of this child and its weight.
    pub open spec fn view(&self) -> (Resolved, nat) {
        (self.0@, self.1 as nat)
    }
}

/// The children of a split, one by one.
pub proof fn lemma_unresolved_children(elements: Seq<UnresolvedFlagElement>)
    ensures
        unresolved_children(elements).len() == elements.len(),
        forall|i: int|
            0 <= i < elements.len() ==> #[trigger] unresolved_children(elements)[i]
                == elements[i]@,
{
}

/// The children of a split, one by one.
pub proof fn lemma_resolved_children(elements: Seq<FlagElement>)
    ensures
        resolved_children(elements).len() == elements.len(),
        forall|i: int|
            0 <= i < elements.len() ==> #[trigger] resolved_children(elements)[i] == elements[i]@,
{
}

} // verus!
