//! Resolving the names in a geometry.
//!
//! A solid area resolves to itself. A tag resolves to what it wraps. A
//! reference resolves to what its name is bound to, resolved in turn. A
//! split keeps the children that resolve, each with its weight, and drops
//! the others.
//!
//! A reference does not resolve where its name is not bound, nor where its
//! name is being resolved already: a name that leads back to itself has no
//! geometry.

use crate::geometry::{
    lemma_resolved_children, lemma_unresolved_children, resolved_children, unresolved_children,
    FlagElement, FlagGeometry, Resolved, Unresolved, UnresolvedFlagElement,
    UnresolvedFlagGeometry,
};
use crate::tags::TagTable;
use vstd::prelude::*;

verus! {

/// Taking up one more bound name leaves fewer names that are bound and not
/// taken up.
pub proof fn lemma_fewer_names_left(
    bound: Set<Seq<char>>,
    visiting: Set<Seq<char>>,
    name: Seq<char>,
)
    requires
        bound.finite(),
        bound.contains(name),
        !visiting.contains(name),
    ensures
        bound.difference(visiting.insert(name)).len() < bound.difference(visiting).len(),
{
    let left = bound.difference(visiting);
    assert(bound.difference(visiting.insert(name)) =~= left.remove(name));
    assert(left.contains(name));
}

/// What a geometry resolves to under the bindings `tags`, while the names
/// in `visiting` are being resolved; `None` where it does not resolve.
pub open spec fn resolve_within(
    geometry: Unresolved,
    tags: Map<Seq<char>, Unresolved>,
    visiting: Set<Seq<char>>,
) -> Option<Resolved>
    decreases tags.dom().difference(visiting).len(), geometry, 0int,
    when tags.dom().finite()
{
    match geometry {
        Unresolved::Solid(color) => Some(Resolved::Solid(color)),
        Unresolved::Split(axis, children) => Some(
            Resolved::Split(
                axis,
                resolve_children(children, children.len() as int, tags, visiting),
            ),
        ),
        Unresolved::Tag(_, inner) => resolve_within(*inner, tags, visiting),
        Unresolved::Reference(name) => if tags.contains_key(name) && !visiting.contains(name) {
            proof {
                lemma_fewer_names_left(tags.dom(), visiting, name);
            }
            resolve_within(tags[name], tags, visiting.insert(name))
        } else {
            None
        },
    }
}

/// What the first `n` children of a split resolve to: those that resolve,
/// in order, each with its weight.
pub open spec fn resolve_children(
    children: Seq<(Unresolved, nat)>,
    n: int,
    tags: Map<Seq<char>, Unresolved>,
    visiting: Set<Seq<char>>,
) -> Seq<(Resolved, nat)>
    decreases tags.dom().difference(visiting).len(), children, n,
    when tags.dom().finite()
{
    if n <= 0 || n > children.len() {
        Seq::empty()
    } else {
        let before = resolve_children(children, n - 1, tags, visiting);
        match resolve_within(children[n - 1].0, tags, visiting) {
            Some(child) => before.push((child, children[n - 1].1)),
            None => before,
        }
    }
}

/// What a geometry resolves to under the bindings `tags`.
pub open spec fn resolved(geometry: Unresolved, tags: Map<Seq<char>, Unresolved>) -> Option<
    Resolved,
> {
    resolve_within(geometry, tags, Set::empty())
}

/// The names that a list of names holds.
pub open spec fn names_in(names: Seq<String>) -> Set<Seq<char>> {
    Set::new(|name: Seq<char>| exists|i: int| 0 <= i < names.len() && names[i]@ == name)
}

/// Tells whether a list of names holds `name`.
fn holds_name(names: &Vec<String>, name: &String) -> (held: bool)
    ensures
        held == names_in(names@).contains(name@),
{
    let mut i: usize = 0;
    while i < names.len()
        invariant
            0 <= i <= names.len(),
            forall|k: int| 0 <= k < i ==> names[k]@ != name@,
        decreases names.len() - i,
    {
        if names[i] == *name {
            return true;
        }
        i = i + 1;
    }
    false
}

impl UnresolvedFlagElement {
    /// Resolves the geometry of this child and keeps its weight.
    pub fn resolve(&self, tags: &TagTable) -> (element: Option<FlagElement>)
        ensures
            match element {
                Some(e) => resolved(self.0@, tags@) == Some(e.0@) && e.1 == self.1,
                None => resolved(self.0@, tags@) is None,
            },
    {
        match self.0.resolve(tags) {
            Some(geometry) => Some(FlagElement(geometry, self.1)),
            None => None,
        }
    }
}

impl UnresolvedFlagGeometry {
    /// Resolves the names in this geometry against a table. Returns the
    /// resolved geometry exactly when [`resolved`] gives one, and that one.
    pub fn resolve(&self, tags: &TagTable) -> (geometry: Option<FlagGeometry>)
        ensures
            match geometry {
                Some(g) => resolved(self@, tags@) == Some(g@),
                None => resolved(self@, tags@) is None,
            },
    {
        let mut visiting: Vec<String> = Vec::new();
        assert(names_in(visiting@) =~= Set::empty());
        self.resolve_under(tags, &mut visiting)
    }

    /// Resolves this geometry while the names in `visiting` are being
    /// resolved.
    fn resolve_under(&self, tags: &TagTable, visiting: &mut Vec<String>) -> (geometry: Option<
        FlagGeometry,
    >)
        ensures
            final(visiting)@ == old(visiting)@,
            match geometry {
                Some(g) => resolve_within(self@, tags@, names_in(old(visiting)@)) == Some(g@),
                None => resolve_within(self@, tags@, names_in(old(visiting)@)) is None,
            },
        decreases tags@.dom().difference(names_in(old(visiting)@)).len(), self, 0int,
    {
        proof {
            tags.lemma_finite();
        }
        match self {
            UnresolvedFlagGeometry::Solid(color) => Some(FlagGeometry::Solid(*color)),
            UnresolvedFlagGeometry::Horizontal(elements) => Some(
                FlagGeometry::Horizontal(Self::resolve_among(elements, tags, visiting)),
            ),
            UnresolvedFlagGeometry::Vertical(elements) => Some(
                FlagGeometry::Vertical(Self::resolve_among(elements, tags, visiting)),
            ),
            UnresolvedFlagGeometry::Tag(_, geometry) => geometry.resolve_under(tags, visiting),
            UnresolvedFlagGeometry::Reference(name) => {
                if holds_name(visiting, name) {
                    return None;
                }
                match tags.get(name) {
                    None => None,
                    Some(bound) => {
                        let ghost before = visiting@;
                        visiting.push(name.clone());
                        proof {
                            lemma_fewer_names_left(tags@.dom(), names_in(before), name@);
                            assert(names_in(visiting@) =~= names_in(before).insert(name@)) by {
                                assert forall|n: Seq<char>|
                                    names_in(before).insert(name@).contains(n) implies names_in(
                                    visiting@,
                                ).contains(n) by {
                                    if n == name@ {
                                        assert(visiting@[before.len() as int]@ == n);
                                    } else {
                                        let i = choose|i: int|
                                            0 <= i < before.len() && before[i]@ == n;
                                        assert(visiting@[i]@ == n);
                                    }
                                }
                            }
                        }
                        let geometry = bound.resolve_under(tags, visiting);
                        visiting.pop();
                        assert(visiting@ =~= before);
                        geometry
                    },
                }
            },
        }
    }

    /// Resolves the children of a split and keeps those that resolve.
    fn resolve_among(
        elements: &Vec<UnresolvedFlagElement>,
        tags: &TagTable,
        visiting: &mut Vec<String>,
    ) -> (kept: Vec<FlagElement>)
        ensures
            final(visiting)@ == old(visiting)@,
            resolved_children(kept@) == resolve_children(
                unresolved_children(elements@),
                elements.len() as int,
                tags@,
                names_in(old(visiting)@),
            ),
        decreases tags@.dom().difference(names_in(old(visiting)@)).len(), elements, 1int,
    {
        let ghost children = unresolved_children(elements@);
        let ghost names = names_in(visiting@);
        proof {
            tags.lemma_finite();
            lemma_unresolved_children(elements@);
        }
        let mut kept: Vec<FlagElement> = Vec::new();
        proof {
            lemma_resolved_children(kept@);
            assert(resolved_children(kept@) =~= resolve_children(children, 0, tags@, names));
        }
        let mut i: usize = 0;
        while i < elements.len()
            invariant
                0 <= i <= elements.len(),
                children == unresolved_children(elements@),
                children.len() == elements.len(),
                visiting@ == old(visiting)@,
                names == names_in(visiting@),
                tags@.dom().finite(),
                resolved_children(kept@) == resolve_children(children, i as int, tags@, names),
            decreases elements.len() - i,
        {
            assert(children[i as int] == elements[i as int]@);
            let ghost before = kept@;
            match elements[i].0.resolve_under(tags, visiting) {
                Some(geometry) => {
                    kept.push(FlagElement(geometry, elements[i].1));
                    proof {
                        lemma_resolved_children(kept@);
                        lemma_resolved_children(before);
                        assert(resolved_children(kept@) =~= resolved_children(before).push(
                            (geometry@, elements[i as int].1 as nat),
                        ));
                    }
                },
                None => {},
            }
            i = i + 1;
        }
        kept
    }
}

} // verus!
