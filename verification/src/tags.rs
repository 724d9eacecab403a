//! The table of named geometries.
//!
//! Every `Tag` in a geometry binds its name to the geometry it wraps, for
//! the whole tree: names have no scope. Where a name is bound more than
//! once, the binding made last stands. A tag is bound after the tags
//! inside it, and the children of a split are gone through in order.

use crate::geometry::{
    lemma_unresolved_children, unresolved_children, Unresolved, UnresolvedFlagElement,
    UnresolvedFlagGeometry,
};
use std::rc::Rc;
use vstd::prelude::*;

verus! {

/// The bindings that the tags in a geometry make.
pub open spec fn tags_of(geometry: Unresolved) -> Map<Seq<char>, Unresolved>
    decreases geometry, 0int,
{
    match geometry {
        Unresolved::Solid(_) => Map::empty(),
        Unresolved::Reference(_) => Map::empty(),
        Unresolved::Tag(name, inner) => tags_of(*inner).insert(name, *inner),
        Unresolved::Split(_, children) => tags_among(children, children.len() as int),
    }
}

/// The bindings that the tags in the first `n` children of a split make.
/// Those of a later child stand over those of an earlier one.
pub open spec fn tags_among(children: Seq<(Unresolved, nat)>, n: int) -> Map<
    Seq<char>,
    Unresolved,
>
    decreases children, n,
{
    if n <= 0 || n > children.len() {
        Map::empty()
    } else {
        tags_among(children, n - 1).union_prefer_right(tags_of(children[n - 1].0))
    }
}

/// One binding of a name.
struct TagEntry {
    name: String,
    geometry: Rc<UnresolvedFlagGeometry>,
}

/// The bindings that the first `n` entries make, later ones standing over
/// earlier ones.
spec fn bindings(entries: Seq<TagEntry>, n: int) -> Map<Seq<char>, Unresolved>
    decreases n,
{
    if n <= 0 {
        Map::empty()
    } else {
        bindings(entries, n - 1).insert(entries[n - 1].name@, (*entries[n - 1].geometry)@)
    }
}

/// Only finitely many names are bound.
proof fn lemma_bindings_finite(entries: Seq<TagEntry>, n: int)
    ensures
        bindings(entries, n).dom().finite(),
    decreases n,
{
    if n > 0 {
        lemma_bindings_finite(entries, n - 1);
    }
}

/// The bindings of the first entries do not depend on the later ones.
proof fn lemma_bindings_prefix(longer: Seq<TagEntry>, shorter: Seq<TagEntry>, n: int)
    requires
        0 <= n <= shorter.len() <= longer.len(),
        forall|i: int| 0 <= i < n ==> longer[i] == shorter[i],
    ensures
        bindings(longer, n) == bindings(shorter, n),
    decreases n,
{
    if n > 0 {
        lemma_bindings_prefix(longer, shorter, n - 1);
    }
}

/// `Rc::clone`: another handle on the same geometry.
#[verifier::external_body]
fn share(geometry: &Rc<UnresolvedFlagGeometry>) -> (shared: Rc<UnresolvedFlagGeometry>)
    ensures
        shared == *geometry,
{
    Rc::clone(geometry)
}

/// A table from names to the geometries they are bound to.
pub struct TagTable {
    entries: Vec<TagEntry>,
}

impl TagTable {
    /// The bindings of the table.
    pub closed spec fn view(&self) -> Map<Seq<char>, Unresolved> {
        bindings(self.entries@, self.entries.len() as int)
    }

    /// A table binds finitely many names.
    pub proof fn lemma_finite(&self)
        ensures
            self@.dom().finite(),
    {
        lemma_bindings_finite(self.entries@, self.entries.len() as int);
    }

    /// A table without bindings.
    pub fn new() -> (table: TagTable)
        ensures
            table@ == Map::<Seq<char>, Unresolved>::empty(),
    {
        TagTable { entries: Vec::new() }
    }

    /// Binds `name` to `geometry`. An earlier binding of the name is
    /// replaced.
    pub fn insert(&mut self, name: String, geometry: Rc<UnresolvedFlagGeometry>)
        ensures
            final(self)@ == old(self)@.insert(name@, (*geometry)@),
    {
        let ghost before = self.entries@;
        self.entries.push(TagEntry { name, geometry });
        proof {
            lemma_bindings_prefix(self.entries@, before, before.len() as int);
        }
    }

    /// The geometry that `name` is bound to, if it is bound.
    pub fn get(&self, name: &String) -> (found: Option<&Rc<UnresolvedFlagGeometry>>)
        ensures
            match found {
                Some(geometry) => self@.contains_key(name@) && self@[name@] == (**geometry)@,
                None => !self@.contains_key(name@),
            },
    {
        let mut i = self.entries.len();
        while i > 0
            invariant
                0 <= i <= self.entries.len(),
                self@.contains_key(name@) <==> bindings(self.entries@, i as int).contains_key(
                    name@,
                ),
                self@.contains_key(name@) ==> self@[name@] == bindings(
                    self.entries@,
                    i as int,
                )[name@],
            decreases i,
        {
            i = i - 1;
            if self.entries[i].name == *name {
                return Some(&self.entries[i].geometry);
            }
        }
        None
    }

    /// Tells whether `name` is bound.
    pub fn contains(&self, name: &String) -> (bound: bool)
        ensures
            bound == self@.contains_key(name@),
    {
        self.get(name).is_some()
    }
}

impl UnresolvedFlagGeometry {
    /// The table of the bindings that the tags in this geometry make.
    pub fn tags(&self) -> (table: TagTable)
        ensures
            table@ == tags_of(self@),
    {
        let mut table = TagTable::new();
        self.collect_tags(&mut table);
        assert(table@ =~= tags_of(self@));
        table
    }

    /// Adds the bindings of this geometry to a table, over those it holds.
    fn collect_tags(&self, table: &mut TagTable)
        ensures
            final(table)@ == old(table)@.union_prefer_right(tags_of(self@)),
        decreases self, 0int,
    {
        match self {
            UnresolvedFlagGeometry::Solid(_) => {
                assert(table@ =~= table@.union_prefer_right(tags_of(self@)));
            },
            UnresolvedFlagGeometry::Reference(_) => {
                assert(table@ =~= table@.union_prefer_right(tags_of(self@)));
            },
            UnresolvedFlagGeometry::Tag(name, geometry) => {
                geometry.collect_tags(table);
                table.insert(name.clone(), share(geometry));
                assert(table@ =~= old(table)@.union_prefer_right(tags_of(self@)));
            },
            UnresolvedFlagGeometry::Horizontal(elements) => {
                Self::collect_tags_among(elements, table);
            },
            UnresolvedFlagGeometry::Vertical(elements) => {
                Self::collect_tags_among(elements, table);
            },
        }
    }

    /// Adds the bindings of the children of a split to a table, over those
    /// it holds.
    fn collect_tags_among(elements: &Vec<UnresolvedFlagElement>, table: &mut TagTable)
        ensures
            final(table)@ == old(table)@.union_prefer_right(
                tags_among(unresolved_children(elements@), elements.len() as int),
            ),
        decreases elements, 1int,
    {
        let ghost children = unresolved_children(elements@);
        proof {
            lemma_unresolved_children(elements@);
            assert(table@ =~= table@.union_prefer_right(tags_among(children, 0)));
        }
        let mut i: usize = 0;
        while i < elements.len()
            invariant
                0 <= i <= elements.len(),
                children == unresolved_children(elements@),
                children.len() == elements.len(),
                table@ == old(table)@.union_prefer_right(tags_among(children, i as int)),
            decreases elements.len() - i,
        {
            assert(children[i as int] == elements[i as int]@);
            elements[i].0.collect_tags(table);
            assert(table@ =~= old(table)@.union_prefer_right(
                tags_among(children, i as int + 1),
            ));
            i = i + 1;
        }
    }
}

} // verus!
