//! Reading a symbolic tree as a flag geometry.
//!
//! A geometry is a list whose first item is a one-letter operator:
//!
//! | form                         | meaning                                  |
//! |------------------------------|------------------------------------------|
//! | `(s color)`                  | a solid area                             |
//! | `(h weight geom weight geom ...)` | a split from left to right          |
//! | `(v weight geom weight geom ...)` | a split from top to bottom          |
//! | `(t name geom)`              | a geometry that also bears a name        |
//! | `(r name)`                   | the geometry that bears the name         |

use crate::color::{color_of, Color};
use crate::geometry::{
    lemma_unresolved_children, unresolved_children, Axis, Unresolved, UnresolvedFlagElement,
    UnresolvedFlagGeometry,
};
use crate::sexpr::{lemma_nodes_of, nodes_of, Node, SExpr};
use std::rc::Rc;
use vstd::prelude::*;
use vstd::string::StrSliceExecFns;

verus! {

/// Whether every character is a decimal digit.
pub open spec fn all_digits(digits: Seq<char>) -> bool {
    forall|i: int| 0 <= i < digits.len() ==> '0' <= #[trigger] digits[i] <= '9'
}

/// The number that a run of decimal digits writes.
pub open spec fn decimal_value(digits: Seq<char>) -> nat
    decreases digits.len(),
{
    if digits.len() == 0 {
        0
    } else {
        (10 * decimal_value(digits.drop_last()) + (digits.last() as int - '0' as int)) as nat
    }
}

/// The weight that an atom writes: decimal digits, at least one, with an
/// optional `+` in front, whose number fits in 32 bits.
pub open spec fn weight_of(text: Seq<char>) -> Option<u32> {
    let digits = if text.len() > 0 && text[0] == '+' {
        text.skip(1)
    } else {
        text
    };
    if digits.len() > 0 && all_digits(digits) && decimal_value(digits) <= u32::MAX {
        Some(decimal_value(digits) as u32)
    } else {
        None
    }
}

/// The weight that a node writes; a list writes none.
pub open spec fn weight_at(node: Node) -> Option<u32> {
    match node {
        Node::Atom(text) => weight_of(text),
        Node::List(_) => None,
    }
}

/// The geometry that a node describes, if it describes one.
///
/// Only a list whose first item is an operator atom does. `s` takes one
/// color atom. `h` and `v` take at least one operand, read as pairs of a
/// weight and a geometry. `t` takes a name atom and a geometry. `r` takes a
/// name atom. Every other shape describes nothing.
pub open spec fn build(node: Node) -> Option<Unresolved>
    decreases node, 0int,
{
    match node {
        Node::Atom(_) => None,
        Node::List(items) => if items.len() == 0 {
            None
        } else {
            match items[0] {
                Node::List(_) => None,
                Node::Atom(op) => if op =~= seq!['s'] {
                    if items.len() == 2 {
                        match items[1] {
                            Node::Atom(text) => match color_of(text) {
                                Some(color) => Some(Unresolved::Solid(color)),
                                None => None,
                            },
                            Node::List(_) => None,
                        }
                    } else {
                        None
                    }
                } else if op =~= seq!['h'] {
                    if items.len() >= 2 {
                        Some(Unresolved::Split(Axis::Horizontal, build_children(items, 1)))
                    } else {
                        None
                    }
                } else if op =~= seq!['v'] {
                    if items.len() >= 2 {
                        Some(Unresolved::Split(Axis::Vertical, build_children(items, 1)))
                    } else {
                        None
                    }
                } else if op =~= seq!['t'] {
                    if items.len() == 3 {
                        match (items[1], build(items[2])) {
                            (Node::Atom(name), Some(inner)) => Some(
                                Unresolved::Tag(name, Box::new(inner)),
                            ),
                            _ => None,
                        }
                    } else {
                        None
                    }
                } else if op =~= seq!['r'] {
                    if items.len() == 2 {
                        match items[1] {
                            Node::Atom(name) => Some(Unresolved::Reference(name)),
                            Node::List(_) => None,
                        }
                    } else {
                        None
                    }
                } else {
                    None
                },
            }
        },
    }
}

/// The children that the operands from position `at` on describe. The
/// operands are taken two at a time, a weight and then a geometry. A pair
/// whose weight or geometry cannot be read gives no child, and neither does
/// a weight that nothing follows.
pub open spec fn build_children(items: Seq<Node>, at: int) -> Seq<(Unresolved, nat)>
    decreases items, items.len() - at,
{
    if at < 0 || at + 1 >= items.len() {
        Seq::empty()
    } else {
        let rest = build_children(items, at + 2);
        match (weight_at(items[at]), build(items[at + 1])) {
            (Some(weight), Some(child)) => seq![(child, weight as nat)] + rest,
            _ => rest,
        }
    }
}

/// A prefix of a run of digits writes a number that is no larger.
proof fn lemma_decimal_value_prefix(digits: Seq<char>, n: int)
    requires
        all_digits(digits),
        0 <= n <= digits.len(),
    ensures
        decimal_value(digits.take(n)) <= decimal_value(digits),
    decreases digits.len() - n,
{
    if n == digits.len() {
        assert(digits.take(n) =~= digits);
    } else {
        lemma_decimal_value_prefix(digits, n + 1);
        assert(digits.take(n + 1).drop_last() =~= digits.take(n));
        assert(digits.take(n + 1).last() == digits[n]);
    }
}

/// Reads a weight. Returns it exactly when [`weight_of`] names one.
pub fn parse_weight(text: &str) -> (weight: Option<u32>)
    ensures
        weight == weight_of(text@),
{
    let len = text.unicode_len();
    if len == 0 {
        return None;
    }
    let start: usize = if text.get_char(0) == '+' {
        1
    } else {
        0
    };
    if start == len {
        return None;
    }
    let ghost digits = if start == 1 {
        text@.skip(1)
    } else {
        text@
    };
    let mut value: u64 = 0;
    let mut i: usize = start;
    while i < len
        invariant
            start <= i <= len,
            len == text@.len(),
            digits.len() == len - start,
            digits.len() > 0,
            digits == if text@.len() > 0 && text@[0] == '+' {
                text@.skip(1)
            } else {
                text@
            },
            forall|k: int| 0 <= k < digits.len() ==> digits[k] == text@[start + k],
            all_digits(digits.take(i - start)),
            value == decimal_value(digits.take(i - start)),
            value <= u32::MAX,
        decreases len - i,
    {
        let c = text.get_char(i);
        let ghost before = digits.take(i - start);
        let ghost after = digits.take(i - start + 1);
        proof {
            assert(after.drop_last() =~= before);
            assert(after.last() == c);
        }
        if !(c >= '0' && c <= '9') {
            assert(!all_digits(digits)) by {
                assert(digits[i - start] == c);
            }
            return None;
        }
        value = value * 10 + (c as u8 - '0' as u8) as u64;
        assert(all_digits(after)) by {
            assert forall|k: int| 0 <= k < after.len() implies '0' <= #[trigger] after[k]
                <= '9' by {
                if k < before.len() {
                    assert(before[k] == after[k]);
                }
            }
        }
        if value > u32::MAX as u64 {
            proof {
                if all_digits(digits) {
                    lemma_decimal_value_prefix(digits, i - start + 1);
                }
            }
            return None;
        }
        i = i + 1;
    }
    proof {
        assert(digits.take(i - start) =~= digits);
    }
    Some(value as u32)
}

impl SExpr {
    /// Reads this expression as a geometry. Returns the geometry exactly
    /// when [`build`] describes one, and that one.
    pub fn to_flag_geometry(&self) -> (geometry: Option<UnresolvedFlagGeometry>)
        ensures
            match geometry {
                Some(g) => build(self@) == Some(g@),
                None => build(self@) is None,
            },
        decreases self,
    {
        let list = match self {
            SExpr::List(list) => list,
            SExpr::Literal(_) => {
                return None;
            },
        };
        proof {
            lemma_nodes_of(list@);
        }
        if list.len() == 0 {
            return None;
        }
        let op = match &list[0] {
            SExpr::Literal(op) => op.as_str(),
            SExpr::List(_) => {
                return None;
            },
        };
        if op.unicode_len() != 1 {
            return None;
        }
        let op = op.get_char(0);
        assert(list[0]@ == Node::Atom(seq![op])) by {
            assert(list[0]@->Atom_0 =~= seq![op]);
        }
        if op == 's' {
            if list.len() != 2 {
                return None;
            }
            match &list[1] {
                SExpr::Literal(text) => match Color::from_atom(text.as_str()) {
                    Some(color) => Some(UnresolvedFlagGeometry::Solid(color)),
                    None => None,
                },
                SExpr::List(_) => None,
            }
        } else if op == 'h' || op == 'v' {
            if list.len() < 2 {
                return None;
            }
            let mut elements: Vec<UnresolvedFlagElement> = Vec::new();
            let mut at: usize = 1;
            while at < list.len() - 1
                invariant
                    1 <= at <= list.len() + 1,
                    list.len() >= 2,
                    *self == SExpr::List(*list),
                    build_children(self@->List_0, 1) == unresolved_children(elements@)
                        + build_children(self@->List_0, at as int),
                decreases list.len() + 1 - at,
            {
                let ghost items = self@->List_0;
                let weight = match &list[at] {
                    SExpr::Literal(text) => parse_weight(text.as_str()),
                    SExpr::List(_) => None,
                };
                let child = list[at + 1].to_flag_geometry();
                proof {
                    lemma_nodes_of(list@);
                    lemma_unresolved_children(elements@);
                    assert(weight == weight_at(items[at as int]));
                }
                match (weight, child) {
                    (Some(w), Some(g)) => {
                        let ghost before = elements@;
                        elements.push(UnresolvedFlagElement(g, w));
                        proof {
                            lemma_unresolved_children(elements@);
                            assert(unresolved_children(elements@) =~= unresolved_children(before)
                                + seq![(g@, w as nat)]);
                            assert(unresolved_children(before) + (seq![(g@, w as nat)]
                                + build_children(items, at + 2)) =~= unresolved_children(
                                elements@,
                            ) + build_children(items, at + 2));
                        }
                    },
                    _ => {},
                }
                at = at + 2;
            }
            proof {
                lemma_unresolved_children(elements@);
                assert(build_children(self@->List_0, 1) =~= unresolved_children(elements@));
            }
            if op == 'h' {
                Some(UnresolvedFlagGeometry::Horizontal(elements))
            } else {
                Some(UnresolvedFlagGeometry::Vertical(elements))
            }
        } else if op == 't' {
            if list.len() != 3 {
                return None;
            }
            let name = match &list[1] {
                SExpr::Literal(name) => name,
                SExpr::List(_) => {
                    return None;
                },
            };
            match list[2].to_flag_geometry() {
                Some(inner) => Some(UnresolvedFlagGeometry::Tag(name.clone(), Rc::new(inner))),
                None => None,
            }
        } else if op == 'r' {
            if list.len() != 2 {
                return None;
            }
            match &list[1] {
                SExpr::Literal(name) => Some(UnresolvedFlagGeometry::Reference(name.clone())),
                SExpr::List(_) => None,
            }
        } else {
            None
        }
    }
}

} // verus!
