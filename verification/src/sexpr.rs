//! The symbolic tree that flag expressions are parsed into.

use vstd::prelude::*;

verus! {

/// A symbolic expression: a list of expressions, or an atom.
#[derive(Debug, PartialEq, Eq)]
pub enum SExpr {
    List(Vec<SExpr>),
    Literal(String),
}

/// The mathematical value of an [`SExpr`].
pub enum Node {
    List(Seq<Node>),
    Atom(Seq<char>),
}

impl SExpr {
    /// The value of this expression.
    pub open spec fn view(&self) -> Node
        decreases self,
    {
        match self {
            SExpr::List(items) => Node::List(nodes_of(items@)),
            SExpr::Literal(text) => Node::Atom(text@),
        }
    }
}

/// The values of a run of expressions, in order.
pub open spec fn nodes_of(items: Seq<SExpr>) -> Seq<Node>
    decreases items,
{
    Seq::new(
        items.len(),
        |i: int|
            if 0 <= i < items.len() {
                items[i].view()
            } else {
                Node::Atom(Seq::empty())
            },
    )
}

/// The values of a run of expressions, one by one.
pub proof fn lemma_nodes_of(items: Seq<SExpr>)
    ensures
        nodes_of(items).len() == items.len(),
        forall|i: int| 0 <= i < items.len() ==> #[trigger] nodes_of(items)[i] == items[i]@,
{
}

impl SExpr {
    /// The items of a list; `None` for an atom.
    pub fn list(&self) -> (items: Option<&[SExpr]>)
        ensures
            match *self {
                SExpr::List(list) => items matches Some(slice) && slice@ == list@,
                SExpr::Literal(_) => items is None,
            },
            items matches Some(slice) ==> self@ == Node::List(nodes_of(slice@)),
            items is None ==> self@ is Atom,
    {
        match self {
            SExpr::List(list) => Some(list.as_slice()),
            SExpr::Literal(_) => None,
        }
    }

    /// The text of an atom; `None` for a list.
    pub fn literal(&self) -> (text: Option<&str>)
        ensures
            match text {
                Some(t) => self@ == Node::Atom(t@),
                None => self@ is List,
            },
    {
        match self {
            SExpr::Literal(literal) => Some(literal.as_str()),
            SExpr::List(_) => None,
        }
    }
}

} // verus!
