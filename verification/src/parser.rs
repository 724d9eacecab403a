//! Parsing text into symbolic expressions.
//!
//! An expression is a list, `(` followed by expressions up to the matching
//! `)`, or an atom, a run of characters that ends before white space or a
//! `)`. White space separates expressions and means nothing else. A list
//! that the text ends in before its `)` is closed by the end of the text.

use crate::sexpr::{lemma_nodes_of, nodes_of, Node, SExpr};
use crate::source::{
    char_is_whitespace, is_whitespace, lemma_skip_whitespace, skip_whitespace, CharSource,
};
use vstd::prelude::*;

verus! {

/// `String::push` appends the character to the end of the string.
pub assume_specification[ String::push ](text: &mut String, c: char)
    ensures
        final(text)@ == old(text)@.push(c),
;

/// The first position from `from` on that holds white space or a `)`, or
/// the end of the text: where an atom that reaches `from` ends.
pub open spec fn atom_end(text: Seq<char>, from: int) -> int
    decreases text.len() - from,
{
    if 0 <= from < text.len() && !is_whitespace(text[from]) && text[from] != ')' {
        atom_end(text, from + 1)
    } else {
        from
    }
}

/// An atom ends at or after `from`, within the text, and holds neither
/// white space nor a `)` from there on.
pub proof fn lemma_atom_end(text: Seq<char>, from: int)
    requires
        0 <= from <= text.len(),
    ensures
        from <= atom_end(text, from) <= text.len(),
        atom_end(text, from) < text.len() ==> is_whitespace(text[atom_end(text, from)])
            || text[atom_end(text, from)] == ')',
        forall|k: int|
            from <= k < atom_end(text, from) ==> !is_whitespace(text[k]) && text[k] != ')',
    decreases text.len() - from,
{
    if from < text.len() && !is_whitespace(text[from]) && text[from] != ')' {
        lemma_atom_end(text, from + 1);
    }
}

/// The expression that starts at position `at`, which holds no white
/// space, and the position after it and the white space that follows it.
/// At the end of the text there is no expression.
///
/// A `(` starts a list. Any other character starts an atom, which takes
/// that character and those after it up to white space or a `)`. So a `(`
/// inside an atom belongs to it, and so does a `)` that an atom starts
/// with, which only the first expression of a text can do.
pub open spec fn node_at(text: Seq<char>, at: int) -> (Option<Node>, int)
    decreases text.len() - at, 0int,
{
    if !(0 <= at < text.len()) {
        (None, at)
    } else if text[at] == '(' {
        let first = skip_whitespace(text, at + 1);
        proof {
            lemma_skip_whitespace(text, at + 1);
        }
        let (items, end) = items_at(text, first);
        (Some(Node::List(items)), skip_whitespace(text, end))
    } else {
        let end = atom_end(text, at + 1);
        (Some(Node::Atom(text.subrange(at, end))), skip_whitespace(text, end))
    }
}

/// The items of a list from position `at` on, which holds no white space,
/// and the position after the list: after its `)`, or the end of the text.
///
/// The test on `next` never fails ([`lemma_node_at`]); it shows that the
/// items are read from left to right.
pub open spec fn items_at(text: Seq<char>, at: int) -> (Seq<Node>, int)
    decreases text.len() - at, 1int,
{
    if !(0 <= at < text.len()) {
        (Seq::empty(), at)
    } else if text[at] == ')' {
        (Seq::empty(), at + 1)
    } else {
        let (item, next) = node_at(text, at);
        if item is Some && at < next <= text.len() {
            let (rest, end) = items_at(text, next);
            (seq![item->0] + rest, end)
        } else {
            (Seq::empty(), at)
        }
    }
}

/// What parsing from position `from` gives: the expression after the white
/// space at `from`, if the text holds one, and the position reached.
pub open spec fn parse_from(text: Seq<char>, from: int) -> (Option<Node>, int) {
    node_at(text, skip_whitespace(text, from))
}

/// Where the text goes on, there is an expression. It ends after `at`
/// and within the text, and what follows it is no white space. A list's
/// items end within the text too.
pub proof fn lemma_node_at(text: Seq<char>, at: int)
    requires
        0 <= at <= text.len(),
    ensures
        at < text.len() ==> node_at(text, at).0 is Some && at < node_at(text, at).1,
        at <= node_at(text, at).1 <= text.len(),
        node_at(text, at).1 < text.len() ==> !is_whitespace(text[node_at(text, at).1]),
        at <= items_at(text, at).1 <= text.len(),
    decreases text.len() - at, 2int,
{
    if at < text.len() {
        if text[at] == '(' {
            let first = skip_whitespace(text, at + 1);
            lemma_skip_whitespace(text, at + 1);
            lemma_items_at(text, first);
            lemma_skip_whitespace(text, items_at(text, first).1);
        } else {
            lemma_atom_end(text, at + 1);
            lemma_skip_whitespace(text, atom_end(text, at + 1));
        }
        lemma_items_at(text, at);
    }
}

/// A list's items end at or after `at` and within the text.
proof fn lemma_items_at(text: Seq<char>, at: int)
    requires
        0 <= at <= text.len(),
    ensures
        at <= items_at(text, at).1 <= text.len(),
    decreases text.len() - at, 1int,
{
    if at < text.len() && text[at] != ')' {
        if text[at] == '(' {
            let first = skip_whitespace(text, at + 1);
            lemma_skip_whitespace(text, at + 1);
            lemma_items_at(text, first);
            lemma_skip_whitespace(text, items_at(text, first).1);
        } else {
            lemma_atom_end(text, at + 1);
            lemma_skip_whitespace(text, atom_end(text, at + 1));
        }
        let next = node_at(text, at).1;
        lemma_items_at(text, next);
    }
}

/// The value of an expression that may be missing.
pub open spec fn value_of(node: Option<SExpr>) -> Option<Node> {
    match node {
        Some(expr) => Some(expr@),
        None => None,
    }
}

impl SExpr {
    /// Parses one expression from the source and consumes it, with the
    /// white space before and after it. Returns `None` exactly when nothing
    /// but white space is left in the source, which is then consumed.
    pub fn parse(input: &mut CharSource) -> (node: Option<SExpr>)
        ensures
            final(input).text() == old(input).text(),
            (value_of(node), final(input).position()) == parse_from(
                old(input).text(),
                old(input).position(),
            ),
            node is None <==> forall|k: int|
                old(input).position() <= k < old(input).text().len() ==> is_whitespace(
                    old(input).text()[k],
                ),
    {
        input.skip_whitespace();
        proof {
            lemma_skip_whitespace(old(input).text(), old(input).position());
        }
        match input.peek() {
            None => None,
            Some(_) => Some(Self::parse_node(input)),
        }
    }

    /// Parses the expression that starts with the next character.
    fn parse_node(input: &mut CharSource) -> (node: SExpr)
        requires
            old(input).position() < old(input).text().len(),
        ensures
            final(input).text() == old(input).text(),
            (Some(node@), final(input).position()) == node_at(
                old(input).text(),
                old(input).position(),
            ),
        decreases old(input).text().len() - old(input).position(), 0int,
    {
        let ghost text = input.text();
        let ghost at = input.position();
        let first = input.next().unwrap();
        if first == '(' {
            let items = Self::parse_items(input);
            input.skip_whitespace();
            proof {
                lemma_nodes_of(items@);
            }
            SExpr::List(items)
        } else {
            let mut atom = String::new();
            atom.push(first);
            let mut more = true;
            while more
                invariant
                    input.text() == text,
                    0 <= at < input.position() <= text.len(),
                    atom@ == text.subrange(at, input.position()),
                    atom_end(text, input.position()) == atom_end(text, at + 1),
                    !more ==> atom_end(text, at + 1) == input.position(),
                decreases text.len() - input.position() + if more { 1int } else { 0int },
            {
                let ghost before = input.position();
                match input.peek() {
                    Some(c) if !char_is_whitespace(c) && c != ')' => {
                        atom.push(c);
                        input.next();
                        assert(atom@ =~= text.subrange(at, before + 1));
                    },
                    _ => {
                        more = false;
                    },
                }
            }
            input.skip_whitespace();
            SExpr::Literal(atom)
        }
    }

    /// Parses the items of a list whose `(` has been consumed, and its `)`.
    fn parse_items(input: &mut CharSource) -> (items: Vec<SExpr>)
        ensures
            final(input).text() == old(input).text(),
            (nodes_of(items@), final(input).position()) == items_at(
                old(input).text(),
                skip_whitespace(old(input).text(), old(input).position()),
            ),
        decreases old(input).text().len() - old(input).position(), 1int,
    {
        let ghost text = input.text();
        let ghost first = skip_whitespace(text, input.position());
        input.skip_whitespace();
        let mut items: Vec<SExpr> = Vec::new();
        let mut open = true;
        while open
            invariant
                input.text() == text,
                0 <= old(input).position() <= input.position() <= text.len(),
                old(input).text() == text,
                items_at(text, first).0 == if open {
                    nodes_of(items@) + items_at(text, input.position()).0
                } else {
                    nodes_of(items@)
                },
                items_at(text, first).1 == if open {
                    items_at(text, input.position()).1
                } else {
                    input.position()
                },
            decreases text.len() - input.position() + if open { 1int } else { 0int },
        {
            let ghost at = input.position();
            let ghost before = items@;
            proof {
                lemma_nodes_of(before);
                lemma_node_at(text, at);
            }
            match input.peek() {
                Some(c) if c != ')' => {
                    let item = Self::parse_node(input);
                    items.push(item);
                    proof {
                        lemma_nodes_of(items@);
                        let rest = items_at(text, input.position()).0;
                        assert(nodes_of(items@) =~= nodes_of(before) + seq![item@]);
                        assert(nodes_of(before) + (seq![item@] + rest) =~= nodes_of(items@)
                            + rest);
                    }
                },
                _ => {
                    input.next();
                    open = false;
                    assert(nodes_of(before) + Seq::<Node>::empty() =~= nodes_of(before));
                },
            }
        }
        items
    }
}

} // verus!
