//! Writing symbolic expressions out as text, and reading them back.
//!
//! An atom is written as its characters. A list is written as `(`, its
//! items with one space between each two, and `)`.

use crate::parser::{atom_end, items_at, node_at, parse_from};
use crate::sexpr::{lemma_nodes_of, nodes_of, Node, SExpr};
use crate::source::{is_whitespace, skip_whitespace};
use vstd::prelude::*;
use vstd::string::StringExecFns;

verus! {

/// The text that an expression is written as.
pub open spec fn text_of(node: Node) -> Seq<char>
    decreases node, 0int,
{
    match node {
        Node::Atom(text) => text,
        Node::List(items) => seq!['('] + texts_from(items, 0) + seq![')'],
    }
}

/// The text that the items of a list from item `k` on are written as.
pub open spec fn texts_from(items: Seq<Node>, k: int) -> Seq<char>
    decreases items, items.len() - k,
{
    if k < 0 || k >= items.len() {
        Seq::empty()
    } else if k + 1 == items.len() {
        text_of(items[k])
    } else {
        text_of(items[k]) + seq![' '] + texts_from(items, k + 1)
    }
}

/// Whether a text can be an atom's: it is not empty, does not start with
/// a `(`, and holds neither white space nor a `)`.
pub open spec fn atom_text(text: Seq<char>) -> bool {
    &&& text.len() > 0
    &&& text[0] != '('
    &&& forall|i: int| 0 <= i < text.len() ==> !is_whitespace(#[trigger] text[i]) && text[i] != ')'
}

/// Whether an expression is one that parsing can give: each atom in it
/// has an atom's text.
pub open spec fn well_formed(node: Node) -> bool
    decreases node,
{
    match node {
        Node::Atom(text) => atom_text(text),
        Node::List(items) => forall|i: int|
            0 <= i < items.len() ==> well_formed(#[trigger] items[i]),
    }
}

/// Whether `text` holds `part` at position `at`.
pub open spec fn holds_at(text: Seq<char>, at: int, part: Seq<char>) -> bool {
    &&& 0 <= at
    &&& at + part.len() <= text.len()
    &&& forall|j: int| 0 <= j < part.len() ==> text[at + j] == #[trigger] part[j]
}

/// Whether an expression can end at position `end` of `text`: the text
/// ends there, or goes on with white space or a `)`.
pub open spec fn ends_at(text: Seq<char>, end: int) -> bool {
    end == text.len() || (0 <= end < text.len() && (is_whitespace(text[end]) || text[end] == ')'))
}

/// What a well-formed expression is written as is not empty and starts
/// with a character that is neither white space nor a `)`.
pub proof fn lemma_text_starts(node: Node)
    requires
        well_formed(node),
    ensures
        text_of(node).len() > 0,
        !is_whitespace(text_of(node)[0]),
        text_of(node)[0] != ')',
{
    match node {
        Node::Atom(text) => {},
        Node::List(items) => {
            assert(text_of(node)[0] == '(');
        },
    }
}

/// An atom whose characters are known ends where they end.
proof fn lemma_atom_end_known(text: Seq<char>, from: int, end: int)
    requires
        0 <= from <= end <= text.len(),
        forall|k: int| from <= k < end ==> !is_whitespace(text[k]) && text[k] != ')',
        ends_at(text, end),
    ensures
        atom_end(text, from) == end,
    decreases end - from,
{
    if from < end {
        lemma_atom_end_known(text, from + 1, end);
    }
}

/// Where a text holds what a well-formed expression is written as, and
/// the expression can end there, that expression is the one at the place.
pub proof fn lemma_reads_back(text: Seq<char>, at: int, node: Node)
    requires
        well_formed(node),
        holds_at(text, at, text_of(node)),
        ends_at(text, at + text_of(node).len()),
    ensures
        node_at(text, at) == (Some(node), skip_whitespace(text, at + text_of(node).len())),
    decreases node, 0int,
{
    let written = text_of(node);
    lemma_text_starts(node);
    assert(text[at + 0] == written[0]);
    match node {
        Node::Atom(atom) => {
            let end = at + atom.len();
            assert forall|k: int| at + 1 <= k < end implies !is_whitespace(text[k]) && text[k]
                != ')' by {
                assert(text[at + (k - at)] == atom[k - at]);
            }
            lemma_atom_end_known(text, at + 1, end);
            assert(text.subrange(at, end) =~= atom) by {
                assert forall|j: int| 0 <= j < atom.len() implies text.subrange(at, end)[j]
                    == atom[j] by {
                    assert(text[at + j] == atom[j]);
                }
            }
        },
        Node::List(items) => {
            let inner = texts_from(items, 0);
            assert(written.len() == inner.len() + 2);
            assert(written[0] == '(');
            assert(text[at] == '(');
            assert(holds_at(text, at + 1, inner + seq![')'])) by {
                assert forall|j: int| 0 <= j < inner.len() + 1 implies text[at + 1 + j] == (inner
                    + seq![')'])[j] by {
                    assert(text[at + (j + 1)] == written[j + 1]);
                }
            }
            if items.len() > 0 {
                lemma_text_starts(items[0]);
                assert(inner[0] == text_of(items[0])[0]);
            }
            assert(text[at + 1] == (inner + seq![')'])[0]);
            assert(!is_whitespace(text[at + 1]));
            assert(skip_whitespace(text, at + 1) == at + 1);
            lemma_reads_items_back(text, at + 1, items, 0);
            assert(items.skip(0) =~= items);
        },
    }
}

/// Where a text holds what the items of a list from item `k` on are
/// written as, and then a `)`, those are the items of the list there.
pub proof fn lemma_reads_items_back(text: Seq<char>, at: int, items: Seq<Node>, k: int)
    requires
        forall|i: int| 0 <= i < items.len() ==> well_formed(#[trigger] items[i]),
        0 <= k <= items.len(),
        holds_at(text, at, texts_from(items, k) + seq![')']),
    ensures
        items_at(text, at) == (items.skip(k), at + texts_from(items, k).len() + 1),
    decreases items, items.len() - k,
{
    let rest = texts_from(items, k);
    let whole = rest + seq![')'];
    if k == items.len() {
        assert(text[at + 0] == whole[0]);
        assert(items.skip(k) =~= Seq::<Node>::empty());
    } else {
        let item = items[k];
        let written = text_of(item);
        lemma_text_starts(item);
        assert(well_formed(item));
        assert(rest[0] == written[0]);
        assert(text[at + 0] == whole[0]);
        assert(holds_at(text, at, written)) by {
            assert forall|j: int| 0 <= j < written.len() implies text[at + j] == written[j] by {
                assert(text[at + j] == whole[j]);
                assert(rest[j] == written[j]);
            }
        }
        let size = written.len() as int;
        let end = at + size;
        assert(text[at + size] == whole[size]);
        if k + 1 == items.len() {
            assert(whole[size] == ')');
            lemma_reads_back(text, at, item);
            assert(skip_whitespace(text, end) == end);
            assert(holds_at(text, end, texts_from(items, k + 1) + seq![')']));
            lemma_reads_items_back(text, end, items, k + 1);
        } else {
            let after = texts_from(items, k + 1);
            assert(rest == written + seq![' '] + after);
            assert(whole[size] == ' ');
            lemma_reads_back(text, at, item);
            lemma_text_starts(items[k + 1]);
            assert(after[0] == text_of(items[k + 1])[0]);
            assert(text[at + (size + 1)] == whole[size + 1]);
            assert(whole[size + 1] == after[0]);
            assert(skip_whitespace(text, end + 1) == end + 1);
            assert(skip_whitespace(text, end) == end + 1);
            assert(holds_at(text, end + 1, after + seq![')'])) by {
                assert forall|j: int| 0 <= j < after.len() + 1 implies text[end + 1 + j] == (after
                    + seq![')'])[j] by {
                    assert(text[at + (size + 1 + j)] == whole[size + 1 + j]);
                }
            }
            lemma_reads_items_back(text, end + 1, items, k + 1);
        }
        assert(items.skip(k) =~= seq![item] + items.skip(k + 1));
    }
}

/// Parsing what a well-formed expression is written as gives that
/// expression back, and consumes all of the text.
pub proof fn lemma_round_trip(node: Node)
    requires
        well_formed(node),
    ensures
        parse_from(text_of(node), 0) == (Some(node), text_of(node).len() as int),
{
    let text = text_of(node);
    lemma_text_starts(node);
    assert(skip_whitespace(text, 0) == 0);
    lemma_reads_back(text, 0, node);
    assert(skip_whitespace(text, text.len() as int) == text.len());
}

impl SExpr {
    /// Writes the expression out as text.
    pub fn to_text(&self) -> (text: String)
        ensures
            text@ == text_of(self@),
    {
        let mut out = String::new();
        self.write_to(&mut out);
        assert(out@ =~= text_of(self@));
        out
    }

    /// Writes the expression at the end of `out`.
    fn write_to(&self, out: &mut String)
        ensures
            final(out)@ == old(out)@ + text_of(self@),
        decreases self,
    {
        match self {
            SExpr::Literal(text) => {
                out.append(text.as_str());
            },
            SExpr::List(items) => {
                let ghost nodes = nodes_of(items@);
                let ghost whole = old(out)@ + seq!['('] + texts_from(nodes, 0);
                proof {
                    lemma_nodes_of(items@);
                }
                out.push('(');
                let mut i: usize = 0;
                while i < items.len()
                    invariant
                        0 <= i <= items.len(),
                        *self == SExpr::List(*items),
                        nodes == nodes_of(items@),
                        nodes.len() == items.len(),
                        whole == if i == 0 {
                            out@ + texts_from(nodes, 0)
                        } else if i < items.len() {
                            out@ + seq![' '] + texts_from(nodes, i as int)
                        } else {
                            out@
                        },
                    decreases items.len() - i,
                {
                    let ghost before = out@;
                    if i > 0 {
                        out.push(' ');
                    }
                    let ghost spaced = out@;
                    assert(decreases_to!(*self => self->List_0));
                    items[i].write_to(out);
                    proof {
                        let written = text_of(nodes[i as int]);
                        assert(nodes[i as int] == items[i as int]@);
                        let rest = texts_from(nodes, i as int + 1);
                        if i + 1 == items.len() {
                            assert(spaced + written =~= spaced + texts_from(nodes, i as int));
                            assert(before + seq![' '] + texts_from(nodes, i as int) =~= before.push(
                                ' ',
                            ) + texts_from(nodes, i as int));
                        } else {
                            assert(spaced + (written + seq![' '] + rest) =~= spaced + written
                                + seq![' '] + rest);
                            assert(before + seq![' '] + (written + seq![' '] + rest)
                                =~= before.push(' ') + written + seq![' '] + rest);
                        }
                    }
                    i = i + 1;
                }
                out.push(')');
                assert(out@ =~= old(out)@ + (seq!['('] + texts_from(nodes, 0) + seq![')']));
            },
        }
    }
}

} // verus!
