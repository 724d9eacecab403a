use flagrant::source::char_is_whitespace;
use flagrant::{CharSource, SExpr};

fn parse(text: &str) -> Option<SExpr> {
    SExpr::parse(&mut CharSource::new(text))
}

fn atom(text: &str) -> SExpr {
    SExpr::Literal(text.to_string())
}

fn list(items: Vec<SExpr>) -> SExpr {
    SExpr::List(items)
}

#[test]
fn lib_test_sexpr_parse() {
    println!(
        "{:#?}",
        SExpr::parse(&mut CharSource::new("(h 33 (s b) (h 50 (s w) (s r)))")).unwrap()
    );
}

#[test]
fn main_test_sexpr_parse() {
    println!(
        "{:#?}",
        SExpr::parse(&mut CharSource::new("(h 33 (s b) (h 50 (s w) (s r)))")).unwrap()
    );
}

#[test]
fn parse_gives_the_nested_tree() {
    let expected = list(vec![
        atom("h"),
        atom("33"),
        list(vec![atom("s"), atom("b")]),
        list(vec![
            atom("h"),
            atom("50"),
            list(vec![atom("s"), atom("w")]),
            list(vec![atom("s"), atom("r")]),
        ]),
    ]);
    assert_eq!(parse("(h 33 (s b) (h 50 (s w) (s r)))"), Some(expected));
}

#[test]
fn parse_of_nothing_is_none() {
    assert_eq!(parse(""), None);
    assert_eq!(parse("   \t\n "), None);
    let mut source = CharSource::new("  \n ");
    assert_eq!(SExpr::parse(&mut source), None);
    assert_eq!(source.consumed(), 4);
}

#[test]
fn parse_reads_an_atom() {
    assert_eq!(parse("flag"), Some(atom("flag")));
    assert_eq!(parse("  #ff00aa  "), Some(atom("#ff00aa")));
}

#[test]
fn parse_consumes_the_white_space_around_a_node() {
    let mut source = CharSource::new("  one   two ");
    assert_eq!(SExpr::parse(&mut source), Some(atom("one")));
    assert_eq!(source.consumed(), 8);
    assert_eq!(source.peek(), Some('t'));
    assert_eq!(SExpr::parse(&mut source), Some(atom("two")));
    assert_eq!(source.consumed(), 12);
    assert_eq!(source.peek(), None);
    assert_eq!(SExpr::parse(&mut source), None);
}

#[test]
fn parse_reads_lists_with_any_white_space() {
    assert_eq!(parse("()"), Some(list(vec![])));
    assert_eq!(parse("( )"), Some(list(vec![])));
    assert_eq!(parse("(\ta\n b )"), Some(list(vec![atom("a"), atom("b")])));
    assert_eq!(parse("(()())"), Some(list(vec![list(vec![]), list(vec![])])));
    assert_eq!(parse("(a(b c)"), Some(list(vec![atom("a(b"), atom("c")])));
    assert_eq!(parse("(a (b)c)"), Some(list(vec![atom("a"), list(vec![atom("b")]), atom("c")])));
}

#[test]
fn an_atom_ends_before_a_closing_parenthesis() {
    let mut source = CharSource::new("ab)cd");
    assert_eq!(SExpr::parse(&mut source), Some(atom("ab")));
    assert_eq!(source.consumed(), 2);
    assert_eq!(source.peek(), Some(')'));
}

#[test]
fn a_list_without_its_end_is_closed_by_the_end_of_the_text() {
    assert_eq!(parse("("), Some(list(vec![])));
    assert_eq!(parse("( "), Some(list(vec![])));
    assert_eq!(parse("(a (b c"), Some(list(vec![atom("a"), list(vec![atom("b"), atom("c")])])));
}

#[test]
fn what_follows_a_list_stays_in_the_source() {
    let mut source = CharSource::new("(a) ) b");
    assert_eq!(SExpr::parse(&mut source), Some(list(vec![atom("a")])));
    assert_eq!(source.consumed(), 4);
    assert_eq!(source.peek(), Some(')'));
    assert_eq!(SExpr::parse(&mut source), Some(atom(")")));
    assert_eq!(SExpr::parse(&mut source), Some(atom("b")));
    assert_eq!(SExpr::parse(&mut source), None);
}

#[test]
fn parsing_what_was_written_out_gives_the_same_tree() {
    let tree = list(vec![
        atom("h"),
        atom("1"),
        list(vec![atom("t"), atom("x"), list(vec![atom("s"), atom("b")])]),
        atom("1"),
        list(vec![atom("r"), atom("x")]),
        list(vec![]),
    ]);
    let text = tree.to_text();
    assert_eq!(text, "(h 1 (t x (s b)) 1 (r x) ())");
    assert_eq!(parse(&text), Some(tree));
    assert_eq!(atom("#a0B1c2").to_text(), "#a0B1c2");
    assert_eq!(parse(&atom("#a0B1c2").to_text()), Some(atom("#a0B1c2")));
}

#[test]
fn source_hands_out_its_characters_in_order() {
    let mut source = CharSource::new("a é");
    assert_eq!(source.consumed(), 0);
    assert_eq!(source.peek(), Some('a'));
    assert_eq!(source.next(), Some('a'));
    assert_eq!(source.next(), Some(' '));
    assert_eq!(source.peek(), Some('é'));
    assert_eq!(source.next(), Some('é'));
    assert_eq!(source.consumed(), 3);
    assert_eq!(source.next(), None);
    assert_eq!(source.consumed(), 3);
    let mut spaced = CharSource::new(" \u{a0}\u{3000}x ");
    spaced.skip_whitespace();
    assert_eq!(spaced.consumed(), 3);
    spaced.skip_whitespace();
    assert_eq!(spaced.consumed(), 3);
}

#[test]
fn white_space_is_what_unicode_calls_white_space() {
    let mut code = 0u32;
    while code <= 0x10FFFF {
        if let Some(c) = char::from_u32(code) {
            assert_eq!(char_is_whitespace(c), c.is_whitespace(), "code point {:x}", code);
        }
        code += 1;
    }
}

#[test]
fn list_and_literal_tell_the_two_kinds_apart() {
    let items = list(vec![atom("a"), atom("b")]);
    assert_eq!(items.list(), Some(&[atom("a"), atom("b")][..]));
    assert_eq!(items.literal(), None);
    let word = atom("word");
    assert_eq!(word.list(), None);
    assert_eq!(word.literal(), Some("word"));
}
