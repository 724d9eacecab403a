use flagrant::builder::parse_weight;
use flagrant::{
    CharSource, Color, SExpr, UnresolvedFlagElement as Element, UnresolvedFlagGeometry as Geometry,
};
use std::rc::Rc;

fn build(text: &str) -> Option<Geometry> {
    SExpr::parse(&mut CharSource::new(text)).unwrap().to_flag_geometry()
}

fn solid(color: Color) -> Geometry {
    Geometry::Solid(color)
}

#[test]
fn weights_are_decimal_numbers() {
    assert_eq!(parse_weight("0"), Some(0));
    assert_eq!(parse_weight("1"), Some(1));
    assert_eq!(parse_weight("33"), Some(33));
    assert_eq!(parse_weight("007"), Some(7));
    assert_eq!(parse_weight("+12"), Some(12));
    assert_eq!(parse_weight("4294967295"), Some(4294967295));
    assert_eq!(parse_weight("00000000004294967295"), Some(4294967295));
}

#[test]
fn other_atoms_are_no_weights() {
    assert_eq!(parse_weight(""), None);
    assert_eq!(parse_weight("+"), None);
    assert_eq!(parse_weight("-"), None);
    assert_eq!(parse_weight("-1"), None);
    assert_eq!(parse_weight("-0"), None);
    assert_eq!(parse_weight("++1"), None);
    assert_eq!(parse_weight("1+"), None);
    assert_eq!(parse_weight("1.5"), None);
    assert_eq!(parse_weight("1_000"), None);
    assert_eq!(parse_weight("12a"), None);
    assert_eq!(parse_weight("a12"), None);
    assert_eq!(parse_weight("٣"), None);
    assert_eq!(parse_weight("4294967296"), None);
    assert_eq!(parse_weight("99999999999999999999999999"), None);
}

#[test]
fn weights_agree_with_the_standard_parser() {
    let samples = [
        "", "0", "1", "+1", "-1", "+", "01", "10", "4294967295", "4294967296", "42949672950",
        "1e3", " 1", "1 ", "0x10", "123456789", "+0", "+-1", "9", "/", ":",
    ];
    for sample in samples {
        assert_eq!(parse_weight(sample), sample.parse::<u32>().ok(), "{:?}", sample);
    }
}

#[test]
fn a_solid_takes_one_color() {
    assert_eq!(build("(s r)"), Some(solid(Color::Red)));
    assert_eq!(build("(s #102030)"), Some(solid(Color::Rgb(0x10, 0x20, 0x30))));
    assert_eq!(build("(s)"), None);
    assert_eq!(build("(s q)"), None);
    assert_eq!(build("(s r g)"), None);
    assert_eq!(build("(s (s r))"), None);
    assert_eq!(build("(s #12345)"), None);
}

#[test]
fn only_lists_with_an_operator_are_geometries() {
    assert_eq!(build("r"), None);
    assert_eq!(build("s"), None);
    assert_eq!(build("()"), None);
    assert_eq!(build("((s r))"), None);
    assert_eq!(build("((h) 1 (s r))"), None);
    assert_eq!(build("(x 1 (s r))"), None);
    assert_eq!(build("(hh 1 (s r))"), None);
    assert_eq!(build("(S r)"), None);
}

#[test]
fn a_split_pairs_weights_with_geometries() {
    assert_eq!(
        build("(h 1 (s r) 2 (s g) 1 (s b))"),
        Some(Geometry::Horizontal(vec![
            Element(solid(Color::Red), 1),
            Element(solid(Color::Green), 2),
            Element(solid(Color::Blue), 1),
        ]))
    );
    assert_eq!(
        build("(v 3 (h 1 (s w) 1 (s s)) 0 (s y))"),
        Some(Geometry::Vertical(vec![
            Element(
                Geometry::Horizontal(vec![
                    Element(solid(Color::White), 1),
                    Element(solid(Color::Black), 1),
                ]),
                3
            ),
            Element(solid(Color::Yellow), 0),
        ]))
    );
}

#[test]
fn a_split_skips_the_pairs_it_cannot_read() {
    let green = Some(Geometry::Horizontal(vec![Element(solid(Color::Green), 2)]));
    assert_eq!(build("(h x (s r) 2 (s g))"), green);
    assert_eq!(build("(h (s b) (s r) 2 (s g))"), green);
    assert_eq!(build("(h 1 (s q) 2 (s g))"), green);
    assert_eq!(build("(h 1 nothing 2 (s g))"), green);
    assert_eq!(build("(h -1 (s r) 2 (s g))"), green);
    assert_eq!(build("(h 2 (s g) 1)"), green);
    assert_eq!(build("(h 2 (s g) 1 (x))"), green);
    assert_eq!(build("(h 1)"), Some(Geometry::Horizontal(vec![])));
    assert_eq!(build("(v x)"), Some(Geometry::Vertical(vec![])));
    assert_eq!(build("(v 1 (q))"), Some(Geometry::Vertical(vec![])));
}

#[test]
fn a_split_without_operands_is_no_geometry() {
    assert_eq!(build("(h)"), None);
    assert_eq!(build("(v)"), None);
}

#[test]
fn a_tag_takes_a_name_and_a_geometry() {
    assert_eq!(
        build("(t sky (s b))"),
        Some(Geometry::Tag("sky".to_string(), Rc::new(solid(Color::Blue))))
    );
    assert_eq!(build("(t sky)"), None);
    assert_eq!(build("(t sky (s b) (s r))"), None);
    assert_eq!(build("(t (s r) (s b))"), None);
    assert_eq!(build("(t sky (s q))"), None);
    assert_eq!(build("(t sky b)"), None);
}

#[test]
fn a_reference_takes_a_name() {
    assert_eq!(build("(r sky)"), Some(Geometry::Reference("sky".to_string())));
    assert_eq!(build("(r)"), None);
    assert_eq!(build("(r sky sea)"), None);
    assert_eq!(build("(r (s r))"), None);
}
