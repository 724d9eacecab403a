use flagrant::{
    CharSource, Color, DrawError, FlagElement, FlagGeometry, MsPaint, RgbCanvas, SExpr,
};

const RED: (u8, u8, u8) = (255, 0, 0);
const GREEN: (u8, u8, u8) = (0, 255, 0);
const BLUE: (u8, u8, u8) = (0, 0, 255);
const WHITE: (u8, u8, u8) = (255, 255, 255);
const YELLOW: (u8, u8, u8) = (255, 255, 0);
const BLANK: (u8, u8, u8) = (0, 0, 0);

fn flag(text: &str) -> FlagGeometry {
    let geometry = SExpr::parse(&mut CharSource::new(text)).unwrap().to_flag_geometry().unwrap();
    let tags = geometry.tags();
    geometry.resolve(&tags).unwrap()
}

fn drawn(text: &str, width: u32, height: u32) -> RgbCanvas {
    let mut canvas = RgbCanvas::new(width, height);
    assert_eq!(flag(text).draw(&mut canvas), Ok(()));
    canvas
}

fn row(canvas: &RgbCanvas, y: u32) -> Vec<(u8, u8, u8)> {
    (0..canvas.width()).map(|x| canvas.pixel(x, y).unwrap()).collect()
}

fn column(canvas: &RgbCanvas, x: u32) -> Vec<(u8, u8, u8)> {
    (0..canvas.height()).map(|y| canvas.pixel(x, y).unwrap()).collect()
}

fn runs(pixels: &[(u8, u8, u8)]) -> Vec<((u8, u8, u8), usize)> {
    let mut found: Vec<((u8, u8, u8), usize)> = Vec::new();
    for pixel in pixels {
        match found.last_mut() {
            Some((color, count)) if color == pixel => *count += 1,
            _ => found.push((*pixel, 1)),
        }
    }
    found
}

#[test]
fn a_new_canvas_is_blank() {
    let canvas = RgbCanvas::new(7, 3);
    assert_eq!(canvas.width(), 7);
    assert_eq!(canvas.height(), 3);
    for y in 0..3 {
        for x in 0..7 {
            assert_eq!(canvas.pixel(x, y), Some(BLANK));
        }
    }
    assert_eq!(canvas.pixel(7, 0), None);
    assert_eq!(canvas.pixel(0, 3), None);
    assert_eq!(canvas.pixel(u32::MAX, u32::MAX), None);
    let empty = RgbCanvas::new(0, 5);
    assert_eq!(empty.width(), 0);
    assert_eq!(empty.height(), 5);
    assert_eq!(empty.pixel(0, 0), None);
}

#[test]
fn a_rectangle_fills_its_pixels_and_no_others() {
    let mut canvas = RgbCanvas::new(6, 5);
    canvas.rectangle(1, 2, 3, 2, &Color::Rgb(9, 8, 7));
    for y in 0..5 {
        for x in 0..6 {
            let inside = (1..4).contains(&x) && (2..4).contains(&y);
            let expected = if inside { (9, 8, 7) } else { BLANK };
            assert_eq!(canvas.pixel(x, y), Some(expected), "at {}, {}", x, y);
        }
    }
    canvas.rectangle(3, 3, 3, 2, &Color::Yellow);
    assert_eq!(canvas.pixel(2, 3), Some((9, 8, 7)));
    assert_eq!(canvas.pixel(3, 3), Some(YELLOW));
    assert_eq!(canvas.pixel(5, 4), Some(YELLOW));
    assert_eq!(canvas.pixel(3, 2), Some((9, 8, 7)));
    canvas.rectangle(0, 0, 0, 5, &Color::White);
    canvas.rectangle(0, 0, 6, 0, &Color::White);
    canvas.rectangle(6, 5, 0, 0, &Color::White);
    assert_eq!(canvas.pixel(0, 0), Some(BLANK));
    assert_eq!(canvas.pixel(5, 4), Some(YELLOW));
    assert_eq!(canvas.width(), 6);
    assert_eq!(canvas.height(), 5);
}

#[test]
fn a_solid_fills_the_whole_canvas() {
    assert_eq!(flag("(s r)"), FlagGeometry::Solid(Color::Red));
    let canvas = drawn("(s r)", 40, 30);
    for y in 0..30 {
        assert_eq!(runs(&row(&canvas, y)), vec![(RED, 40)]);
    }
}

#[test]
fn a_split_gives_each_child_its_share() {
    let canvas = drawn("(h 1 (s r) 2 (s g) 1 (s b))", 400, 300);
    for y in [0, 1, 150, 299] {
        assert_eq!(runs(&row(&canvas, y)), vec![(RED, 100), (GREEN, 200), (BLUE, 100)]);
    }
    let canvas = drawn("(v 1 (s r) 2 (s g) 1 (s b))", 30, 400);
    for x in [0, 15, 29] {
        assert_eq!(runs(&column(&canvas, x)), vec![(RED, 100), (GREEN, 200), (BLUE, 100)]);
    }
}

#[test]
fn what_rounding_leaves_over_stays_unpainted() {
    let canvas = drawn("(h 1 (s r) 1 (s g) 1 (s w))", 100, 4);
    for y in 0..4 {
        assert_eq!(
            runs(&row(&canvas, y)),
            vec![(RED, 33), (GREEN, 33), (WHITE, 33), (BLANK, 1)]
        );
    }
    let canvas = drawn("(v 3 (s r) 4 (s g))", 2, 10);
    assert_eq!(runs(&column(&canvas, 1)), vec![(RED, 4), (GREEN, 5), (BLANK, 1)]);
}

#[test]
fn a_child_of_no_weight_gets_no_pixels() {
    let canvas = drawn("(h 0 (s r) 1 (s g) 0 (s b) 3 (s w))", 8, 2);
    assert_eq!(runs(&row(&canvas, 0)), vec![(GREEN, 2), (WHITE, 6)]);
}

#[test]
fn splits_nest() {
    let canvas = drawn("(h 1 (v 1 (s r) 1 (s g)) 1 (v 1 (s b) 3 (s w)))", 10, 8);
    assert_eq!(runs(&column(&canvas, 0)), vec![(RED, 4), (GREEN, 4)]);
    assert_eq!(runs(&column(&canvas, 4)), vec![(RED, 4), (GREEN, 4)]);
    assert_eq!(runs(&column(&canvas, 5)), vec![(BLUE, 2), (WHITE, 6)]);
    assert_eq!(runs(&row(&canvas, 1)), vec![(RED, 5), (BLUE, 5)]);
    assert_eq!(runs(&row(&canvas, 2)), vec![(RED, 5), (WHITE, 5)]);
    assert_eq!(runs(&row(&canvas, 7)), vec![(GREEN, 5), (WHITE, 5)]);
}

#[test]
fn tagged_and_cited_parts_are_painted_alike() {
    let canvas = drawn("(h 1 (t x (s b)) 1 (r x))", 400, 300);
    for y in [0, 299] {
        assert_eq!(runs(&row(&canvas, y)), vec![(BLUE, 400)]);
    }
}

#[test]
fn the_children_that_are_left_share_the_whole_extent() {
    let canvas = drawn("(h 1 (r missing) 1 (s g))", 400, 300);
    for y in [0, 299] {
        assert_eq!(runs(&row(&canvas, y)), vec![(GREEN, 400)]);
    }
}

#[test]
fn large_weights_do_not_overflow() {
    let canvas = drawn("(h 4294967295 (s r) 4294967295 (s g))", 9, 1);
    assert_eq!(runs(&row(&canvas, 0)), vec![(RED, 4), (GREEN, 4), (BLANK, 1)]);
    let many = FlagGeometry::Horizontal(
        (0..8).map(|_| FlagElement(FlagGeometry::Solid(Color::White), u32::MAX)).collect(),
    );
    let mut canvas = RgbCanvas::new(16, 1);
    assert_eq!(many.draw(&mut canvas), Ok(()));
    assert_eq!(runs(&row(&canvas, 0)), vec![(WHITE, 16)]);
}

#[test]
fn a_split_of_no_weight_is_refused() {
    let zero = flag("(h 0 (s r) 0 (s g))");
    assert!(!zero.is_drawable());
    let mut canvas = RgbCanvas::new(5, 5);
    canvas.rectangle(0, 0, 5, 5, &Color::Yellow);
    assert_eq!(zero.draw(&mut canvas), Err(DrawError::ZeroWeightSplit));
    for y in 0..5 {
        assert_eq!(runs(&row(&canvas, y)), vec![(YELLOW, 5)]);
    }
    let empty = flag("(h 1 (r missing))");
    assert_eq!(empty, FlagGeometry::Horizontal(vec![]));
    assert_eq!(empty.draw(&mut canvas), Err(DrawError::ZeroWeightSplit));
    let deep = flag("(h 1 (s r) 1 (v 1 (s g) 0 (h 0 (s b))))");
    assert!(!deep.is_drawable());
    assert_eq!(deep.draw(&mut canvas), Err(DrawError::ZeroWeightSplit));
    for y in 0..5 {
        assert_eq!(runs(&row(&canvas, y)), vec![(YELLOW, 5)]);
    }
    assert!(flag("(h 0 (s r) 1 (s g))").is_drawable());
    assert!(flag("(s r)").is_drawable());
}

#[test]
fn a_geometry_can_be_painted_on_a_part_of_the_canvas() {
    let mut canvas = RgbCanvas::new(10, 6);
    let geometry = flag("(h 1 (s r) 1 (s g))");
    assert!(geometry.is_drawable());
    geometry.draw_area(&mut canvas, 2, 1, 6, 3);
    assert_eq!(runs(&row(&canvas, 0)), vec![(BLANK, 10)]);
    for y in 1..4 {
        assert_eq!(
            runs(&row(&canvas, y)),
            vec![(BLANK, 2), (RED, 3), (GREEN, 3), (BLANK, 2)]
        );
    }
    assert_eq!(runs(&row(&canvas, 4)), vec![(BLANK, 10)]);
}

#[test]
fn a_canvas_of_no_size_takes_any_flag() {
    let mut canvas = RgbCanvas::new(0, 0);
    assert_eq!(flag("(h 1 (s r) 2 (v 1 (s g) 1 (s b)))").draw(&mut canvas), Ok(()));
    assert_eq!(canvas.pixel(0, 0), None);
}
