use embedded_fonts::font::{BdfFont, BdfGlyph};
use embedded_fonts::geometry::{Point, Rectangle, Size};
use embedded_fonts::style::BdfTextStyle;

fn glyph(c: char, x: i32, y: i32, w: u32, h: u32, dw: u32, start: usize) -> BdfGlyph {
    BdfGlyph {
        character: c,
        bounding_box: Rectangle::new(Point::new(x, y), Size::new(w, h)),
        device_width: dw,
        start_index: start,
    }
}

const GLYPHS: [BdfGlyph; 3] = [
    BdfGlyph {
        character: 'a',
        bounding_box: Rectangle { top_left: Point { x: 0, y: -1 }, size: Size { width: 2, height: 2 } },
        device_width: 3,
        start_index: 0,
    },
    BdfGlyph {
        character: ' ',
        bounding_box: Rectangle { top_left: Point { x: 0, y: 0 }, size: Size { width: 0, height: 0 } },
        device_width: 2,
        start_index: 4,
    },
    BdfGlyph {
        character: 'a',
        bounding_box: Rectangle { top_left: Point { x: 5, y: 5 }, size: Size { width: 1, height: 1 } },
        device_width: 9,
        start_index: 4,
    },
];

// bits: 1001 then 0110...
const DATA: [u8; 1] = [0b1001_0110];

fn font() -> BdfFont<'static> {
    BdfFont { replacement_character: 1, line_height: 11, glyphs: &GLYPHS, data: &DATA }
}

#[test]
fn get_glyph_returns_first_match() {
    let f = font();
    let g = f.get_glyph('a');
    assert_eq!(g.device_width, 3);
    assert_eq!(g.bounding_box.top_left, Point::new(0, -1));
}

#[test]
fn get_glyph_falls_back_to_replacement() {
    let f = font();
    let g = f.get_glyph('z');
    assert_eq!(g.character, ' ');
    assert_eq!(g.device_width, 2);
}

#[test]
fn draw_lights_set_bits_in_row_major_order() {
    let g = glyph('a', 0, -1, 2, 2, 3, 0);
    let pixels = g.draw(Point::new(10, 20), &DATA);
    assert_eq!(pixels, vec![Point::new(10, 19), Point::new(11, 20)]);
}

#[test]
fn draw_starts_at_start_index() {
    let g = glyph('b', 0, 0, 2, 2, 3, 4);
    let pixels = g.draw(Point::new(0, 0), &DATA);
    assert_eq!(pixels, vec![Point::new(1, 0), Point::new(0, 1)]);
}

#[test]
fn draw_stops_where_data_ends() {
    let g = glyph('c', 0, 0, 3, 3, 3, 6);
    // bits 6 and 7 remain: 1, 0
    let pixels = g.draw(Point::new(0, 0), &DATA);
    assert_eq!(pixels, vec![Point::new(0, 0)]);
    let late = glyph('d', 0, 0, 3, 3, 3, 100);
    assert_eq!(late.draw(Point::new(0, 0), &DATA), vec![]);
}

#[test]
fn draw_of_empty_box_lights_nothing() {
    let g = glyph('e', 0, 0, 0, 5, 3, 0);
    assert_eq!(g.draw(Point::new(0, 0), &DATA), vec![]);
}

#[test]
fn draw_string_advances_by_device_width() {
    let f = font();
    let style = BdfTextStyle::new(&f, 7u8);
    let (groups, end) = style.draw_string("aza", Point::new(1, 2));
    assert_eq!(groups.len(), 3);
    assert_eq!(groups[0], vec![Point::new(1, 1), Point::new(2, 2)]);
    assert_eq!(groups[1], vec![]);
    assert_eq!(groups[2], vec![Point::new(6, 1), Point::new(7, 2)]);
    assert_eq!(end, Point::new(1 + 3 + 2 + 3, 2));
}

#[test]
fn measure_string_matches_draw_string() {
    let f = font();
    let style = BdfTextStyle::new(&f, 7u8);
    let m = style.measure_string("aza", Point::new(1, 2));
    assert_eq!(m.next_position, Point::new(9, 2));
    assert_eq!(m.bounding_box, Rectangle::new(Point::new(1, 2), Size::zero()));
    let (_, end) = style.draw_string("aza", Point::new(1, 2));
    assert_eq!(end, m.next_position);
}

#[test]
fn whitespace_and_line_height() {
    let f = font();
    let style = BdfTextStyle::new(&f, 7u8);
    assert_eq!(style.draw_whitespace(5, Point::new(1, 2)), Point::new(6, 2));
    assert_eq!(style.line_height(), 11);
}

#[test]
fn set_text_color_keeps_color_on_none() {
    let f = font();
    let mut style = BdfTextStyle::new(&f, 7u8);
    style.set_text_color(None);
    assert_eq!(*style.color(), 7);
    style.set_text_color(Some(9));
    assert_eq!(*style.color(), 9);
}

#[test]
fn geometry_operations() {
    let p = Point::new(3, 4).add_size(Size::new(2, 1));
    assert_eq!(p, Point::new(5, 5));
    let r = Rectangle::new(Point::new(1, 1), Size::new(3, 2)).translate(Point::new(-1, 2));
    assert_eq!(r.top_left, Point::new(0, 3));
    assert_eq!(r.grid(), (3, 2));
    let clamped = Rectangle::new(Point::new(2147483646, 0), Size::new(10, 1));
    assert_eq!(clamped.grid(), (1, 1));
    assert_eq!(Rectangle::new(Point::zero(), Size::new(0, 4)).grid(), (0, 0));
}
