//! The items that the converter writes for a font, as it writes them,
//! checked to compile against this library and to draw the font.
#![allow(non_upper_case_globals)]

use embedded_fonts::{BdfFont, BdfGlyph, Point, Rectangle, Size};

const s_glyphs:[BdfGlyph;2] = [BdfGlyph { character: '@', bounding_box: Rectangle { top_left: Point { x: 0, y: -1 }, size: Size { width: 8, height: 2 } }, device_width: 8, start_index: 0 }, BdfGlyph { character: 'A', bounding_box: Rectangle { top_left: Point { x: 1, y: 0 }, size: Size { width: 4, height: 2 } }, device_width: 8, start_index: 16 }];

static S_DATA: [u8;3] = [31, 1, 165];

pub static FONT_TEST_F_ITALICNT: BdfFont = BdfFont{
    glyphs: &s_glyphs,
    data : &S_DATA,
    line_height: 12,
    replacement_character:0,
};


#[test]
fn generated_items_compile_and_draw() {
    let font = &FONT_TEST_F_ITALICNT;
    assert_eq!(font.line_height, 12);
    let a = font.get_glyph('A');
    assert_eq!(a.bounding_box, Rectangle::new(Point::new(1, 0), Size::new(4, 2)));
    assert_eq!(
        a.draw(Point::new(10, 10), font.data),
        vec![Point::new(11, 10), Point::new(13, 10), Point::new(12, 11), Point::new(14, 11)]
    );
    let unknown: &BdfGlyph = font.get_glyph('z');
    assert_eq!(unknown.character, '@');
}
