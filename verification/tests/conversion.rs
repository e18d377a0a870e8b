use embedded_fonts::conv;
use embedded_fonts::convert::{bits_to_bytes, convert_font, glyph_literal, ConvError};
use embedded_fonts::font::{BdfFont, BdfGlyph};
use embedded_fonts::geometry::{Point, Rectangle, Size};
use embedded_fonts::render::{constant_name, push_decimal, push_int};
use embedded_fonts::source::{BoundingBox, Coord, SourceFont, SourceGlyph};
use embedded_fonts::util;

const BDF: &str = "STARTFONT 2.1
FONT \"test font\"
SIZE 16 75 75
FONTBOUNDINGBOX 16 24 0 0
STARTPROPERTIES 2
PIXEL_SIZE 12
FONT_ASCENT 1
ENDPROPERTIES
STARTCHAR Char 0
ENCODING 64
DWIDTH 8 0
BBX 8 2 0 0
BITMAP
1f
01
ENDCHAR
STARTCHAR Char 1
ENCODING 65
DWIDTH 8 0
BBX 4 2 1 -1
BITMAP
a0
50
ENDCHAR
ENDFONT
";

const BIN_ALL: &str = "\n// GENERATED CODE by convert-bdf in tools\n//\n// it only output 3 parts: s_glyphs, s_data, and final FONT_TEST_F_ITALICNT.\n// You maybe reorganize according to your needs. For example, put the s_data into eeprom, \n// write you code that read it from eeprom, build a BdfFont instance with reference to FONT_TEST_F_ITALICNT and delete FONT_TEST_F_ITALICNT. \n//\npub use  unformatted::FONT_TEST_F_ITALICNT;\n#[rustfmt::skip]\nmod unformatted {\n    use embedded_fonts::{BdfGlyph,BdfFont};\n    use embedded_fonts::{Point, Rectangle, Size};\n\n    const s_glyphs:[BdfGlyph;2] = [BdfGlyph { character: '@', bounding_box: Rectangle { top_left: Point { x: 0, y: -1 }, size: Size { width: 8, height: 2 } }, device_width: 8, start_index: 0 }, BdfGlyph { character: 'A', bounding_box: Rectangle { top_left: Point { x: 1, y: 0 }, size: Size { width: 4, height: 2 } }, device_width: 8, start_index: 16 }];\n\n    /// maybe you want store it in special secion(e.g. .eeprom), you can use below attributes\n    /// ```no_run\n    /// #[no_mangle]\n    /// #[link_section = \".eeprom\"]\n    /// ```\n    static S_DATA: [u8;3] = [31, 1, 165];\n    \n    /// glyphs is [BdfGlyph;2], data is [u8;3]. \n    /// glyphs code include: \"\"\n    /// orig bdf file is fonts/test_font.bdf \n    pub static  FONT_TEST_F_ITALICNT: BdfFont = BdfFont{\n        glyphs: &s_glyphs,\n        data : &S_DATA,\n        line_height: 12,\n        replacement_character:0,\n    };\n}    \n";
const TOOL_ALL: &str = "\n// GENERATED CODE by convert-bdf in tools\n//\n// it only generate 3 parts: S_GLYPHS, s_data, and final FONT_TEST_F_ITALICNT.\n// You maybe reorganize according to your needs. For example, put the s_data into eeprom, \n// write your code reading them from eeprom, build a BdfFont instance with reference to FONT_TEST_F_ITALICNT. \n//\npub use  unformatted::FONT_TEST_F_ITALICNT;\n//pub use unformatted::{LINE_HEIGHT, REPLACEMENT_CHARACTER, S_DATA_LEN, S_GLYPHS};\n#[rustfmt::skip]\nmod unformatted {\n    use embedded_fonts::{BdfGlyph,BdfFont};\n    use embedded_fonts::{Point, Rectangle, Size};\n\n    pub const S_GLYPHS:[BdfGlyph;2] = [BdfGlyph { character: '@', bounding_box: Rectangle { top_left: Point { x: 0, y: -1 }, size: Size { width: 8, height: 2 } }, device_width: 8, start_index: 0 }, BdfGlyph { character: 'A', bounding_box: Rectangle { top_left: Point { x: 1, y: 0 }, size: Size { width: 4, height: 2 } }, device_width: 8, start_index: 16 }];\n    pub const S_DATA_LEN:usize = 3;\n    pub const REPLACEMENT_CHARACTER:usize = 0;\n    pub const LINE_HEIGHT:u32 = 12;\n\n    /// maybe you want store it in special secion(e.g. .eeprom), you can use below attributes\n    /// ```no_run\n    /// #[no_mangle]\n    /// #[link_section = \".eeprom\"]\n    /// ```\n    static S_DATA: [u8;S_DATA_LEN] = [31, 1, 165];\n    \n    /// maybe you comment it, but use youself. e.g. store the data in eeprom, read data from eeprom and you contruct by youself.\n    /// glyphs code include: \"\"\n    /// orig bdf file is fonts/test_font.bdf \n    pub static  FONT_TEST_F_ITALICNT: BdfFont = BdfFont{\n        glyphs: &S_GLYPHS,\n        data : &S_DATA,\n        line_height: LINE_HEIGHT,\n        replacement_character:REPLACEMENT_CHARACTER,\n    };\n}    \n";
const BIN_A: &str = "\n// GENERATED CODE by convert-bdf in tools\n//\n// it only output 3 parts: s_glyphs, s_data, and final FONT_TEST_F_ITALICNT.\n// You maybe reorganize according to your needs. For example, put the s_data into eeprom, \n// write you code that read it from eeprom, build a BdfFont instance with reference to FONT_TEST_F_ITALICNT and delete FONT_TEST_F_ITALICNT. \n//\npub use  unformatted::FONT_TEST_F_ITALICNT;\n#[rustfmt::skip]\nmod unformatted {\n    use embedded_fonts::{BdfGlyph,BdfFont};\n    use embedded_fonts::{Point, Rectangle, Size};\n\n    const s_glyphs:[BdfGlyph;1] = [BdfGlyph { character: 'A', bounding_box: Rectangle { top_left: Point { x: 1, y: 0 }, size: Size { width: 4, height: 2 } }, device_width: 8, start_index: 0 }];\n\n    /// maybe you want store it in special secion(e.g. .eeprom), you can use below attributes\n    /// ```no_run\n    /// #[no_mangle]\n    /// #[link_section = \".eeprom\"]\n    /// ```\n    static S_DATA: [u8;1] = [165];\n    \n    /// glyphs is [BdfGlyph;1], data is [u8;1]. \n    /// glyphs code include: \"A\"\n    /// orig bdf file is fonts/test_font.bdf \n    pub static  FONT_TEST_F_ITALICNT: BdfFont = BdfFont{\n        glyphs: &s_glyphs,\n        data : &S_DATA,\n        line_height: 12,\n        replacement_character:0,\n    };\n}    \n";

fn source_glyph(c: Option<char>, w: i32, h: i32, ox: i32, oy: i32, dw: i32, bitmap: Vec<u8>) -> SourceGlyph {
    SourceGlyph {
        encoding: c,
        device_width: Coord { x: dw, y: 0 },
        bounding_box: BoundingBox { size: Coord { x: w, y: h }, offset: Coord { x: ox, y: oy } },
        bitmap,
    }
}

#[test]
fn bits_to_bytes_packs_msb_first() {
    let bits = [true, false, false, true, false, false, false, false, true, true];
    assert_eq!(bits_to_bytes(&bits), vec![0x90, 0xc0]);
    assert_eq!(bits_to_bytes(&[]), Vec::<u8>::new());
    assert_eq!(bits_to_bytes(&[true; 8]), vec![0xff]);
}

#[test]
fn glyph_literal_flattens_rows() {
    let g = source_glyph(Some('A'), 4, 2, 1, -1, 8, vec![0xa0, 0x50]);
    let (bits, lit) = glyph_literal(&g, 16);
    assert_eq!(bits, vec![true, false, true, false, false, true, false, true]);
    assert_eq!(lit.character, 'A');
    assert_eq!(lit.bounding_box, Rectangle::new(Point::new(1, 0), Size::new(4, 2)));
    assert_eq!(lit.device_width, 8);
    assert_eq!(lit.start_index, 16);
}

#[test]
fn glyph_literal_takes_signed_values_as_unsigned() {
    let g = source_glyph(Some('x'), -3, 0, 0, 2, -1, vec![]);
    let (bits, lit) = glyph_literal(&g, 0);
    assert!(bits.is_empty());
    assert_eq!(lit.bounding_box.size, Size::new(4294967293, 0));
    assert_eq!(lit.bounding_box.top_left, Point::new(0, -1));
    assert_eq!(lit.device_width, 4294967295);
}

#[test]
fn source_pixel_reads_bitmap_rows() {
    let g = source_glyph(Some('A'), 9, 2, 0, 0, 8, vec![0x80, 0x80, 0x00, 0x80]);
    assert!(g.pixel(0, 0));
    assert!(g.pixel(8, 0));
    assert!(!g.pixel(1, 0));
    assert!(!g.pixel(0, 1));
    assert!(g.pixel(8, 1));
}

fn sample_font() -> SourceFont {
    SourceFont {
        glyphs: vec![
            source_glyph(Some(' '), 1, 1, 0, 0, 4, vec![0x00]),
            source_glyph(None, 1, 1, 0, 0, 4, vec![0x80]),
            source_glyph(Some('a'), 2, 1, 0, 0, 3, vec![0xc0]),
            source_glyph(Some('\u{FFFD}'), 1, 1, 0, 0, 5, vec![0x80]),
            source_glyph(Some(' '), 1, 1, 0, 0, 6, vec![0x80]),
        ],
        pixel_size: Some(-1),
    }
}

#[test]
fn convert_font_exports_all_encoded_glyphs() {
    let c = convert_font(&sample_font(), &None);
    let chars: Vec<char> = c.glyphs.iter().map(|g| g.character).collect();
    assert_eq!(chars, vec![' ', 'a', '\u{FFFD}', ' ']);
    let starts: Vec<usize> = c.glyphs.iter().map(|g| g.start_index).collect();
    assert_eq!(starts, vec![0, 1, 3, 4]);
    // bits: 0, 1 1, 1, 1
    assert_eq!(c.data, vec![0b0111_1000]);
    assert_eq!(c.replacement_character, 2);
    assert_eq!(c.line_height, 4294967295);
    assert!(c.scope.is_empty());
    assert!(c.left.is_empty());
}

#[test]
fn convert_font_replacement_prefers_first_space() {
    let mut f = sample_font();
    f.glyphs.remove(3);
    let c = convert_font(&f, &None);
    assert_eq!(c.replacement_character, 0);
    let c = convert_font(&f, &Some(String::from("a")));
    assert_eq!(c.replacement_character, 0);
    assert_eq!(c.glyphs.len(), 1);
}

#[test]
fn convert_font_filters_requested_characters() {
    let c = convert_font(&sample_font(), &Some(String::from("zaza ")));
    let chars: Vec<char> = c.glyphs.iter().map(|g| g.character).collect();
    assert_eq!(chars, vec![' ', 'a', ' ']);
    assert_eq!(c.replacement_character, 0);
    assert_eq!(c.scope, vec!['a', ' ']);
    assert_eq!(c.left, vec!['z']);
    assert_eq!(c.data, vec![0b0111_0000]);
}

#[test]
fn decimal_and_constant_names() {
    let mut s = String::new();
    push_decimal(&mut s, 0);
    s.push(' ');
    push_decimal(&mut s, 1234567890);
    s.push(' ');
    push_int(&mut s, -2147483648);
    assert_eq!(s, "0 1234567890 -2147483648");
    assert_eq!(constant_name("wenquanyi_12pt"), "FONT_WENQUANYI_12PT");
    assert_eq!(constant_name("bob"), "FONT__BOLD_ITALIC_BOLD");
    assert_eq!(constant_name("t\u{e9}st"), "FONT_T\u{e9}ST");
}

#[test]
fn conv_bdf_writes_whole_font() {
    let r = conv::conv_bdf(BDF.as_bytes(), "fonts/test_font.bdf", "test_font", None);
    assert_eq!(r, Ok(Some((String::from(BIN_ALL), String::new()))));
}

#[test]
fn conv_bdf_reports_missing_characters() {
    let r = conv::conv_bdf(BDF.as_bytes(), "fonts/test_font.bdf", "test_font", Some(String::from("Az")));
    assert_eq!(r, Ok(Some((String::from(BIN_A), String::from("z")))));
}

#[test]
fn conv_bdf_without_glyphs_gives_none() {
    let r = conv::conv_bdf(BDF.as_bytes(), "fonts/test_font.bdf", "test_font", Some(String::from("zq")));
    assert_eq!(r, Ok(None));
}

#[test]
fn tool_conv_bdf_writes_constants() {
    let r = util::conv_bdf(BDF.as_bytes(), "fonts/test_font.bdf", "test_font", None);
    assert_eq!(r, Ok(Some((String::from(TOOL_ALL), String::new()))));
}

#[test]
fn conv_bdf_errors() {
    assert_eq!(conv::conv_bdf(b"not a font", "x.bdf", "x", None), Err(ConvError::BadFormat));
    let no_size = BDF.replace("PIXEL_SIZE 12\n", "").replace("STARTPROPERTIES 2", "STARTPROPERTIES 1");
    assert_eq!(conv::conv_bdf(no_size.as_bytes(), "x.bdf", "x", None), Err(ConvError::MissingPixelSize));
    let short = BDF.replace("a0\n50\n", "a0\n");
    assert_eq!(conv::conv_bdf(short.as_bytes(), "x.bdf", "x", None), Err(ConvError::InvalidGlyph));
    // the short glyph is not exported, so conversion succeeds
    assert!(matches!(conv::conv_bdf(short.as_bytes(), "x.bdf", "x", Some(String::from("@"))), Ok(Some(_))));
}

#[test]
fn to_rust_code_escapes_characters_as_debug_does() {
    let glyphs = [
        BdfGlyph {
            character: '\'',
            bounding_box: Rectangle::new(Point::new(-2, 3), Size::new(1, 0)),
            device_width: 7,
            start_index: 0,
        },
        BdfGlyph {
            character: '"',
            bounding_box: Rectangle::new(Point::new(0, 0), Size::new(0, 0)),
            device_width: 1,
            start_index: 12,
        },
    ];
    let data = [0u8, 255];
    let font = BdfFont { replacement_character: 1, line_height: 9, glyphs: &glyphs, data: &data };
    let code = conv::to_rust_code(&font, "a.bdf", "a", &String::from("x")).unwrap();
    let expected_glyphs = "[BdfGlyph { character: '\\'', bounding_box: Rectangle { top_left: Point { x: -2, y: 3 }, size: Size { width: 1, height: 0 } }, device_width: 7, start_index: 0 }, BdfGlyph { character: '\"', bounding_box: Rectangle { top_left: Point { x: 0, y: 0 }, size: Size { width: 0, height: 0 } }, device_width: 1, start_index: 12 }]";
    assert!(code.contains(&format!("const s_glyphs:[BdfGlyph;2] = {};", expected_glyphs)));
    assert!(code.contains("static S_DATA: [u8;2] = [0, 255];"));
    assert!(code.contains("line_height: 9,"));
    assert!(code.contains("replacement_character:1,"));
    assert!(code.contains("pub use  unformatted::FONT_A;"));
    let empty = BdfFont { replacement_character: 0, line_height: 9, glyphs: &[], data: &data };
    assert_eq!(conv::to_rust_code(&empty, "a.bdf", "a", &String::new()), None);
}

#[test]
fn converted_glyph_draws_source_pixels() {
    let f = SourceFont {
        glyphs: vec![
            source_glyph(Some('@'), 8, 2, 0, 0, 8, vec![0x1f, 0x01]),
            source_glyph(Some('A'), 4, 2, 1, -1, 8, vec![0xa0, 0x50]),
        ],
        pixel_size: Some(12),
    };
    let c = convert_font(&f, &None);
    let font = BdfFont { replacement_character: c.replacement_character, line_height: c.line_height, glyphs: &c.glyphs, data: &c.data };
    let a = font.get_glyph('A');
    assert_eq!(
        a.draw(Point::new(10, 10), font.data),
        vec![Point::new(11, 10), Point::new(13, 10), Point::new(12, 11), Point::new(14, 11)]
    );
    let at = font.get_glyph('@');
    assert_eq!(at.draw(Point::new(0, 1), font.data).len(), 6);
    for x in 0..8 {
        for y in 0..2 {
            let lit = at.draw(Point::new(0, 1), font.data).contains(&Point::new(x, y));
            assert_eq!(lit, f.glyphs[0].pixel(x as usize, y as usize));
        }
    }
}
