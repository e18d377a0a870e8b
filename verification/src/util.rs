//! Conversion of BDF files into Rust source text that declares the glyph
//! table, the data length, the replacement index and the line height as
//! public constants beside the static `BdfFont`.

use vstd::prelude::*;

use crate::convert::{chars_where, checked_font, export, pack, parse_and_convert, replacement_index, requested_of, ConvError};
use crate::font::{BdfFont, BdfGlyph};
use crate::render::{
    byte_list_text, constant_name, constant_name_text, dec_nat, glyph_list_text, push_byte_list, push_decimal,
    push_glyph_list,
};
use crate::text::string_of;

verus! {

/// The Rust source text, importing this library's `BdfGlyph`, `BdfFont`,
/// `Point`, `Rectangle` and `Size`, that declares a converted font with its glyph
/// table, data length, replacement index and line height as public
/// constants, and a static `BdfFont` named after the file stem.
pub open spec fn code_text(
    glyphs: Seq<BdfGlyph>,
    data: Seq<u8>,
    line_height: u32,
    replacement: usize,
    scope: Seq<char>,
    path: Seq<char>,
    stem: Seq<char>,
) -> Seq<char> {
    "\n// GENERATED CODE by convert-bdf in tools\n//\n// it only generate 3 parts: S_GLYPHS, s_data, and final "@
        + constant_name_text(stem)
        + ".\n// You maybe reorganize according to your needs. For example, put the s_data into eeprom, \n// write your code reading them from eeprom, build a BdfFont instance with reference to "@
        + constant_name_text(stem)
        + ". \n//\npub use  unformatted::"@
        + constant_name_text(stem)
        + ";\n//pub use unformatted::{LINE_HEIGHT, REPLACEMENT_CHARACTER, S_DATA_LEN, S_GLYPHS};\n#[rustfmt::skip]\nmod unformatted {\n    use embedded_fonts::{BdfGlyph,BdfFont};\n    use embedded_fonts::{Point, Rectangle, Size};\n\n    pub const S_GLYPHS:[BdfGlyph;"@
        + dec_nat(glyphs.len())
        + "] = "@
        + glyph_list_text(glyphs)
        + ";\n    pub const S_DATA_LEN:usize = "@
        + dec_nat(data.len())
        + ";\n    pub const REPLACEMENT_CHARACTER:usize = "@
        + dec_nat(replacement as nat)
        + ";\n    pub const LINE_HEIGHT:u32 = "@
        + dec_nat(line_height as nat)
        + ";\n\n    /// maybe you want store it in special secion(e.g. .eeprom), you can use below attributes\n    /// ```no_run\n    /// #[no_mangle]\n    /// #[link_section = \".eeprom\"]\n    /// ```\n    static S_DATA: [u8;S_DATA_LEN] = "@
        + byte_list_text(data)
        + ";\n    \n    /// maybe you comment it, but use youself. e.g. store the data in eeprom, read data from eeprom and you contruct by youself.\n    /// glyphs code include: \""@
        + scope
        + "\"\n    /// orig bdf file is "@
        + path
        + " \n    pub static  "@
        + constant_name_text(stem)
        + ": BdfFont = BdfFont{\n        glyphs: &S_GLYPHS,\n        data : &S_DATA,\n        line_height: LINE_HEIGHT,\n        replacement_character:REPLACEMENT_CHARACTER,\n    };\n}    \n"@
}

/// The Rust source text that declares `mf`, converted from the BDF file at
/// `bdf_path` whose file stem is `file_stem`, listing `code_scope` as the
/// characters it covers; `None` for a font without glyphs.
pub fn to_rust_code(mf: &BdfFont, bdf_path: &str, file_stem: &str, code_scope: &String) -> (r: Option<String>)
    ensures
        mf.glyphs@.len() == 0 ==> r is None,
        mf.glyphs@.len() > 0 ==> (r matches Some(s) && s@ == code_text(
            mf.glyphs@,
            mf.data@,
            mf.line_height,
            mf.replacement_character,
            code_scope@,
            bdf_path@,
            file_stem@,
        )),
{
    if mf.glyphs.len() == 0 {
        return None;
    }
    let name = constant_name(file_stem);
    let mut s = String::new();
    s.append("\n// GENERATED CODE by convert-bdf in tools\n//\n// it only generate 3 parts: S_GLYPHS, s_data, and final ");
    s.append(name.as_str());
    s.append(".\n// You maybe reorganize according to your needs. For example, put the s_data into eeprom, \n// write your code reading them from eeprom, build a BdfFont instance with reference to ");
    s.append(name.as_str());
    s.append(". \n//\npub use  unformatted::");
    s.append(name.as_str());
    s.append(";\n//pub use unformatted::{LINE_HEIGHT, REPLACEMENT_CHARACTER, S_DATA_LEN, S_GLYPHS};\n#[rustfmt::skip]\nmod unformatted {\n    use embedded_fonts::{BdfGlyph,BdfFont};\n    use embedded_fonts::{Point, Rectangle, Size};\n\n    pub const S_GLYPHS:[BdfGlyph;");
    push_decimal(&mut s, mf.glyphs.len() as u64);
    s.append("] = ");
    push_glyph_list(&mut s, mf.glyphs);
    s.append(";\n    pub const S_DATA_LEN:usize = ");
    push_decimal(&mut s, mf.data.len() as u64);
    s.append(";\n    pub const REPLACEMENT_CHARACTER:usize = ");
    push_decimal(&mut s, mf.replacement_character as u64);
    s.append(";\n    pub const LINE_HEIGHT:u32 = ");
    push_decimal(&mut s, mf.line_height as u64);
    s.append(";\n\n    /// maybe you want store it in special secion(e.g. .eeprom), you can use below attributes\n    /// ```no_run\n    /// #[no_mangle]\n    /// #[link_section = \".eeprom\"]\n    /// ```\n    static S_DATA: [u8;S_DATA_LEN] = ");
    push_byte_list(&mut s, mf.data);
    s.append(";\n    \n    /// maybe you comment it, but use youself. e.g. store the data in eeprom, read data from eeprom and you contruct by youself.\n    /// glyphs code include: \"");
    s.append(code_scope.as_str());
    s.append("\"\n    /// orig bdf file is ");
    s.append(bdf_path);
    s.append(" \n    pub static  ");
    s.append(name.as_str());
    s.append(": BdfFont = BdfFont{\n        glyphs: &S_GLYPHS,\n        data : &S_DATA,\n        line_height: LINE_HEIGHT,\n        replacement_character:REPLACEMENT_CHARACTER,\n    };\n}    \n");
    assert(s@ =~= code_text(
        mf.glyphs@,
        mf.data@,
        mf.line_height,
        mf.replacement_character,
        code_scope@,
        bdf_path@,
        file_stem@,
    ));
    Some(s)
}

/// Converts the BDF file `bdf` (read from `bdf_path`, whose file stem is
/// `file_stem`) into Rust source text, exporting the glyphs of `characters`
/// (all glyphs when none are given). Returns the text and the requested
/// characters that the font lacks; `None` when no glyph is exported; an
/// error when the file does not parse, an exported glyph does not convert or
/// the font has no integer pixel size.
pub fn conv_bdf(bdf: &[u8], bdf_path: &str, file_stem: &str, characters: Option<String>) -> (r: Result<Option<(String, String)>, ConvError>)
    ensures
        match checked_font(bdf@, requested_of(characters)) {
            Err(e) => r == Err::<Option<(String, String)>, ConvError>(e),
            Ok(f) => {
                let req = requested_of(characters);
                let st = export(f.glyphs, req);
                if st.glyphs.len() == 0 {
                    r == Ok::<Option<(String, String)>, ConvError>(None)
                } else {
                    r matches Ok(Some((code, left))) && code@ == code_text(
                        st.glyphs,
                        pack(st.bits),
                        f.pixel_size->0 as u32,
                        replacement_index(st),
                        chars_where(req, f.glyphs, true),
                        bdf_path@,
                        file_stem@,
                    ) && left@ == chars_where(req, f.glyphs, false)
                }
            },
        },
{
    let c = match parse_and_convert(bdf, &characters) {
        Ok(c) => c,
        Err(e) => return Err(e),
    };
    let font = BdfFont {
        replacement_character: c.replacement_character,
        line_height: c.line_height,
        glyphs: c.glyphs.as_slice(),
        data: c.data.as_slice(),
    };
    let scope = string_of(&c.scope);
    match to_rust_code(&font, bdf_path, file_stem, &scope) {
        None => Ok(None),
        Some(code) => Ok(Some((code, string_of(&c.left)))),
    }
}

} // verus!
