use femtovg::shaper::{find_glyph_indexes, shape, shape_within_range};
use femtovg::{GlyphInfo, ShaperSource};

/// A face with glyphs for ASCII letters (glyph id = code point), a variation
/// glyph for 'a' + U+FE0F, and kerning between 'A' and 'V'.
struct TableFace;

impl ShaperSource for TableFace {
    // The specification functions are the answers of the methods below.
    fn spec_glyph_index(&self, unicode: char) -> Option<u32> {
        self.glyph_index(unicode)
    }

    fn spec_glyph_variation(&self, unicode: char, variation_sel: char) -> Option<u32> {
        self.glyph_variation(unicode, variation_sel)
    }

    fn spec_glyph_advance(&self, glyph_index: u32) -> (i32, i32) {
        self.glyph_advance(glyph_index)
    }

    fn spec_glyph_bearing(&self, glyph_index: u32) -> (i32, i32) {
        self.glyph_bearing(glyph_index)
    }

    fn spec_glyph_size(&self, glyph_index: u32) -> (i32, i32) {
        self.glyph_size(glyph_index)
    }

    fn spec_glyphs_kerning(&self, left: u32, right: u32) -> Option<(i32, i32)> {
        self.glyphs_kerning(left, right)
    }

    fn glyph_index(&self, unicode: char) -> Option<u32> {
        if unicode.is_ascii_alphabetic() {
            Some(unicode as u32)
        } else {
            None
        }
    }

    fn glyph_variation(&self, unicode: char, variation_sel: char) -> Option<u32> {
        if unicode == 'a' && variation_sel == '\u{FE0F}' {
            Some(1000)
        } else {
            None
        }
    }

    fn glyph_advance(&self, glyph_index: u32) -> (i32, i32) {
        (glyph_index as i32 * 10, 0)
    }

    fn glyph_bearing(&self, _glyph_index: u32) -> (i32, i32) {
        (0, 0)
    }

    fn glyph_size(&self, _glyph_index: u32) -> (i32, i32) {
        (1, 1)
    }

    fn glyphs_kerning(&self, left: u32, right: u32) -> Option<(i32, i32)> {
        if left == 'A' as u32 && right == 'V' as u32 {
            Some((-7, 1))
        } else {
            None
        }
    }
}

#[test]
fn ascii_text_maps_each_char_to_its_glyph() {
    let ids = find_glyph_indexes(&TableFace, "abc");
    assert_eq!(ids, vec![('a', 97), ('b', 98), ('c', 99)]);
}

#[test]
fn variation_sequence_takes_one_glyph() {
    let ids = find_glyph_indexes(&TableFace, "a\u{FE0F}b");
    assert_eq!(ids, vec![('a', 1000), ('b', 98)]);
}

#[test]
fn decomposed_fallback_uses_the_parts_that_exist() {
    // 'é' has no glyph; its decomposition 'e' + U+0301 has one glyph ('e').
    let ids = find_glyph_indexes(&TableFace, "\u{e9}");
    assert_eq!(ids, vec![('e', 101), ('\u{301}', 0)]);
}

#[test]
fn character_without_any_glyph_is_the_missing_glyph() {
    let ids = find_glyph_indexes(&TableFace, "1");
    assert_eq!(ids, vec![('1', 0)]);
}

#[test]
fn kerning_applies_to_the_left_glyph_of_a_pair() {
    let positions = shape(&TableFace, "AV").unwrap();
    assert_eq!(
        positions,
        vec![
            GlyphInfo { glyph_index: 65, x_advance: 650 - 7, y_advance: 1, x_offset: 0, y_offset: 0 },
            GlyphInfo { glyph_index: 86, x_advance: 860, y_advance: 0, x_offset: 0, y_offset: 0 },
        ]
    );
    assert_eq!(shape_within_range(&TableFace, "AV"), Some(positions));
}

#[test]
fn text_is_shaped_in_its_composed_form() {
    // 'e' + U+0301 composes to 'é', which has no glyph here: its
    // decomposition then gives the glyph of 'e' and the missing mark.
    let ids = find_glyph_indexes(&TableFace, "e\u{301}");
    assert_eq!(ids, vec![('e', 101), ('\u{301}', 0)]);
}

#[test]
fn a_combining_mark_without_a_glyph_shapes_to_nothing() {
    let ids = find_glyph_indexes(&TableFace, "\u{301}");
    assert_eq!(ids, vec![]);
}

/// A face whose every glyph advances as far as 32 bits go, kerned one unit
/// further against any glyph that follows it.
struct WideFace;

impl ShaperSource for WideFace {
    fn spec_glyph_index(&self, unicode: char) -> Option<u32> {
        self.glyph_index(unicode)
    }

    fn spec_glyph_variation(&self, unicode: char, variation_sel: char) -> Option<u32> {
        self.glyph_variation(unicode, variation_sel)
    }

    fn spec_glyph_advance(&self, glyph_index: u32) -> (i32, i32) {
        self.glyph_advance(glyph_index)
    }

    fn spec_glyph_bearing(&self, glyph_index: u32) -> (i32, i32) {
        self.glyph_bearing(glyph_index)
    }

    fn spec_glyph_size(&self, glyph_index: u32) -> (i32, i32) {
        self.glyph_size(glyph_index)
    }

    fn spec_glyphs_kerning(&self, left: u32, right: u32) -> Option<(i32, i32)> {
        self.glyphs_kerning(left, right)
    }

    fn glyph_index(&self, unicode: char) -> Option<u32> {
        Some(unicode as u32)
    }

    fn glyph_variation(&self, _unicode: char, _variation_sel: char) -> Option<u32> {
        None
    }

    fn glyph_advance(&self, _glyph_index: u32) -> (i32, i32) {
        (i32::MAX, 0)
    }

    fn glyph_bearing(&self, _glyph_index: u32) -> (i32, i32) {
        (0, 0)
    }

    fn glyph_size(&self, _glyph_index: u32) -> (i32, i32) {
        (1, 1)
    }

    fn glyphs_kerning(&self, _left: u32, _right: u32) -> Option<(i32, i32)> {
        Some((1, 0))
    }
}

#[test]
fn an_advance_past_32_bits_shapes_nothing() {
    assert_eq!(shape_within_range(&WideFace, "ab"), None);
    let single = shape_within_range(&WideFace, "a").unwrap();
    assert_eq!(single, vec![GlyphInfo { glyph_index: 97, x_advance: i32::MAX, y_advance: 0, x_offset: 0, y_offset: 0 }]);
}
