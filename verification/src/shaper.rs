//! Text shaping without a shaping engine: characters to glyph ids, with
//! canonical composition, variation selectors, decomposition fallback and
//! pairwise kerning.
use vstd::prelude::*;

use unicode_normalization::UnicodeNormalization;

verus! {

/// The Unicode Normalization Form C (canonical decomposition followed by
/// canonical composition) of `text`, as computed by the
/// `unicode-normalization` crate's `nfc` iterator.
pub uninterp spec fn nfc(text: Seq<char>) -> Seq<char>;

/// Whether `c` is a combining mark (general category M), as answered by the
/// `unicode-normalization` crate's `char::is_combining_mark`.
pub uninterp spec fn combining_mark(c: char) -> bool;

/// The full canonical decomposition of `c`, as emitted by the
/// `unicode-normalization` crate's `char::decompose_canonical`.
pub uninterp spec fn canonical_decomposition(c: char) -> Seq<char>;

/// Appends `c` to `v`.
pub fn push_char(v: &mut Vec<char>, c: char)
    ensures
        final(v)@ == old(v)@.push(c),
{
    v.push(c);
}

/// Collects the characters of `text` in Normalization Form C through
/// `UnicodeNormalization::nfc` of `unicode-normalization`; the contract only
/// names the result (`nfc`), it does not describe the normalization.
#[verifier::external_body]
fn nfc_chars(text: &str) -> (r: Vec<char>)
    ensures
        r@ == nfc(text@),
{
    text.nfc().collect()
}

/// `unicode_normalization::char::is_combining_mark`; the contract names the
/// answer (`combining_mark`) without restating the character tables.
#[verifier::external_body]
fn is_combining_mark(c: char) -> (r: bool)
    ensures
        r == combining_mark(c),
{
    unicode_normalization::char::is_combining_mark(c)
}

/// `unicode_normalization::char::decompose_canonical`, with the characters it
/// emits collected in order. The contract names them
/// (`canonical_decomposition`) and states what the crate's source shows for
/// 7-bit ASCII: such a character is emitted alone, unchanged.
#[verifier::external_body]
fn decompose_canonical(c: char) -> (r: Vec<char>)
    ensures
        r@ == canonical_decomposition(c),
        (c as u32) <= 0x7f ==> r@ == seq![c],
{
    let mut out = Vec::new();
    unicode_normalization::char::decompose_canonical(c, |d| push_char(&mut out, d));
    out
}

/// A source of glyph data for one font face at one size.
pub trait ShaperSource {
    /// The glyph the face maps `unicode` to, if any.
    spec fn spec_glyph_index(&self, unicode: char) -> Option<u32>;

    /// The glyph of the variation sequence `unicode`, `variation_sel`, if any.
    spec fn spec_glyph_variation(&self, unicode: char, variation_sel: char) -> Option<u32>;

    /// The (x, y) advance of a glyph.
    spec fn spec_glyph_advance(&self, glyph_index: u32) -> (i32, i32);

    /// The (x, y) bearing of a glyph.
    spec fn spec_glyph_bearing(&self, glyph_index: u32) -> (i32, i32);

    /// The (width, height) of a glyph.
    spec fn spec_glyph_size(&self, glyph_index: u32) -> (i32, i32);

    /// The (x, y) kerning between two glyphs, if the face kerns them.
    spec fn spec_glyphs_kerning(&self, left_glyph_index: u32, right_glyph_index: u32) -> Option<(i32, i32)>;

    /// The glyph the face maps `unicode` to, if any.
    fn glyph_index(&self, unicode: char) -> (r: Option<u32>)
        ensures
            r == self.spec_glyph_index(unicode),
    ;

    /// The glyph of the variation sequence `unicode`, `variation_sel`, if any.
    fn glyph_variation(&self, unicode: char, variation_sel: char) -> (r: Option<u32>)
        ensures
            r == self.spec_glyph_variation(unicode, variation_sel),
    ;

    /// The (x, y) advance of a glyph.
    fn glyph_advance(&self, glyph_index: u32) -> (r: (i32, i32))
        ensures
            r == self.spec_glyph_advance(glyph_index),
    ;

    /// The (x, y) bearing of a glyph.
    fn glyph_bearing(&self, glyph_index: u32) -> (r: (i32, i32))
        ensures
            r == self.spec_glyph_bearing(glyph_index),
    ;

    /// The (width, height) of a glyph.
    fn glyph_size(&self, glyph_index: u32) -> (r: (i32, i32))
        ensures
            r == self.spec_glyph_size(glyph_index),
    ;

    /// The (x, y) kerning between two glyphs, if the face kerns them.
    fn glyphs_kerning(&self, left_glyph_index: u32, right_glyph_index: u32) -> (r: Option<(i32, i32)>)
        ensures
            r == self.spec_glyphs_kerning(left_glyph_index, right_glyph_index),
    ;
}

/// The position of one shaped glyph.
#[derive(Copy, Clone, Debug, PartialEq, Eq, Structural)]
pub struct GlyphInfo {
    /// The glyph id in the face.
    pub glyph_index: u32,
    /// How far the pen moves right after the glyph.
    pub x_advance: i32,
    /// How far the pen moves down after the glyph.
    pub y_advance: i32,
    /// Horizontal offset of the glyph from the pen.
    pub x_offset: i32,
    /// Vertical offset of the glyph from the pen.
    pub y_offset: i32,
}

/// The errors of the shaper.
#[derive(Debug)]
pub enum ShaperError {
    /// A general error with a message.
    GeneralError(String),
}

/// The glyph id, or 0 (the missing-glyph id) when there is none.
pub open spec fn glyph_or_missing(g: Option<u32>) -> u32 {
    match g {
        Some(g) => g,
        None => 0,
    }
}

/// The decomposition of `c` paired with the glyph of each of its parts (0 where missing).
pub open spec fn decomposed_glyphs<S: ShaperSource>(source: &S, c: char) -> Seq<(char, u32)> {
    canonical_decomposition(c).map_values(|d: char| (d, glyph_or_missing(source.spec_glyph_index(d))))
}

/// Whether no part of a decomposition has a glyph.
pub open spec fn all_missing(parts: Seq<(char, u32)>) -> bool {
    forall|i: int| 0 <= i < parts.len() ==> #[trigger] parts[i].1 == 0
}

/// The glyphs one character (not part of a variation sequence) shapes to: its
/// own glyph; else, unless it is a combining mark, the glyphs of its
/// canonical decomposition, or the missing glyph when none of them exists. A
/// combining mark without a glyph shapes to nothing.
pub open spec fn char_glyphs<S: ShaperSource>(source: &S, c: char) -> Seq<(char, u32)> {
    match source.spec_glyph_index(c) {
        Some(g) => seq![(c, g)],
        None => if combining_mark(c) {
            Seq::empty()
        } else if all_missing(decomposed_glyphs(source, c)) {
            seq![(c, 0u32)]
        } else {
            decomposed_glyphs(source, c)
        },
    }
}

/// The (character, glyph) pairs `chars` shapes to, left to right: a
/// character and the next one form one glyph when the face has a glyph for
/// that variation sequence; any other character shapes by `char_glyphs`.
pub open spec fn glyph_ids<S: ShaperSource>(source: &S, chars: Seq<char>) -> Seq<(char, u32)>
    decreases chars.len(),
{
    if chars.len() == 0 {
        Seq::empty()
    } else if chars.len() >= 2 && source.spec_glyph_variation(chars[0], chars[1]) is Some {
        seq![(chars[0], source.spec_glyph_variation(chars[0], chars[1])->0)] + glyph_ids(
            source,
            chars.skip(2),
        )
    } else {
        char_glyphs(source, chars[0]) + glyph_ids(source, chars.drop_first())
    }
}

/// The kerning between the glyph at `i` and the next one, if there is a next one.
pub open spec fn kerning_after<S: ShaperSource>(source: &S, ids: Seq<(char, u32)>, i: int) -> Option<
    (i32, i32),
> {
    if i + 1 < ids.len() {
        source.spec_glyphs_kerning(ids[i].1, ids[i + 1].1)
    } else {
        None
    }
}

/// The advance of the glyph at `i`, kerned against the next glyph, as integers.
pub open spec fn kerned_advance<S: ShaperSource>(source: &S, ids: Seq<(char, u32)>, i: int) -> (int, int) {
    let advance = source.spec_glyph_advance(ids[i].1);
    match kerning_after(source, ids, i) {
        Some(k) => (advance.0 + k.0, advance.1 + k.1),
        None => (advance.0 as int, advance.1 as int),
    }
}

/// Every kerned advance of `ids` fits in 32 bits.
pub open spec fn advances_fit<S: ShaperSource>(source: &S, ids: Seq<(char, u32)>) -> bool {
    forall|i: int|
        0 <= i < ids.len() ==> i32::MIN <= #[trigger] kerned_advance(source, ids, i).0 <= i32::MAX
            && i32::MIN <= kerned_advance(source, ids, i).1 <= i32::MAX
}

/// The position of the glyph at `i`: its kerned advance and no offset.
pub open spec fn shaped_glyph<S: ShaperSource>(source: &S, ids: Seq<(char, u32)>, i: int) -> GlyphInfo {
    GlyphInfo {
        glyph_index: ids[i].1,
        x_advance: kerned_advance(source, ids, i).0 as i32,
        y_advance: kerned_advance(source, ids, i).1 as i32,
        x_offset: 0,
        y_offset: 0,
    }
}

/// The positions `ids` shape to, one per glyph.
pub open spec fn shaped_glyphs<S: ShaperSource>(source: &S, ids: Seq<(char, u32)>) -> Seq<GlyphInfo> {
    Seq::new(ids.len(), |i: int| shaped_glyph(source, ids, i))
}

/// The glyph ids `text` shapes to (see `glyph_ids`), computed over the text
/// in Normalization Form C, whose composed characters a face is more likely
/// to have glyphs for.
pub fn find_glyph_indexes<S: ShaperSource>(source: &S, text: &str) -> (ids: Vec<(char, u32)>)
    ensures
        ids@ == glyph_ids(source, nfc(text@)),
{
    let chars = nfc_chars(text);
    let mut ids: Vec<(char, u32)> = Vec::new();
    let mut i: usize = 0;
    assert(chars@.skip(0) =~= chars@);
    while i < chars.len()
        invariant
            i <= chars@.len(),
            chars@ == nfc(text@),
            ids@ + glyph_ids(source, chars@.skip(i as int)) == glyph_ids(source, chars@),
        decreases chars@.len() - i,
    {
        let ghost rest = chars@.skip(i as int);
        let c = chars[i];
        assert(rest[0] == c);
        if i + 1 < chars.len() {
            let next = chars[i + 1];
            assert(rest[1] == next);
            if let Some(variation_id) = source.glyph_variation(c, next) {
                assert(rest.skip(2) =~= chars@.skip(i + 2));
                ids.push((c, variation_id));
                assert(ids@ + glyph_ids(source, chars@.skip(i + 2)) =~= glyph_ids(source, chars@));
                i += 2;
                continue;
            }
        }
        assert(rest.drop_first() =~= chars@.skip(i + 1));
        let ghost before = ids@;
        if let Some(glyph_id) = source.glyph_index(c) {
            ids.push((c, glyph_id));
        } else if !is_combining_mark(c) {
            let parts = decompose_canonical(c);
            let mut decomposed: Vec<(char, u32)> = Vec::new();
            let mut missing = true;
            let mut j: usize = 0;
            while j < parts.len()
                invariant
                    j <= parts@.len(),
                    parts@ == canonical_decomposition(c),
                    decomposed@ == decomposed_glyphs(source, c).take(j as int),
                    missing == all_missing(decomposed@),
                decreases parts@.len() - j,
            {
                let d = parts[j];
                let gid = match source.glyph_index(d) {
                    Some(g) => g,
                    None => 0,
                };
                let ghost earlier = decomposed@;
                decomposed.push((d, gid));
                assert(decomposed@[j as int].1 == gid);
                assert(forall|k: int| 0 <= k < j ==> decomposed@[k] == earlier[k]);
                if gid != 0 {
                    missing = false;
                }
                assert(missing == all_missing(decomposed@));
                assert(decomposed@ =~= decomposed_glyphs(source, c).take(j + 1));
                j += 1;
            }
            assert(decomposed@ =~= decomposed_glyphs(source, c));
            if missing {
                ids.push((c, 0));
            } else {
                ids.append(&mut decomposed);
            }
        }
        assert(ids@ =~= before + char_glyphs(source, c));
        assert(ids@ + glyph_ids(source, chars@.skip(i + 1)) =~= glyph_ids(source, chars@));
        i += 1;
    }
    assert(chars@.skip(i as int) =~= Seq::<char>::empty());
    assert(ids@ + glyph_ids(source, chars@.skip(i as int)) =~= ids@);
    ids
}

/// How a character that stands alone shapes: to its own glyph when the face
/// has one; otherwise to nothing when it is a combining mark; otherwise to
/// the parts of its canonical decomposition, each with its glyph (0 where it
/// has none), unless no part has a glyph, in which case to the one missing
/// glyph of the character itself.
pub proof fn lemma_one_char_glyphs<S: ShaperSource>(source: &S, c: char)
    ensures
        source.spec_glyph_index(c) matches Some(g) ==> glyph_ids(source, seq![c]) == seq![(c, g)],
        source.spec_glyph_index(c) is None && combining_mark(c) ==> glyph_ids(source, seq![c]).len() == 0,
        source.spec_glyph_index(c) is None && !combining_mark(c) && (forall|k: int|
            0 <= k < canonical_decomposition(c).len() ==> #[trigger] source.spec_glyph_index(
                canonical_decomposition(c)[k],
            ) is None || source.spec_glyph_index(canonical_decomposition(c)[k]) == Some(0u32))
            ==> glyph_ids(source, seq![c]) == seq![(c, 0u32)],
        source.spec_glyph_index(c) is None && !combining_mark(c) && (exists|k: int|
            0 <= k < canonical_decomposition(c).len() && !(#[trigger] source.spec_glyph_index(
                canonical_decomposition(c)[k],
            ) is None || source.spec_glyph_index(canonical_decomposition(c)[k]) == Some(0u32))) ==> {
            &&& glyph_ids(source, seq![c]).len() == canonical_decomposition(c).len()
            &&& forall|k: int|
                0 <= k < canonical_decomposition(c).len() ==> (#[trigger] glyph_ids(source, seq![c])[k]).0
                    == canonical_decomposition(c)[k] && glyph_ids(source, seq![c])[k].1 == match source.spec_glyph_index(
                    canonical_decomposition(c)[k],
                ) {
                    Some(g) => g,
                    None => 0u32,
                }
        },
{
    let text = seq![c];
    assert(text.drop_first() =~= Seq::<char>::empty());
    assert(glyph_ids(source, text.drop_first()) == Seq::<(char, u32)>::empty());
    assert(glyph_ids(source, text) =~= char_glyphs(source, c));
    let parts = canonical_decomposition(c);
    let d = decomposed_glyphs(source, c);
    if source.spec_glyph_index(c) is None && !combining_mark(c) {
        if exists|k: int|
            0 <= k < parts.len() && !(#[trigger] source.spec_glyph_index(parts[k]) is None
                || source.spec_glyph_index(parts[k]) == Some(0u32)) {
            let k = choose|k: int|
                0 <= k < parts.len() && !(#[trigger] source.spec_glyph_index(parts[k]) is None
                    || source.spec_glyph_index(parts[k]) == Some(0u32));
            assert(d[k].1 != 0);
            assert(!all_missing(d));
        } else if forall|k: int|
            0 <= k < parts.len() ==> #[trigger] source.spec_glyph_index(parts[k]) is None
                || source.spec_glyph_index(parts[k]) == Some(0u32) {
            assert forall|i: int| 0 <= i < d.len() implies #[trigger] d[i].1 == 0 by {
                assert(source.spec_glyph_index(parts[i]) is None || source.spec_glyph_index(parts[i]) == Some(0u32));
            }
        }
    }
}

/// The kerning the face applies between glyphs `left` and `right`, as
/// integers, or none.
pub open spec fn pair_kerning<S: ShaperSource>(source: &S, left: u32, right: u32) -> (int, int) {
    match source.spec_glyphs_kerning(left, right) {
        Some(k) => (k.0 as int, k.1 as int),
        None => (0, 0),
    }
}

/// Each position is unoffset and advances by the face's advance for its
/// glyph plus the face's kerning between its glyph and the glyph of the next
/// position; the last position is not kerned.
pub open spec fn advanced_by_glyph_pairs<S: ShaperSource>(source: &S, p: Seq<GlyphInfo>) -> bool {
    &&& forall|i: int| 0 <= i < p.len() ==> (#[trigger] p[i]).x_offset == 0 && p[i].y_offset == 0
    &&& forall|i: int|
        0 <= i < p.len() - 1 ==> (#[trigger] p[i]).x_advance == source.spec_glyph_advance(p[i].glyph_index).0
            + pair_kerning(source, p[i].glyph_index, p[i + 1].glyph_index).0 && p[i].y_advance
            == source.spec_glyph_advance(p[i].glyph_index).1 + pair_kerning(
            source,
            p[i].glyph_index,
            p[i + 1].glyph_index,
        ).1
    &&& p.len() > 0 ==> p[p.len() - 1].x_advance == source.spec_glyph_advance(p[p.len() - 1].glyph_index).0
        && p[p.len() - 1].y_advance == source.spec_glyph_advance(p[p.len() - 1].glyph_index).1
}

/// Shaping places one glyph per glyph id, in order, keeping the id, and
/// kerns by glyph ids: each glyph advances by the face's advance for it plus
/// the face's kerning between it and the next glyph of the run (not between
/// the characters they came from), the last glyph unkerned.
pub proof fn lemma_shaped_advances<S: ShaperSource>(source: &S, ids: Seq<(char, u32)>)
    requires
        advances_fit(source, ids),
    ensures
        shaped_glyphs(source, ids).len() == ids.len(),
        forall|i: int| 0 <= i < ids.len() ==> (#[trigger] shaped_glyphs(source, ids)[i]).glyph_index == ids[i].1,
        advanced_by_glyph_pairs(source, shaped_glyphs(source, ids)),
{
    let p = shaped_glyphs(source, ids);
    assert forall|i: int| 0 <= i < p.len() implies (#[trigger] p[i]).x_advance == source.spec_glyph_advance(
        p[i].glyph_index,
    ).0 + (if i + 1 < p.len() {
        pair_kerning(source, p[i].glyph_index, p[i + 1].glyph_index).0
    } else {
        0
    }) && p[i].y_advance == source.spec_glyph_advance(p[i].glyph_index).1 + (if i + 1 < p.len() {
        pair_kerning(source, p[i].glyph_index, p[i + 1].glyph_index).1
    } else {
        0
    }) by {
        assert(i32::MIN <= kerned_advance(source, ids, i).0 <= i32::MAX);
        if i + 1 < p.len() {
            assert(p[i + 1].glyph_index == ids[i + 1].1);
        }
    }
    assert forall|i: int| 0 <= i < p.len() - 1 implies (#[trigger] p[i]).x_advance == source.spec_glyph_advance(
        p[i].glyph_index,
    ).0 + pair_kerning(source, p[i].glyph_index, p[i + 1].glyph_index).0 && p[i].y_advance
        == source.spec_glyph_advance(p[i].glyph_index).1 + pair_kerning(
        source,
        p[i].glyph_index,
        p[i + 1].glyph_index,
    ).1 by {}
}

/// The positions of `ids`: each glyph's advance, kerned against the next glyph.
fn position_glyphs<S: ShaperSource>(source: &S, ids: &Vec<(char, u32)>) -> (positions: Vec<GlyphInfo>)
    requires
        advances_fit(source, ids@),
    ensures
        positions@ == shaped_glyphs(source, ids@),
        positions@.len() == ids@.len(),
        forall|i: int| 0 <= i < ids@.len() ==> (#[trigger] positions@[i]).glyph_index == ids@[i].1,
        advanced_by_glyph_pairs(source, positions@),
{
    proof {
        lemma_shaped_advances(source, ids@);
    }
    let mut positions: Vec<GlyphInfo> = Vec::new();
    let mut i: usize = 0;
    while i < ids.len()
        invariant
            i <= ids@.len(),
            advances_fit(source, ids@),
            positions@ =~= shaped_glyphs(source, ids@).take(i as int),
        decreases ids@.len() - i,
    {
        let glyph_index = ids[i].1;
        let mut advance = source.glyph_advance(glyph_index);
        assert(i32::MIN <= kerned_advance(source, ids@, i as int).0 <= i32::MAX);
        if i + 1 < ids.len() {
            if let Some(kerning) = source.glyphs_kerning(glyph_index, ids[i + 1].1) {
                advance.0 = advance.0 + kerning.0;
                advance.1 = advance.1 + kerning.1;
            }
        }
        positions.push(
            GlyphInfo {
                glyph_index,
                x_advance: advance.0,
                y_advance: advance.1,
                x_offset: 0,
                y_offset: 0,
            },
        );
        i += 1;
    }
    positions
}

/// Shapes `text` into glyph positions: its glyph ids (see
/// `find_glyph_indexes`), each advanced by the face's advance plus the
/// kerning against the glyph that follows it.
pub fn shape<S: ShaperSource>(source: &S, text: &str) -> (r: Result<Vec<GlyphInfo>, ShaperError>)
    requires
        advances_fit(source, glyph_ids(source, nfc(text@))),
    ensures
        r matches Ok(positions) && positions@ == shaped_glyphs(source, glyph_ids(source, nfc(text@))),
        r matches Ok(positions) && advanced_by_glyph_pairs(source, positions@),
        r matches Ok(positions) && positions@.len() == glyph_ids(source, nfc(text@)).len(),
        r matches Ok(positions) && forall|i: int|
            0 <= i < positions@.len() ==> (#[trigger] positions@[i]).glyph_index == glyph_ids(
                source,
                nfc(text@),
            )[i].1,
{
    let ids = find_glyph_indexes(source, text);
    Ok(position_glyphs(source, &ids))
}

/// Shapes `text` as `shape` does when every kerned advance fits in 32 bits,
/// and gives `None`, shaping nothing, when one does not.
pub fn shape_within_range<S: ShaperSource>(source: &S, text: &str) -> (r: Option<Vec<GlyphInfo>>)
    ensures
        r is Some <==> advances_fit(source, glyph_ids(source, nfc(text@))),
        r matches Some(positions) ==> positions@ == shaped_glyphs(source, glyph_ids(source, nfc(text@))),
        r matches Some(positions) ==> advanced_by_glyph_pairs(source, positions@),
{
    let ids = find_glyph_indexes(source, text);
    let mut i: usize = 0;
    while i < ids.len()
        invariant
            i <= ids@.len(),
            ids@ == glyph_ids(source, nfc(text@)),
            forall|j: int|
                0 <= j < i ==> i32::MIN <= #[trigger] kerned_advance(source, ids@, j).0 <= i32::MAX
                    && i32::MIN <= kerned_advance(source, ids@, j).1 <= i32::MAX,
        decreases ids@.len() - i,
    {
        let advance = source.glyph_advance(ids[i].1);
        let mut x: i64 = advance.0 as i64;
        let mut y: i64 = advance.1 as i64;
        if i + 1 < ids.len() {
            if let Some(kerning) = source.glyphs_kerning(ids[i].1, ids[i + 1].1) {
                x = x + kerning.0 as i64;
                y = y + kerning.1 as i64;
            }
        }
        assert(kerned_advance(source, ids@, i as int) == (x as int, y as int));
        if x < i32::MIN as i64 || x > i32::MAX as i64 || y < i32::MIN as i64 || y > i32::MAX as i64 {
            let ghost k = kerned_advance(source, ids@, i as int);
            assert(!(i32::MIN <= k.0 <= i32::MAX && i32::MIN <= k.1 <= i32::MAX));
            assert(!advances_fit(source, ids@));
            return None;
        }
        i += 1;
    }
    match shape(source, text) {
        Ok(positions) => Some(positions),
        Err(_) => None,
    }
}

} // verus!
