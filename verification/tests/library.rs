use femtovg::renderer::Drawable;
use femtovg::sfnt::font_without_tables;
use femtovg::{
    hex_channels, hex_to_u8, BlendFactor, ColorSpace, CombiningClass, CompositeOperation,
    CompositeOperationState, Convexity, ErrorKind, FillRule, FontManagerError, ImageFlags, ImageInfo,
    ImageSource, LineCap, LineJoin, PixelFormat, RenderStyle, ShaderType, Size, TurbulenceKind,
};

// Colour parsing.

#[test]
fn hex_to_u8_reads_two_hex_digits() {
    assert_eq!(hex_to_u8("00"), 0);
    assert_eq!(hex_to_u8("FF"), 255);
    assert_eq!(hex_to_u8("ff"), 255);
    assert_eq!(hex_to_u8("7f"), 127);
    assert_eq!(hex_to_u8("a"), 10);
}

#[test]
fn hex_to_u8_gives_zero_for_what_is_not_an_8_bit_hex_number() {
    assert_eq!(hex_to_u8(""), 0);
    assert_eq!(hex_to_u8("zz"), 0);
    assert_eq!(hex_to_u8("-1"), 0);
    assert_eq!(hex_to_u8("+"), 0);
    assert_eq!(hex_to_u8("100"), 0, "256 does not fit in 8 bits");
    assert_eq!(hex_to_u8("0ff"), 255, "a leading zero keeps the value in range");
}

#[test]
fn hex_to_u8_accepts_a_leading_plus_as_base_16_parsing_does() {
    assert_eq!(hex_to_u8("+f"), 15);
}

#[test]
fn six_digit_hex_colours_are_opaque() {
    assert_eq!(hex_channels("#ff8000"), (255, 128, 0, 255));
    assert_eq!(hex_channels("ff8000"), (255, 128, 0, 255), "the # is optional");
    assert_eq!(hex_channels("##ff8000"), (255, 128, 0, 255), "every leading # is skipped");
}

#[test]
fn eight_digit_hex_colours_carry_alpha() {
    assert_eq!(hex_channels("#11223380"), (0x11, 0x22, 0x33, 0x80));
}

#[test]
fn hex_colours_of_other_lengths_are_opaque_black() {
    assert_eq!(hex_channels("#fff"), (0, 0, 0, 255));
    assert_eq!(hex_channels(""), (0, 0, 0, 255));
    assert_eq!(hex_channels("#1234567"), (0, 0, 0, 255));
}

#[test]
fn a_pair_that_is_not_hex_reads_as_zero() {
    assert_eq!(hex_channels("#zz8000"), (0, 128, 0, 255));
}

#[test]
fn hex_colours_read_back_the_channels_they_write() {
    for (r, g, b, a) in [(0u8, 0u8, 0u8, 0u8), (255, 255, 255, 255), (0x12, 0xab, 0x7f, 0x80), (1, 2, 3, 4)] {
        assert_eq!(hex_channels(&format!("{r:02X}{g:02X}{b:02X}{a:02X}")), (r, g, b, a));
        assert_eq!(hex_channels(&format!("{r:02X}{g:02X}{b:02X}")), (r, g, b, 255));
    }
}

#[test]
fn hue_layouts_of_polar_spaces() {
    assert_eq!(ColorSpace::Oklch.hue_layout(), Some((2, 1)));
    assert_eq!(ColorSpace::Hsl.hue_layout(), Some((0, 1)));
    assert_eq!(ColorSpace::Srgb.hue_layout(), None);
    assert_eq!(ColorSpace::LinearRgb.hue_layout(), None);
    assert_eq!(ColorSpace::Oklab.hue_layout(), None);
    assert_eq!(ColorSpace::default(), ColorSpace::Srgb);
}

// Composite operations.

fn factors(state: CompositeOperationState) -> (BlendFactor, BlendFactor, BlendFactor, BlendFactor) {
    (state.src_rgb(), state.dst_rgb(), state.src_alpha(), state.dst_alpha())
}

#[test]
fn source_over_blends_by_one_and_one_minus_source_alpha() {
    let state = CompositeOperationState::new(CompositeOperation::SourceOver);
    assert_eq!(
        factors(state),
        (BlendFactor::One, BlendFactor::OneMinusSrcAlpha, BlendFactor::One, BlendFactor::OneMinusSrcAlpha)
    );
    assert_eq!(CompositeOperationState::default(), state);
}

#[test]
fn each_operation_matches_its_blend_factor_pair() {
    type Op = CompositeOperation;
    type F = BlendFactor;
    let table = [
        (Op::SourceOver, F::One, F::OneMinusSrcAlpha),
        (Op::SourceIn, F::DstAlpha, F::Zero),
        (Op::SourceOut, F::OneMinusDstAlpha, F::Zero),
        (Op::Atop, F::DstAlpha, F::OneMinusSrcAlpha),
        (Op::DestinationOver, F::OneMinusDstAlpha, F::One),
        (Op::DestinationIn, F::Zero, F::SrcAlpha),
        (Op::DestinationOut, F::Zero, F::OneMinusSrcAlpha),
        (Op::DestinationAtop, F::OneMinusDstAlpha, F::SrcAlpha),
        (Op::Lighter, F::One, F::One),
        (Op::Copy, F::One, F::Zero),
        (Op::Xor, F::OneMinusDstAlpha, F::OneMinusSrcAlpha),
    ];
    for (op, src, dst) in table {
        let state = CompositeOperationState::new(op);
        assert_eq!(state, CompositeOperationState::with_blend_factors(src, dst), "{op:?}");
        assert_eq!(factors(state), (src, dst, src, dst), "{op:?}");
    }
    for (i, (a, _, _)) in table.iter().enumerate() {
        for (b, _, _) in table.iter().skip(i + 1) {
            assert_ne!(CompositeOperationState::new(*a), CompositeOperationState::new(*b));
        }
    }
}

#[test]
fn separate_blend_factors_keep_each_channel() {
    let state = CompositeOperationState::with_separate_blend_factors(
        BlendFactor::SrcColor,
        BlendFactor::DstColor,
        BlendFactor::SrcAlphaSaturate,
        BlendFactor::OneMinusDstAlpha,
    );
    assert_eq!(
        factors(state),
        (BlendFactor::SrcColor, BlendFactor::DstColor, BlendFactor::SrcAlphaSaturate, BlendFactor::OneMinusDstAlpha)
    );
}

#[test]
fn defaults_of_the_drawing_enums() {
    assert_eq!(FillRule::default(), FillRule::NonZero);
    assert_eq!(LineCap::default(), LineCap::Butt);
    assert_eq!(LineJoin::default(), LineJoin::Miter);
    assert_eq!(ShaderType::default(), ShaderType::FillGradient);
    assert_eq!(TurbulenceKind::default(), TurbulenceKind::Turbulence);
    assert_eq!(RenderStyle::default(), RenderStyle::Fill);
    assert_eq!(Convexity::default(), Convexity::Unknown);
    let drawable = Drawable::default();
    assert!(drawable.fill_verts.is_none() && drawable.stroke_verts.is_none());
}

// Shader codes and combining classes.

#[test]
fn shader_codes_are_the_ones_the_shaders_know() {
    type S = ShaderType;
    let all = [
        S::FillGradient,
        S::FillImage,
        S::Stencil,
        S::FillImageGradient,
        S::FilterImage,
        S::FillColor,
        S::TextureCopyUnclipped,
        S::FillColorUnclipped,
        S::FillGradientConic,
        S::FillImageGradientConic,
        S::FilterImageColorMatrix,
        S::FillGradientTwoPointRadial,
        S::FillImageGradientTwoPointRadial,
        S::FilterImageTurbulence,
        S::FilterImageTransfer,
        S::FilterImageBlend,
        S::CoverageAccumulate,
    ];
    for (code, shader) in all.iter().enumerate() {
        assert_eq!(shader.to_u8() as usize, code, "{shader:?}");
    }
}

#[test]
fn combining_classes_round_trip_through_their_numbers() {
    assert_eq!(CombiningClass::new(230), Some(CombiningClass::Above));
    assert_eq!(CombiningClass::new(220), Some(CombiningClass::Bellow));
    assert_eq!(CombiningClass::new(0), None);
    assert_eq!(CombiningClass::new(232), None);
    assert_eq!(CombiningClass::Above.number(), 230);
    assert_eq!(CombiningClass::Bellow.number(), 220);
}

// Image bookkeeping.

#[test]
fn image_flags_are_bits() {
    assert_eq!(ImageFlags::generate_mipmaps().bits(), 1);
    assert_eq!(ImageFlags::repeat_x().bits(), 2);
    assert_eq!(ImageFlags::repeat_y().bits(), 4);
    assert_eq!(ImageFlags::flip_y().bits(), 8);
    assert_eq!(ImageFlags::premultiplied().bits(), 16);
    assert_eq!(ImageFlags::nearest().bits(), 32);
    assert_eq!(ImageFlags::all().bits(), 0x3f);
    assert!(ImageFlags::empty().is_empty());
    assert_eq!(ImageFlags::from_bits(0x40), None);
    assert_eq!(ImageFlags::from_bits(0x09), Some(ImageFlags::flip_y().union(ImageFlags::generate_mipmaps())));
    assert_eq!(ImageFlags::from_bits_truncate(0xff).bits(), 0x3f);
    assert_eq!(ImageFlags::from_bits_retain(0xff).bits(), 0xff);
}

#[test]
fn image_flag_set_operations() {
    let both = ImageFlags::repeat_x().union(ImageFlags::repeat_y());
    assert!(both.contains(ImageFlags::repeat_x()));
    assert!(!ImageFlags::repeat_x().contains(both));
    assert!(both.intersects(ImageFlags::repeat_y()));
    assert!(!both.intersects(ImageFlags::nearest()));
    assert_eq!(both.intersection(ImageFlags::repeat_y()), ImageFlags::repeat_y());
    assert_eq!(both.difference(ImageFlags::repeat_y()), ImageFlags::repeat_x());
    let mut flags = ImageFlags::empty();
    flags.insert(ImageFlags::nearest());
    assert_eq!(flags, ImageFlags::nearest());
    flags.set(ImageFlags::flip_y(), true);
    assert_eq!(flags.bits(), 40);
    flags.set(ImageFlags::nearest(), false);
    assert_eq!(flags, ImageFlags::flip_y());
    flags.remove(ImageFlags::flip_y());
    assert!(flags.is_empty());
}

#[test]
fn image_info_keeps_what_it_was_made_with() {
    let mut info = ImageInfo::new(ImageFlags::flip_y(), 64, 32, PixelFormat::Rgba8);
    assert_eq!(info.flags(), ImageFlags::flip_y());
    assert_eq!(info.width(), 64);
    assert_eq!(info.height(), 32);
    assert_eq!(info.size(), Size::new(64, 32));
    assert_eq!(info.format(), PixelFormat::Rgba8);
    info.set_format(PixelFormat::Gray8);
    assert_eq!(info.format(), PixelFormat::Gray8);
    assert_eq!(info.size(), Size::new(64, 32));
}

#[test]
fn an_update_inside_the_image_with_its_format_is_accepted() {
    let info = ImageInfo::new(ImageFlags::empty(), 64, 32, PixelFormat::Rgba8);
    let source = ImageSource::Rgba(Size::new(16, 16));
    assert_eq!(source.format(), PixelFormat::Rgba8);
    assert_eq!(source.dimensions(), Size::new(16, 16));
    assert!(source.check_update(&info, 0, 0).is_ok());
    assert!(source.check_update(&info, 48, 16).is_ok(), "touching the far edges fits");
}

#[test]
fn an_update_past_the_image_is_out_of_bounds() {
    let info = ImageInfo::new(ImageFlags::empty(), 64, 32, PixelFormat::Rgba8);
    let source = ImageSource::Rgba(Size::new(16, 16));
    assert!(matches!(source.check_update(&info, 49, 0), Err(ErrorKind::ImageUpdateOutOfBounds)));
    assert!(matches!(source.check_update(&info, 0, 17), Err(ErrorKind::ImageUpdateOutOfBounds)));
    assert!(
        matches!(source.check_update(&info, usize::MAX, 0), Err(ErrorKind::ImageUpdateOutOfBounds)),
        "an origin near the end of the address space does not wrap"
    );
}

#[test]
fn an_update_with_another_format_is_refused_after_the_bounds() {
    let info = ImageInfo::new(ImageFlags::empty(), 64, 32, PixelFormat::Rgb8);
    let gray = ImageSource::Gray(Size::new(4, 4));
    assert!(matches!(gray.check_update(&info, 0, 0), Err(ErrorKind::ImageUpdateWithDifferentFormat)));
    assert!(
        matches!(gray.check_update(&info, 63, 0), Err(ErrorKind::ImageUpdateOutOfBounds)),
        "the bounds are checked first"
    );
    let rgb = ImageSource::Rgb(Size::new(4, 4));
    assert!(rgb.check_update(&info, 0, 0).is_ok());
}

// Errors.

#[test]
fn io_errors_convert_into_the_error_kinds() {
    let error = std::io::Error::new(std::io::ErrorKind::NotFound, "missing");
    assert!(matches!(ErrorKind::from(error), ErrorKind::IoError(e) if e.kind() == std::io::ErrorKind::NotFound));
    let error = std::io::Error::new(std::io::ErrorKind::InvalidData, "bad");
    assert!(matches!(FontManagerError::from(error), FontManagerError::IoError(e) if e.kind() == std::io::ErrorKind::InvalidData));
}

// Rewriting a font without some of its tables.

/// A font with tables `aaaa` (5 bytes), `OS/2` (2 bytes) and `post` (4
/// bytes), their data packed without padding after the directory.
fn three_table_font() -> Vec<u8> {
    let mut font = vec![0x00, 0x01, 0x00, 0x00, 0x00, 0x03, 0x00, 0x20, 0x00, 0x01, 0x00, 0x10];
    let tables: [(&[u8; 4], u32, u32); 3] = [(b"aaaa", 60, 5), (b"OS/2", 65, 2), (b"post", 67, 4)];
    for (tag, offset, length) in tables {
        font.extend_from_slice(tag);
        font.extend_from_slice(&[0xde, 0xad, 0xbe, 0xef]);
        font.extend_from_slice(&offset.to_be_bytes());
        font.extend_from_slice(&length.to_be_bytes());
    }
    font.extend_from_slice(&[1, 2, 3, 4, 5]);
    font.extend_from_slice(&[9, 9]);
    font.extend_from_slice(&[7, 7, 7, 7]);
    assert_eq!(font.len(), 71);
    font
}

#[test]
fn dropping_a_table_rewrites_the_directory_and_packs_the_rest() {
    let font = three_table_font();
    let out = font_without_tables(&font, &[b"OS/2"]);
    let mut expected = vec![0x00, 0x01, 0x00, 0x00, 0x00, 0x02, 0x00, 0x20, 0x00, 0x01, 0x00, 0x00];
    expected.extend_from_slice(b"aaaa");
    expected.extend_from_slice(&[0, 0, 0, 0, 0, 0, 0, 44, 0, 0, 0, 5]);
    expected.extend_from_slice(b"post");
    expected.extend_from_slice(&[0, 0, 0, 0, 0, 0, 0, 52, 0, 0, 0, 4]);
    expected.extend_from_slice(&[1, 2, 3, 4, 5, 0, 0, 0]);
    expected.extend_from_slice(&[7, 7, 7, 7]);
    assert_eq!(out, expected);
}

#[test]
fn keeping_every_table_pads_each_to_four_bytes() {
    let font = three_table_font();
    let out = font_without_tables(&font, &[]);
    assert_eq!(&out[0..12], &[0x00, 0x01, 0x00, 0x00, 0x00, 0x03, 0x00, 0x20, 0x00, 0x01, 0x00, 0x10]);
    assert_eq!(&out[12..16], b"aaaa");
    assert_eq!(&out[20..28], &[0, 0, 0, 60, 0, 0, 0, 5]);
    assert_eq!(&out[28..32], b"OS/2");
    assert_eq!(&out[36..44], &[0, 0, 0, 68, 0, 0, 0, 2]);
    assert_eq!(&out[44..48], b"post");
    assert_eq!(&out[52..60], &[0, 0, 0, 72, 0, 0, 0, 4]);
    assert_eq!(&out[60..], &[1, 2, 3, 4, 5, 0, 0, 0, 9, 9, 0, 0, 7, 7, 7, 7]);
}

#[test]
fn dropping_every_table_leaves_an_empty_directory() {
    let font = three_table_font();
    let out = font_without_tables(&font, &[b"aaaa", b"OS/2", b"post"]);
    assert_eq!(out, vec![0x00, 0x01, 0x00, 0x00, 0x00, 0x00, 0x00, 0x10, 0x00, 0x00, 0xff, 0xf0]);
}

#[test]
fn a_kept_table_reads_back_at_its_recorded_offset() {
    let font = three_table_font();
    let out = font_without_tables(&font, &[b"aaaa"]);
    let read_u32 = |at: usize| u32::from_be_bytes([out[at], out[at + 1], out[at + 2], out[at + 3]]) as usize;
    assert_eq!(u16::from_be_bytes([out[4], out[5]]), 2);
    for (record, tag, data) in [(0usize, b"OS/2", &[9u8, 9][..]), (1, b"post", &[7, 7, 7, 7][..])] {
        let at = 12 + 16 * record;
        assert_eq!(&out[at..at + 4], tag);
        let offset = read_u32(at + 8);
        let length = read_u32(at + 12);
        assert_eq!(offset % 4, 0);
        assert_eq!(&out[offset..offset + length], data);
    }
}

#[test]
fn blend_states_are_equal_exactly_for_equal_factor_pairs() {
    let one_zero = CompositeOperationState::with_blend_factors(BlendFactor::One, BlendFactor::Zero);
    assert_eq!(one_zero, CompositeOperationState::with_blend_factors(BlendFactor::One, BlendFactor::Zero));
    assert_ne!(one_zero, CompositeOperationState::with_blend_factors(BlendFactor::Zero, BlendFactor::One));
    assert_ne!(one_zero, CompositeOperationState::with_blend_factors(BlendFactor::One, BlendFactor::One));
    assert_eq!(
        one_zero,
        CompositeOperationState::with_separate_blend_factors(
            BlendFactor::One,
            BlendFactor::Zero,
            BlendFactor::One,
            BlendFactor::Zero
        )
    );
}

#[test]
fn flag_sets_are_equal_exactly_for_equal_bits() {
    assert_eq!(ImageFlags::from_bits_retain(3), ImageFlags::repeat_x().union(ImageFlags::generate_mipmaps()));
    assert_ne!(ImageFlags::from_bits_retain(3), ImageFlags::repeat_x());
}

#[test]
fn image_flag_operators_and_toggles() {
    let x = ImageFlags::repeat_x();
    let y = ImageFlags::repeat_y();
    assert_eq!((x | y).bits(), 6);
    assert_eq!(((x | y) & y).bits(), 4);
    assert_eq!(((x | y) ^ x).bits(), 4);
    assert_eq!(((x | y) - x).bits(), 4);
    assert_eq!((!x).bits(), 0x3f & !2);
    assert_eq!(x.complement(), !x);
    assert_eq!(x.symmetric_difference(y), x | y);
    assert!(ImageFlags::all().is_all());
    assert!(ImageFlags::from_bits_retain(0xff).is_all());
    assert!(!(x | y).is_all());
    let mut flags = x;
    flags.toggle(x | y);
    assert_eq!(flags, y);
}
