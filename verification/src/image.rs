//! Image descriptions: pixel formats, flags, sizes, and the check that an
//! update fits the image it writes into.
use vstd::prelude::*;

use crate::error::ErrorKind;

verus! {

/// The key type of `slotmap`, which image handles wrap.
#[verifier::external_type_specification]
#[verifier::external_body]
pub struct ExDefaultKey(slotmap::DefaultKey);

/// `==` on `slotmap::DefaultKey`, which the crate derives over the key's
/// index and version: it holds exactly of equal keys.
#[verifier::external_body]
fn same_key(a: slotmap::DefaultKey, b: slotmap::DefaultKey) -> (r: bool)
    ensures
        r == (a == b),
{
    a == b
}

/// An image handle.
#[derive(Copy, Clone, Debug, Eq, Ord, PartialOrd, Hash)]
pub struct ImageId(pub slotmap::DefaultKey);

impl PartialEq for ImageId {
    fn eq(&self, other: &Self) -> (r: bool) {
        same_key(self.0, other.0)
    }
}

impl vstd::std_specs::cmp::PartialEqSpecImpl for ImageId {
    open spec fn obeys_eq_spec() -> bool {
        true
    }

    open spec fn eq_spec(&self, other: &Self) -> bool {
        self.0 == other.0
    }
}

/// Specifies the format of an image's pixels.
#[derive(Copy, Clone, Debug, PartialEq, Eq, Structural, Hash)]
pub enum PixelFormat {
    /// 24-bit RGB image format (8 bits per channel)
    Rgb8,
    /// 32-bit RGBA image format (8 bits per channel, including alpha)
    Rgba8,
    /// 8-bit grayscale image format
    Gray8,
}

/// The bits every flag of [`ImageFlags`] takes together.
pub open spec fn all_image_flag_bits() -> u32 {
    0x3f
}

/// Represents a set of flags that modify the behavior of an image.
#[derive(Clone, Copy, Debug, PartialEq, Eq, Structural, Hash)]
pub struct ImageFlags {
    bits: u32,
}

impl ImageFlags {
    /// The flag set holding one flag: generates mipmaps during the creation of the image.
    pub fn generate_mipmaps() -> (r: Self)
        ensures
            r.spec_bits() == 1,
    {
        ImageFlags { bits: 1 }
    }

    /// The flag set holding one flag: repeats the image in the X direction when rendered.
    pub fn repeat_x() -> (r: Self)
        ensures
            r.spec_bits() == 2,
    {
        ImageFlags { bits: 2 }
    }

    /// The flag set holding one flag: repeats the image in the Y direction when rendered.
    pub fn repeat_y() -> (r: Self)
        ensures
            r.spec_bits() == 4,
    {
        ImageFlags { bits: 4 }
    }

    /// The flag set holding one flag: flips (inverses) the image in the Y direction when rendered.
    pub fn flip_y() -> (r: Self)
        ensures
            r.spec_bits() == 8,
    {
        ImageFlags { bits: 8 }
    }

    /// The flag set holding one flag: indicates that the image data has premultiplied alpha.
    pub fn premultiplied() -> (r: Self)
        ensures
            r.spec_bits() == 16,
    {
        ImageFlags { bits: 16 }
    }

    /// The flag set holding one flag: uses nearest-neighbor interpolation instead of linear interpolation when rendering the image.
    pub fn nearest() -> (r: Self)
        ensures
            r.spec_bits() == 32,
    {
        ImageFlags { bits: 32 }
    }

    /// The raw bits of the set.
    pub closed spec fn spec_bits(self) -> u32 {
        self.bits
    }

    /// The empty set.
    pub fn empty() -> (r: Self)
        ensures
            r.spec_bits() == 0,
    {
        ImageFlags { bits: 0 }
    }

    /// The set of every defined flag.
    pub fn all() -> (r: Self)
        ensures
            r.spec_bits() == all_image_flag_bits(),
    {
        ImageFlags { bits: 0x3f }
    }

    /// The raw bits of the set.
    pub fn bits(&self) -> (r: u32)
        ensures
            r == self.spec_bits(),
    {
        self.bits
    }

    /// The set with these bits, or `None` when a bit names no flag.
    pub fn from_bits(bits: u32) -> (r: Option<Self>)
        ensures
            r is Some <==> bits & !all_image_flag_bits() == 0,
            r matches Some(f) ==> f.spec_bits() == bits,
    {
        if bits & !0x3fu32 == 0 {
            Some(ImageFlags { bits })
        } else {
            None
        }
    }

    /// The set of the defined flags among these bits; the others are dropped.
    pub fn from_bits_truncate(bits: u32) -> (r: Self)
        ensures
            r.spec_bits() == bits & all_image_flag_bits(),
    {
        ImageFlags { bits: bits & 0x3f }
    }

    /// The set with exactly these bits, whether or not they name flags.
    pub fn from_bits_retain(bits: u32) -> (r: Self)
        ensures
            r.spec_bits() == bits,
    {
        ImageFlags { bits }
    }

    /// Whether no bit is set.
    pub fn is_empty(&self) -> (r: bool)
        ensures
            r == (self.spec_bits() == 0),
    {
        self.bits == 0
    }

    /// Whether every bit of `other` is set in `self`.
    pub fn contains(&self, other: Self) -> (r: bool)
        ensures
            r == (self.spec_bits() & other.spec_bits() == other.spec_bits()),
    {
        self.bits & other.bits == other.bits
    }

    /// Whether `self` and `other` share a bit.
    pub fn intersects(&self, other: Self) -> (r: bool)
        ensures
            r == (self.spec_bits() & other.spec_bits() != 0),
    {
        self.bits & other.bits != 0
    }

    /// The bits set in either.
    pub fn union(self, other: Self) -> (r: Self)
        ensures
            r.spec_bits() == self.spec_bits() | other.spec_bits(),
    {
        ImageFlags { bits: self.bits | other.bits }
    }

    /// The bits set in both.
    pub fn intersection(self, other: Self) -> (r: Self)
        ensures
            r.spec_bits() == self.spec_bits() & other.spec_bits(),
    {
        ImageFlags { bits: self.bits & other.bits }
    }

    /// The bits of `self` that are not set in `other`.
    pub fn difference(self, other: Self) -> (r: Self)
        ensures
            r.spec_bits() == self.spec_bits() & !other.spec_bits(),
    {
        ImageFlags { bits: self.bits & !other.bits }
    }

    /// Sets the bits of `other`.
    pub fn insert(&mut self, other: Self)
        ensures
            final(self).spec_bits() == old(self).spec_bits() | other.spec_bits(),
    {
        self.bits = self.bits | other.bits;
    }

    /// Clears the bits of `other`.
    pub fn remove(&mut self, other: Self)
        ensures
            final(self).spec_bits() == old(self).spec_bits() & !other.spec_bits(),
    {
        self.bits = self.bits & !other.bits;
    }

    /// Sets the bits of `other` when `value` holds, clears them otherwise.
    pub fn set(&mut self, other: Self, value: bool)
        ensures
            final(self).spec_bits() == if value {
                old(self).spec_bits() | other.spec_bits()
            } else {
                old(self).spec_bits() & !other.spec_bits()
            },
    {
        if value {
            self.insert(other);
        } else {
            self.remove(other);
        }
    }

    /// Whether every defined flag is set.
    pub fn is_all(&self) -> (r: bool)
        ensures
            r == (all_image_flag_bits() | self.spec_bits() == self.spec_bits()),
    {
        0x3fu32 | self.bits == self.bits
    }

    /// The bits set in exactly one of `self` and `other`.
    pub fn symmetric_difference(self, other: Self) -> (r: Self)
        ensures
            r.spec_bits() == self.spec_bits() ^ other.spec_bits(),
    {
        ImageFlags { bits: self.bits ^ other.bits }
    }

    /// Flips the bits of `other`.
    pub fn toggle(&mut self, other: Self)
        ensures
            final(self).spec_bits() == old(self).spec_bits() ^ other.spec_bits(),
    {
        self.bits = self.bits ^ other.bits;
    }

    /// The defined flags that are not set.
    pub fn complement(self) -> (r: Self)
        ensures
            r.spec_bits() == !self.spec_bits() & all_image_flag_bits(),
    {
        ImageFlags { bits: !self.bits & 0x3f }
    }
}

impl std::ops::BitOr for ImageFlags {
    type Output = Self;

    /// The union of the two sets.
    fn bitor(self, other: Self) -> (r: Self)
        ensures
            r.spec_bits() == self.spec_bits() | other.spec_bits(),
    {
        self.union(other)
    }
}

impl vstd::std_specs::ops::BitOrSpecImpl for ImageFlags {
    open spec fn obeys_bitor_spec() -> bool {
        true
    }

    open spec fn bitor_req(self, other: Self) -> bool {
        true
    }

    closed spec fn bitor_spec(self, other: Self) -> Self {
        ImageFlags { bits: self.bits | other.bits }
    }
}

impl std::ops::BitAnd for ImageFlags {
    type Output = Self;

    /// The intersection of the two sets.
    fn bitand(self, other: Self) -> (r: Self)
        ensures
            r.spec_bits() == self.spec_bits() & other.spec_bits(),
    {
        self.intersection(other)
    }
}

impl vstd::std_specs::ops::BitAndSpecImpl for ImageFlags {
    open spec fn obeys_bitand_spec() -> bool {
        true
    }

    open spec fn bitand_req(self, other: Self) -> bool {
        true
    }

    closed spec fn bitand_spec(self, other: Self) -> Self {
        ImageFlags { bits: self.bits & other.bits }
    }
}

impl std::ops::BitXor for ImageFlags {
    type Output = Self;

    /// The symmetric difference of the two sets.
    fn bitxor(self, other: Self) -> (r: Self)
        ensures
            r.spec_bits() == self.spec_bits() ^ other.spec_bits(),
    {
        self.symmetric_difference(other)
    }
}

impl vstd::std_specs::ops::BitXorSpecImpl for ImageFlags {
    open spec fn obeys_bitxor_spec() -> bool {
        true
    }

    open spec fn bitxor_req(self, other: Self) -> bool {
        true
    }

    closed spec fn bitxor_spec(self, other: Self) -> Self {
        ImageFlags { bits: self.bits ^ other.bits }
    }
}

impl std::ops::Sub for ImageFlags {
    type Output = Self;

    /// The difference of the two sets.
    fn sub(self, other: Self) -> (r: Self)
        ensures
            r.spec_bits() == self.spec_bits() & !other.spec_bits(),
    {
        self.difference(other)
    }
}

impl vstd::std_specs::ops::SubSpecImpl for ImageFlags {
    open spec fn obeys_sub_spec() -> bool {
        true
    }

    open spec fn sub_req(self, other: Self) -> bool {
        true
    }

    closed spec fn sub_spec(self, other: Self) -> Self {
        ImageFlags { bits: self.bits & !other.bits }
    }
}

impl std::ops::Not for ImageFlags {
    type Output = Self;

    /// The complement of the set.
    fn not(self) -> (r: Self)
        ensures
            r.spec_bits() == !self.spec_bits() & all_image_flag_bits(),
    {
        self.complement()
    }
}

impl vstd::std_specs::ops::NotSpecImpl for ImageFlags {
    open spec fn obeys_not_spec() -> bool {
        true
    }

    open spec fn not_req(self) -> bool {
        true
    }

    closed spec fn not_spec(self) -> Self {
        ImageFlags { bits: !self.bits & 0x3f }
    }
}

/// A flag set is its bits: sets with the same bits are equal, and equal
/// sets have the same bits.
pub proof fn lemma_flags_are_their_bits(a: ImageFlags, b: ImageFlags)
    ensures
        a == b <==> a.spec_bits() == b.spec_bits(),
{
}

/// A size in pixels.
#[derive(Copy, Clone, Debug, PartialEq, Eq, Structural, Hash)]
pub struct Size {
    /// Width in pixels.
    pub width: usize,
    /// Height in pixels.
    pub height: usize,
}

impl Size {
    /// A size of `width` by `height` pixels.
    pub fn new(width: usize, height: usize) -> (r: Self)
        ensures
            r == (Size { width, height }),
    {
        Self { width, height }
    }
}

/// Information about an image.
#[derive(Copy, Clone, Debug, PartialEq, Eq, Structural, Hash)]
pub struct ImageInfo {
    flags: ImageFlags,
    size: Size,
    format: PixelFormat,
}

impl ImageInfo {
    /// The flags the image was created with.
    pub closed spec fn spec_flags(self) -> ImageFlags {
        self.flags
    }

    /// The image size in pixels.
    pub closed spec fn spec_size(self) -> Size {
        self.size
    }

    /// The image's pixel format.
    pub closed spec fn spec_format(self) -> PixelFormat {
        self.format
    }

    /// Creates a new `ImageInfo` with the specified flags, width, height, and format.
    pub fn new(flags: ImageFlags, width: usize, height: usize, format: PixelFormat) -> (r: Self)
        ensures
            r.spec_flags() == flags,
            r.spec_size() == (Size { width, height }),
            r.spec_format() == format,
    {
        Self { flags, size: Size { width, height }, format }
    }

    /// Returns the image flags.
    pub fn flags(&self) -> (r: ImageFlags)
        ensures
            r == self.spec_flags(),
    {
        self.flags
    }

    /// Returns the image width in pixels.
    pub fn width(&self) -> (r: usize)
        ensures
            r == self.spec_size().width,
    {
        self.size.width
    }

    /// Returns the image height in pixels.
    pub fn height(&self) -> (r: usize)
        ensures
            r == self.spec_size().height,
    {
        self.size.height
    }

    /// Returns the image size (width and height) in pixels.
    pub fn size(&self) -> (r: Size)
        ensures
            r == self.spec_size(),
    {
        self.size
    }

    /// Returns the image format.
    pub fn format(&self) -> (r: PixelFormat)
        ensures
            r == self.spec_format(),
    {
        self.format
    }

    /// Sets the image format.
    pub fn set_format(&mut self, format: PixelFormat)
        ensures
            final(self).spec_format() == format,
            final(self).spec_flags() == old(self).spec_flags(),
            final(self).spec_size() == old(self).spec_size(),
    {
        self.format = format;
    }
}

/// The pixel source of an image upload or update, described by what decides
/// where it may be written: its pixel format and its dimensions.
#[derive(Copy, Clone, Debug, PartialEq, Eq, Structural)]
#[non_exhaustive]
pub enum ImageSource {
    /// Pixels in RGB image format (8 bits per channel)
    Rgb(Size),
    /// Pixels in RGBA image format (8 bits per channel, including alpha)
    Rgba(Size),
    /// Pixels in 8-bit grayscale image format
    Gray(Size),
}

/// `a + b`, or `usize::MAX` where that does not fit.
pub open spec fn saturating_sum(a: usize, b: usize) -> int {
    if a + b > usize::MAX {
        usize::MAX as int
    } else {
        a + b
    }
}

impl ImageSource {
    /// The pixel format of the source.
    pub open spec fn spec_format(self) -> PixelFormat {
        match self {
            ImageSource::Rgb(_) => PixelFormat::Rgb8,
            ImageSource::Rgba(_) => PixelFormat::Rgba8,
            ImageSource::Gray(_) => PixelFormat::Gray8,
        }
    }

    /// The dimensions of the source.
    pub open spec fn spec_dimensions(self) -> Size {
        match self {
            ImageSource::Rgb(size) => size,
            ImageSource::Rgba(size) => size,
            ImageSource::Gray(size) => size,
        }
    }

    /// Whether copying the source with its top left corner at (`x`, `y`)
    /// reaches past `info`'s image, the sums saturating at `usize::MAX`.
    pub open spec fn out_of_bounds(self, info: ImageInfo, x: usize, y: usize) -> bool {
        saturating_sum(x, self.spec_dimensions().width) > info.spec_size().width
            || saturating_sum(y, self.spec_dimensions().height) > info.spec_size().height
    }

    /// Returns the format of the image source.
    pub fn format(&self) -> (r: PixelFormat)
        ensures
            r == self.spec_format(),
    {
        match self {
            Self::Rgb(_) => PixelFormat::Rgb8,
            Self::Rgba(_) => PixelFormat::Rgba8,
            Self::Gray(_) => PixelFormat::Gray8,
        }
    }

    /// Returns the dimensions (width and height) of the image source.
    pub fn dimensions(&self) -> (r: Size)
        ensures
            r == self.spec_dimensions(),
    {
        match self {
            Self::Rgb(size) => *size,
            Self::Rgba(size) => *size,
            Self::Gray(size) => *size,
        }
    }

    /// Checks that this source may be copied into the image described by `info`
    /// with its top left corner at (`x`, `y`).
    ///
    /// A copy that reaches past the destination is reported as
    /// [`ErrorKind::ImageUpdateOutOfBounds`]; one that carries a pixel format
    /// the destination was not created with as
    /// [`ErrorKind::ImageUpdateWithDifferentFormat`]. The bounds are checked first.
    pub fn check_update(&self, info: &ImageInfo, x: usize, y: usize) -> (r: Result<(), ErrorKind>)
        ensures
            self.out_of_bounds(*info, x, y) ==> r matches Err(ErrorKind::ImageUpdateOutOfBounds),
            !self.out_of_bounds(*info, x, y) && info.spec_format() != self.spec_format() ==> r matches Err(
                ErrorKind::ImageUpdateWithDifferentFormat,
            ),
            r is Ok <==> !self.out_of_bounds(*info, x, y) && info.spec_format()
                == self.spec_format(),
            r is Ok && x + self.spec_dimensions().width <= usize::MAX ==> x
                + self.spec_dimensions().width <= info.spec_size().width,
            r is Ok && y + self.spec_dimensions().height <= usize::MAX ==> y
                + self.spec_dimensions().height <= info.spec_size().height,
    {
        let size = self.dimensions();

        // Saturating, so that an origin close to `usize::MAX` reports the error
        // rather than wrapping into a range that looks valid.
        if x.saturating_add(size.width) > info.width() || y.saturating_add(size.height) > info.height() {
            return Err(ErrorKind::ImageUpdateOutOfBounds);
        }
        if info.format() != self.format() {
            return Err(ErrorKind::ImageUpdateWithDifferentFormat);
        }
        Ok(())
    }
}

/// The noise function of a turbulence filter: SVG `feTurbulence`'s `type` attribute.
#[derive(Clone, Copy, Debug, PartialEq, Eq, Structural)]
pub enum TurbulenceKind {
    /// Sums signed octaves: smooth, cloud-like values centered on 0.5.
    FractalNoise,
    /// Sums the absolute value of each octave: sharper, vein-like values
    /// centered on 0. The SVG default.
    Turbulence,
}

impl Default for TurbulenceKind {
    fn default() -> (r: Self)
        ensures
            r == TurbulenceKind::Turbulence,
    {
        TurbulenceKind::Turbulence
    }
}

} // verus!
