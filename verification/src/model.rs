//! Structures representing scanned pages with annotations, and the emission of
//! their PDF object bodies and drawing commands.

use vstd::prelude::*;
use crate::pdf::{ascii_seq, dec_bytes, pdf_string_bytes, push_ascii, push_dec_u64, write_pdf_string};

verus! {

/// The color space of an image or graphics system.
#[derive(Clone, Copy, Debug, Eq, Hash, Ord, PartialEq, PartialOrd, Structural)]
pub enum ColorSpace {
    Grayscale,
    Rgb,
    Cmyk,
}

/// The PDF name of a color space.
pub open spec fn spec_color_space_name(c: ColorSpace) -> Seq<char> {
    match c {
        ColorSpace::Grayscale => "/DeviceGray"@,
        ColorSpace::Rgb => "/DeviceRGB"@,
        ColorSpace::Cmyk => "/DeviceCMYK"@,
    }
}

impl ColorSpace {
    /// The PDF name of this color space, slash included.
    pub fn as_pdf_name(&self) -> (r: &'static str)
        ensures
            r@ == spec_color_space_name(*self),
            vstd::string::is_ascii(r),
    {
        proof {
            reveal_strlit("/DeviceGray");
            reveal_strlit("/DeviceRGB");
            reveal_strlit("/DeviceCMYK");
        }
        match self {
            Self::Grayscale => "/DeviceGray",
            Self::Rgb => "/DeviceRGB",
            Self::Cmyk => "/DeviceCMYK",
        }
    }
}

/// The unit in which pixel (dot) density is specified.
#[derive(Clone, Copy, Debug, Eq, Hash, Ord, PartialEq, PartialOrd, Structural)]
pub enum DensityUnit {
    NoUnit,
    DotsPerInch,
    DotsPerCentimeter,
}

impl DensityUnit {
    /// Uses the density unit to convert the pixel count and density value into
    /// points (1/72 in).
    ///
    /// Returns `None` for `DensityUnit::NoUnit`; for the other units the
    /// density must be nonzero.
    pub fn try_to_points(&self, pixel_count: u16, density: u16) -> (r: Option<u64>)
        requires
            !(*self is NoUnit) ==> density > 0,
        ensures
            *self is NoUnit <==> r is None,
            *self is DotsPerInch ==> r == Some(((pixel_count as int) / (72 * density as int)) as u64),
            *self is DotsPerCentimeter ==> r == Some(
                ((25 * pixel_count as int) / (4572 * density as int)) as u64),
    {
        match self {
            Self::NoUnit => None,
            Self::DotsPerInch => Some((pixel_count as u64) / (72 * (density as u64))),
            Self::DotsPerCentimeter => Some(25 * (pixel_count as u64) / (4572 * (density as u64))),
        }
    }
}

/// A JPEG image.
#[derive(Clone, Debug, Eq, Hash, Ord, PartialEq, PartialOrd)]
pub struct JpegImage {
    /// The bit depth of the image.
    pub bit_depth: u8,
    /// The width of the image, in pixels.
    pub width: u16,
    /// The height of the image, in pixels.
    pub height: u16,
    /// The color space in which the image is stored.
    pub color_space: ColorSpace,
    /// The unit in which the pixel density is specified.
    pub density_unit: DensityUnit,
    /// The pixel density in the horizontal direction (across the width).
    pub density_x: u16,
    /// The pixel density in the vertical direction (across the height).
    pub density_y: u16,
    /// The actual full data of the image, in JFIF or Exif formats.
    pub data: Vec<u8>,
}

/// The PDF object body of a JPEG image.
///
/// The color space name is written twice: once for the ColorSpace key and
/// once after BitsPerComponent.
pub open spec fn jpeg_image_body_bytes(img: JpegImage) -> Seq<u8> {
    ascii_seq("<</Type/XObject/Subtype/Image"@) + ascii_seq("/Width "@) + dec_bytes(
        img.width as nat) + ascii_seq("/Height "@) + dec_bytes(img.height as nat) + ascii_seq(
        "/ColorSpace"@) + ascii_seq(spec_color_space_name(img.color_space)) + ascii_seq(
        "/BitsPerComponent "@) + ascii_seq(spec_color_space_name(img.color_space)) + ascii_seq(
        "/Filter[/DCTDecode]"@) + ascii_seq("/Length "@) + dec_bytes(img.data@.len()) + ascii_seq(
        ">>\nstream\n"@) + img.data@ + ascii_seq(">>\nendstream\n"@)
}

impl JpegImage {
    /// Appends the PDF object body of this image.
    #[verifier::rlimit(100)]
    pub fn write_object_body(&self, out: &mut Vec<u8>)
        ensures
            final(out)@ == old(out)@ + jpeg_image_body_bytes(*self),
    {
        proof {
            reveal_strlit("<</Type/XObject/Subtype/Image");
            reveal_strlit("/Width ");
            reveal_strlit("/Height ");
            reveal_strlit("/ColorSpace");
            reveal_strlit("/BitsPerComponent ");
            reveal_strlit("/Filter[/DCTDecode]");
            reveal_strlit("/Length ");
            reveal_strlit(">>\nstream\n");
            reveal_strlit(">>\nendstream\n");
        }
        push_ascii(out, "<</Type/XObject/Subtype/Image");
        push_ascii(out, "/Width ");
        push_dec_u64(out, self.width as u64);
        push_ascii(out, "/Height ");
        push_dec_u64(out, self.height as u64);
        push_ascii(out, "/ColorSpace");
        push_ascii(out, self.color_space.as_pdf_name());
        push_ascii(out, "/BitsPerComponent ");
        push_ascii(out, self.color_space.as_pdf_name());
        push_ascii(out, "/Filter[/DCTDecode]");
        push_ascii(out, "/Length ");
        push_dec_u64(out, self.data.len() as u64);
        push_ascii(out, ">>\nstream\n");
        out.extend_from_slice(self.data.as_slice());
        push_ascii(out, ">>\nendstream\n");
        proof {
            assert(out@ =~= old(out)@ + jpeg_image_body_bytes(*self));
        }
    }
}

/// The reasons a decoded image cannot back a page.
#[derive(Clone, Copy, Debug, Eq, Hash, Ord, PartialEq, PartialOrd, Structural)]
pub enum PageImageError {
    /// The decoded color space code is none of the supported ones.
    UnknownColorSpace(u8),
    /// The image carries no density unit, so no physical size can be derived.
    NoDensityUnit,
    /// The decoded density unit code is none of the supported ones.
    UnknownDensityUnit(u8),
    /// A bit depth of zero is meaningless.
    ZeroBitDepth,
    /// A width or height of zero is meaningless.
    ZeroDimension,
    /// A density of zero would make the physical size infinite.
    ZeroDensity,
}

impl JpegImage {
    /// Validates a decoded image and adopts its metadata, together with the
    /// re-encoded file bytes; images whose metadata cannot back a page are
    /// rejected.
    pub fn try_from_decoded(image: &crate::jpeg::Image, data: Vec<u8>) -> (r: Result<
        JpegImage,
        PageImageError,
    >)
        ensures
            r matches Ok(img) ==> img.bit_depth == image.bit_depth && img.width == image.width
                && img.height == image.height && img.density_x == image.density_x
                && img.density_y == image.density_y && img.data == data
                && !(img.density_unit is NoUnit)
                && (image.color_space is Grayscale ==> img.color_space is Grayscale)
                && (image.color_space is Rgb ==> img.color_space is Rgb)
                && (image.color_space is Cmyk ==> img.color_space is Cmyk)
                && (image.density_unit is DotsPerInch ==> img.density_unit is DotsPerInch)
                && (image.density_unit is DotsPerCentimeter ==> img.density_unit
                    is DotsPerCentimeter)
                && img.bit_depth > 0 && img.width > 0 && img.height > 0 && img.density_x > 0
                && img.density_y > 0,
            r matches Err(e) ==> {
                if image.color_space is Other {
                    image.color_space matches crate::jpeg::ColorSpace::Other(o)
                        && e == PageImageError::UnknownColorSpace(o)
                } else if image.density_unit is NoUnit {
                    e == PageImageError::NoDensityUnit
                } else if image.density_unit is Other {
                    image.density_unit matches crate::jpeg::DensityUnit::Other(o)
                        && e == PageImageError::UnknownDensityUnit(o)
                } else if image.bit_depth == 0 {
                    e == PageImageError::ZeroBitDepth
                } else if image.width == 0 || image.height == 0 {
                    e == PageImageError::ZeroDimension
                } else {
                    e == PageImageError::ZeroDensity && (image.density_x == 0
                        || image.density_y == 0)
                }
            },
            r is Err <==> image.color_space is Other || image.density_unit is NoUnit
                || image.density_unit is Other || image.bit_depth == 0 || image.width == 0
                || image.height == 0 || image.density_x == 0 || image.density_y == 0,
    {
        let color_space = match image.color_space {
            crate::jpeg::ColorSpace::Grayscale => ColorSpace::Grayscale,
            crate::jpeg::ColorSpace::Rgb => ColorSpace::Rgb,
            crate::jpeg::ColorSpace::Cmyk => ColorSpace::Cmyk,
            crate::jpeg::ColorSpace::Other(o) => {
                return Err(PageImageError::UnknownColorSpace(o));
            },
        };
        let density_unit = match image.density_unit {
            crate::jpeg::DensityUnit::NoUnit => {
                return Err(PageImageError::NoDensityUnit);
            },
            crate::jpeg::DensityUnit::DotsPerInch => DensityUnit::DotsPerInch,
            crate::jpeg::DensityUnit::DotsPerCentimeter => DensityUnit::DotsPerCentimeter,
            crate::jpeg::DensityUnit::Other(o) => {
                return Err(PageImageError::UnknownDensityUnit(o));
            },
        };
        if image.bit_depth == 0 {
            return Err(PageImageError::ZeroBitDepth);
        }
        if image.width == 0 || image.height == 0 {
            return Err(PageImageError::ZeroDimension);
        }
        if image.density_x == 0 || image.density_y == 0 {
            return Err(PageImageError::ZeroDensity);
        }
        Ok(JpegImage {
            bit_depth: image.bit_depth,
            width: image.width,
            height: image.height,
            color_space,
            density_unit,
            density_x: image.density_x,
            density_y: image.density_y,
            data,
        })
    }
}

/// The variant of a font.
#[derive(Clone, Copy, Debug, Eq, Hash, Ord, PartialEq, PartialOrd, Structural)]
pub enum FontVariant {
    Regular,
    Italic,
    Bold,
    BoldItalic,
}

/// The index of a font variant within a page's font resources.
pub open spec fn spec_font_index(v: FontVariant) -> u8 {
    match v {
        FontVariant::Regular => 0,
        FontVariant::Italic => 1,
        FontVariant::Bold => 2,
        FontVariant::BoldItalic => 3,
    }
}

impl FontVariant {
    /// The index of this variant within a page's font resources.
    pub fn as_index(&self) -> (r: u8)
        ensures
            r == spec_font_index(*self),
    {
        match self {
            Self::Regular => 0,
            Self::Italic => 1,
            Self::Bold => 2,
            Self::BoldItalic => 3,
        }
    }
}

/// A chunk of text.
#[derive(Clone, Debug, Eq, Hash, Ord, PartialEq, PartialOrd)]
pub struct TextChunk {
    /// The text itself.
    pub text: String,
    /// The font variant to use.
    pub font_variant: FontVariant,
    /// The size of the font, in points (72ths of an inch).
    pub font_size: u64,
    /// Character spacing.
    pub character_spacing: u64,
    /// Word spacing.
    pub word_spacing: u64,
    /// Leading (additional line spacing).
    pub leading: i64,
    /// The language of this chunk, as a BCP 47 language tag, if it differs
    /// from the default document language.
    pub language: Option<String>,
    /// Alternate text describing this chunk.
    pub alternate_text: Option<String>,
    /// The actual text, free of typographical specialities, represented by
    /// this chunk.
    pub actual_text: Option<String>,
    /// The expanded phrase if the text is an abbreviation.
    pub expansion: Option<String>,
}

/// The chunk carries at least one attribute that needs a marked span.
pub open spec fn chunk_needs_span(c: TextChunk) -> bool {
    c.language is Some || c.alternate_text is Some || c.actual_text is Some || c.expansion is Some
}

/// One optional span attribute: the key followed by the PDF string value.
pub open spec fn span_attr_bytes(key: Seq<char>, v: Option<String>) -> Seq<u8> {
    match v {
        Some(s) => ascii_seq(key) + pdf_string_bytes(s@),
        None => Seq::empty(),
    }
}

/// The opening marked span of a chunk, if it needs one.
pub open spec fn span_open_bytes(c: TextChunk) -> Seq<u8> {
    if chunk_needs_span(c) {
        ascii_seq("/Span<<"@) + span_attr_bytes("/Lang"@, c.language) + span_attr_bytes(
            "/Alt"@, c.alternate_text) + span_attr_bytes("/ActualText"@, c.actual_text)
            + span_attr_bytes("/E"@, c.expansion) + ascii_seq(">>BDC"@)
    } else {
        Seq::empty()
    }
}

/// The font and spacing settings of a chunk.
pub open spec fn chunk_settings_bytes(c: TextChunk) -> Seq<u8> {
    ascii_seq("/F"@) + dec_bytes(spec_font_index(c.font_variant) as nat) + ascii_seq(" "@)
        + dec_bytes(c.font_size as nat) + ascii_seq(" Tf"@) + (if c.character_spacing > 0 {
        ascii_seq(" "@) + dec_bytes(c.character_spacing as nat) + ascii_seq(" Tc"@)
    } else {
        Seq::empty()
    }) + (if c.word_spacing > 0 {
        ascii_seq(" "@) + dec_bytes(c.word_spacing as nat) + ascii_seq(" Tw"@)
    } else {
        Seq::empty()
    }) + (if c.leading > 0 {
        ascii_seq(" "@) + dec_bytes(c.leading as nat) + ascii_seq(" TL"@)
    } else {
        Seq::empty()
    }) + ascii_seq(" 3 Tr"@)
}

/// The drawing commands of one text chunk.
pub open spec fn text_chunk_bytes(c: TextChunk) -> Seq<u8> {
    chunk_settings_bytes(c) + span_open_bytes(c) + pdf_string_bytes(c.text@) + ascii_seq("Tj"@) + (
    if chunk_needs_span(c) {
        ascii_seq(" EMC"@)
    } else {
        Seq::empty()
    })
}

/// Appends the font and spacing settings of a chunk.
#[verifier::rlimit(100)]
fn push_chunk_settings(c: &TextChunk, out: &mut Vec<u8>)
    ensures
        final(out)@ == old(out)@ + chunk_settings_bytes(*c),
{
    proof {
        reveal_strlit("/F");
        reveal_strlit(" ");
        reveal_strlit(" Tf");
        reveal_strlit(" Tc");
        reveal_strlit(" Tw");
        reveal_strlit(" TL");
        reveal_strlit(" 3 Tr");
    }
    // pick the correct font
    push_ascii(out, "/F");
    push_dec_u64(out, c.font_variant.as_index() as u64);
    push_ascii(out, " ");
    push_dec_u64(out, c.font_size);
    push_ascii(out, " Tf");

    // set some spacing settings
    if c.character_spacing > 0 {
        push_ascii(out, " ");
        push_dec_u64(out, c.character_spacing);
        push_ascii(out, " Tc");
    }
    if c.word_spacing > 0 {
        push_ascii(out, " ");
        push_dec_u64(out, c.word_spacing);
        push_ascii(out, " Tw");
    }
    if c.leading > 0 {
        push_ascii(out, " ");
        push_dec_u64(out, c.leading as u64);
        push_ascii(out, " TL");
    }

    // do not actually output the characters
    // (neither fill nor stroke nor influence the clipping path)
    push_ascii(out, " 3 Tr");
    proof {
        assert(out@ =~= old(out)@ + chunk_settings_bytes(*c));
    }
}

/// Appends the opening marked span of a chunk, if it needs one.
#[verifier::rlimit(100)]
fn push_span_open(c: &TextChunk, out: &mut Vec<u8>)
    ensures
        final(out)@ == old(out)@ + span_open_bytes(*c),
{
    proof {
        reveal_strlit("/Span<<");
        reveal_strlit("/Lang");
        reveal_strlit("/Alt");
        reveal_strlit("/ActualText");
        reveal_strlit("/E");
        reveal_strlit(">>BDC");
    }
    let need_span = c.language.is_some() || c.alternate_text.is_some() || c.actual_text.is_some()
        || c.expansion.is_some();
    if need_span {
        push_ascii(out, "/Span<<");
        match &c.language {
            Some(language) => {
                push_ascii(out, "/Lang");
                write_pdf_string(language.as_str(), out);
            },
            None => {},
        }
        match &c.alternate_text {
            Some(alt_text) => {
                push_ascii(out, "/Alt");
                write_pdf_string(alt_text.as_str(), out);
            },
            None => {},
        }
        match &c.actual_text {
            Some(actual) => {
                push_ascii(out, "/ActualText");
                write_pdf_string(actual.as_str(), out);
            },
            None => {},
        }
        match &c.expansion {
            Some(expansion) => {
                push_ascii(out, "/E");
                write_pdf_string(expansion.as_str(), out);
            },
            None => {},
        }
        push_ascii(out, ">>BDC");
    }
    proof {
        assert(out@ =~= old(out)@ + span_open_bytes(*c));
    }
}

impl TextChunk {
    /// Appends the drawing commands of this chunk: font and spacing settings,
    /// an optional marked span with its attributes, and the text itself, drawn
    /// in invisible render mode.
    #[verifier::rlimit(100)]
    pub fn write_drawing_commands(&self, out: &mut Vec<u8>)
        ensures
            final(out)@ == old(out)@ + text_chunk_bytes(*self),
    {
        proof {
            reveal_strlit("Tj");
            reveal_strlit(" EMC");
        }
        let need_span = self.language.is_some() || self.alternate_text.is_some()
            || self.actual_text.is_some() || self.expansion.is_some();

        push_chunk_settings(self, out);
        push_span_open(self, out);

        write_pdf_string(self.text.as_str(), out);
        push_ascii(out, "Tj");

        if need_span {
            push_ascii(out, " EMC");
        }
        proof {
            assert(out@ =~= old(out)@ + text_chunk_bytes(*self));
        }
    }
}

/// A single cohesive annotation on the page that represents actual content.
#[derive(Clone, Debug, Eq, Hash, Ord, PartialEq, PartialOrd)]
pub struct Annotation {
    /// The horizontal coordinate of the annotation, from the left edge of the
    /// page.
    pub left: u64,
    /// The vertical coordinate of the annotation, from the bottom edge of the
    /// page.
    pub bottom: u64,
    /// The elements of the annotation.
    pub elements: Vec<TextChunk>,
}

/// The drawing commands of a run of text chunks.
pub open spec fn chunks_bytes(cs: Seq<TextChunk>) -> Seq<u8>
    decreases cs.len(),
{
    if cs.len() == 0 {
        Seq::empty()
    } else {
        text_chunk_bytes(cs[0]) + chunks_bytes(cs.skip(1))
    }
}

proof fn lemma_chunks_bytes_push(cs: Seq<TextChunk>, c: TextChunk)
    ensures
        chunks_bytes(cs.push(c)) == chunks_bytes(cs) + text_chunk_bytes(c),
    decreases cs.len(),
{
    if cs.len() == 0 {
        assert(cs.push(c)[0] == c);
        assert(cs.push(c).skip(1) =~= Seq::<TextChunk>::empty());
        assert(chunks_bytes(cs.push(c).skip(1)) == chunks_bytes(Seq::<TextChunk>::empty()));
        assert(chunks_bytes(Seq::<TextChunk>::empty()) =~= Seq::<u8>::empty());
        assert(chunks_bytes(cs) =~= Seq::<u8>::empty());
        assert(chunks_bytes(cs.push(c)) =~= chunks_bytes(cs) + text_chunk_bytes(c));
    } else {
        assert(cs.push(c)[0] == cs[0]);
        assert(cs.push(c).skip(1) =~= cs.skip(1).push(c));
        lemma_chunks_bytes_push(cs.skip(1), c);
        assert(chunks_bytes(cs.push(c).skip(1)) == chunks_bytes(cs.skip(1).push(c)));
        assert(chunks_bytes(cs.push(c)) =~= chunks_bytes(cs) + text_chunk_bytes(c));
    }
}

/// The drawing commands of one annotation.
pub open spec fn annotation_bytes(a: Annotation) -> Seq<u8> {
    ascii_seq(" BT"@) + ascii_seq(" 1 0 0 1 "@) + dec_bytes(a.left as nat) + ascii_seq(" "@)
        + dec_bytes(a.bottom as nat) + ascii_seq(" Tm"@) + chunks_bytes(a.elements@) + ascii_seq(
        " ET"@)
}

impl Annotation {
    /// Appends the drawing commands of this annotation: a text block anchored
    /// at its coordinates, holding every element in order.
    #[verifier::loop_isolation(false)]
    #[verifier::rlimit(100)]
    pub fn write_drawing_commands(&self, out: &mut Vec<u8>)
        ensures
            final(out)@ == old(out)@ + annotation_bytes(*self),
    {
        proof {
            reveal_strlit(" BT");
            reveal_strlit(" 1 0 0 1 ");
            reveal_strlit(" ");
            reveal_strlit(" Tm");
            reveal_strlit(" ET");
        }
        push_ascii(out, " BT");
        push_ascii(out, " 1 0 0 1 ");
        push_dec_u64(out, self.left);
        push_ascii(out, " ");
        push_dec_u64(out, self.bottom);
        push_ascii(out, " Tm");
        let ghost mark = out@;
        let mut i: usize = 0;
        proof {
            assert(self.elements@.subrange(0, 0) =~= Seq::<TextChunk>::empty());
            assert(chunks_bytes(self.elements@.subrange(0, 0)) =~= Seq::<u8>::empty());
            assert(out@ =~= mark + chunks_bytes(self.elements@.subrange(0, 0)));
        }
        while i < self.elements.len()
            invariant
                i <= self.elements@.len(),
                out@ == mark + chunks_bytes(self.elements@.subrange(0, i as int)),
            decreases self.elements@.len() - i,
        {
            let ghost pre = self.elements@.subrange(0, i as int);
            self.elements[i].write_drawing_commands(out);
            i = i + 1;
            proof {
                lemma_chunks_bytes_push(pre, self.elements@[i - 1]);
                assert(pre.push(self.elements@[i - 1]) =~= self.elements@.subrange(0, i as int));
                assert(out@ =~= mark + chunks_bytes(self.elements@.subrange(0, i as int)));
            }
        }
        proof {
            assert(self.elements@.subrange(0, self.elements@.len() as int) =~= self.elements@);
        }
        push_ascii(out, " ET");
        proof {
            assert(out@ =~= old(out)@ + annotation_bytes(*self));
        }
    }
}

/// The type of non-content element represented by an `Artifact`.
#[derive(Clone, Copy, Debug, Eq, Hash, Ord, PartialEq, PartialOrd, Structural)]
pub enum ArtifactKind {
    /// Running heads, folios (page numbers), Bates numbering, etc.
    Pagination,
    /// Design elements such as footnote rules or decorative ornaments.
    Layout,
    /// Cut marks, color bars, etc.
    Page,
    /// Background elements repeated on every page.
    Background,
}

/// The PDF name of an artifact kind.
pub open spec fn spec_artifact_kind_name(k: ArtifactKind) -> Seq<char> {
    match k {
        ArtifactKind::Pagination => "/Pagination"@,
        ArtifactKind::Layout => "/Layout"@,
        ArtifactKind::Page => "/Page"@,
        ArtifactKind::Background => "/Background"@,
    }
}

impl ArtifactKind {
    /// The PDF name of this artifact kind, slash included.
    pub fn as_pdf_name(&self) -> (r: &'static str)
        ensures
            r@ == spec_artifact_kind_name(*self),
            vstd::string::is_ascii(r),
    {
        proof {
            reveal_strlit("/Pagination");
            reveal_strlit("/Layout");
            reveal_strlit("/Page");
            reveal_strlit("/Background");
        }
        match self {
            Self::Pagination => "/Pagination",
            Self::Layout => "/Layout",
            Self::Page => "/Page",
            Self::Background => "/Background",
        }
    }
}

/// A single cohesive annotation on the page that represents a non-content
/// element.
#[derive(Clone, Debug, Eq, Hash, Ord, PartialEq, PartialOrd)]
pub struct Artifact {
    /// The type of artifact represented by this object.
    pub kind: ArtifactKind,
    /// The artifact represented as an annotation.
    pub annotation: Annotation,
}

/// The drawing commands of one artifact: the annotation wrapped in a marked
/// artifact span.
pub open spec fn artifact_bytes(a: Artifact) -> Seq<u8> {
    ascii_seq("/Artifact<</Type"@) + ascii_seq(spec_artifact_kind_name(a.kind)) + ascii_seq(
        ">>BDC"@) + annotation_bytes(a.annotation) + ascii_seq(" EDC"@)
}

impl Artifact {
    /// Appends the drawing commands of this artifact.
    pub fn write_drawing_commands(&self, out: &mut Vec<u8>)
        ensures
            final(out)@ == old(out)@ + artifact_bytes(*self),
    {
        proof {
            reveal_strlit("/Artifact<</Type");
            reveal_strlit(">>BDC");
            reveal_strlit(" EDC");
        }
        push_ascii(out, "/Artifact<</Type");
        push_ascii(out, self.kind.as_pdf_name());
        push_ascii(out, ">>BDC");
        self.annotation.write_drawing_commands(out);
        push_ascii(out, " EDC");
        proof {
            assert(out@ =~= old(out)@ + artifact_bytes(*self));
        }
    }
}

/// A single page with annotations.
#[derive(Clone, Debug, Eq, Hash, Ord, PartialEq, PartialOrd)]
pub struct Page {
    /// The scanned image of the page, in JPEG format.
    pub scanned_image: JpegImage,
    /// The annotations on the page, in reading order.
    ///
    /// Annotations represent the actual content.
    pub annotations: Vec<Annotation>,
    /// The artifacts on the page, in reading order.
    ///
    /// Artifacts represent elements that are printed on the page but which are
    /// not the actual page content, e.g. page numbers.
    pub artifacts: Vec<Artifact>,
}

/// A complete file: a list of pages with annotations.
#[derive(Clone, Debug, Default, Eq, Hash, Ord, PartialEq, PartialOrd)]
pub struct File {
    /// The pages and their annotations.
    pub pages: Vec<Page>,
    /// The default language for this document, as a BCP 47 language tag.
    pub default_language: Option<String>,
}

} // verus!
