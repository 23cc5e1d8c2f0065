use pdfmcr::file_to_pdf::file_to_pdf;
use pdfmcr::model::{
    Annotation, Artifact, ArtifactKind, ColorSpace, DensityUnit, File, FontVariant, JpegImage,
    Page, TextChunk,
};
use pdfmcr::pdf::{Content, PdfId};

fn plain_chunk(text: &str) -> TextChunk {
    TextChunk {
        text: text.to_owned(),
        font_variant: FontVariant::Regular,
        font_size: 12,
        character_spacing: 0,
        word_spacing: 0,
        leading: 0,
        language: None,
        alternate_text: None,
        actual_text: None,
        expansion: None,
    }
}

fn pdf_text(s: &str) -> Vec<u8> {
    let mut out = vec![0x28, 0xFE, 0xFF];
    for w in s.encode_utf16() {
        if w == 0x28 || w == 0x29 || w == 0x5C {
            out.extend_from_slice(&[0x00, 0x5C]);
        }
        out.extend_from_slice(&w.to_be_bytes());
    }
    out.push(0x29);
    out
}

#[test]
fn color_space_names() {
    assert_eq!(ColorSpace::Grayscale.as_pdf_name(), "/DeviceGray");
    assert_eq!(ColorSpace::Rgb.as_pdf_name(), "/DeviceRGB");
    assert_eq!(ColorSpace::Cmyk.as_pdf_name(), "/DeviceCMYK");
}

#[test]
fn artifact_kind_names() {
    assert_eq!(ArtifactKind::Pagination.as_pdf_name(), "/Pagination");
    assert_eq!(ArtifactKind::Layout.as_pdf_name(), "/Layout");
    assert_eq!(ArtifactKind::Page.as_pdf_name(), "/Page");
    assert_eq!(ArtifactKind::Background.as_pdf_name(), "/Background");
}

#[test]
fn font_variant_indexes() {
    assert_eq!(FontVariant::Regular.as_index(), 0);
    assert_eq!(FontVariant::Italic.as_index(), 1);
    assert_eq!(FontVariant::Bold.as_index(), 2);
    assert_eq!(FontVariant::BoldItalic.as_index(), 3);
}

#[test]
fn density_unit_to_points() {
    assert_eq!(DensityUnit::NoUnit.try_to_points(100, 1), None);
    // pixels divided by 72 times the density, truncating
    assert_eq!(DensityUnit::DotsPerInch.try_to_points(7200, 1), Some(100));
    assert_eq!(DensityUnit::DotsPerInch.try_to_points(7200, 2), Some(50));
    assert_eq!(DensityUnit::DotsPerInch.try_to_points(100, 1), Some(1));
    // 25 times the pixels divided by 4572 times the density, truncating
    assert_eq!(DensityUnit::DotsPerCentimeter.try_to_points(4572, 1), Some(25));
    assert_eq!(DensityUnit::DotsPerCentimeter.try_to_points(9144, 2), Some(25));
}

#[test]
fn jpeg_image_object_body() {
    let img = JpegImage {
        bit_depth: 8,
        width: 320,
        height: 200,
        color_space: ColorSpace::Rgb,
        density_unit: DensityUnit::DotsPerInch,
        density_x: 72,
        density_y: 72,
        data: vec![0xAA, 0xBB],
    };
    let mut out = Vec::new();
    img.write_object_body(&mut out);
    let mut expected = Vec::new();
    expected.extend_from_slice(b"<</Type/XObject/Subtype/Image/Width 320/Height 200");
    expected.extend_from_slice(b"/ColorSpace/DeviceRGB/BitsPerComponent /DeviceRGB");
    expected.extend_from_slice(b"/Filter[/DCTDecode]/Length 2>>\nstream\n");
    expected.extend_from_slice(&[0xAA, 0xBB]);
    expected.extend_from_slice(b">>\nendstream\n");
    assert_eq!(out, expected);
}

#[test]
fn text_chunk_commands_without_span() {
    let chunk = plain_chunk("Hi");
    let mut out = Vec::new();
    chunk.write_drawing_commands(&mut out);
    let mut expected = Vec::new();
    expected.extend_from_slice(b"/F0 12 Tf 3 Tr");
    expected.extend_from_slice(&pdf_text("Hi"));
    expected.extend_from_slice(b"Tj");
    assert_eq!(out, expected);
}

#[test]
fn text_chunk_commands_with_spacing_and_span() {
    let mut chunk = plain_chunk("x");
    chunk.font_variant = FontVariant::Bold;
    chunk.font_size = 9;
    chunk.character_spacing = 1;
    chunk.word_spacing = 2;
    chunk.leading = 3;
    chunk.language = Some("de".to_owned());
    chunk.expansion = Some("Doktor".to_owned());
    let mut out = Vec::new();
    chunk.write_drawing_commands(&mut out);
    let mut expected = Vec::new();
    expected.extend_from_slice(b"/F2 9 Tf 1 Tc 2 Tw 3 TL 3 Tr/Span<</Lang");
    expected.extend_from_slice(&pdf_text("de"));
    expected.extend_from_slice(b"/E");
    expected.extend_from_slice(&pdf_text("Doktor"));
    expected.extend_from_slice(b">>BDC");
    expected.extend_from_slice(&pdf_text("x"));
    expected.extend_from_slice(b"Tj EMC");
    assert_eq!(out, expected);
}

#[test]
fn annotation_commands_wrap_elements() {
    let ann = Annotation { left: 10, bottom: 20, elements: vec![plain_chunk("a")] };
    let mut out = Vec::new();
    ann.write_drawing_commands(&mut out);
    let mut expected = Vec::new();
    expected.extend_from_slice(b" BT 1 0 0 1 10 20 Tm/F0 12 Tf 3 Tr");
    expected.extend_from_slice(&pdf_text("a"));
    expected.extend_from_slice(b"Tj ET");
    assert_eq!(out, expected);
}

#[test]
fn artifact_commands_wrap_annotation() {
    let artifact = Artifact {
        kind: ArtifactKind::Pagination,
        annotation: Annotation { left: 1, bottom: 2, elements: vec![] },
    };
    let mut out = Vec::new();
    artifact.write_drawing_commands(&mut out);
    assert_eq!(
        out,
        b"/Artifact<</Type/Pagination>>BDC BT 1 0 0 1 1 2 Tm ET EDC".to_vec()
    );
}

#[test]
fn file_to_pdf_builds_the_documented_layout() {
    let page = Page {
        scanned_image: JpegImage {
            bit_depth: 8,
            width: 7200,
            height: 7200,
            color_space: ColorSpace::Grayscale,
            density_unit: DensityUnit::DotsPerInch,
            density_x: 1,
            density_y: 1,
            data: vec![0x12],
        },
        annotations: vec![],
        artifacts: vec![],
    };
    let file = File { pages: vec![page], default_language: Some("en".to_owned()) };
    let doc = file_to_pdf(&file);
    assert_eq!(doc.objects.len(), 8);
    assert_eq!(doc.objects[0].0, PdfId(1));
    match &doc.objects[0].1 {
        Content::Catalog(c) => {
            assert_eq!(c.root_pages_id, PdfId(2));
            assert_eq!(c.lang, Some("en".to_owned()));
        }
        other => panic!("expected the catalog, got {:?}", other),
    }
    match &doc.objects[1].1 {
        Content::Pages(p) => assert_eq!(p.children, vec![PdfId(7)]),
        other => panic!("expected the page tree root, got {:?}", other),
    }
    assert_eq!(doc.objects[6].0, PdfId(7));
    match &doc.objects[6].1 {
        Content::Page(p) => {
            assert_eq!(p.parent, PdfId(2));
            assert_eq!(p.width_pt, 100);
            assert_eq!(p.height_pt, 100);
            assert_eq!(p.contents, Some(PdfId(8)));
        }
        other => panic!("expected a page, got {:?}", other),
    }
    assert_eq!(doc.objects[7].0, PdfId(8));
    match &doc.objects[7].1 {
        Content::ImageXObject(x) => {
            assert_eq!(x.width, 7200);
            assert_eq!(x.height, 7200);
            assert_eq!(x.bits_per_component, 8);
            assert_eq!(x.data, vec![0x12]);
        }
        other => panic!("expected the scanned image, got {:?}", other),
    }

    // the whole document renders
    let mut out = Vec::new();
    doc.write_pdf(&mut out);
    assert!(out.starts_with(b"%PDF-1.5\n"));
    assert!(out.ends_with(b"%%EOF\n"));
}
