use pdfmcr::pdf::{
    write_pdf_name, write_pdf_stream, write_pdf_string, Catalog, Content, Document, Object, Pages,
    PdfId, StandardFont,
};

#[test]
fn pdf_string_is_utf16be_with_bom() {
    let mut out = Vec::new();
    write_pdf_string("AB", &mut out);
    assert_eq!(out, vec![0x28, 0xFE, 0xFF, 0x00, 0x41, 0x00, 0x42, 0x29]);
}

#[test]
fn pdf_string_escapes_parentheses_and_backslash() {
    let mut out = Vec::new();
    write_pdf_string("(\\)", &mut out);
    assert_eq!(
        out,
        vec![
            0x28, 0xFE, 0xFF, // open and byte order mark
            0x00, 0x5C, 0x00, 0x28, // escaped (
            0x00, 0x5C, 0x00, 0x5C, // escaped backslash
            0x00, 0x5C, 0x00, 0x29, // escaped )
            0x29, // close
        ]
    );
}

#[test]
fn pdf_string_uses_surrogate_pairs() {
    // U+1D11E (musical symbol G clef) encodes as the pair D834 DD1E
    let mut out = Vec::new();
    write_pdf_string("\u{1D11E}", &mut out);
    assert_eq!(out, vec![0x28, 0xFE, 0xFF, 0xD8, 0x34, 0xDD, 0x1E, 0x29]);
}

#[test]
fn pdf_name_escapes_delimiters() {
    let mut out = Vec::new();
    write_pdf_name("Im0", &mut out);
    assert_eq!(out, b"/Im0".to_vec());

    let mut out = Vec::new();
    write_pdf_name("A B#/", &mut out);
    assert_eq!(out, b"/A#20B#23#2F".to_vec());
}

#[test]
fn pdf_stream_is_delimited() {
    let mut out = Vec::new();
    write_pdf_stream(&[1, 2, 3], &mut out);
    let mut expected = Vec::new();
    expected.extend_from_slice(b"\nstream\n");
    expected.extend_from_slice(&[1, 2, 3]);
    expected.extend_from_slice(b"\nendstream");
    assert_eq!(out, expected);
}

#[test]
fn catalog_content_with_language() {
    let catalog = Catalog { root_pages_id: PdfId(2), lang: Some("en".to_owned()) };
    let mut out = Vec::new();
    catalog.write_content(&mut out);
    let mut expected = Vec::new();
    expected.extend_from_slice(b"<</Type/Catalog/Pages 2 0 R/Lang");
    expected.extend_from_slice(&[0x28, 0xFE, 0xFF, 0x00, 0x65, 0x00, 0x6E, 0x29]);
    expected.extend_from_slice(b">>");
    assert_eq!(out, expected);
}

#[test]
fn pages_content_lists_children() {
    let pages = Pages { children: vec![PdfId(7), PdfId(10), PdfId(13)] };
    let mut out = Vec::new();
    pages.write_content(&mut out);
    assert_eq!(out, b"<</Type/Pages/Kids[7 0 R 10 0 R 13 0 R]/Count 3>>".to_vec());
}

#[test]
fn standard_font_content() {
    let font = StandardFont { name: "Times-Roman".to_owned() };
    let mut out = Vec::new();
    font.write_content(&mut out);
    assert_eq!(out, b"<</Type/Font/Subtype/Type1/BaseFont/Times-Roman>>".to_vec());
}

/// Builds the expected document around the rendered object bodies, mirroring
/// the documented layout: header, numbered objects, cross-reference table
/// with ten-digit offsets, trailer.
fn expected_pdf(objects: &[(u64, Vec<u8>)], root_id: u64) -> Vec<u8> {
    let mut out = Vec::new();
    out.extend_from_slice(b"%PDF-1.5\n%\xE2\xE3\xCF\xD3\n\n");
    let mut offsets = Vec::new();
    for (id, body) in objects {
        offsets.push(out.len() as u64);
        out.extend_from_slice(format!("{} 0 obj\n", id).as_bytes());
        out.extend_from_slice(body);
        out.extend_from_slice(b"\nendobj\n");
    }
    let max_id = objects.last().unwrap().0;
    let xref_abs = out.len() as u64;
    out.extend_from_slice(format!("xref\n0 {}\n", max_id + 1).as_bytes());
    let mut cur = 0u64;
    for ((id, _), off) in objects.iter().zip(offsets.iter()) {
        while cur < *id {
            out.extend_from_slice(format!("{:010} 65535 f\r\n", off).as_bytes());
            cur += 1;
        }
        out.extend_from_slice(format!("{:010} 00000 n\r\n", off).as_bytes());
        cur = id + 1;
    }
    out.extend_from_slice(
        format!(
            "trailer\n<</Size {}/Root {} 0 R>>\nstartxref\n{}\n%%EOF\n",
            max_id + 1,
            root_id,
            xref_abs
        )
        .as_bytes(),
    );
    out
}

#[test]
fn document_write_pdf_matches_expected_layout() {
    let doc = Document {
        objects: vec![
            (PdfId(1), Content::Catalog(Catalog { root_pages_id: PdfId(2), lang: None })),
            (PdfId(2), Content::Pages(Pages { children: vec![] })),
        ],
    };
    let mut out = Vec::new();
    doc.write_pdf(&mut out);

    let expected = expected_pdf(
        &[
            (1, b"<</Type/Catalog/Pages 2 0 R>>".to_vec()),
            (2, b"<</Type/Pages/Kids[]/Count 0>>".to_vec()),
        ],
        1,
    );
    assert_eq!(out, expected);
}

#[test]
fn document_write_pdf_fills_gaps_in_the_table() {
    let doc = Document {
        objects: vec![
            (PdfId(2), Content::Pages(Pages { children: vec![] })),
            (PdfId(5), Content::Catalog(Catalog { root_pages_id: PdfId(2), lang: None })),
        ],
    };
    let mut out = Vec::new();
    doc.write_pdf(&mut out);

    let expected = expected_pdf(
        &[
            (2, b"<</Type/Pages/Kids[]/Count 0>>".to_vec()),
            (5, b"<</Type/Catalog/Pages 2 0 R>>".to_vec()),
        ],
        5,
    );
    assert_eq!(out, expected);
}
