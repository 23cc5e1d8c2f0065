use pdfmcr::exif::{
    derive_density, find_first_value, process, Error, ValueOrPointer, ValueType, Values,
};
use pdfmcr::jpeg::{DensityUnit, Error as JpegError, Image, ImageBuilder};

fn with_exif_magic(tiff: &[u8]) -> Vec<u8> {
    let mut data = Vec::new();
    data.extend_from_slice(b"Exif\0\0");
    data.extend_from_slice(tiff);
    data
}

/// A little-endian classic TIFF whose first directory holds the given raw
/// entries, followed by extra value bytes.
fn classic_le_tiff(entries: &[[u8; 12]], tail: &[u8]) -> Vec<u8> {
    let mut tiff = Vec::new();
    tiff.extend_from_slice(b"II");
    tiff.extend_from_slice(&42u16.to_le_bytes());
    tiff.extend_from_slice(&8u32.to_le_bytes()); // first directory at byte 8
    tiff.extend_from_slice(&(entries.len() as u16).to_le_bytes());
    for e in entries {
        tiff.extend_from_slice(e);
    }
    tiff.extend_from_slice(&0u32.to_le_bytes()); // no further directory
    tiff.extend_from_slice(tail);
    tiff
}

fn entry(tag: u16, kind: u16, count: u32, slot: [u8; 4]) -> [u8; 12] {
    let mut e = [0u8; 12];
    e[0..2].copy_from_slice(&tag.to_le_bytes());
    e[2..4].copy_from_slice(&kind.to_le_bytes());
    e[4..8].copy_from_slice(&count.to_le_bytes());
    e[8..12].copy_from_slice(&slot);
    e
}

#[test]
fn single_rational_resolved_via_pointer() {
    // one X-resolution entry whose 8-byte rational cannot fit the 4-byte
    // inline slot; its slot points at numerator 300, denominator 1
    let value_offset: u32 = 8 + 2 + 12 + 4; // header, count, one entry, next-directory offset
    let mut tail = Vec::new();
    tail.extend_from_slice(&300u32.to_le_bytes());
    tail.extend_from_slice(&1u32.to_le_bytes());
    let tiff = classic_le_tiff(
        &[entry(0x011A, 5, 1, value_offset.to_le_bytes())],
        &tail,
    );
    let data = with_exif_magic(&tiff);
    let mut builder = ImageBuilder::new();
    process(&data, &mut builder).unwrap();
    assert_eq!(builder.density_x, Some(300));
    // absent tag 0x011B: the Y resolution falls back to the X resolution
    assert_eq!(builder.density_y, Some(300));
    // absent tag 0x0128: the unit falls back to dots per inch
    assert_eq!(builder.density_unit, Some(DensityUnit::DotsPerInch));
}

#[test]
fn short_value_decoded_inline() {
    // a resolution-unit entry: one short fits the inline slot directly
    let tiff = classic_le_tiff(&[entry(0x0128, 3, 1, [3, 0, 0, 0])], &[]);
    let data = with_exif_magic(&tiff);
    let mut builder = ImageBuilder::new();
    process(&data, &mut builder).unwrap();
    assert_eq!(builder.density_unit, Some(DensityUnit::DotsPerCentimeter));
    assert_eq!(builder.density_x, Some(72));
    assert_eq!(builder.density_y, Some(72));
}

#[test]
fn empty_directory_falls_back_everywhere() {
    let tiff = classic_le_tiff(&[], &[]);
    let data = with_exif_magic(&tiff);
    let mut builder = ImageBuilder::new();
    process(&data, &mut builder).unwrap();
    assert_eq!(builder.density_x, Some(72));
    assert_eq!(builder.density_y, Some(72));
    assert_eq!(builder.density_unit, Some(DensityUnit::DotsPerInch));
}

#[test]
fn multi_valued_unit_falls_back_to_inches() {
    // two shorts under tag 0x0128: not exactly one value, so dots per inch
    let tiff = classic_le_tiff(&[entry(0x0128, 3, 2, [3, 0, 3, 0])], &[]);
    let data = with_exif_magic(&tiff);
    let mut builder = ImageBuilder::new();
    process(&data, &mut builder).unwrap();
    assert_eq!(builder.density_unit, Some(DensityUnit::DotsPerInch));
}

#[test]
fn unknown_value_type_is_preserved_not_resolved() {
    // an entry of an unrecognized type code survives traversal untouched
    let tiff = classic_le_tiff(&[entry(0x9999, 200, 1, [1, 2, 3, 4])], &[]);
    let data = with_exif_magic(&tiff);
    let mut builder = ImageBuilder::new();
    process(&data, &mut builder).unwrap();
    assert_eq!(builder.density_x, Some(72));
}

#[test]
fn big_endian_header_is_understood() {
    let mut tiff = Vec::new();
    tiff.extend_from_slice(b"MM");
    tiff.extend_from_slice(&42u16.to_be_bytes());
    tiff.extend_from_slice(&8u32.to_be_bytes());
    tiff.extend_from_slice(&1u16.to_be_bytes());
    // X resolution inline would not fit; point past the directory
    let value_offset: u32 = 8 + 2 + 12 + 4;
    let mut e = [0u8; 12];
    e[0..2].copy_from_slice(&0x011Au16.to_be_bytes());
    e[2..4].copy_from_slice(&5u16.to_be_bytes());
    e[4..8].copy_from_slice(&1u32.to_be_bytes());
    e[8..12].copy_from_slice(&value_offset.to_be_bytes());
    tiff.extend_from_slice(&e);
    tiff.extend_from_slice(&0u32.to_be_bytes());
    tiff.extend_from_slice(&600u32.to_be_bytes());
    tiff.extend_from_slice(&2u32.to_be_bytes());
    let data = with_exif_magic(&tiff);
    let mut builder = ImageBuilder::new();
    process(&data, &mut builder).unwrap();
    assert_eq!(builder.density_x, Some(300));
}

#[test]
fn bad_byte_order_indicator_is_rejected() {
    let data = with_exif_magic(b"XX\x2A\x00");
    let mut builder = ImageBuilder::new();
    match process(&data, &mut builder) {
        Err(JpegError::Exif(Error::ByteOrderIndicator { bytes })) => {
            assert_eq!(bytes, [0x58, 0x58]);
        }
        other => panic!("expected a byte order error, got {:?}", other),
    }
}

#[test]
fn bad_version_is_rejected() {
    let mut tiff = Vec::new();
    tiff.extend_from_slice(b"II");
    tiff.extend_from_slice(&41u16.to_le_bytes());
    tiff.extend_from_slice(&8u32.to_le_bytes());
    let data = with_exif_magic(&tiff);
    let mut builder = ImageBuilder::new();
    match process(&data, &mut builder) {
        Err(JpegError::Exif(Error::Version { version })) => assert_eq!(version, 41),
        other => panic!("expected a version error, got {:?}", other),
    }
}

#[test]
fn big_tiff_header_fields_are_checked() {
    // BigTIFF with a pointer size other than 8
    let mut tiff = Vec::new();
    tiff.extend_from_slice(b"II");
    tiff.extend_from_slice(&43u16.to_le_bytes());
    tiff.extend_from_slice(&4u16.to_le_bytes());
    tiff.extend_from_slice(&0u16.to_le_bytes());
    tiff.extend_from_slice(&16u64.to_le_bytes());
    let data = with_exif_magic(&tiff);
    let mut builder = ImageBuilder::new();
    match process(&data, &mut builder) {
        Err(JpegError::Exif(Error::BigPointerSize { size })) => assert_eq!(size, 4),
        other => panic!("expected a pointer size error, got {:?}", other),
    }

    // BigTIFF with a nonzero reserved field
    let mut tiff = Vec::new();
    tiff.extend_from_slice(b"II");
    tiff.extend_from_slice(&43u16.to_le_bytes());
    tiff.extend_from_slice(&8u16.to_le_bytes());
    tiff.extend_from_slice(&7u16.to_le_bytes());
    tiff.extend_from_slice(&16u64.to_le_bytes());
    let data = with_exif_magic(&tiff);
    let mut builder = ImageBuilder::new();
    match process(&data, &mut builder) {
        Err(JpegError::Exif(Error::BigReserved { value })) => assert_eq!(value, 7),
        other => panic!("expected a reserved field error, got {:?}", other),
    }
}

#[test]
fn big_tiff_empty_directory_parses() {
    let mut tiff = Vec::new();
    tiff.extend_from_slice(b"II");
    tiff.extend_from_slice(&43u16.to_le_bytes());
    tiff.extend_from_slice(&8u16.to_le_bytes());
    tiff.extend_from_slice(&0u16.to_le_bytes());
    tiff.extend_from_slice(&16u64.to_le_bytes());
    tiff.extend_from_slice(&0u64.to_le_bytes()); // zero entries
    tiff.extend_from_slice(&0u64.to_le_bytes()); // no further directory
    let data = with_exif_magic(&tiff);
    let mut builder = ImageBuilder::new();
    process(&data, &mut builder).unwrap();
    assert_eq!(builder.density_x, Some(72));
}

#[test]
fn truncated_buffer_fails() {
    let data = with_exif_magic(b"II");
    let mut builder = ImageBuilder::new();
    match process(&data, &mut builder) {
        Err(JpegError::UnexpectedEndOfStream) => {}
        other => panic!("expected UnexpectedEndOfStream, got {:?}", other),
    }
}

#[test]
fn zero_denominator_falls_back() {
    let value_offset: u32 = 8 + 2 + 12 + 4;
    let mut tail = Vec::new();
    tail.extend_from_slice(&300u32.to_le_bytes());
    tail.extend_from_slice(&0u32.to_le_bytes()); // denominator zero: unusable
    let tiff = classic_le_tiff(&[entry(0x011A, 5, 1, value_offset.to_le_bytes())], &tail);
    let data = with_exif_magic(&tiff);
    let mut builder = ImageBuilder::new();
    process(&data, &mut builder).unwrap();
    assert_eq!(builder.density_x, Some(72));
}

#[test]
fn value_type_codes_and_sizes() {
    assert_eq!(ValueType::from_base_type(1), ValueType::Byte);
    assert_eq!(ValueType::from_base_type(5), ValueType::Rational);
    assert_eq!(ValueType::from_base_type(14), ValueType::Other(14));
    assert_eq!(ValueType::Byte.single_element_size(), Some(1));
    assert_eq!(ValueType::Short.single_element_size(), Some(2));
    assert_eq!(ValueType::Long.single_element_size(), Some(4));
    assert_eq!(ValueType::Rational.single_element_size(), Some(8));
    assert_eq!(ValueType::Double.single_element_size(), Some(8));
    assert_eq!(ValueType::Other(99).single_element_size(), None);
}

#[test]
fn entry_accessors() {
    let v = ValueOrPointer::Value { tag: 0x011A, values: Values::Short(vec![7]) };
    assert_eq!(v.tag(), 0x011A);
    assert_eq!(v.value(), Some(&Values::Short(vec![7])));
    let p = ValueOrPointer::Pointer { tag: 3, value_type: ValueType::Long, count: 2, pointer: 9 };
    assert_eq!(p.tag(), 3);
    assert_eq!(p.value(), None);
}

#[test]
fn derive_density_prefers_first_resolved_entry() {
    let entries = vec![
        ValueOrPointer::Unknown {
            tag: 0x011A,
            value_type: ValueType::Other(99),
            count: 1,
            inline_data: [0; 8],
        },
        ValueOrPointer::Value { tag: 0x011A, values: Values::Rational(vec![(144, 2)]) },
        ValueOrPointer::Value { tag: 0x011A, values: Values::Rational(vec![(999, 1)]) },
    ];
    assert_eq!(
        find_first_value(&entries, 0x011A),
        Some(&Values::Rational(vec![(144, 2)]))
    );
    let mut builder = ImageBuilder::new();
    derive_density(&entries, &mut builder);
    assert_eq!(builder.density_x, Some(72));
    assert_eq!(builder.density_y, Some(72));
}

#[test]
fn exif_inside_a_jpeg_sets_the_density() {
    let value_offset: u32 = 8 + 2 + 12 + 4;
    let mut tail = Vec::new();
    tail.extend_from_slice(&300u32.to_le_bytes());
    tail.extend_from_slice(&1u32.to_le_bytes());
    let tiff = classic_le_tiff(&[entry(0x011A, 5, 1, value_offset.to_le_bytes())], &tail);
    let payload = with_exif_magic(&tiff);

    let mut data = Vec::new();
    data.extend_from_slice(&[0xFF, 0xD8]);
    data.extend_from_slice(&[0xFF, 0xE1]);
    data.extend_from_slice(&((payload.len() + 2) as u16).to_be_bytes());
    data.extend_from_slice(&payload);
    data.extend_from_slice(&[0xFF, 0xC0, 0x00, 0x08]);
    data.extend_from_slice(&[0x08, 0x00, 0x10, 0x00, 0x20, 0x01]);
    data.extend_from_slice(&[0xFF, 0xDA, 0x00, 0x03, 0x01]);
    data.extend_from_slice(&[0xFF, 0xD9]);

    let img = Image::try_read(&data).unwrap();
    assert_eq!(img.density_x, 300);
    assert_eq!(img.density_y, 300);
    assert_eq!(img.density_unit, DensityUnit::DotsPerInch);

    // and the file still re-encodes byte-exactly
    let mut out = Vec::new();
    img.write(&mut out).unwrap();
    assert_eq!(out, data);
}

#[test]
fn exif_after_jfif_wins() {
    // a JFIF APP0 sets the density first; a later Exif APP1 overwrites it
    let value_offset: u32 = 8 + 2 + 12 + 4;
    let mut tail = Vec::new();
    tail.extend_from_slice(&150u32.to_le_bytes());
    tail.extend_from_slice(&1u32.to_le_bytes());
    let tiff = classic_le_tiff(&[entry(0x011A, 5, 1, value_offset.to_le_bytes())], &tail);
    let payload = with_exif_magic(&tiff);

    let mut data = Vec::new();
    data.extend_from_slice(&[0xFF, 0xD8]);
    data.extend_from_slice(&[0xFF, 0xE0, 0x00, 0x0E]);
    data.extend_from_slice(b"JFIF\0");
    data.extend_from_slice(&[0x01, 0x01, 0x01, 0x00, 0x48, 0x00, 0x48]);
    data.extend_from_slice(&[0xFF, 0xE1]);
    data.extend_from_slice(&((payload.len() + 2) as u16).to_be_bytes());
    data.extend_from_slice(&payload);
    data.extend_from_slice(&[0xFF, 0xC0, 0x00, 0x08]);
    data.extend_from_slice(&[0x08, 0x00, 0x10, 0x00, 0x20, 0x01]);
    data.extend_from_slice(&[0xFF, 0xDA, 0x00, 0x03, 0x01]);
    data.extend_from_slice(&[0xFF, 0xD9]);

    let img = Image::try_read(&data).unwrap();
    assert_eq!(img.density_x, 150);
    assert_eq!(img.density_y, 150);
}

#[test]
fn big_tiff_entry_with_wide_slot() {
    // a BigTIFF entry has an 8-byte inline slot, so one rational fits inline
    let mut tiff = Vec::new();
    tiff.extend_from_slice(b"II");
    tiff.extend_from_slice(&43u16.to_le_bytes());
    tiff.extend_from_slice(&8u16.to_le_bytes());
    tiff.extend_from_slice(&0u16.to_le_bytes());
    tiff.extend_from_slice(&16u64.to_le_bytes()); // first directory at byte 16
    tiff.extend_from_slice(&1u64.to_le_bytes()); // one entry
    tiff.extend_from_slice(&0x011Au16.to_le_bytes());
    tiff.extend_from_slice(&5u16.to_le_bytes()); // rational
    tiff.extend_from_slice(&1u32.to_le_bytes());
    tiff.extend_from_slice(&96u32.to_le_bytes()); // numerator, inline
    tiff.extend_from_slice(&1u32.to_le_bytes()); // denominator, inline
    tiff.extend_from_slice(&0u64.to_le_bytes()); // no further directory
    let data = with_exif_magic(&tiff);
    let mut builder = ImageBuilder::new();
    process(&data, &mut builder).unwrap();
    assert_eq!(builder.density_x, Some(96));
}
