use pdfmcr::jpeg::{Block, ColorSpace, DensityUnit, Error, Image, ImageBuilder};
use pdfmcr::tokenizer::PeekWrapper;

/// A minimal well-formed file: Start-of-Image, a JFIF APP0 with 72x72 dots
/// per inch, a baseline Start-of-Frame (8 bits, 32x16 pixels, grayscale),
/// Start-of-Scan, two entropy bytes, End-of-Image.
fn minimal_jpeg() -> Vec<u8> {
    let mut data = Vec::new();
    data.extend_from_slice(&[0xFF, 0xD8]); // SOI
    data.extend_from_slice(&[0xFF, 0xE0, 0x00, 0x0E]); // APP0, length 14
    data.extend_from_slice(b"JFIF\0");
    data.extend_from_slice(&[0x01, 0x01]); // version 1.1
    data.extend_from_slice(&[0x01]); // dots per inch
    data.extend_from_slice(&[0x00, 0x48, 0x00, 0x48]); // density 72 x 72
    data.extend_from_slice(&[0xFF, 0xC0, 0x00, 0x08]); // SOF0, length 8
    data.extend_from_slice(&[0x08, 0x00, 0x10, 0x00, 0x20, 0x01]); // 8 bit, 16 high, 32 wide, gray
    data.extend_from_slice(&[0xFF, 0xDA, 0x00, 0x03, 0x01]); // SOS with 1 payload byte
    data.extend_from_slice(&[0x12, 0x34]); // entropy-coded data
    data.extend_from_slice(&[0xFF, 0xD9]); // EOI
    data
}

#[test]
fn block_try_read_short_and_long() {
    let data = [0xFFu8, 0xD8, 0xFF, 0xE0, 0x00, 0x04, 0xAA, 0xBB];
    let mut reader = PeekWrapper::new(&data);
    let b = Block::try_read(&mut reader).unwrap();
    assert_eq!(b.kind(), 0xD8);
    assert_eq!(b.data(), &[] as &[u8]);
    let b = Block::try_read(&mut reader).unwrap();
    assert_eq!(b.kind(), 0xE0);
    assert_eq!(b.data(), &[0xAA, 0xBB]);
}

#[test]
fn block_try_read_errors() {
    let data = [0x41u8, 0x42];
    let mut reader = PeekWrapper::new(&data);
    match Block::try_read(&mut reader) {
        Err(Error::NotABlock { start_byte }) => assert_eq!(start_byte, 0x41),
        other => panic!("expected NotABlock, got {:?}", other),
    }

    let data = [0xFFu8, 0xE0, 0x00, 0x01];
    let mut reader = PeekWrapper::new(&data);
    match Block::try_read(&mut reader) {
        Err(Error::BlockTooShort { min_expected, obtained }) => {
            assert_eq!(min_expected, 2);
            assert_eq!(obtained, 1);
        }
        other => panic!("expected BlockTooShort, got {:?}", other),
    }

    let data = [0xFFu8];
    let mut reader = PeekWrapper::new(&data);
    match Block::try_read(&mut reader) {
        Err(Error::UnexpectedEndOfStream) => {}
        other => panic!("expected UnexpectedEndOfStream, got {:?}", other),
    }
}

#[test]
fn block_write_round_trips() {
    let block = Block::Long { kind: 0xE7, data: vec![1, 2, 3] };
    let mut out = Vec::new();
    block.write(&mut out).unwrap();
    assert_eq!(out, vec![0xFF, 0xE7, 0x00, 0x05, 1, 2, 3]);
    let mut reader = PeekWrapper::new(&out);
    let back = Block::try_read(&mut reader).unwrap();
    assert_eq!(back, block);

    let short = Block::Short { kind: 0xD3 };
    let mut out = Vec::new();
    short.write(&mut out).unwrap();
    assert_eq!(out, vec![0xFF, 0xD3]);
}

#[test]
fn block_write_rejects_oversized_payload() {
    let block = Block::Long { kind: 0xE0, data: vec![0u8; 0x10000] };
    let mut out = Vec::new();
    match block.write(&mut out) {
        Err(Error::BlockTooLong { max_allowed, obtained }) => {
            assert_eq!(max_allowed, 0xFFFF);
            assert_eq!(obtained, 0x10000);
        }
        other => panic!("expected BlockTooLong, got {:?}", other),
    }
    assert!(out.is_empty());
}

#[test]
fn block_is_required() {
    assert!(Block::Short { kind: 0xD8 }.is_required());
    assert!(!Block::Long { kind: 0xE0, data: vec![] }.is_required());
    assert!(!Block::Long { kind: 0xFE, data: vec![] }.is_required());
    assert!(Block::Long { kind: 0xFF, data: vec![] }.is_required());
}

#[test]
fn decode_minimal_file() {
    let data = minimal_jpeg();
    let img = Image::try_read(&data).unwrap();
    assert_eq!(img.bit_depth, 8);
    assert_eq!(img.height, 16);
    assert_eq!(img.width, 32);
    assert_eq!(img.color_space, ColorSpace::Grayscale);
    assert_eq!(img.density_unit, DensityUnit::DotsPerInch);
    assert_eq!(img.density_x, 72);
    assert_eq!(img.density_y, 72);
    assert_eq!(img.image_data, vec![0x12, 0x34]);
    assert_eq!(img.leading_blocks.len(), 4);
    assert_eq!(img.trailing_blocks, vec![Block::Short { kind: 0xD9 }]);
}

#[test]
fn decode_then_write_reproduces_the_bytes() {
    let data = minimal_jpeg();
    let img = Image::try_read(&data).unwrap();
    let mut out = Vec::new();
    img.write(&mut out).unwrap();
    assert_eq!(out, data);
}

#[test]
fn unknown_application_block_survives_round_trip() {
    // an unrecognized APPx marker with a valid length and payload survives
    // decode and re-encode unchanged, and contributes no metadata
    let mut data = Vec::new();
    data.extend_from_slice(&[0xFF, 0xD8]);
    data.extend_from_slice(&[0xFF, 0xEF, 0x00, 0x05, 0xDE, 0xAD, 0xBE]);
    data.extend_from_slice(&[0xFF, 0xE0, 0x00, 0x0E]);
    data.extend_from_slice(b"JFIF\0");
    data.extend_from_slice(&[0x01, 0x01, 0x01, 0x00, 0x48, 0x00, 0x48]);
    data.extend_from_slice(&[0xFF, 0xC0, 0x00, 0x08]);
    data.extend_from_slice(&[0x08, 0x00, 0x10, 0x00, 0x20, 0x01]);
    data.extend_from_slice(&[0xFF, 0xDA, 0x00, 0x03, 0x01]);
    data.extend_from_slice(&[0x99]);
    data.extend_from_slice(&[0xFF, 0xD9]);

    let img = Image::try_read(&data).unwrap();
    let mut out = Vec::new();
    img.write(&mut out).unwrap();
    assert_eq!(out, data);
    // the unknown block changed none of the derived fields
    assert_eq!(img.bit_depth, 8);
    assert_eq!(img.density_x, 72);
    assert_eq!(img.density_y, 72);
    assert_eq!(img.density_unit, DensityUnit::DotsPerInch);
}

#[test]
fn first_block_must_be_start_of_image() {
    let data = [0xFFu8, 0xE0, 0x00, 0x02];
    match Image::try_read(&data) {
        Err(Error::UnexpectedBlock { expected_kind, obtained_kind }) => {
            assert_eq!(expected_kind, 0xD8);
            assert_eq!(obtained_kind, 0xE0);
        }
        other => panic!("expected UnexpectedBlock, got {:?}", other),
    }
}

#[test]
fn image_data_must_end_with_end_of_image() {
    let mut data = Vec::new();
    data.extend_from_slice(&[0xFF, 0xD8]);
    data.extend_from_slice(&[0xFF, 0xDA, 0x00, 0x03, 0x01]);
    data.extend_from_slice(&[0x12, 0x34]); // no EOI
    match Image::try_read(&data) {
        Err(Error::IncorrectImageDataTermination) => {}
        other => panic!("expected IncorrectImageDataTermination, got {:?}", other),
    }
}

#[test]
fn app0_must_be_jfif() {
    let mut data = Vec::new();
    data.extend_from_slice(&[0xFF, 0xD8]);
    data.extend_from_slice(&[0xFF, 0xE0, 0x00, 0x06, 0x41, 0x42, 0x43, 0x44]);
    data.extend_from_slice(&[0xFF, 0xDA, 0x00, 0x03, 0x01]);
    data.extend_from_slice(&[0xFF, 0xD9]);
    match Image::try_read(&data) {
        Err(Error::NotJfif) => {}
        other => panic!("expected NotJfif, got {:?}", other),
    }
}

#[test]
fn jfif_header_must_be_long_enough() {
    let mut data = Vec::new();
    data.extend_from_slice(&[0xFF, 0xD8]);
    data.extend_from_slice(&[0xFF, 0xE0, 0x00, 0x09]);
    data.extend_from_slice(b"JFIF\0");
    data.extend_from_slice(&[0x01, 0x01]);
    data.extend_from_slice(&[0xFF, 0xDA, 0x00, 0x03, 0x01]);
    data.extend_from_slice(&[0xFF, 0xD9]);
    match Image::try_read(&data) {
        Err(Error::JfifTooShort { min_expected, obtained }) => {
            assert_eq!(min_expected, 12);
            assert_eq!(obtained, 7);
        }
        other => panic!("expected JfifTooShort, got {:?}", other),
    }
}

#[test]
fn jfif_version_must_match() {
    let mut data = Vec::new();
    data.extend_from_slice(&[0xFF, 0xD8]);
    data.extend_from_slice(&[0xFF, 0xE0, 0x00, 0x0E]);
    data.extend_from_slice(b"JFIF\0");
    data.extend_from_slice(&[0x01, 0x02, 0x01, 0x00, 0x48, 0x00, 0x48]);
    data.extend_from_slice(&[0xFF, 0xDA, 0x00, 0x03, 0x01]);
    data.extend_from_slice(&[0xFF, 0xD9]);
    match Image::try_read(&data) {
        Err(Error::UnexpectedJfifVersion { expected, obtained }) => {
            assert_eq!(expected, 0x0101);
            assert_eq!(obtained, 0x0102);
        }
        other => panic!("expected UnexpectedJfifVersion, got {:?}", other),
    }
}

#[test]
fn start_of_frame_must_be_long_enough() {
    let mut data = Vec::new();
    data.extend_from_slice(&[0xFF, 0xD8]);
    data.extend_from_slice(&[0xFF, 0xC0, 0x00, 0x05, 0x08, 0x00, 0x10]);
    data.extend_from_slice(&[0xFF, 0xDA, 0x00, 0x03, 0x01]);
    data.extend_from_slice(&[0xFF, 0xD9]);
    match Image::try_read(&data) {
        Err(Error::SofTooShort { min_expected, obtained }) => {
            assert_eq!(min_expected, 6);
            assert_eq!(obtained, 3);
        }
        other => panic!("expected SofTooShort, got {:?}", other),
    }
}

#[test]
fn missing_metadata_is_incomplete() {
    // valid framing, but neither an APP0 nor a Start-of-Frame block
    let mut data = Vec::new();
    data.extend_from_slice(&[0xFF, 0xD8]);
    data.extend_from_slice(&[0xFF, 0xDA, 0x00, 0x03, 0x01]);
    data.extend_from_slice(&[0xFF, 0xD9]);
    match Image::try_read(&data) {
        Err(Error::IncompleteData { builder }) => {
            assert_eq!(builder.bit_depth, None);
            assert_eq!(builder.density_x, None);
            assert_eq!(builder.leading_blocks.len(), 2);
        }
        other => panic!("expected IncompleteData, got {:?}", other),
    }
}

#[test]
fn builder_completeness_gates_build() {
    let builder = ImageBuilder::new();
    assert!(builder.build().is_none());
    let mut builder = ImageBuilder::new();
    builder.bit_depth = Some(8);
    builder.width = Some(1);
    builder.height = Some(1);
    builder.color_space = Some(ColorSpace::Rgb);
    builder.density_unit = Some(DensityUnit::DotsPerInch);
    builder.density_x = Some(72);
    assert!(builder.build().is_none()); // density_y still missing
    builder.density_y = Some(72);
    let img = builder.build().unwrap();
    assert_eq!(img.color_space, ColorSpace::Rgb);
    assert_eq!(img.density_y, 72);
}

#[test]
fn density_unit_and_color_space_codes() {
    assert_eq!(DensityUnit::from_base_type(0), DensityUnit::NoUnit);
    assert_eq!(DensityUnit::from_base_type(1), DensityUnit::DotsPerInch);
    assert_eq!(DensityUnit::from_base_type(2), DensityUnit::DotsPerCentimeter);
    assert_eq!(DensityUnit::from_base_type(9), DensityUnit::Other(9));
    assert_eq!(DensityUnit::DotsPerCentimeter.to_base_type(), 2);
    assert_eq!(ColorSpace::from_base_type(1), ColorSpace::Grayscale);
    assert_eq!(ColorSpace::from_base_type(3), ColorSpace::Rgb);
    assert_eq!(ColorSpace::from_base_type(4), ColorSpace::Cmyk);
    assert_eq!(ColorSpace::from_base_type(7), ColorSpace::Other(7));
    assert_eq!(ColorSpace::Cmyk.to_base_type(), 4);
}

#[test]
fn later_density_block_wins() {
    // two JFIF APP0 blocks: the later one overwrites the density fields
    let mut data = Vec::new();
    data.extend_from_slice(&[0xFF, 0xD8]);
    data.extend_from_slice(&[0xFF, 0xE0, 0x00, 0x0E]);
    data.extend_from_slice(b"JFIF\0");
    data.extend_from_slice(&[0x01, 0x01, 0x01, 0x00, 0x48, 0x00, 0x48]); // 72 x 72
    data.extend_from_slice(&[0xFF, 0xE0, 0x00, 0x0E]);
    data.extend_from_slice(b"JFIF\0");
    data.extend_from_slice(&[0x01, 0x01, 0x02, 0x00, 0x64, 0x00, 0x32]); // 100 x 50, per cm
    data.extend_from_slice(&[0xFF, 0xC0, 0x00, 0x08]);
    data.extend_from_slice(&[0x08, 0x00, 0x10, 0x00, 0x20, 0x01]);
    data.extend_from_slice(&[0xFF, 0xDA, 0x00, 0x03, 0x01]);
    data.extend_from_slice(&[0xFF, 0xD9]);
    let img = Image::try_read(&data).unwrap();
    assert_eq!(img.density_unit, DensityUnit::DotsPerCentimeter);
    assert_eq!(img.density_x, 100);
    assert_eq!(img.density_y, 50);
}

#[test]
fn stuffed_bytes_in_image_data_survive() {
    // the entropy-coded data may hold escaped 0xFF bytes and restart markers;
    // the decoder carries them through verbatim
    let mut data = Vec::new();
    data.extend_from_slice(&[0xFF, 0xD8]);
    data.extend_from_slice(&[0xFF, 0xE0, 0x00, 0x0E]);
    data.extend_from_slice(b"JFIF\0");
    data.extend_from_slice(&[0x01, 0x01, 0x01, 0x00, 0x48, 0x00, 0x48]);
    data.extend_from_slice(&[0xFF, 0xC0, 0x00, 0x08]);
    data.extend_from_slice(&[0x08, 0x00, 0x10, 0x00, 0x20, 0x01]);
    data.extend_from_slice(&[0xFF, 0xDA, 0x00, 0x03, 0x01]);
    data.extend_from_slice(&[0x11, 0xFF, 0x00, 0x22, 0xFF, 0xD0, 0x33]);
    data.extend_from_slice(&[0xFF, 0xD9]);
    let img = Image::try_read(&data).unwrap();
    assert_eq!(img.image_data, vec![0x11, 0xFF, 0x00, 0x22, 0xFF, 0xD0, 0x33]);
    let mut out = Vec::new();
    img.write(&mut out).unwrap();
    assert_eq!(out, data);
}

#[test]
fn block_write_rejects_payload_that_crowds_the_length_field() {
    // the length field must also cover its own two bytes, so payloads of
    // 0xFFFE and 0xFFFF bytes fail cleanly too
    let block = Block::Long { kind: 0xE0, data: vec![0u8; 0xFFFE] };
    let mut out = Vec::new();
    match block.write(&mut out) {
        Err(Error::BlockTooLong { max_allowed, obtained }) => {
            assert_eq!(max_allowed, 0xFFFF);
            assert_eq!(obtained, 0xFFFE);
        }
        other => panic!("expected BlockTooLong, got {:?}", other),
    }
    assert!(out.is_empty());

    // the largest payload that still fits is written out
    let block = Block::Long { kind: 0xE0, data: vec![0u8; 0xFFFD] };
    let mut out = Vec::new();
    block.write(&mut out).unwrap();
    assert_eq!(out.len(), 4 + 0xFFFD);
    assert_eq!(&out[0..4], &[0xFF, 0xE0, 0xFF, 0xFF]);
}
