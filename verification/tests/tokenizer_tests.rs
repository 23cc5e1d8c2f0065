use pdfmcr::tokenizer::{read_next, Error, JpegDataPiece, NonExtremeU8, PeekWrapper};

fn encode_piece(piece: &JpegDataPiece) -> Vec<u8> {
    let mut out = Vec::new();
    match piece {
        JpegDataPiece::MarkerWithLength { additional_ff_count, marker_type, value } => {
            out.push(0xFF);
            for _ in 0..*additional_ff_count {
                out.push(0xFF);
            }
            out.push(marker_type.as_u8());
            let len = (value.len() + 2) as u16;
            out.extend_from_slice(&len.to_be_bytes());
            out.extend_from_slice(value);
        }
        JpegDataPiece::EmptyMarker { additional_ff_count, marker_type } => {
            out.push(0xFF);
            for _ in 0..*additional_ff_count {
                out.push(0xFF);
            }
            out.push(marker_type.as_u8());
        }
        JpegDataPiece::ByteStuffedFF { additional_ff_count } => {
            out.push(0xFF);
            for _ in 0..*additional_ff_count {
                out.push(0xFF);
            }
            out.push(0x00);
        }
        JpegDataPiece::EntropyCodedData { data } => {
            out.extend_from_slice(data);
        }
    }
    out
}

#[test]
fn non_extreme_u8_rejects_extremes() {
    assert_eq!(NonExtremeU8::try_from_u8(0x00), Err(0x00));
    assert_eq!(NonExtremeU8::try_from_u8(0xFF), Err(0xFF));
    let ok = NonExtremeU8::try_from_u8(0xD9).unwrap();
    assert_eq!(ok.as_u8(), 0xD9);
    let one = NonExtremeU8::try_from_u8(0x01).unwrap();
    assert_eq!(one.as_u8(), 0x01);
}

#[test]
fn peek_does_not_consume() {
    let data = [0x41u8, 0x42];
    let mut reader = PeekWrapper::new(&data);
    assert_eq!(reader.peek(), Some(0x41));
    assert_eq!(reader.peek(), Some(0x41));
    assert_eq!(reader.read_byte(), Some(0x41));
    assert_eq!(reader.read_byte(), Some(0x42));
    assert_eq!(reader.peek(), None);
    assert_eq!(reader.read_byte(), None);
}

#[test]
fn entropy_chunk_then_empty_marker() {
    // an entropy byte followed by End-of-Image
    let data = [0x41u8, 0xFF, 0xD9];
    let mut reader = PeekWrapper::new(&data);
    match read_next(&mut reader).unwrap() {
        JpegDataPiece::EntropyCodedData { data } => assert_eq!(data, vec![0x41]),
        other => panic!("expected entropy data, got {:?}", other),
    }
    match read_next(&mut reader).unwrap() {
        JpegDataPiece::EmptyMarker { additional_ff_count, marker_type } => {
            assert_eq!(additional_ff_count, 0);
            assert_eq!(marker_type.as_u8(), 0xD9);
        }
        other => panic!("expected an empty marker, got {:?}", other),
    }
    assert_eq!(read_next(&mut reader), Err(Error::UnexpectedEndOfStream));
}

#[test]
fn stuffed_byte_with_fillers() {
    // two redundant filler bytes before the stuffing zero
    let data = [0xFFu8, 0xFF, 0xFF, 0x00];
    let mut reader = PeekWrapper::new(&data);
    match read_next(&mut reader).unwrap() {
        JpegDataPiece::ByteStuffedFF { additional_ff_count } => {
            assert_eq!(additional_ff_count, 2);
        }
        other => panic!("expected a stuffed byte, got {:?}", other),
    }
}

#[test]
fn marker_with_length_and_payload() {
    let data = [0xFFu8, 0xE0, 0x00, 0x04, 0xAB, 0xCD];
    let mut reader = PeekWrapper::new(&data);
    match read_next(&mut reader).unwrap() {
        JpegDataPiece::MarkerWithLength { additional_ff_count, marker_type, value } => {
            assert_eq!(additional_ff_count, 0);
            assert_eq!(marker_type.as_u8(), 0xE0);
            assert_eq!(value, vec![0xAB, 0xCD]);
        }
        other => panic!("expected a marker with length, got {:?}", other),
    }
}

#[test]
fn length_below_two_is_invalid() {
    let data = [0xFFu8, 0xE0, 0x00, 0x01];
    let mut reader = PeekWrapper::new(&data);
    assert_eq!(read_next(&mut reader), Err(Error::InvalidLength));
}

#[test]
fn truncated_marker_fails() {
    let data = [0xFFu8];
    let mut reader = PeekWrapper::new(&data);
    assert_eq!(read_next(&mut reader), Err(Error::UnexpectedEndOfStream));

    let data = [0xFFu8, 0xE0, 0x00];
    let mut reader = PeekWrapper::new(&data);
    assert_eq!(read_next(&mut reader), Err(Error::UnexpectedEndOfStream));

    let data = [0xFFu8, 0xE0, 0x00, 0x05, 0x01];
    let mut reader = PeekWrapper::new(&data);
    assert_eq!(read_next(&mut reader), Err(Error::UnexpectedEndOfStream));
}

#[test]
fn empty_stream_fails() {
    let data: [u8; 0] = [];
    let mut reader = PeekWrapper::new(&data);
    assert_eq!(read_next(&mut reader), Err(Error::UnexpectedEndOfStream));
}

#[test]
fn concatenated_encodings_reproduce_the_stream() {
    // entropy data, a stuffed byte, a padded restart marker, a marker with a
    // payload, more entropy data, End-of-Image
    let data: Vec<u8> = vec![
        0x10, 0x20, 0x30, // entropy run
        0xFF, 0x00, // stuffed byte
        0xFF, 0xFF, 0xD0, // restart marker with one filler
        0xFF, 0xE5, 0x00, 0x05, 0x0A, 0x0B, 0x0C, // marker with payload
        0x44, // entropy run
        0xFF, 0xD9, // End-of-Image
    ];
    let mut reader = PeekWrapper::new(&data);
    let mut rebuilt = Vec::new();
    loop {
        match read_next(&mut reader) {
            Ok(piece) => rebuilt.extend_from_slice(&encode_piece(&piece)),
            Err(e) => {
                assert_eq!(e, Error::UnexpectedEndOfStream);
                break;
            }
        }
        if rebuilt.len() >= data.len() {
            break;
        }
    }
    assert_eq!(rebuilt, data);
}

#[test]
fn lengthless_marker_kinds() {
    // 0x01 and the restart markers carry no length field
    let data = [0xFFu8, 0x01, 0xFF, 0xD7];
    let mut reader = PeekWrapper::new(&data);
    match read_next(&mut reader).unwrap() {
        JpegDataPiece::EmptyMarker { additional_ff_count, marker_type } => {
            assert_eq!(additional_ff_count, 0);
            assert_eq!(marker_type.as_u8(), 0x01);
        }
        other => panic!("expected an empty marker, got {:?}", other),
    }
    match read_next(&mut reader).unwrap() {
        JpegDataPiece::EmptyMarker { marker_type, .. } => {
            assert_eq!(marker_type.as_u8(), 0xD7);
        }
        other => panic!("expected an empty marker, got {:?}", other),
    }
}

#[test]
fn padded_marker_keeps_its_fillers() {
    let data = [0xFFu8, 0xFF, 0xFF, 0xE3, 0x00, 0x02];
    let mut reader = PeekWrapper::new(&data);
    match read_next(&mut reader).unwrap() {
        JpegDataPiece::MarkerWithLength { additional_ff_count, marker_type, value } => {
            assert_eq!(additional_ff_count, 2);
            assert_eq!(marker_type.as_u8(), 0xE3);
            assert!(value.is_empty());
        }
        other => panic!("expected a marker with length, got {:?}", other),
    }
}
