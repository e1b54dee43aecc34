use slmp::{
    decode_read_bits, decode_read_blocks, decode_read_words, decode_write_ack, encode_read_bits,
    encode_read_blocks, encode_read_words, encode_response, encode_write_bits, encode_write_words,
    pack_bits, unpack_bits, Decoded, Destination, DeviceBit, DeviceWord,
};

fn words_payload(words: &[u16]) -> Vec<u8> {
    let mut out = Vec::new();
    for w in words {
        out.push((w % 256) as u8);
        out.push((w / 256) as u8);
    }
    out
}

#[test]
fn read_words_request_literal() {
    let dest = Destination::new();
    let frame = encode_read_words(&dest, 1, DeviceWord::D, 2);
    assert_eq!(
        frame,
        vec![
            0x50, 0x00, // request sub-header
            0x00, 0xFF, 0xFF, 0x03, 0x00, // destination
            0x0C, 0x00, // body length
            0x00, 0x00, // reserved
            0x01, 0x04, // command
            0x00, 0x00, // subcommand
            0x01, 0x00, 0x00, // head address
            0xA8, // device code D
            0x02, 0x00, // count
        ]
    );
}

#[test]
fn read_words_response_literal() {
    // L = 7: end-code 0, payload bytes 64 00 09 00 plus one pad byte,
    // (L - 2) / 2 = 2 words.
    let data = vec![
        0xD0, 0x00, 0x00, 0xFF, 0xFF, 0x03, 0x00, 0x07, 0x00, 0x00, 0x00, 0x64, 0x00, 0x09, 0x00,
        0x00,
    ];
    match decode_read_words(&data) {
        Decoded::Done { total, end_code, payload } => {
            assert_eq!(total, 16);
            assert_eq!(end_code, 0);
            assert_eq!(payload, vec![100u16, 9u16]);
        }
        _ => panic!("expected a complete frame"),
    }
}

#[test]
fn device_codes() {
    assert_eq!(DeviceWord::D.code(), 0xA8);
    assert_eq!(DeviceWord::R.code(), 0xAF);
    assert_eq!(DeviceWord::ZR.code(), 0xB0);
    assert_eq!(DeviceBit::X.code(), 0x9C);
    assert_eq!(DeviceBit::Y.code(), 0x9D);
    assert_eq!(DeviceBit::M.code(), 0x90);
}

#[test]
fn destination_roundtrip() {
    let dest = Destination { network: 5, station: 9, module: 0x1234, multidrop_station: 7 };
    let bytes = dest.serialize();
    assert_eq!(bytes, vec![5, 9, 0x34, 0x12, 7]);
    assert_eq!(Destination::deserialize(&bytes), Some(dest));
    assert_eq!(Destination::deserialize(&vec![1, 2, 3, 4]), None);
}

#[test]
fn bit_packing_roundtrip() {
    for n in [0usize, 1, 2, 9, 10] {
        let bits: Vec<bool> = (0..n).map(|i| i % 3 == 0).collect();
        let packed = pack_bits(&bits);
        assert_eq!(packed.len(), (n + 1) / 2);
        let mut unpacked = unpack_bits(&packed);
        assert_eq!(unpacked.len(), 2 * ((n + 1) / 2));
        unpacked.truncate(n);
        assert_eq!(unpacked, bits);
    }
}

#[test]
fn bit_packing_literal() {
    let bits = vec![true, false, true, true, false, true, true, true, false];
    assert_eq!(pack_bits(&bits), vec![0x10, 0x11, 0x01, 0x11, 0x00]);
}

#[test]
fn read_words_roundtrip() {
    let dest = Destination::new();
    let words = vec![0u16, 1, 0xFFFF, 0x1234, 258];
    let frame = encode_response(&dest, 0, &words_payload(&words));
    match decode_read_words(&frame) {
        Decoded::Done { total, end_code, payload } => {
            assert_eq!(total, frame.len());
            assert_eq!(end_code, 0);
            assert_eq!(payload, words);
        }
        _ => panic!("expected a complete frame"),
    }
}

#[test]
fn read_bits_roundtrip() {
    let dest = Destination::new();
    let bits = vec![true, true, false, true, false, false, true, false];
    let frame = encode_response(&dest, 0, &pack_bits(&bits));
    match decode_read_bits(&frame) {
        Decoded::Done { end_code, payload, .. } => {
            assert_eq!(end_code, 0);
            assert_eq!(payload, bits);
        }
        _ => panic!("expected a complete frame"),
    }
}

#[test]
fn write_ack_roundtrip() {
    let dest = Destination::new();
    let frame = encode_response(&dest, 0, &vec![]);
    assert_eq!(frame.len(), 11);
    match decode_write_ack(&frame) {
        Decoded::Done { total, end_code, .. } => {
            assert_eq!(total, 11);
            assert_eq!(end_code, 0);
        }
        _ => panic!("expected a complete frame"),
    }
}

#[test]
fn block_segmentation_fidelity() {
    let dest = Destination::new();
    let frame = encode_response(&dest, 0, &words_payload(&[10, 20, 30, 40, 50]));
    let counts = vec![3u16, 2u16];
    match decode_read_blocks(&frame, &counts) {
        Decoded::Done { end_code, payload, .. } => {
            assert_eq!(end_code, 0);
            assert_eq!(payload, vec![vec![10u16, 20, 30], vec![40u16, 50]]);
        }
        _ => panic!("expected a complete frame"),
    }
}

#[test]
fn block_segmentation_overrun_is_malformed() {
    let dest = Destination::new();
    // 5 words available, but the request asked for 3 + 3 = 6.
    let frame = encode_response(&dest, 0, &words_payload(&[10, 20, 30, 40, 50]));
    let counts = vec![3u16, 3u16];
    assert!(matches!(decode_read_blocks(&frame, &counts), Decoded::Malformed));
}

#[test]
fn end_code_short_circuit() {
    let dest = Destination::new();
    // Nonempty trailing payload bytes of no particular shape.
    let frame = encode_response(&dest, 0x4031, &vec![0xAA, 0xBB, 0xCC]);
    match decode_read_words(&frame) {
        Decoded::Done { end_code, payload, .. } => {
            assert_eq!(end_code, 0x4031);
            assert_eq!(payload, Vec::<u16>::new());
        }
        _ => panic!("expected a complete frame"),
    }
    match decode_read_bits(&frame) {
        Decoded::Done { end_code, payload, .. } => {
            assert_eq!(end_code, 0x4031);
            assert_eq!(payload, Vec::<bool>::new());
        }
        _ => panic!("expected a complete frame"),
    }
    match decode_read_blocks(&frame, &vec![9u16]) {
        Decoded::Done { end_code, payload, .. } => {
            assert_eq!(end_code, 0x4031);
            assert_eq!(payload, Vec::<Vec<u16>>::new());
        }
        _ => panic!("expected a complete frame"),
    }
}

#[test]
fn incomplete_then_complete() {
    let dest = Destination::new();
    let frame = encode_response(&dest, 0, &words_payload(&[7, 8]));
    assert_eq!(frame.len(), 15);
    for k in 0..frame.len() {
        let prefix: Vec<u8> = frame[..k].to_vec();
        assert!(matches!(decode_read_words(&prefix), Decoded::Incomplete));
    }
    match decode_read_words(&frame) {
        Decoded::Done { total, end_code, payload } => {
            assert_eq!(total, 15);
            assert_eq!(end_code, 0);
            assert_eq!(payload, vec![7u16, 8u16]);
        }
        _ => panic!("expected a complete frame"),
    }
    // Trailing bytes beyond 9 + L are neither consumed nor inspected.
    let mut extended = frame.clone();
    extended.extend_from_slice(&[0xDE, 0xAD, 0xBE]);
    match decode_read_words(&extended) {
        Decoded::Done { total, end_code, payload } => {
            assert_eq!(total, 15);
            assert_eq!(end_code, 0);
            assert_eq!(payload, vec![7u16, 8u16]);
        }
        _ => panic!("expected a complete frame"),
    }
}

#[test]
fn bad_subheader_is_malformed() {
    let dest = Destination::new();
    let mut frame = encode_response(&dest, 0, &words_payload(&[7]));
    frame[0] = 0x50;
    assert!(matches!(decode_read_words(&frame), Decoded::Malformed));
    assert!(matches!(decode_read_bits(&frame), Decoded::Malformed));
    assert!(matches!(decode_write_ack(&frame), Decoded::Malformed));
}

#[test]
fn tiny_declared_length_is_malformed() {
    // 11 bytes with the right sub-header but L = 1: the data length cannot
    // hold the end-code, so the frame can never become valid.
    let frame = vec![0xD0, 0x00, 0x00, 0xFF, 0xFF, 0x03, 0x00, 0x01, 0x00, 0x00, 0x00];
    assert!(matches!(decode_write_ack(&frame), Decoded::Malformed));
    assert!(matches!(decode_read_words(&frame), Decoded::Malformed));
}

#[test]
fn write_words_count_from_payload() {
    let dest = Destination::new();
    let frame = encode_write_words(&dest, 1, DeviceWord::D, &vec![7u16, 8, 9]);
    assert_eq!(frame.len(), 21 + 6);
    // Body length is derived from the assembled body: 12 + 2 * 3.
    assert_eq!((frame[7], frame[8]), (18, 0));
    // Command 0x1401, subcommand 0x0000.
    assert_eq!((frame[11], frame[12]), (0x01, 0x14));
    assert_eq!((frame[13], frame[14]), (0x00, 0x00));
    // The count field always equals the actual number of values.
    assert_eq!((frame[19], frame[20]), (3, 0));
    // The values themselves, little-endian.
    assert_eq!(&frame[21..], &[7, 0, 8, 0, 9, 0]);
}

#[test]
fn write_bits_request_shape() {
    let dest = Destination::new();
    let frame = encode_write_bits(&dest, 3, DeviceBit::M, &vec![true, false, true]);
    // Body: head(3) + code(1) + count(2) + 2 packed bytes = 12 + 2.
    assert_eq!(frame.len(), 21 + 2);
    assert_eq!((frame[7], frame[8]), (14, 0));
    assert_eq!((frame[11], frame[12]), (0x01, 0x14));
    assert_eq!((frame[13], frame[14]), (0x01, 0x00));
    assert_eq!(frame[18], 0x90);
    assert_eq!((frame[19], frame[20]), (3, 0));
    assert_eq!(&frame[21..], &[0x10, 0x10]);
}

#[test]
fn read_bits_request_literal() {
    let dest = Destination::new();
    let frame = encode_read_bits(&dest, 3, DeviceBit::M, 9);
    assert_eq!(
        frame,
        vec![
            0x50, 0x00, 0x00, 0xFF, 0xFF, 0x03, 0x00, 0x0C, 0x00, 0x00, 0x00, 0x01, 0x04, 0x01,
            0x00, 0x03, 0x00, 0x00, 0x90, 0x09, 0x00,
        ]
    );
}

#[test]
fn read_blocks_request_shape() {
    let dest = Destination::new();
    let frame = encode_read_blocks(&dest, &vec![(1, DeviceWord::D, 3), (100, DeviceWord::D, 2)]);
    assert_eq!(frame.len(), 17 + 12);
    // Body length 8 + 6 * 2, command 0x0406.
    assert_eq!((frame[7], frame[8]), (20, 0));
    assert_eq!((frame[11], frame[12]), (0x06, 0x04));
    // Word-block count 2, bit-block count 0.
    assert_eq!((frame[15], frame[16]), (2, 0));
    assert_eq!(&frame[17..23], &[1, 0, 0, 0xA8, 3, 0]);
    assert_eq!(&frame[23..29], &[100, 0, 0, 0xA8, 2, 0]);
}

#[test]
fn write_blocks_request_shape() {
    let dest = Destination::new();
    let frame = slmp::encode_write_blocks(
        &dest,
        &vec![(1, DeviceWord::D, vec![1u16, 1]), (9, DeviceWord::R, vec![0x1234u16])],
    );
    // Body: 2 count bytes + (6 + 4) + (6 + 2).
    assert_eq!(frame.len(), 17 + 18);
    assert_eq!((frame[7], frame[8]), (26, 0));
    assert_eq!((frame[11], frame[12]), (0x06, 0x14));
    assert_eq!((frame[15], frame[16]), (2, 0));
    assert_eq!(&frame[17..27], &[1, 0, 0, 0xA8, 2, 0, 1, 0, 1, 0]);
    assert_eq!(&frame[27..35], &[9, 0, 0, 0xAF, 1, 0, 0x34, 0x12]);
}

#[test]
fn empty_reads_and_writes() {
    let dest = Destination::new();
    // A successful response with an empty payload decodes to no values.
    let frame = encode_response(&dest, 0, &vec![]);
    match decode_read_words(&frame) {
        Decoded::Done { end_code, payload, .. } => {
            assert_eq!(end_code, 0);
            assert!(payload.is_empty());
        }
        _ => panic!("expected a complete frame"),
    }
    // Writing no values still yields a well-formed request.
    let req = encode_write_words(&dest, 1, DeviceWord::D, &vec![]);
    assert_eq!(req.len(), 21);
    assert_eq!((req[7], req[8]), (12, 0));
    assert_eq!((req[19], req[20]), (0, 0));
    // A block read of no blocks decodes to no blocks.
    match decode_read_blocks(&frame, &vec![]) {
        Decoded::Done { end_code, payload, .. } => {
            assert_eq!(end_code, 0);
            assert!(payload.is_empty());
        }
        _ => panic!("expected a complete frame"),
    }
}
