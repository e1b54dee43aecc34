use slmp::{
    encode_response, pack_bits, Destination, ReadBitsExchange, ReadBlocksExchange,
    ReadWordsExchange, Step, TransportEvent, WriteExchange,
};

fn words_bytes(words: &[u16]) -> Vec<u8> {
    let mut out = Vec::new();
    for w in words {
        out.push((w % 256) as u8);
        out.push((w / 256) as u8);
    }
    out
}

#[test]
fn words_exchange_chunked() {
    let dest = Destination::new();
    let frame = encode_response(&dest, 0, &words_bytes(&[100, 9]));
    let mut ex = ReadWordsExchange::new();
    // Feed the frame in three pieces: the first two leave it incomplete.
    let a = ex.step(TransportEvent::Chunk(frame[..4].to_vec()));
    assert!(matches!(a, Step::ReadMore));
    let b = ex.step(TransportEvent::Chunk(frame[4..12].to_vec()));
    assert!(matches!(b, Step::ReadMore));
    match ex.step(TransportEvent::Chunk(frame[12..].to_vec())) {
        Step::Done(Ok(words)) => assert_eq!(words, vec![100u16, 9u16]),
        _ => panic!("expected the operation to resolve"),
    }
}

#[test]
fn words_exchange_idle_then_done() {
    let dest = Destination::new();
    let frame = encode_response(&dest, 0, &words_bytes(&[42]));
    let mut ex = ReadWordsExchange::new();
    // A zero-byte read is transient: pause and retry, buffer unchanged.
    assert!(matches!(ex.step(TransportEvent::Idle), Step::PauseRetry));
    match ex.step(TransportEvent::Chunk(frame)) {
        Step::Done(Ok(words)) => assert_eq!(words, vec![42u16]),
        _ => panic!("expected the operation to resolve"),
    }
}

#[test]
fn words_exchange_broken_transport() {
    let mut ex = ReadWordsExchange::new();
    match ex.step(TransportEvent::Broken) {
        // The reserved value 0 is not a protocol end-code.
        Step::Done(Err(code)) => assert_eq!(code, 0),
        _ => panic!("expected a transport failure"),
    }
}

#[test]
fn words_exchange_malformed_frame() {
    let mut ex = ReadWordsExchange::new();
    let junk = vec![0x51u8, 0x00, 0, 0, 0, 0, 0, 2, 0, 0, 0];
    match ex.step(TransportEvent::Chunk(junk)) {
        Step::Done(Err(code)) => assert_eq!(code, 0),
        _ => panic!("expected a framing failure"),
    }
}

#[test]
fn words_exchange_protocol_error() {
    let dest = Destination::new();
    let frame = encode_response(&dest, 0xC051, &vec![]);
    let mut ex = ReadWordsExchange::new();
    match ex.step(TransportEvent::Chunk(frame)) {
        // The end-code passes through verbatim.
        Step::Done(Err(code)) => assert_eq!(code, 0xC051),
        _ => panic!("expected a protocol error"),
    }
}

#[test]
fn bits_exchange_odd_count_trims_padding() {
    let dest = Destination::new();
    let bits = vec![true, false, true, true, false, true, true, true, false];
    let frame = encode_response(&dest, 0, &pack_bits(&bits));
    let mut ex = ReadBitsExchange::new(9);
    match ex.step(TransportEvent::Chunk(frame)) {
        Step::Done(Ok(read)) => assert_eq!(read, bits),
        _ => panic!("expected the operation to resolve"),
    }
}

#[test]
fn bits_exchange_even_count_keeps_all() {
    let dest = Destination::new();
    let bits = vec![true, false, false, true];
    let frame = encode_response(&dest, 0, &pack_bits(&bits));
    let mut ex = ReadBitsExchange::new(4);
    match ex.step(TransportEvent::Chunk(frame)) {
        Step::Done(Ok(read)) => assert_eq!(read, bits),
        _ => panic!("expected the operation to resolve"),
    }
}

#[test]
fn blocks_exchange_segments_by_request() {
    let dest = Destination::new();
    let frame = encode_response(&dest, 0, &words_bytes(&[10, 20, 30, 40, 50]));
    let mut ex = ReadBlocksExchange::new(vec![3, 2]);
    // Split the frame so the first chunk is incomplete.
    let a = ex.step(TransportEvent::Chunk(frame[..10].to_vec()));
    assert!(matches!(a, Step::ReadMore));
    match ex.step(TransportEvent::Chunk(frame[10..].to_vec())) {
        Step::Done(Ok(blocks)) => {
            assert_eq!(blocks, vec![vec![10u16, 20, 30], vec![40u16, 50]]);
        }
        _ => panic!("expected the operation to resolve"),
    }
}

#[test]
fn blocks_exchange_overrun_fails() {
    let dest = Destination::new();
    let frame = encode_response(&dest, 0, &words_bytes(&[10, 20]));
    let mut ex = ReadBlocksExchange::new(vec![3]);
    match ex.step(TransportEvent::Chunk(frame)) {
        Step::Done(Err(code)) => assert_eq!(code, 0),
        _ => panic!("expected a framing failure"),
    }
}

#[test]
fn write_exchange_ack() {
    let dest = Destination::new();
    let frame = encode_response(&dest, 0, &vec![]);
    let mut ex = WriteExchange::new();
    let a = ex.step(TransportEvent::Chunk(frame[..5].to_vec()));
    assert!(matches!(a, Step::ReadMore));
    match ex.step(TransportEvent::Chunk(frame[5..].to_vec())) {
        Step::Done(Ok(())) => {}
        _ => panic!("expected the write to succeed"),
    }
}

#[test]
fn write_exchange_end_code() {
    let dest = Destination::new();
    let frame = encode_response(&dest, 0x4031, &vec![0x01]);
    let mut ex = WriteExchange::new();
    match ex.step(TransportEvent::Chunk(frame)) {
        Step::Done(Err(code)) => assert_eq!(code, 0x4031),
        _ => panic!("expected a protocol error"),
    }
}
