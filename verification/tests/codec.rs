use tcp_core::codec::CHUNK_SIZE;
use tcp_core::codec::SENTINEL;
use tcp_core::codec::absorb_chunk;
use tcp_core::codec::encode;
use tcp_core::codec::scan_sentinel;
use tcp_core::codec::take_frame;

#[test]
fn encode_appends_exactly_one_sentinel() {
    let payload = vec![104u8, 105u8];
    let framed = encode(&payload);
    assert_eq!(framed, vec![104u8, 105u8, 0u8]);
}

#[test]
fn encode_empty_payload() {
    let payload: Vec<u8> = Vec::new();
    assert_eq!(encode(&payload), vec![0u8]);
}

#[test]
fn sentinel_is_zero_and_chunks_are_128() {
    assert_eq!(SENTINEL, 0u8);
    assert_eq!(CHUNK_SIZE, 128);
}

#[test]
fn round_trip_of_clean_payload() {
    let payload = b"hello".to_vec();
    let mut wire = encode(&payload);
    let decoded = take_frame(&mut wire);
    assert_eq!(decoded, Some(b"hello".to_vec()));
    assert!(wire.is_empty());
}

#[test]
fn round_trip_of_empty_payload() {
    let payload: Vec<u8> = Vec::new();
    let mut wire = encode(&payload);
    assert_eq!(take_frame(&mut wire), Some(Vec::new()));
    assert!(wire.is_empty());
}

#[test]
fn decode_truncates_at_first_sentinel() {
    let mut wire = vec![1u8, 2u8, 0u8, 3u8, 4u8];
    let decoded = take_frame(&mut wire);
    assert_eq!(decoded, Some(vec![1u8, 2u8]));
    assert_eq!(wire, vec![3u8, 4u8]);
}

#[test]
fn decode_without_sentinel_waits() {
    let mut wire = vec![9u8, 8u8, 7u8];
    assert_eq!(take_frame(&mut wire), None);
    assert_eq!(wire, vec![9u8, 8u8, 7u8]);
}

#[test]
fn scan_sentinel_positions() {
    assert_eq!(scan_sentinel(&vec![]), 0);
    assert_eq!(scan_sentinel(&vec![0u8]), 0);
    assert_eq!(scan_sentinel(&vec![5u8, 6u8]), 2);
    assert_eq!(scan_sentinel(&vec![5u8, 0u8, 6u8]), 1);
}

#[test]
fn chunk_without_sentinel_is_absorbed_whole() {
    let mut acc = vec![1u8];
    let done = absorb_chunk(&mut acc, &vec![2u8, 3u8]);
    assert!(!done);
    assert_eq!(acc, vec![1u8, 2u8, 3u8]);
}

#[test]
fn chunk_with_sentinel_stops_the_message() {
    let mut acc = vec![1u8];
    let done = absorb_chunk(&mut acc, &vec![2u8, 0u8, 9u8]);
    assert!(done);
    assert_eq!(acc, vec![1u8, 2u8]);
}

#[test]
fn chunk_boundary_on_the_sentinel() {
    // The previous chunk ended right before the sentinel: the next
    // chunk begins with it, and nothing more is appended.
    let mut acc = vec![1u8, 2u8];
    let done = absorb_chunk(&mut acc, &vec![0u8, 7u8]);
    assert!(done);
    assert_eq!(acc, vec![1u8, 2u8]);
}

#[test]
fn long_message_spans_many_chunks() {
    // A message longer than one chunk: absorb chunk by chunk exactly
    // as a decoder reading 128 bytes at a time would.
    let payload: Vec<u8> = (0..300u32).map(|i| (i % 255) as u8 + 1).collect();
    let wire = encode(&payload);
    let mut acc: Vec<u8> = Vec::new();
    let mut done = false;
    for chunk in wire.chunks(CHUNK_SIZE) {
        done = absorb_chunk(&mut acc, &chunk.to_vec());
        if done {
            break;
        }
    }
    assert!(done);
    assert_eq!(acc, payload);
}
