use stegano_rs::decoder::Decoder;
use stegano_rs::encoder::Encoder;
use stegano_rs::errors::StegError;

/// Reassembles one logical byte from the low two bits of four carrier bytes.
fn unpack_unit(group: &[u8]) -> u8 {
    ((group[0] & 3) << 6) | ((group[1] & 3) << 4) | ((group[2] & 3) << 2) | (group[3] & 3)
}

fn encode_into(carrier: Vec<u8>, payload: &[u8]) -> (Result<usize, StegError>, Vec<u8>) {
    let mut enc = Encoder::new(carrier, payload.to_vec()).unwrap();
    let r = enc.encode();
    (r, enc.into_source())
}

fn decode_from(carrier: Vec<u8>) -> Result<Vec<u8>, StegError> {
    let mut dec = Decoder::new(carrier).unwrap();
    dec.decode()
}

#[test]
fn round_trip_empty_payload() {
    // the two markers alone need exactly 16 carrier bytes
    let (r, carrier) = encode_into(vec![0u8; 16], &[]);
    assert_eq!(r, Ok(4));
    let decoded = decode_from(carrier).unwrap();
    assert_eq!(decoded, Vec::<u8>::new());
}

#[test]
fn capacity_boundary() {
    let payload = [102u8, 111, 117, 114];
    // one byte short of (4 + 4) * 4 fails, and mutates nothing
    let (r, carrier) = encode_into(vec![7u8; 31], &payload);
    assert_eq!(r, Err(StegError::Capacity));
    assert_eq!(carrier, vec![7u8; 31]);
    // exactly (4 + 4) * 4 succeeds
    let (r, _) = encode_into(vec![7u8; 32], &payload);
    assert_eq!(r, Ok(8));
}

#[test]
fn decode_needs_sixteen_bytes() {
    assert_eq!(decode_from(vec![0u8; 15]), Err(StegError::Capacity));
}

#[test]
fn high_bits_preserved() {
    let original = 0xEDu8;
    let (r, carrier) = encode_into(vec![original; 40], &[1, 2, 3]);
    assert_eq!(r, Ok(7));
    // the touched prefix keeps its high six bits
    for i in 0..28 {
        assert_eq!(carrier[i] & 0xFC, original & 0xFC);
    }
    // everything past (3 + 4) * 4 is untouched entirely
    for i in 28..40 {
        assert_eq!(carrier[i], original);
    }
}

#[test]
fn start_marker_rejected() {
    // sixteen zero bytes unpack to logical [0, 0, 0, 0]
    assert_eq!(decode_from(vec![0u8; 16]), Err(StegError::StartMarker));
}

#[test]
fn end_marker_byte_in_payload_diverges() {
    // 186 inside the payload is swallowed as terminator material
    let payload = [102u8, 186, 111];
    let (r, carrier) = encode_into(vec![0u8; 64], &payload);
    assert_eq!(r, Ok(7));
    let decoded = decode_from(carrier);
    assert_ne!(decoded, Ok(payload.to_vec()));
    assert_eq!(decoded, Err(StegError::EndMarker));
}

#[test]
fn end_marker_pair_in_payload_truncates() {
    // a payload equal to the end marker looks like an empty message
    let payload = [186u8, 187];
    let (r, carrier) = encode_into(vec![0u8; 64], &payload);
    assert_eq!(r, Ok(6));
    let decoded = decode_from(carrier);
    assert_ne!(decoded, Ok(payload.to_vec()));
    assert_eq!(decoded, Ok(Vec::new()));
}

#[test]
fn second_end_byte_alone_fails() {
    // 187 with no 186 before it is a malformed terminator
    let (r, carrier) = encode_into(vec![0u8; 20], &[187]);
    assert_eq!(r, Ok(5));
    assert_eq!(decode_from(carrier), Err(StegError::EndMarker));
}

#[test]
fn bounds_when_end_marker_missing() {
    // logical stream [171, 176, 0, 0]: a valid start, then no terminator
    let carrier = vec![
        2u8, 2, 2, 3, // 171
        2, 3, 0, 0, // 176
        0, 0, 0, 0, // 0
        0, 0, 0, 0, // 0
    ];
    assert_eq!(decode_from(carrier), Err(StegError::Bounds));
}

#[test]
fn concrete_scenario() {
    let payload = [102u8, 111, 117, 114]; // "four"
    let (r, carrier) = encode_into(vec![0u8; 64], &payload);
    assert_eq!(r, Ok(8));
    // start marker in the first eight carrier bytes
    assert_eq!(unpack_unit(&carrier[0..4]), 171);
    assert_eq!(unpack_unit(&carrier[4..8]), 176);
    // the payload in the next sixteen
    assert_eq!(unpack_unit(&carrier[8..12]), 102);
    assert_eq!(unpack_unit(&carrier[12..16]), 111);
    assert_eq!(unpack_unit(&carrier[16..20]), 117);
    assert_eq!(unpack_unit(&carrier[20..24]), 114);
    // the end marker in the final eight touched bytes
    assert_eq!(unpack_unit(&carrier[24..28]), 186);
    assert_eq!(unpack_unit(&carrier[28..32]), 187);
    // nothing beyond the framed stream was written
    for i in 32..64 {
        assert_eq!(carrier[i], 0);
    }
    assert_eq!(decode_from(carrier), Ok(payload.to_vec()));
}
