use mob::codec::{decode, decode_length, encode, encode_length};
use mob::error::ConnectionError;

#[test]
fn encode_puts_the_big_endian_length_first() {
    assert_eq!(
        encode(b"hello"),
        vec![0, 0, 0, 0, 0, 0, 0, 5, b'h', b'e', b'l', b'l', b'o']
    );
}

#[test]
fn encode_length_is_big_endian() {
    assert_eq!(encode_length(100), vec![0, 0, 0, 0, 0, 0, 0, 100]);
    assert_eq!(
        encode_length(0x0102_0304_0506_0708),
        vec![1, 2, 3, 4, 5, 6, 7, 8]
    );
    assert_eq!(encode_length(u64::MAX), vec![255; 8]);
}

#[test]
fn decode_length_reads_eight_bytes() {
    assert_eq!(decode_length(&[0, 0, 0, 0, 0, 0, 1, 0]), Ok(256));
    assert_eq!(decode_length(&[1, 2, 3, 4, 5, 6, 7, 8]), Ok(0x0102_0304_0506_0708));
}

#[test]
fn decode_length_refuses_any_other_count() {
    assert_eq!(
        decode_length(&[0, 0, 0, 0, 0, 0, 1]),
        Err(ConnectionError::ProtocolViolation)
    );
    assert_eq!(decode_length(&[]), Err(ConnectionError::ProtocolViolation));
    assert_eq!(
        decode_length(&[0, 0, 0, 0, 0, 0, 0, 1, 2]),
        Err(ConnectionError::ProtocolViolation)
    );
}

#[test]
fn round_trip_gives_the_payload_back() {
    let payload: Vec<u8> = (0..=255u8).collect();
    assert_eq!(decode(&encode(&payload)), Ok(Some(payload)));
    assert_eq!(decode(&encode(b"x")), Ok(Some(vec![b'x'])));
}

#[test]
fn round_trip_of_a_large_payload() {
    let payload: Vec<u8> = (0..70_000u32).map(|i| (i % 251) as u8).collect();
    let bytes = encode(&payload);
    assert_eq!(bytes.len(), 70_008);
    assert_eq!(&bytes[..8], &[0, 0, 0, 0, 0, 1, 0x11, 0x70]);
    assert_eq!(decode(&bytes), Ok(Some(payload)));
}

#[test]
fn an_empty_payload_decodes_to_no_frame() {
    assert_eq!(encode(b""), vec![0; 8]);
    assert_eq!(decode(&encode(b"")), Ok(None));
}

#[test]
fn decode_refuses_a_short_prefix_or_payload() {
    assert_eq!(decode(&[0, 0, 0]), Err(ConnectionError::ProtocolViolation));
    assert_eq!(
        decode(&[0, 0, 0, 0, 0, 0, 0, 3, b'a', b'b']),
        Err(ConnectionError::ProtocolViolation)
    );
}

#[test]
fn decode_takes_no_more_than_the_length_says() {
    assert_eq!(
        decode(&[0, 0, 0, 0, 0, 0, 0, 2, b'a', b'b', b'c']),
        Ok(Some(vec![b'a', b'b']))
    );
}

#[test]
fn each_failure_has_its_message() {
    assert_eq!(ConnectionError::ProtocolViolation.message(), "Invalid message length");
    assert_eq!(ConnectionError::FatalIO.message(), "Socket failure");
    assert_eq!(ConnectionError::Other.message(), "Could not pop send queue");
}
