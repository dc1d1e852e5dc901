use marecchia::segment_protocol::{
    encode_varint, read_frame, write_frame, FrameError, SegmentExchangeCodec, SegmentExchangeProtocol,
    SegmentRequest, MAX_REQUEST_BYTES, MAX_RESPONSE_BYTES,
};

fn read_request(bytes: &Vec<u8>) -> Result<SegmentRequest, FrameError> {
    SegmentExchangeCodec.read_request(bytes)
}

fn write_request(request: &SegmentRequest) -> Vec<u8> {
    SegmentExchangeCodec.write_request(request)
}

fn read_response(bytes: &Vec<u8>) -> Result<Option<Vec<u8>>, FrameError> {
    SegmentExchangeCodec.read_response(bytes)
}

fn write_response(response: Option<Vec<u8>>) -> Vec<u8> {
    SegmentExchangeCodec.write_response(response)
}

#[test]
fn protocol_name() {
    assert_eq!(SegmentExchangeProtocol.name(), "/segment-exchange/1");
}

#[test]
fn varint_encodings() {
    assert_eq!(encode_varint(0), vec![0x00]);
    assert_eq!(encode_varint(1), vec![0x01]);
    assert_eq!(encode_varint(127), vec![0x7f]);
    assert_eq!(encode_varint(128), vec![0x80, 0x01]);
    assert_eq!(encode_varint(300), vec![0xac, 0x02]);
    assert_eq!(encode_varint(16_384), vec![0x80, 0x80, 0x01]);
}

#[test]
fn frame_round_trip_ignores_trailing_bytes() {
    let payload = vec![1u8, 2, 3];
    let mut framed = write_frame(&payload);
    assert_eq!(framed, vec![3, 1, 2, 3]);
    framed.extend_from_slice(&[9, 9]);
    assert_eq!(read_frame(&framed, 10), Ok(payload));
}

#[test]
fn long_frame_round_trip() {
    let payload: Vec<u8> = (0..300u32).map(|i| (i % 251) as u8).collect();
    let framed = write_frame(&payload);
    assert_eq!(&framed[..2], &[0xac, 0x02]);
    assert_eq!(read_frame(&framed, 300), Ok(payload));
}

#[test]
fn truncated_frames() {
    assert_eq!(read_frame(&vec![], 10), Err(FrameError::UnexpectedEof));
    assert_eq!(read_frame(&vec![0x80], 10), Err(FrameError::UnexpectedEof));
    assert_eq!(read_frame(&vec![3, 1, 2], 10), Err(FrameError::UnexpectedEof));
}

#[test]
fn oversized_frames() {
    assert_eq!(read_frame(&vec![3, 1, 2, 3], 2), Err(FrameError::TooLarge));
    // A length far beyond any limit, still unterminated after many bytes.
    let huge = vec![0xff; 12];
    assert_eq!(read_frame(&huge, 10), Err(FrameError::UnexpectedEof));
    let mut huge = vec![0xff; 11];
    huge.push(0x01);
    assert_eq!(read_frame(&huge, MAX_RESPONSE_BYTES), Err(FrameError::TooLarge));
}

#[test]
fn request_round_trip() {
    let request = SegmentRequest("seg-1".to_string());
    let bytes = write_request(&request);
    assert_eq!(bytes, b"\x05seg-1".to_vec());
    assert_eq!(read_request(&bytes), Ok(request));
}

#[test]
fn empty_request_is_refused() {
    assert_eq!(read_request(&vec![0]), Err(FrameError::UnexpectedEof));
}

#[test]
fn request_must_be_utf8() {
    assert_eq!(read_request(&vec![2, 0x61, 0xff]), Err(FrameError::InvalidData));
}

#[test]
fn request_limit() {
    let at_limit = write_frame(&vec![b'a'; MAX_REQUEST_BYTES]);
    assert!(read_request(&at_limit).is_ok());
    let over = write_frame(&vec![b'a'; MAX_REQUEST_BYTES + 1]);
    assert_eq!(read_request(&over), Err(FrameError::TooLarge));
}

#[test]
fn response_round_trip() {
    let bytes = write_response(Some(vec![7, 8]));
    assert_eq!(bytes, vec![2, 7, 8]);
    assert_eq!(read_response(&bytes), Ok(Some(vec![7, 8])));
}

#[test]
fn empty_response_means_no_segment() {
    assert_eq!(write_response(None), vec![0]);
    assert_eq!(read_response(&vec![0]), Ok(None));
    assert_eq!(read_response(&write_response(Some(Vec::new()))), Ok(None));
}
