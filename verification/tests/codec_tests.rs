use nobreak::codec::decode_bytes;
use nobreak::codec::decode_full_key;
use nobreak::codec::decode_request;
use nobreak::codec::decode_str;
use nobreak::codec::encode_full_key;
use nobreak::codec::DecodeError;
use nobreak::codec::RequestType;

fn segs(parts: &[&str]) -> Vec<String> {
    parts.iter().map(|s| s.to_string()).collect()
}

fn be32(n: u32) -> Vec<u8> {
    vec![(n >> 24) as u8, (n >> 16) as u8, (n >> 8) as u8, n as u8]
}

fn block(bytes: &[u8]) -> Vec<u8> {
    let mut out = be32(bytes.len() as u32);
    out.extend_from_slice(bytes);
    out
}

fn envelope(version: u32, opcode: u32, body: &[u8]) -> Vec<u8> {
    let mut out = be32(version);
    out.extend_from_slice(&be32(opcode));
    out.extend_from_slice(body);
    out
}

#[test]
fn key_round_trip() {
    let key = segs(&["test", "a", "b", "c"]);
    let encoded = encode_full_key(&key);
    assert_eq!(decode_full_key(&encoded), key);
}

#[test]
fn key_round_trip_single_segment() {
    let key = segs(&["a"]);
    let encoded = encode_full_key(&key);
    assert_eq!(decode_full_key(&encoded), key);
}

#[test]
fn key_round_trip_non_ascii() {
    let key = segs(&["caf\u{e9}", "\u{1f600}"]);
    let encoded = encode_full_key(&key);
    assert_eq!(decode_full_key(&encoded), key);
}

#[test]
fn key_encoding_exact_bytes() {
    let encoded = encode_full_key(&segs(&["a"]));
    assert_eq!(encoded, vec![0, 0, 0, 1, 0, 0, 0, 1, 97]);
}

#[test]
fn key_encoding_long_segment_length_prefix() {
    let long = "x".repeat(300);
    let encoded = encode_full_key(&segs(&[&long]));
    assert_eq!(&encoded[..8], &[0, 0, 0, 1, 0, 0, 1, 44]);
    assert_eq!(decode_full_key(&encoded), segs(&[&long]));
}

#[test]
fn status_request_decodes() {
    let msg = envelope(1, 0, &[]);
    let decoded = decode_request(&msg).unwrap();
    assert_eq!(decoded.version, 1);
    assert!(matches!(decoded.content, RequestType::Status(_)));
}

#[test]
fn trailing_bytes_are_ignored() {
    let mut msg = envelope(1, 0, &[]);
    msg.extend_from_slice(&encode_full_key(&segs(&["a"])));
    let decoded = decode_request(&msg).unwrap();
    assert!(matches!(decoded.content, RequestType::Status(_)));
}

#[test]
fn version_is_carried_through_unchecked() {
    let msg = envelope(42, 0, &[]);
    let decoded = decode_request(&msg).unwrap();
    assert_eq!(decoded.version, 42);
}

#[test]
fn every_truncation_is_an_error() {
    let mut body = encode_full_key(&segs(&["suite", "t1"]));
    body.extend_from_slice(&block(&[65, 66]));
    let msg = envelope(1, 2, &body);
    assert!(decode_request(&msg).is_ok());
    for cut in 0..msg.len() {
        let decoded = decode_request(&msg[..cut]);
        assert!(decoded.is_err(), "prefix of length {} decoded", cut);
        if cut < 8 {
            assert_eq!(decoded.unwrap_err(), DecodeError::Truncated);
        }
    }
}

#[test]
fn invalid_utf8_in_string_field() {
    let mut body = encode_full_key(&segs(&["a"]));
    body.extend_from_slice(&block(&[0xff, 0xfe]));
    let msg = envelope(1, 4, &body);
    assert_eq!(decode_request(&msg).unwrap_err(), DecodeError::InvalidUtf8);
}

#[test]
fn invalid_utf8_in_key_segment() {
    let body = [be32(1), block(&[0xc3, 0x28])].concat();
    let msg = envelope(1, 1, &body);
    assert_eq!(decode_request(&msg).unwrap_err(), DecodeError::InvalidUtf8);
}

#[test]
fn unrecognized_opcode() {
    let msg = envelope(1, 9, &[]);
    assert_eq!(decode_request(&msg).unwrap_err(), DecodeError::InvalidOpcode);
}

#[test]
fn empty_key_is_rejected() {
    let msg = envelope(1, 1, &be32(0));
    assert_eq!(decode_request(&msg).unwrap_err(), DecodeError::InvalidKey);
}

#[test]
fn separator_in_segment_is_rejected() {
    let msg = envelope(1, 1, &encode_full_key(&segs(&["a/b"])));
    assert_eq!(decode_request(&msg).unwrap_err(), DecodeError::InvalidKey);
}

#[test]
fn dot_dot_segment_is_rejected() {
    let msg = envelope(1, 3, &encode_full_key(&segs(&["suite", ".."])));
    assert_eq!(decode_request(&msg).unwrap_err(), DecodeError::InvalidKey);
}

#[test]
fn empty_segment_is_rejected() {
    let msg = envelope(1, 1, &encode_full_key(&segs(&[""])));
    assert_eq!(decode_request(&msg).unwrap_err(), DecodeError::InvalidKey);
}

#[test]
fn load_request_decodes_with_key() {
    let msg = envelope(7, 1, &encode_full_key(&segs(&["suite", "t1"])));
    let decoded = decode_request(&msg).unwrap();
    match decoded.content {
        RequestType::Load(req) => assert_eq!(req.key.segments(), &segs(&["suite", "t1"])),
        _ => panic!("expected a load request"),
    }
}

#[test]
fn log_value_request_decodes_with_key_and_value() {
    let mut body = encode_full_key(&segs(&["suite", "t1"]));
    body.extend_from_slice(&block(&[0x41, 0x42]));
    let decoded = decode_request(&envelope(1, 2, &body)).unwrap();
    match decoded.content {
        RequestType::LogValue(req) => {
            assert_eq!(req.key.segments(), &segs(&["suite", "t1"]));
            assert_eq!(req.value, vec![0x41, 0x42]);
        }
        _ => panic!("expected a log-value request"),
    }
}

#[test]
fn log_success_request_decodes() {
    let decoded = decode_request(&envelope(1, 3, &encode_full_key(&segs(&["a"])))).unwrap();
    match decoded.content {
        RequestType::LogSuccess(req) => assert_eq!(req.key.segments(), &segs(&["a"])),
        _ => panic!("expected a log-success request"),
    }
}

#[test]
fn log_fail_request_decodes_with_message() {
    let mut body = encode_full_key(&segs(&["a"]));
    body.extend_from_slice(&block("boom".as_bytes()));
    let decoded = decode_request(&envelope(1, 4, &body)).unwrap();
    match decoded.content {
        RequestType::LogFail(req) => {
            assert_eq!(req.key.segments(), &segs(&["a"]));
            assert_eq!(req.message, "boom");
        }
        _ => panic!("expected a log-fail request"),
    }
}

#[test]
fn decode_str_reads_length_prefixed_utf8() {
    let buf = block("hi".as_bytes());
    let (s, next) = decode_str(&buf, 0).unwrap();
    assert_eq!(s, "hi");
    assert_eq!(next, 6);
}

#[test]
fn decode_str_decodes_multibyte_characters() {
    let buf = block("caf\u{e9}".as_bytes());
    let (s, _) = decode_str(&buf, 0).unwrap();
    assert_eq!(s, "caf\u{e9}");
    assert_eq!(s.chars().count(), 4);
}

#[test]
fn decode_bytes_reads_raw_block() {
    let buf = block(&[0, 255, 7]);
    let (v, next) = decode_bytes(&buf, 0).unwrap();
    assert_eq!(v, vec![0, 255, 7]);
    assert_eq!(next, 7);
}

#[test]
fn decode_bytes_truncated_block() {
    let buf = [0u8, 0, 0, 5, 1, 2];
    assert_eq!(decode_bytes(&buf, 0).unwrap_err(), DecodeError::Truncated);
}
