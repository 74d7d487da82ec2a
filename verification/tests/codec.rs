//! Tests of the integer codec and the trace-token builder.

use resym::{build_trace, vlq_decode, vlq_decode_all, vlq_encode, CodecError, TraceBuilder};

fn encode_one(x: i32) -> Vec<u8> {
    let mut out = Vec::new();
    vlq_encode(x, &mut out);
    out
}

#[test]
fn round_trip_small_values() {
    for x in -300i32..300 {
        let token = encode_one(x);
        let (v, end) = vlq_decode(&token, 0).unwrap();
        assert_eq!(v, x);
        assert_eq!(end, token.len());
    }
}

#[test]
fn round_trip_extremes() {
    for &x in &[
        i32::MAX,
        i32::MAX - 1,
        -i32::MAX,
        -i32::MAX + 1,
        1 << 30,
        -(1 << 30),
        123_456_789,
        -987_654_321,
    ] {
        let token = encode_one(x);
        let (v, end) = vlq_decode(&token, 0).unwrap();
        assert_eq!(v, x);
        assert_eq!(end, token.len());
    }
}

#[test]
fn self_delimiting_pairs() {
    let cases = [(0, -1), (15, 16), (-16, 31), (i32::MAX, -i32::MAX), (100, -50)];
    for &(x, y) in &cases {
        let mut stream = encode_one(x);
        stream.extend_from_slice(&encode_one(y));
        let (v1, mid) = vlq_decode(&stream, 0).unwrap();
        let (v2, end) = vlq_decode(&stream, mid).unwrap();
        assert_eq!(v1, x);
        assert_eq!(v2, y);
        assert_eq!(end, stream.len());
    }
}

#[test]
fn alphabet_closure() {
    let alphabet: &[u8] = b"ABCDEFGHIJKLMNOPQRSTUVWXYZabcdefghijklmnopqrstuvwxyz0123456789-_";
    for x in (-100_000i32..100_000).step_by(977) {
        for &b in &encode_one(x) {
            assert!(alphabet.contains(&b), "byte {} outside the alphabet", b);
        }
    }
    for &b in &encode_one(i32::MAX) {
        assert!(alphabet.contains(&b));
        assert_ne!(b, b'=');
    }
}

#[test]
fn truncation_detected() {
    for &x in &[16i32, 1000, -1000, i32::MAX, -i32::MAX] {
        let token = encode_one(x);
        for cut in 0..token.len() {
            let r = vlq_decode(&token[..cut], 0);
            assert_eq!(r, Err(CodecError::EndOfStream));
        }
    }
}

#[test]
fn single_symbol_boundary() {
    for x in -15i32..=15 {
        assert_eq!(encode_one(x).len(), 1, "{} should take one symbol", x);
    }
    assert_eq!(encode_one(16).len(), 2);
    assert_eq!(encode_one(-16).len(), 2);
}

#[test]
fn zero_encodes_to_a() {
    assert_eq!(encode_one(0), b"A".to_vec());
}

#[test]
fn minus_one_encodes_to_d() {
    // zig-zag maps -1 to 3, whose symbol is `D`; `C` is the image of +1
    assert_eq!(encode_one(-1), b"D".to_vec());
    assert_eq!(encode_one(1), b"C".to_vec());
}

#[test]
fn invalid_digit_rejected() {
    assert_eq!(vlq_decode(b"!", 0), Err(CodecError::InvalidDigit));
    assert_eq!(vlq_decode(b"=A", 0), Err(CodecError::InvalidDigit));
    assert_eq!(vlq_decode(b" ", 0), Err(CodecError::InvalidDigit));
}

#[test]
fn empty_stream_is_end_of_stream() {
    assert_eq!(vlq_decode(b"", 0), Err(CodecError::EndOfStream));
}

#[test]
fn overlong_token_rejected() {
    // eight groups that all carry the continuation bit
    assert_eq!(vlq_decode(b"gggggggg", 0), Err(CodecError::InvalidDigit));
    // seven groups whose value exceeds the 32-bit range
    assert_eq!(vlq_decode(b"______E", 0), Err(CodecError::InvalidDigit));
    // seven groups that denote exactly the largest zig-zagged value
    let (v, end) = vlq_decode(b"______D", 0).unwrap();
    assert_eq!(end, 7);
    assert_eq!(v, -i32::MAX);
}

#[test]
fn decode_all_empty_is_empty() {
    assert_eq!(vlq_decode_all(b"").unwrap(), Vec::<i32>::new());
}

#[test]
fn decode_all_detects_mid_token_end() {
    // `g` opens a token that never terminates
    assert_eq!(vlq_decode_all(b"Ag"), Err(CodecError::EndOfStream));
}

#[test]
fn end_to_end_build_and_decode() {
    let offsets = [100i32, -50, 0];
    let token = build_trace(&offsets);
    let decoded = vlq_decode_all(&token).unwrap();
    assert_eq!(decoded, offsets.to_vec());
}

#[test]
fn built_token_is_deterministic_and_concatenated() {
    let offsets = [7i32, 7, 12345];
    let token = build_trace(&offsets);
    assert_eq!(token, build_trace(&offsets));
    let mut by_hand = Vec::new();
    for &o in &offsets {
        vlq_encode(o, &mut by_hand);
    }
    assert_eq!(token, by_hand);
}

#[test]
fn concrete_token_round_trip() {
    // the token for [672, 0]: two symbols with the continuation bit, a
    // terminator, then a lone `A`
    assert_eq!(vlq_decode_all(b"gqBA").unwrap(), vec![672, 0]);
    assert_eq!(build_trace(&[672, 0]), b"gqBA".to_vec());
}

#[test]
fn trace_builder_skip_policy() {
    let mut builder = TraceBuilder::new();
    assert!(builder.push_frame(0x1000, Some(0x400)));
    // no module identified: the frame is skipped, not emitted as garbage
    assert!(!builder.push_frame(0x5000, None));
    // offset below the module base: skipped
    assert!(!builder.push_frame(100, Some(200)));
    // offset beyond the signed 32-bit range: skipped
    assert!(!builder.push_frame(u64::MAX, Some(0)));
    let token = builder.token();
    assert_eq!(token, build_trace(&[0x1000 - 0x400]));
}

#[test]
fn trace_builder_empty_token() {
    let builder = TraceBuilder::new();
    assert_eq!(builder.token(), Vec::<u8>::new());
}
