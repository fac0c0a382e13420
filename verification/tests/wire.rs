use file_transfer::wire::{decode_payload, decode_size, decode_text_frame, encode_message, encode_size, encode_text, FrameError};

#[test]
fn size_is_little_endian() {
    assert_eq!(encode_size(0x0102_0304_0506_0708), [8, 7, 6, 5, 4, 3, 2, 1]);
    assert_eq!(encode_size(5), [5, 0, 0, 0, 0, 0, 0, 0]);
    assert_eq!(encode_size(u64::MAX), [255; 8]);
    assert_eq!(decode_size(&[0, 1, 0, 0, 0, 0, 0, 0]), 256);
}

#[test]
fn size_matches_std_le_bytes() {
    for n in [0u64, 1, 255, 256, 65535, 1 << 40, u64::MAX - 1, u64::MAX] {
        assert_eq!(encode_size(n), n.to_le_bytes());
        assert_eq!(decode_size(&n.to_le_bytes()), n);
        assert_eq!(decode_size(&encode_size(n)), n);
    }
}

#[test]
fn message_is_size_then_payload() {
    let m = encode_message(&[9, 8, 7]);
    assert_eq!(m, vec![3, 0, 0, 0, 0, 0, 0, 0, 9, 8, 7]);
    assert_eq!(encode_message(&[]), vec![0; 8]);
}

#[test]
fn text_frame_carries_utf8() {
    let m = encode_text("não");
    assert_eq!(m.len(), 8 + 4);
    assert_eq!(&m[..8], &[4, 0, 0, 0, 0, 0, 0, 0]);
    assert_eq!(&m[8..], "não".as_bytes());
}

#[test]
fn text_frame_roundtrip() {
    for s in ["a", "hello world", "Servidor: olá", "file.txt"] {
        let mut m = encode_text(s);
        let used = m.len();
        m.extend_from_slice(&[1, 2, 3]);
        match decode_text_frame(&m) {
            Ok(Some((t, n))) => {
                assert_eq!(t, s);
                assert_eq!(n, used);
            }
            other => panic!("unexpected {:?}", other),
        }
    }
}

#[test]
fn empty_text_frame_reads_as_no_string() {
    let m = encode_text("");
    assert_eq!(decode_text_frame(&m), Ok(None));
}

#[test]
fn truncated_frames_are_refused() {
    assert_eq!(decode_text_frame(&[1, 0, 0]), Err(FrameError::Truncated));
    assert_eq!(decode_text_frame(&[3, 0, 0, 0, 0, 0, 0, 0, b'a']), Err(FrameError::Truncated));
}

#[test]
fn invalid_utf8_frames_are_refused() {
    assert_eq!(decode_text_frame(&[2, 0, 0, 0, 0, 0, 0, 0, 0xff, 0xfe]), Err(FrameError::InvalidUtf8));
    assert_eq!(decode_payload(&[0xc3]), Err(FrameError::InvalidUtf8));
    assert_eq!(decode_payload("ação".as_bytes()), Ok(String::from("ação")));
}

#[test]
fn closed_connection_reads_as_no_string() {
    assert_eq!(decode_text_frame(&[]), Ok(None));
    assert_eq!(decode_text_frame(&[0; 8]), Ok(None));
    assert_eq!(decode_text_frame(&[0, 0, 0, 0, 0, 0, 0, 0, b'x']), Ok(None));
}
