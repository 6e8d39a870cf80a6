use ninja::protocol::frame::{encode_frame, FrameDecoder, FrameError, MAX_FRAME_BYTES};
use ninja::protocol::{envelope, is_known_type, Envelope, LayerMsg, Message, KNOWN_TYPES};

#[test]
fn frames_come_back_whole() {
    let a = vec![1u8, 2, 3];
    let b: Vec<u8> = Vec::new();
    let mut bytes = encode_frame(&a).unwrap();
    assert_eq!(bytes, vec![3, 0, 0, 0, 1, 2, 3]);
    bytes.extend(encode_frame(&b).unwrap());
    let mut d = FrameDecoder::new();
    for chunk in bytes.chunks(2) {
        d.extend(chunk, chunk.len()).unwrap();
    }
    assert_eq!(d.pop(), Some(Ok(a)));
    assert_eq!(d.pop(), Some(Ok(b)));
    assert_eq!(d.pop(), None);
}

#[test]
fn frames_have_a_greatest_size() {
    assert_eq!(encode_frame(&vec![0u8; MAX_FRAME_BYTES + 1]), Err(FrameError::TooLarge));
    assert!(encode_frame(&vec![0u8; MAX_FRAME_BYTES]).is_ok());
    let mut d = FrameDecoder::new();
    let head = (MAX_FRAME_BYTES as u32 + 1).to_le_bytes();
    let told = d.extend(&head, 4);
    assert!(told.is_err() || d.pop() == Some(Err(FrameError::TooLarge)));
}

#[test]
fn parts_of_a_buffer_are_taken() {
    let mut d = FrameDecoder::new();
    d.extend(&[1, 0, 0, 0, 9, 7, 7], 5).unwrap();
    assert_eq!(d.pop(), Some(Ok(vec![9])));
    assert_eq!(d.pop(), None);
}

#[test]
fn envelopes_are_looked_at_first() {
    assert_eq!(envelope(Some(0), Some("hit")), Envelope::Known);
    assert_eq!(envelope(Some(1), Some("hit")), Envelope::OtherVersion);
    assert_eq!(envelope(None, Some("hit")), Envelope::OtherVersion);
    assert_eq!(envelope(Some(0), Some("news")), Envelope::UnknownType);
    assert_eq!(envelope(Some(0), None), Envelope::UnknownType);
    for t in KNOWN_TYPES {
        assert!(is_known_type(t));
    }
    assert!(!is_known_type("hit."));
    let m = LayerMsg { layer: 1, name: String::new(), body: String::new() };
    assert_eq!(Message::LayerMsg(m).kind_name(), "layer.msg");
    assert_eq!(Message::InputHotkeyGranted(1).kind_name(), "input.hotkey.granted");
}
