use termibbl::network::{FrameError, NetworkMessage, MAX_FRAME_LEN};

#[test]
fn frame_round_trip() {
    let mut codec: NetworkMessage<()> = NetworkMessage::new();
    let mut buf: Vec<u8> = Vec::new();
    let payload = vec![1u8, 2, 3, 250];
    assert!(codec.encode(&payload, &mut buf).is_ok());
    assert_eq!(buf, vec![0, 0, 0, 4, 1, 2, 3, 250]);
    buf.push(9);
    let got = codec.decode(&mut buf);
    assert_eq!(got.ok(), Some(Some(payload)));
    assert_eq!(buf, vec![9]);
}

#[test]
fn frame_needs_more_bytes() {
    let mut codec: NetworkMessage<()> = NetworkMessage::new();
    let mut buf = vec![0u8, 0];
    assert_eq!(codec.decode(&mut buf).ok(), Some(None));
    assert_eq!(buf, vec![0, 0]);
    let mut partial = vec![0u8, 0, 1, 0, 7, 7];
    assert_eq!(codec.decode(&mut partial).ok(), Some(None));
    assert_eq!(partial.len(), 6);
}

#[test]
fn frame_empty_payload_and_two_frames() {
    let mut codec: NetworkMessage<()> = NetworkMessage::new();
    let mut buf: Vec<u8> = Vec::new();
    assert!(codec.encode(&Vec::new(), &mut buf).is_ok());
    assert!(codec.encode(&vec![5u8; 300], &mut buf).is_ok());
    assert_eq!(&buf[..6], &[0, 0, 0, 0, 0, 0]);
    assert_eq!(&buf[4..8], &[0, 0, 1, 44]);
    assert_eq!(codec.decode(&mut buf).ok(), Some(Some(Vec::new())));
    assert_eq!(codec.decode(&mut buf).ok(), Some(Some(vec![5u8; 300])));
    assert!(buf.is_empty());
}

#[test]
fn frame_oversize_is_refused() {
    let mut codec: NetworkMessage<()> = NetworkMessage::new();
    let mut buf = vec![0u8, 0x10, 0, 1, 0];
    match codec.decode(&mut buf) {
        Err(FrameError::Oversize(n)) => assert_eq!(n, MAX_FRAME_LEN + 1),
        _ => panic!("an oversize frame was accepted"),
    }
    assert_eq!(buf.len(), 5);
    let big = vec![0u8; MAX_FRAME_LEN + 1];
    let mut out: Vec<u8> = Vec::new();
    match codec.encode(&big, &mut out) {
        Err(FrameError::Oversize(n)) => assert_eq!(n, MAX_FRAME_LEN + 1),
        _ => panic!("an oversize payload was framed"),
    }
    assert!(out.is_empty());
}
