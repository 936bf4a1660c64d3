use mgba_gateway::ipc::transport::{
    MAX_FRAME_SIZE, PacketHeader, RawFramePacket, TransportError, framed_length, read_framed,
    write_framed,
};

#[test]
fn larger_payload_roundtrip() {
    let payload = vec![0xAB_u8; 64 * 1024];
    let mut bytes = write_framed(&payload);
    assert_eq!(&bytes[0..4], &[0, 1, 0, 0]);
    bytes.extend_from_slice(b"next");
    assert_eq!(framed_length(&bytes).unwrap(), 64 * 1024);
    assert_eq!(read_framed(&bytes).unwrap(), payload);
    assert_eq!(read_framed(&write_framed(b"")).unwrap(), Vec::<u8>::new());
}

#[test]
fn client_handles_server_disconnect() {
    assert!(matches!(read_framed(&[]), Err(TransportError::Closed)));
    assert!(matches!(read_framed(&[0, 0, 0]), Err(TransportError::Closed)));
    assert!(matches!(read_framed(&[0, 0, 0, 2, 9]), Err(TransportError::Closed)));
    assert!(matches!(RawFramePacket::decode(&[0; 16]), Err(TransportError::Closed)));
}

#[test]
fn announced_lengths_are_limited() {
    let too_large = (MAX_FRAME_SIZE + 1).to_be_bytes();
    let error = framed_length(&too_large).unwrap_err();
    assert!(matches!(error, TransportError::FrameTooLarge(67_108_865)));
    assert_eq!(error.message(), "frame too large: 67108865 bytes");
    assert_eq!(framed_length(&MAX_FRAME_SIZE.to_be_bytes()).unwrap(), MAX_FRAME_SIZE);
    let mut header = [0u8; 17];
    header[13..17].copy_from_slice(&too_large);
    assert!(matches!(
        PacketHeader::parse(&header),
        Err(TransportError::FrameTooLarge(67_108_865))
    ));
}

#[test]
fn frame_socket_roundtrip() {
    let frame = RawFramePacket {
        width: 240,
        height: 160,
        pitch: 960,
        pixel_format: 1,
        data: vec![0x11; 240 * 160 * 4],
    };
    let mut bytes = frame.encode();
    assert_eq!(&bytes[0..13], &[0, 0, 0, 240, 0, 0, 0, 160, 0, 0, 3, 192, 1]);
    bytes.push(7);
    let header = PacketHeader::parse(&bytes[..17]).unwrap();
    assert_eq!(header.data_len, 240 * 160 * 4);
    let received = RawFramePacket::decode(&bytes).unwrap();
    assert_eq!(received.width, frame.width);
    assert_eq!(received.height, frame.height);
    assert_eq!(received.pitch, frame.pitch);
    assert_eq!(received.pixel_format, frame.pixel_format);
    assert_eq!(received.data, frame.data);
    assert!(matches!(
        RawFramePacket::decode(&bytes[..bytes.len() - 2]),
        Err(TransportError::Closed)
    ));
}

#[test]
fn transport_errors_have_words() {
    assert_eq!(TransportError::Io("no".to_string()).message(), "IO error: no");
    assert_eq!(
        TransportError::Serialize("bad".to_string()).message(),
        "serialization error: bad"
    );
    assert_eq!(TransportError::Closed.message(), "connection closed");
}
