use flate2::read::DeflateDecoder;
use mgba_gateway::streaming::protocol::{
    ClientMetrics, EncodeParams, MAGIC, ProtocolError, STREAM_FORMAT, STREAM_HEADER_SIZE,
    StreamFrameType, VIEWER_CONTROL_MAX_BYTES, ViewerControl, decode_stream_frame, deflate_raw,
    encode_delta, encode_h264_frame, encode_keyframe, encode_stream_frame, flags,
    parse_viewer_control_message,
};
use std::io::Read;



fn make_xrgb_frame(width: u32, height: u32, color: u32) -> Vec<u8> {
    let b = (color & 0xFF) as u8;
    let g = ((color >> 8) & 0xFF) as u8;
    let r = ((color >> 16) & 0xFF) as u8;
    let pixel = [b, g, r, 0xFF];
    pixel.repeat((width * height) as usize)
}

fn inflate(data: &[u8]) -> Vec<u8> {
    let mut decoder = DeflateDecoder::new(data);
    let mut decompressed = Vec::new();
    decoder.read_to_end(&mut decompressed).unwrap();
    decompressed
}

#[test]
fn header_size_is_34() {
    assert_eq!(STREAM_HEADER_SIZE, 34);
}

#[test]
fn encode_known_frame_matches_wire_format_spec() {
    let payload = vec![0x01, 0x02, 0x03];
    let encoded = encode_stream_frame(EncodeParams {
        frame_type: StreamFrameType::Keyframe,
        instance_index: 260_u16 as u8,
        sequence: 0x0102_0304,
        timestamp_ms: 0x0506_0708,
        width: 0x0100,
        height: 0x00a0,
        tile_size: 0x0010,
        raw_bytes: 0x0002_5800,
        metadata: Vec::new(),
        payload,
    });

    let expected = vec![
        b'P', b'S', b'M', b'G', 0x02, 0x01, 0x04, 0x01, 0x01, 0x02, 0x03, 0x04,
        0x05, 0x06, 0x07, 0x08, 0x01, 0x00, 0x00, 0xa0, 0x00, 0x10, 0x00, 0x02,
        0x58, 0x00, 0x00, 0x00, 0x00, 0x03, 0x00, 0x00, 0x00, 0x00, 0x01, 0x02,
        0x03,
    ];
    assert_eq!(encoded, expected);
}

#[test]
fn encode_decode_roundtrip() {
    let payload = deflate_raw(b"test payload");
    let params = EncodeParams {
        frame_type: StreamFrameType::Keyframe,
        instance_index: 0,
        sequence: 42,
        timestamp_ms: 1000,
        width: 240,
        height: 160,
        tile_size: 16,
        raw_bytes: 240 * 160 * 4,
        metadata: Vec::new(),
        payload: payload.clone(),
    };
    let encoded = encode_stream_frame(params);
    assert_eq!(&encoded[0..4], b"PSMG");
    assert_eq!(encoded[4], STREAM_FORMAT);
    assert_eq!(encoded[5], StreamFrameType::Keyframe.code());
    assert_eq!(encoded[7], flags::DEFLATE_RAW);
    assert_eq!(u32::from_be_bytes(encoded[8..12].try_into().unwrap()), 42);

    let (meta, decoded_payload) = decode_stream_frame(&encoded).unwrap();
    assert_eq!(decoded_payload, payload);
    assert!(meta.is_empty());
}

#[test]
fn keyframe_encoding_produces_valid_deflate() {
    let pixels = make_xrgb_frame(240, 160, 0xFF0000);
    let compressed = encode_keyframe(&pixels, 240, 160, 240 * 4);
    assert!(!compressed.is_empty());
    let decompressed = inflate(&compressed);
    assert_eq!(decompressed.len(), 240 * 160 * 4);
    assert_eq!(decompressed[0], 255);
    assert_eq!(decompressed[1], 0);
    assert_eq!(decompressed[2], 0);
    assert_eq!(decompressed[3], 255);
}

#[test]
fn delta_encoding_detects_changed_tiles() {
    let prev = make_xrgb_frame(240, 160, 0x000000);
    let mut curr = prev.clone();
    curr[0] = 0xFF;
    let delta = encode_delta(&prev, &curr, 240, 160, 240 * 4, 16);
    assert!(!delta.is_empty());
    let raw = inflate(&delta);
    let tile_count = u16::from_be_bytes(raw[0..2].try_into().unwrap());
    assert_eq!(tile_count, 1);
}

#[test]
fn delta_encoding_empty_frame_is_valid() {
    let prev = make_xrgb_frame(4, 4, 0x000000);
    let delta = encode_delta(&prev, &prev, 4, 4, 4 * 4, 16);
    assert_eq!(inflate(&delta), vec![0, 0]);
}

#[test]
fn metadata_serializes_as_camel_case_sidecar() {
    let sidecar = r#"{"sourceCaptureStartedAtMs":12.0,"sourceCapturedAtMs":34.0}"#;
    let encoded = encode_stream_frame(EncodeParams {
        frame_type: StreamFrameType::Delta,
        instance_index: 1,
        sequence: 2,
        timestamp_ms: 3,
        width: 4,
        height: 5,
        tile_size: 6,
        raw_bytes: 80,
        metadata: sidecar.as_bytes().to_vec(),
        payload: vec![9],
    });
    let metadata_bytes = u32::from_be_bytes(encoded[30..34].try_into().unwrap()) as usize;
    let metadata = std::str::from_utf8(&encoded[34..34 + metadata_bytes]).unwrap();
    assert_eq!(
        metadata,
        r#"{"sourceCaptureStartedAtMs":12.0,"sourceCapturedAtMs":34.0}"#
    );
}

#[test]
fn viewer_control_keyframe_parsed() {
    let msg = br#"{"type":"keyframe"}"#;
    let ctrl = parse_viewer_control_message(msg).unwrap();
    assert_eq!(ctrl, ViewerControl::Keyframe);
}

#[test]
fn viewer_control_client_metrics_sanitized() {
    let msg = br#"{"type":"client-metrics","metrics":{"fps":2000,"decodedFrames":2,"droppedFrames":-1,"ignored":7}}"#;
    let ctrl = parse_viewer_control_message(msg).unwrap();
    assert_eq!(
        ctrl,
        ViewerControl::ClientMetrics(ClientMetrics {
            decoded_frames: Some(2.0f64.to_bits()),
            dropped_frames: None,
            fps: Some(1000.0f64.to_bits()),
            keyframe_recoveries: None,
            reconnects: None,
            rendered_frames: None,
            sequence_gaps: None,
        })
    );
}

#[test]
fn viewer_control_too_large_rejected() {
    let msg = vec![b'x'; VIEWER_CONTROL_MAX_BYTES + 1];
    assert!(parse_viewer_control_message(&msg).is_err());
}

#[test]
fn h264_frame_type_is_3() {
    assert_eq!(StreamFrameType::H264.code(), 3);
}

#[test]
fn h264_payload_flag_is_0x02() {
    assert_eq!(flags::H264_PAYLOAD, 0x02);
}

#[test]
fn encode_h264_frame_has_correct_header() {
    let nal = vec![0u8; 100];
    let encoded = encode_h264_frame(nal.clone(), 0, 1, 1000, 240, 160);
    assert_eq!(&encoded[0..4], b"PSMG");
    assert_eq!(encoded[4], STREAM_FORMAT);
    assert_eq!(encoded[5], 3); // frameType = H264
    assert_eq!(encoded[6], 0); // instance_index
    assert_eq!(encoded[7], flags::H264_PAYLOAD); // flags
    assert_eq!(u32::from_be_bytes(encoded[8..12].try_into().unwrap()), 1); // sequence
    assert_eq!(u32::from_be_bytes(encoded[12..16].try_into().unwrap()), 1000); // timestamp_ms
    assert_eq!(u16::from_be_bytes(encoded[16..18].try_into().unwrap()), 240); // width
    assert_eq!(u16::from_be_bytes(encoded[18..20].try_into().unwrap()), 160); // height
    assert_eq!(u16::from_be_bytes(encoded[20..22].try_into().unwrap()), 0); // tile_size
    assert_eq!(u32::from_be_bytes(encoded[22..26].try_into().unwrap()), 0); // raw_bytes
    assert_eq!(u32::from_be_bytes(encoded[26..30].try_into().unwrap()), 100); // payloadBytes
    assert_eq!(u32::from_be_bytes(encoded[30..34].try_into().unwrap()), 0); // metadataBytes
    assert_eq!(encoded.len(), STREAM_HEADER_SIZE + 100);
    assert_eq!(&encoded[STREAM_HEADER_SIZE..], &nal[..]);
}

#[test]
fn encode_h264_frame_preserves_nal_payload() {
    let nal: Vec<u8> = (0..50).collect();
    let encoded = encode_h264_frame(nal.clone(), 7, 42, 2000, 320, 240);
    assert_eq!(encoded[6], 7); // instance_index preserved
    assert_eq!(&encoded[STREAM_HEADER_SIZE..], &nal[..]);
}

#[test]
fn magic_constant_is_psmg() {
    assert_eq!(&MAGIC, b"PSMG");
}

#[test]
fn frame_type_discriminants() {
    assert_eq!(StreamFrameType::Keyframe.code(), 1);
    assert_eq!(StreamFrameType::Delta.code(), 2);
    assert_eq!(StreamFrameType::H264.code(), 3);
}

#[test]
fn deflate_raw_flag_is_0x01() {
    assert_eq!(flags::DEFLATE_RAW, 0x01);
}

#[test]
fn decode_rejects_empty_bytes() {
    let result = decode_stream_frame(&[]);
    assert!(result.is_err(), "expected error for empty input");
}

#[test]
fn decode_rejects_non_magic_buffer() {
    let result = decode_stream_frame(b"JPEG-ish");
    assert!(result.is_err(), "expected error for non-magic input");
}

#[test]
fn decode_rejects_truncated_frame() {
    let encoded = encode_stream_frame(EncodeParams {
        frame_type: StreamFrameType::Delta,
        instance_index: 0,
        sequence: 1,
        timestamp_ms: 1,
        width: 1,
        height: 1,
        tile_size: 16,
        raw_bytes: 4,
        metadata: Vec::new(),
        payload: vec![1, 2],
    });
    let truncated = &encoded[..encoded.len() - 1];
    assert!(
        decode_stream_frame(truncated).is_err(),
        "expected error for truncated frame"
    );
}

#[test]
fn metadata_roundtrip_with_causality() {
    let metadata = br#"{"causality":{"controlEventId":"event-1","inputCompletedAtMs":120.0,"inputLatencyMs":20.0,"inputRequestedAtMs":100.0,"requestId":"request-1"},"sourceCapturedAtMs":123.0}"#;
    let encoded = encode_stream_frame(EncodeParams {
        frame_type: StreamFrameType::Delta,
        instance_index: 1,
        sequence: 43,
        timestamp_ms: 456,
        width: 240,
        height: 160,
        tile_size: 16,
        raw_bytes: 240 * 160 * 4,
        metadata: metadata.to_vec(),
        payload: vec![9, 8, 7],
    });
    let (decoded_meta, decoded_payload) = decode_stream_frame(&encoded).unwrap();
    assert_eq!(decoded_payload, vec![9, 8, 7]);
    assert_eq!(decoded_meta, metadata.to_vec());
    let value: serde_json::Value = serde_json::from_slice(&decoded_meta).unwrap();
    assert_eq!(value["causality"]["controlEventId"], "event-1");
    assert_eq!(value["causality"]["requestId"], "request-1");
    assert_eq!(value["causality"]["inputLatencyMs"], 20.0);
    assert_eq!(value["sourceCapturedAtMs"], 123.0);
}

#[test]
fn viewer_control_unknown_type_rejected() {
    let msg = br#"{"type":"unknown-type-here"}"#;
    let result = parse_viewer_control_message(msg);
    assert!(matches!(result, Err(ProtocolError::UnknownType(_))));
}

#[test]
fn viewer_control_invalid_json_rejected() {
    let msg = b"not json at all";
    let result = parse_viewer_control_message(msg);
    assert!(matches!(result, Err(ProtocolError::InvalidJson(_))));
}

#[test]
fn viewer_control_missing_type_rejected() {
    let msg = br#"{"foo":"bar"}"#;
    let result = parse_viewer_control_message(msg);
    assert!(matches!(result, Err(ProtocolError::InvalidJson(_))));
}

#[test]
fn encode_header_size_matches_constant() {
    let encoded = encode_stream_frame(EncodeParams {
        frame_type: StreamFrameType::Keyframe,
        instance_index: 0,
        sequence: 1,
        timestamp_ms: 1,
        width: 1,
        height: 1,
        tile_size: 16,
        raw_bytes: 4,
        metadata: Vec::new(),
        payload: vec![1, 2, 3, 4],
    });
    assert_eq!(encoded.len(), STREAM_HEADER_SIZE + 4);
    assert_eq!(&encoded[0..4], &MAGIC);
}
