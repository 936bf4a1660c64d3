use mgba_gateway::streaming::h264::{
    H264Encoder, H264Error, H264Stream, encoder_output, h264_messages, split_units,
};
use mgba_gateway::streaming::yuv::{
    blue_difference_of, luma_of, red_difference_of, xrgb8888_to_yuv420,
};
use mgba_gateway::streaming::{PixelFormat, RawFrame};
use std::time::Instant;

fn make_test_frame(width: u32, height: u32) -> RawFrame {
    let mut data = vec![0u8; (width * height * 4) as usize];
    for i in (0..data.len()).step_by(4) {
        data[i] = 0;
        data[i + 1] = 0;
        data[i + 2] = 255;
        data[i + 3] = 0;
    }
    RawFrame {
        width,
        height,
        pitch: width * 4,
        pixel_format: PixelFormat::XRGB8888,
        data,
        sequence: 1,
        timestamp_ms: 0,
    }
}

#[test]
fn encode_produces_nal_units() {
    let mut encoder = H264Encoder::new(240, 160).expect("encoder init");
    let frame = make_test_frame(240, 160);
    let nal = encoder.encode(&frame).expect("encode");
    assert!(!nal.is_empty(), "NAL units should not be empty");
    let total: usize = nal.iter().map(|unit| unit.len()).sum();
    assert!(total < 240 * 160, "a flat picture compresses well");
    for unit in &nal {
        assert!(unit.windows(3).all(|window| window != [0, 0, 1]));
    }
}

fn kinds(units: &[Vec<u8>]) -> Vec<u8> {
    units.iter().map(|unit| unit[0] & 0x1f).collect()
}

#[test]
fn a_key_picture_brings_its_parameter_sets() {
    let mut encoder = H264Encoder::new(240, 160).expect("encoder init");
    let frame = make_test_frame(240, 160);
    let first = encoder.encode(&frame).expect("encode");
    assert_eq!(kinds(&first), [7, 8, 5]);
    assert_eq!(encoder.encode(&make_test_frame(2, 2)).map_err(|_| ()), Err(()));
    let second = encoder.encode(&frame).expect("encode");
    assert_eq!(kinds(&second), [1]);
}

#[test]
fn yuv420_conversion_correct_dimensions() {
    let frame = make_test_frame(240, 160);
    let yuv = xrgb8888_to_yuv420(&frame.data, 240, 160, 240 * 4);
    assert_eq!(yuv.y.len(), 240 * 160);
    assert_eq!(yuv.u.len(), 120 * 80);
    assert_eq!(yuv.v.len(), 120 * 80);
}

#[test]
fn colours_match_single_precision_arithmetic() {
    for red in (0..=255u8).step_by(3) {
        for green in 0..=255u8 {
            for blue in (0..=255u8).step_by(5) {
                let (r, g, b) = (red as f32, green as f32, blue as f32);
                let y = (0.299 * r + 0.587 * g + 0.114 * b) as u8;
                let u = (-0.169 * r - 0.331 * g + 0.500 * b + 128.0).clamp(0.0, 255.0) as u8;
                let v = (0.500 * r - 0.419 * g - 0.081 * b + 128.0).clamp(0.0, 255.0) as u8;
                assert_eq!(luma_of(red, green, blue), y);
                assert_eq!(blue_difference_of(red, green, blue), u);
                assert_eq!(red_difference_of(red, green, blue), v);
            }
        }
    }
}

#[test]
fn encode_latency_under_5ms() {
    let mut encoder = H264Encoder::new(240, 160).expect("encoder init");
    let frame = make_test_frame(240, 160);

    let _ = encoder.encode(&frame);

    let start = Instant::now();
    for _ in 0..10 {
        let _ = encoder.encode(&frame).expect("encode");
    }
    let avg_ms = start.elapsed().as_millis() as f64 / 10.0;
    assert!(
        avg_ms < 5.0,
        "Average encode time {avg_ms}ms should be < 5ms"
    );
}

#[test]
fn pictures_of_another_kind_are_refused() {
    let mut encoder = H264Encoder::new(240, 160).expect("encoder init");
    let error = encoder.encode(&make_test_frame(160, 240)).unwrap_err();
    assert_eq!(
        error.message(),
        "frame dimensions mismatch: expected 240x160, got 160x240"
    );
    let mut frame = make_test_frame(240, 160);
    frame.pixel_format = PixelFormat::RGB565;
    let error = encoder.encode(&frame).unwrap_err();
    assert_eq!(error.message(), "unsupported pixel format: RGB565");
    assert_eq!(H264Error::Init("x".to_string()).message(), "encoder init failed: x");
    assert_eq!(
        encoder_output(Err("x".to_string())).unwrap_err().message(),
        "encode failed: x"
    );
}

#[test]
fn the_encoder_is_given_the_planes() {
    let encoder = H264Encoder::new(4, 2).expect("encoder init");
    let frame = make_test_frame(4, 2);
    let planes = encoder.encoder_input(&frame).unwrap();
    assert_eq!(planes, [76, 76, 76, 76, 76, 76, 76, 76, 84, 84, 255, 255]);
}

#[test]
fn missing_pixels_are_black() {
    let yuv = xrgb8888_to_yuv420(&[0, 0, 255, 0, 0, 0], 2, 2, 8);
    assert_eq!(yuv.y, [76, 0, 0, 0]);
    assert_eq!((yuv.u, yuv.v), (vec![84], vec![255]));
    let yuv = xrgb8888_to_yuv420(&[], 2, 2, 8);
    assert_eq!((yuv.u, yuv.v), (vec![128], vec![128]));
}

#[test]
fn streams_are_cut_at_start_codes() {
    let stream = [0, 0, 0, 1, 7, 8, 0, 0, 1, 9, 0, 0, 2];
    assert_eq!(split_units(&stream), [vec![7, 8], vec![9, 0, 0, 2]]);
    assert_eq!(split_units(&[0, 0, 0]), [vec![0, 0, 0]]);
    assert_eq!(split_units(&[0, 0, 1, 0, 0, 1]), Vec::<Vec<u8>>::new());
    assert!(split_units(&[]).is_empty());
    assert_eq!(encoder_output(Ok(vec![0, 0, 1, 5])).unwrap(), [vec![5]]);
}

#[test]
fn no_start_code_is_left_in_a_unit() {
    assert_eq!(split_units(&[0, 0, 0, 0, 1, 0, 1]), [vec![0, 1]]);
    for bits in 0..1u32 << 12 {
        let stream: Vec<u8> = (0..12).map(|i| (bits >> i & 1) as u8).collect();
        let units = split_units(&stream);
        for unit in &units {
            assert!(!unit.is_empty());
            assert!(unit.windows(3).all(|w| w != [0, 0, 1]), "{stream:?}");
        }
        if stream.windows(3).all(|w| w != [0, 0, 1]) {
            assert_eq!(units, [stream]);
        }
    }
}

#[test]
fn units_come_back_whole_and_in_order() {
    let units = [vec![0x67, 0, 0, 3, 1], vec![1], vec![0, 1, 2], vec![0, 0, 0, 9]];
    for codes in 0..1u32 << units.len() {
        let mut stream = Vec::new();
        for (i, unit) in units.iter().enumerate() {
            if codes >> i & 1 == 1 {
                stream.push(0);
            }
            stream.extend_from_slice(&[0, 0, 1]);
            stream.extend_from_slice(unit);
        }
        assert_eq!(split_units(&stream), units);
    }
}

#[test]
fn units_are_sent_in_frames() {
    let frame = make_test_frame(240, 160);
    let units = || Ok(vec![vec![5, 6], vec![7]]);
    let messages = h264_messages(units(), &frame, 2, 36);
    assert_eq!(messages.len(), 2);
    assert_eq!(messages[0].len(), 36);
    assert_eq!(&messages[0][34..], &[5, 6]);
    assert_eq!(&messages[1][34..], &[7]);
    for bytes in &messages {
        assert_eq!((bytes[5], bytes[6]), (3, 2));
        assert_eq!(&bytes[8..12], &[0, 0, 0, 1]);
    }
    assert!(h264_messages(units(), &frame, 2, 35).is_empty());
    assert!(h264_messages(Ok(vec![]), &frame, 2, 99).is_empty());
    assert!(h264_messages(Err(H264Error::Init(String::new())), &frame, 2, 99).is_empty());
}

#[test]
fn a_stream_keeps_its_encoder() {
    let frame = make_test_frame(240, 160);
    let sent = |messages: Vec<Vec<u8>>| -> Vec<u8> {
        messages.iter().map(|bytes| bytes[34] & 0x1f).collect()
    };
    let mut stream = H264Stream::new();
    let first = stream.next_frames(&frame, 2, 262_144);
    assert_eq!(&first[0][16..20], &[0, 240, 0, 160]);
    assert_eq!(sent(first), [7, 8, 5]);
    assert!(stream.next_frames(&make_test_frame(2, 2), 2, 262_144).is_empty());
    assert_eq!(sent(stream.next_frames(&frame, 2, 262_144)), [1]);
    let mut stream = H264Stream::new();
    let failed = Err(H264Error::Init("no codec".to_string()));
    assert!(stream.next_frames_from(failed, &frame, 2, 262_144).is_empty());
    let opened = H264Encoder::new(240, 160);
    assert!(stream.next_frames_from(opened, &make_test_frame(2, 2), 2, 262_144).is_empty());
    assert!(stream.next_frames(&make_test_frame(2, 2), 2, 262_144).is_empty());
    assert_eq!(sent(stream.next_frames(&frame, 2, 262_144)), [7, 8, 5]);
}

#[test]
fn pictures_of_odd_sizes_are_told_before() {
    let mut stream = H264Stream::new();
    let mut odd = make_test_frame(3, 2);
    assert!(!stream.is_ready_for(&odd));
    odd.pixel_format = PixelFormat::RGB565;
    assert!(stream.is_ready_for(&odd));
    assert!(stream.next_frames(&odd, 0, 262_144).is_empty());
    odd.pixel_format = PixelFormat::XRGB8888;
    assert!(!stream.is_ready_for(&odd));
    assert!(stream.is_ready_for(&make_test_frame(4, 2)));
    assert!(stream.is_ready_for(&make_test_frame(5, 2)));
}
