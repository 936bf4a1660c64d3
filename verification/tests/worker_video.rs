use mgba_gateway::worker::environment::{
    EnvironmentReply, LibretroError, RETRO_ENVIRONMENT_GET_LOG_INTERFACE,
    RETRO_ENVIRONMENT_GET_SAVE_DIRECTORY, RETRO_ENVIRONMENT_GET_SYSTEM_DIRECTORY,
    RETRO_ENVIRONMENT_SET_MEMORY_MAPS, RETRO_ENVIRONMENT_SET_PIXEL_FORMAT, SAVE_DIRECTORY,
    SYSTEM_DIRECTORY, check_api_version, environment_reply,
};
use mgba_gateway::worker::pacing::{
    EMULATOR_FRAME_DURATION, FRAME_SOCKET_POLL_INTERVAL, schedule_next_frame_sleep,
};
use mgba_gateway::worker::video::{
    RetroPixelFormat, VideoPixelFormat, convert_video_frame, convert_video_frame_to_xrgb8888,
    expand_5bit_to_8bit, expand_6bit_to_8bit, height_byte_count, pixel_format_from_u32,
};
use std::time::Duration;

#[test]
fn environment_callback_accepts_xrgb8888_pixel_format() {
    let format = RetroPixelFormat::XRGB8888.code();
    assert_eq!(
        environment_reply(RETRO_ENVIRONMENT_SET_PIXEL_FORMAT, Some(format)),
        EnvironmentReply::UsePixelFormat(VideoPixelFormat::Xrgb8888)
    );
}

#[test]
fn environment_callback_accepts_rgb565_pixel_format() {
    let format = RetroPixelFormat::RGB565.code();
    assert_eq!(
        environment_reply(RETRO_ENVIRONMENT_SET_PIXEL_FORMAT, Some(format)),
        EnvironmentReply::UsePixelFormat(VideoPixelFormat::Rgb565)
    );
}

#[test]
fn rgb565_video_frame_converts_to_tight_xrgb8888_buffer() {
    let red = 0xf800_u16.to_ne_bytes();
    let green = 0x07e0_u16.to_ne_bytes();
    let blue = 0x001f_u16.to_ne_bytes();
    let white = 0xffff_u16.to_ne_bytes();
    let pixels = [
        red[0], red[1], green[0], green[1], 0xaa, 0xbb, blue[0], blue[1], white[0], white[1], 0xcc,
        0xdd,
    ];

    let converted = convert_video_frame_to_xrgb8888(&pixels, 2, 2, 6, VideoPixelFormat::Rgb565)
        .expect("RGB565 frame should convert");

    assert_eq!(
        converted,
        vec![
            0x00, 0x00, 0xff, 0xff, 0x00, 0xff, 0x00, 0xff, 0xff, 0x00, 0x00, 0xff, 0xff, 0xff,
            0xff, 0xff,
        ]
    );
}

#[test]
fn xrgb1555_video_frame_converts_to_tight_xrgb8888_buffer() {
    let red = 0x7c00_u16.to_ne_bytes();
    let green = 0x03e0_u16.to_ne_bytes();
    let pixels = [red[0], red[1], green[0], green[1]];

    let converted = convert_video_frame_to_xrgb8888(&pixels, 2, 1, 4, VideoPixelFormat::Xrgb1555)
        .expect("XRGB1555 frame should convert");

    assert_eq!(
        converted,
        vec![0x00, 0x00, 0xff, 0xff, 0x00, 0xff, 0x00, 0xff]
    );
}

#[test]
fn video_frame_conversion_rejects_short_buffer() {
    let converted =
        convert_video_frame_to_xrgb8888(&[0u8; 3], 2, 1, 4, VideoPixelFormat::Xrgb8888);

    assert!(converted.is_none());
}

#[test]
fn frame_socket_poll_interval_is_shorter_than_frame_duration() {
    assert!(Duration::from_nanos(FRAME_SOCKET_POLL_INTERVAL) <= Duration::from_millis(8));
}

#[test]
fn emulator_frame_duration_targets_at_least_sixty_fps() {
    assert!(Duration::from_nanos(EMULATOR_FRAME_DURATION) <= Duration::from_micros(16_666));
}

fn ms(n: u64) -> u64 {
    n * 1_000_000
}

#[test]
fn frame_scheduler_sleeps_until_next_deadline_when_on_time() {
    let frame_duration = ms(16);
    let start = ms(1000);
    let mut next_frame_at = start;

    let sleep_for = schedule_next_frame_sleep(&mut next_frame_at, start + ms(1), frame_duration);

    assert_eq!(sleep_for, Some(ms(15)));
    assert_eq!(next_frame_at, start + frame_duration);
}

#[test]
fn frame_scheduler_skips_sleep_to_catch_up_when_late() {
    let frame_duration = ms(16);
    let start = ms(1000);
    let mut next_frame_at = start;

    let sleep_for = schedule_next_frame_sleep(&mut next_frame_at, start + ms(20), frame_duration);

    assert_eq!(sleep_for, None);
    assert_eq!(next_frame_at, start + frame_duration);
}

#[test]
fn frame_scheduler_starts_over_when_more_than_a_frame_late() {
    let mut next_frame_at = ms(1000);
    assert_eq!(schedule_next_frame_sleep(&mut next_frame_at, ms(1033), ms(16)), None);
    assert_eq!(next_frame_at, ms(1033));
    let mut next_frame_at = ms(1000);
    assert_eq!(schedule_next_frame_sleep(&mut next_frame_at, ms(1032), ms(16)), None);
    assert_eq!(next_frame_at, ms(1016));
}

#[test]
fn environment_callback_rejects_null_pixel_format() {
    assert_eq!(
        environment_reply(RETRO_ENVIRONMENT_SET_PIXEL_FORMAT, None),
        EnvironmentReply::Refuse
    );
}

#[test]
fn environment_callback_provides_system_and_save_directories() {
    assert_eq!(
        environment_reply(RETRO_ENVIRONMENT_GET_SYSTEM_DIRECTORY, Some(0)),
        EnvironmentReply::GiveSystemDirectory
    );
    assert_eq!(
        environment_reply(RETRO_ENVIRONMENT_GET_SAVE_DIRECTORY, Some(0)),
        EnvironmentReply::GiveSaveDirectory
    );
    assert_eq!(SYSTEM_DIRECTORY.as_bytes(), b".");
    assert_eq!(SAVE_DIRECTORY.as_bytes(), b".");
}

#[test]
fn environment_callback_accepts_non_null_memory_map_notification() {
    assert_eq!(
        environment_reply(RETRO_ENVIRONMENT_SET_MEMORY_MAPS, Some(0)),
        EnvironmentReply::Accept
    );
}

#[test]
fn environment_callback_refuses_the_rest() {
    assert_eq!(
        environment_reply(RETRO_ENVIRONMENT_SET_MEMORY_MAPS, None),
        EnvironmentReply::Refuse
    );
    assert_eq!(
        environment_reply(RETRO_ENVIRONMENT_GET_LOG_INTERFACE, Some(1)),
        EnvironmentReply::Refuse
    );
    assert_eq!(
        environment_reply(RETRO_ENVIRONMENT_SET_PIXEL_FORMAT, Some(3)),
        EnvironmentReply::Refuse
    );
    assert_eq!(environment_reply(999, Some(1)), EnvironmentReply::Refuse);
}

#[test]
fn pixel_formats_by_number() {
    assert_eq!(pixel_format_from_u32(0), Some(VideoPixelFormat::Xrgb1555));
    assert_eq!(pixel_format_from_u32(1), Some(VideoPixelFormat::Xrgb8888));
    assert_eq!(pixel_format_from_u32(2), Some(VideoPixelFormat::Rgb565));
    assert_eq!(pixel_format_from_u32(3), None);
}

#[test]
fn only_the_first_interface_version_is_supported() {
    assert_eq!(check_api_version(1), Ok(()));
    assert_eq!(check_api_version(2), Err(LibretroError::ApiVersion(2)));
}

#[test]
fn stretched_bits_match_shifts() {
    for v in 0..32u16 {
        assert_eq!(expand_5bit_to_8bit(v), ((v << 3) | (v >> 2)) as u8);
    }
    for v in 0..64u16 {
        assert_eq!(expand_6bit_to_8bit(v), ((v << 2) | (v >> 4)) as u8);
    }
}

#[test]
fn byte_order_is_told() {
    let little = convert_video_frame(&[0x1f, 0x00], 1, 1, 2, VideoPixelFormat::Rgb565, true);
    assert_eq!(little, Some(vec![0xff, 0x00, 0x00, 0xff]));
    let big = convert_video_frame(&[0x00, 0x1f], 1, 1, 2, VideoPixelFormat::Rgb565, false);
    assert_eq!(big, Some(vec![0xff, 0x00, 0x00, 0xff]));
}

#[test]
fn four_byte_rows_lose_their_gaps() {
    let pixels = [1, 2, 3, 4, 9, 9, 5, 6, 7, 8, 9, 9];
    assert_eq!(
        convert_video_frame_to_xrgb8888(&pixels, 1, 2, 6, VideoPixelFormat::Xrgb8888),
        Some(vec![1, 2, 3, 4, 5, 6, 7, 8])
    );
}

#[test]
fn conversion_rejects_rows_longer_than_the_pitch() {
    assert_eq!(
        convert_video_frame_to_xrgb8888(&[0; 64], 4, 1, 15, VideoPixelFormat::Xrgb8888),
        None
    );
    assert_eq!(height_byte_count(3, 7), Some(21));
    assert_eq!(height_byte_count(3, usize::MAX), None);
}
