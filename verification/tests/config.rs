use mgba_gateway::config::{ConfigError, GatewayConfig, load_from_env};

fn env(vars: &[(&str, &str)]) -> Vec<(String, String)> {
    vars.iter().map(|(name, value)| (name.to_string(), value.to_string())).collect()
}

#[test]
fn defaults_to_twenty_instances() {
    let config = load_from_env(&[]).unwrap();
    assert_eq!(config.max_instances, 20);
    assert_eq!(config.admin_token, "dev-admin-token");
}

#[test]
fn rejects_more_than_twenty_instances() {
    let error = load_from_env(&env(&[("MAX_INSTANCES", "21")])).unwrap_err();
    assert!(matches!(
        error,
        ConfigError::Range {
            name: "MAX_INSTANCES",
            ..
        }
    ));
    assert_eq!(error.message(), "MAX_INSTANCES must be in range 1..=20, got 21");
}

#[test]
fn loads_worker_and_streaming_config_from_env() {
    let config = load_from_env(&env(&[
        ("WORKER_BINARY_PATH", "/tmp/worker"),
        ("LIBRETRO_CORE_PATH", ""),
        ("WORKER_SOCKET_DIR", "/tmp/workers"),
        ("WORKER_SHUTDOWN_TIMEOUT_MS", "2500"),
        ("H264_ENABLED", "1"),
    ]))
    .unwrap();

    assert_eq!(config.worker_binary_path, "/tmp/worker");
    assert_eq!(config.libretro_core_path, "");
    assert_eq!(config.worker_socket_dir, "/tmp/workers");
    assert_eq!(config.worker_shutdown_timeout_ms, 2500);
    assert!(config.h264_enabled);
}

#[test]
fn an_empty_environment_gives_the_defaults() {
    let config = load_from_env(&[]).unwrap();
    assert_eq!(config, GatewayConfig::default());
    assert_eq!(config.bind_host, "127.0.0.1");
    assert_eq!(config.port, 8787);
    assert_eq!(config.emulator_image, "grokemon-emulator");
    assert_eq!(config.emulator_port, 8888);
    assert_eq!(config.emulator_memory_bytes, 768 * 1024 * 1024);
    assert_eq!(config.capture_interval_ms, 8);
    assert_eq!(config.source_capture_interval_ms, 60_000);
    assert_eq!(config.capture_root, "/tmp/grokemon-captures");
    assert_eq!(config.worker_binary_path, "./target/debug/worker");
    assert_eq!(config.worker_socket_dir, "/tmp/mgba-workers");
    assert_eq!(config.worker_shutdown_timeout_ms, 2_000);
    assert!(!config.h264_enabled);
    assert_eq!(config.stream_keyframe_interval, 60);
    assert_eq!(config.stream_tile_size, 16);
    assert_eq!(config.ws_backpressure_limit, 262_144);
    assert_eq!(config.network_name, "grokemon-net");
    assert_eq!(config.rom_path, None);
    let broadcast = config.broadcast();
    assert_eq!(broadcast.keyframe_interval, 60);
    assert_eq!(broadcast.tile_size, 16);
}

#[test]
fn empty_texts_are_refused_or_dropped() {
    let error = load_from_env(&env(&[("ADMIN_TOKEN", "")])).unwrap_err();
    assert_eq!(error, ConfigError::Empty { name: "ADMIN_TOKEN" });
    assert_eq!(error.message(), "ADMIN_TOKEN must be present and non-empty");
    let config = load_from_env(&env(&[("ROM_PATH", "")])).unwrap();
    assert_eq!(config.rom_path, None);
    let config = load_from_env(&env(&[("ROM_PATH", "/roms/a.gba")])).unwrap();
    assert_eq!(config.rom_path.as_deref(), Some("/roms/a.gba"));
}

#[test]
fn the_first_refused_setting_is_named() {
    let error = load_from_env(&env(&[("STREAM_TILE_SIZE", "3"), ("PORT", "0")])).unwrap_err();
    assert_eq!(
        error,
        ConfigError::Range {
            name: "PORT",
            min: 1,
            max: 65535,
            value: 0
        }
    );
}

#[test]
fn numbers_are_read_as_std_reads_them() {
    for text in [
        "", "+", "-", "-1", "+5", "++5", "5", "05", " 5", "5 ", "1e3", "0x10", "18446744073709551615",
        "18446744073709551616", "99999999999999999999x", "x99999999999999999999",
    ] {
        let read = load_from_env(&env(&[("EMULATOR_MEMORY_BYTES", text)]));
        match text.parse::<u64>() {
            Ok(n) => assert_eq!(read.unwrap().emulator_memory_bytes, n),
            Err(e) => assert_eq!(
                read.unwrap_err(),
                ConfigError::ParseInt {
                    name: "EMULATOR_MEMORY_BYTES",
                    detail: e.to_string()
                }
            ),
        }
    }
}

#[test]
fn truth_values_are_words_or_digits() {
    for (text, value) in [("true", true), ("1", true), ("false", false), ("0", false)] {
        assert_eq!(load_from_env(&env(&[("H264_ENABLED", text)])).unwrap().h264_enabled, value);
    }
    let error = load_from_env(&env(&[("H264_ENABLED", "yes")])).unwrap_err();
    assert_eq!(
        error.message(),
        "H264_ENABLED has invalid integer value: invalid boolean value: yes"
    );
}
