//! The gateway's settings, read from its environment.
use crate::numbers::{
    NumberError, decimal, decimal_of, law_decimal_read_back, parse_number, parsed_number,
};
use crate::streaming::broadcast::BroadcastConfig;
use crate::text::{chars_of, join2, join3, text_eq};
use vstd::prelude::*;

verus! {

/// The settings of the gateway.
#[derive(Debug, PartialEq, Eq)]
pub struct GatewayConfig {
    pub bind_host: String,
    pub port: u16,
    pub admin_token: String,
    pub max_instances: u16,
    pub emulator_image: String,
    pub emulator_port: u16,
    pub emulator_memory_bytes: u64,
    pub capture_interval_ms: u64,
    pub source_capture_interval_ms: u64,
    pub capture_root: String,
    pub worker_binary_path: String,
    pub libretro_core_path: String,
    pub worker_socket_dir: String,
    pub worker_shutdown_timeout_ms: u64,
    pub h264_enabled: bool,
    pub stream_keyframe_interval: u32,
    pub stream_tile_size: u16,
    pub ws_backpressure_limit: usize,
    pub network_name: String,
    pub rom_path: Option<String>,
}

/// Why a setting is refused.
#[derive(Debug, PartialEq, Eq)]
pub enum ConfigError {
    /// A text that must not be empty is empty.
    Empty { name: &'static str },
    /// A text is no number, or no truth value.
    ParseInt { name: &'static str, detail: String },
    /// A number is too small or too large.
    Range { name: &'static str, min: u64, max: u64, value: u64 },
}

/// A refusal with its texts as sequences of characters.
pub ghost enum ConfigFault {
    Empty { name: Seq<char> },
    ParseInt { name: Seq<char>, detail: Seq<char> },
    Range { name: Seq<char>, min: int, max: int, value: int },
}

impl View for ConfigError {
    type V = ConfigFault;

    open spec fn view(&self) -> ConfigFault {
        match *self {
            ConfigError::Empty { name } => ConfigFault::Empty { name: name@ },
            ConfigError::ParseInt { name, detail } => ConfigFault::ParseInt {
                name: name@,
                detail: detail@,
            },
            ConfigError::Range { name, min, max, value } => ConfigFault::Range {
                name: name@,
                min: min as int,
                max: max as int,
                value: value as int,
            },
        }
    }
}

impl ConfigError {
    /// The error in words.
    pub open spec fn words(self) -> Seq<char> {
        match self {
            ConfigError::Empty { name } => name@ + " must be present and non-empty"@,
            ConfigError::ParseInt { name, detail } => name@ + " has invalid integer value: "@
                + detail@,
            ConfigError::Range { name, min, max, value } => name@ + " must be in range "@ + decimal(
                min as int,
            ) + "..="@ + decimal(max as int) + ", got "@ + decimal(value as int),
        }
    }

    /// The error in words.
    pub fn message(&self) -> (text: String)
        ensures
            text@ == self.words(),
    {
        match self {
            ConfigError::Empty { name } => join2(name, " must be present and non-empty"),
            ConfigError::ParseInt { name, detail } => join3(
                name,
                " has invalid integer value: ",
                detail,
            ),
            ConfigError::Range { name, min, max, value } => {
                let low = join3(name, " must be in range ", &decimal_of(*min));
                let high = join3(&low, "..=", &decimal_of(*max));
                join3(&high, ", got ", &decimal_of(*value))
            },
        }
    }
}

/// The value of a variable in an environment.
pub open spec fn variable(vars: Seq<(String, String)>, name: Seq<char>) -> Option<Seq<char>>
    decreases vars.len(),
{
    if vars.len() == 0 {
        None
    } else if vars[0].0@ == name {
        Some(vars[0].1@)
    } else {
        variable(vars.skip(1), name)
    }
}

/// What is wrong with a text that is no number.
pub open spec fn number_fault(error: NumberError) -> Seq<char> {
    match error {
        NumberError::Empty => "cannot parse integer from empty string"@,
        NumberError::InvalidDigit => "invalid digit found in string"@,
        NumberError::TooLarge => "number too large to fit in target type"@,
    }
}

/// A number from `min` to `max`, or what is wrong with it.
pub open spec fn number_setting(
    value: Option<Seq<char>>,
    name: Seq<char>,
    default: int,
    min: int,
    max: int,
) -> Result<int, ConfigFault> {
    match value {
        None => Ok(default),
        Some(text) => match parsed_number(text, 10, u64::MAX as int) {
            Ok(n) => if min <= n <= max {
                Ok(n)
            } else {
                Err(ConfigFault::Range { name, min, max, value: n })
            },
            Err(e) => Err(ConfigFault::ParseInt { name, detail: number_fault(e) }),
        },
    }
}

/// A text that is not empty, or what is wrong with it.
pub open spec fn text_setting(value: Option<Seq<char>>, name: Seq<char>, default: Seq<char>) -> Result<
    Seq<char>,
    ConfigFault,
> {
    match value {
        None => Ok(default),
        Some(text) => if text.len() == 0 {
            Err(ConfigFault::Empty { name })
        } else {
            Ok(text)
        },
    }
}

/// A truth value, or what is wrong with it.
pub open spec fn bool_setting(value: Option<Seq<char>>, name: Seq<char>, default: bool) -> Result<
    bool,
    ConfigFault,
> {
    match value {
        None => Ok(default),
        Some(text) => if text == "true"@ || text == "1"@ {
            Ok(true)
        } else if text == "false"@ || text == "0"@ {
            Ok(false)
        } else {
            Err(ConfigFault::ParseInt { name, detail: "invalid boolean value: "@ + text })
        },
    }
}

/// What is wrong, if anything.
pub open spec fn fault<T>(setting: Result<T, ConfigFault>) -> Option<ConfigFault> {
    match setting {
        Ok(_) => None,
        Err(f) => Some(f),
    }
}

/// A number setting of an environment.
pub open spec fn number_var(
    vars: Seq<(String, String)>,
    name: Seq<char>,
    default: int,
    min: int,
    max: int,
) -> Result<int, ConfigFault> {
    number_setting(variable(vars, name), name, default, min, max)
}

/// A text setting of an environment.
pub open spec fn text_var(vars: Seq<(String, String)>, name: Seq<char>, default: Seq<char>) -> Result<
    Seq<char>,
    ConfigFault,
> {
    text_setting(variable(vars, name), name, default)
}

/// A truth value of an environment.
pub open spec fn bool_var(vars: Seq<(String, String)>, name: Seq<char>, default: bool) -> Result<
    bool,
    ConfigFault,
> {
    bool_setting(variable(vars, name), name, default)
}

/// What is wrong with each setting, in the order in which the settings are read.
pub open spec fn faults(vars: Seq<(String, String)>) -> Seq<Option<ConfigFault>> {
    seq![
        fault(text_var(vars, "BIND_HOST"@, "127.0.0.1"@)),
        fault(number_var(vars, "PORT"@, 8787, 1, 65535)),
        fault(text_var(vars, "ADMIN_TOKEN"@, "dev-admin-token"@)),
        fault(number_var(vars, "MAX_INSTANCES"@, 20, 1, 20)),
        fault(text_var(vars, "EMULATOR_IMAGE"@, "grokemon-emulator"@)),
        fault(number_var(vars, "EMULATOR_PORT"@, 8888, 1, 65535)),
        fault(number_var(vars, "EMULATOR_MEMORY_BYTES"@, 805_306_368, 1, u64::MAX as int)),
        fault(number_var(vars, "CAPTURE_INTERVAL_MS"@, 8, 1, 10_000)),
        fault(number_var(vars, "SOURCE_CAPTURE_INTERVAL_MS"@, 60_000, 1, u64::MAX as int)),
        fault(text_var(vars, "CAPTURE_ROOT"@, "/tmp/grokemon-captures"@)),
        fault(text_var(vars, "WORKER_BINARY_PATH"@, "./target/debug/worker"@)),
        fault(text_var(vars, "WORKER_SOCKET_DIR"@, "/tmp/mgba-workers"@)),
        fault(number_var(vars, "WORKER_SHUTDOWN_TIMEOUT_MS"@, 2_000, 100, 30_000)),
        fault(bool_var(vars, "H264_ENABLED"@, false)),
        fault(number_var(vars, "STREAM_KEYFRAME_INTERVAL"@, 60, 1, 4_294_967_295)),
        fault(number_var(vars, "STREAM_TILE_SIZE"@, 16, 4, 128)),
        fault(number_var(vars, "WS_BACKPRESSURE_LIMIT"@, 262_144, 1024, 10_485_760)),
        fault(text_var(vars, "NETWORK_NAME"@, "grokemon-net"@)),
    ]
}

/// Whether the settings are those of an environment in which nothing is wrong.
pub open spec fn matches_env(config: GatewayConfig, vars: Seq<(String, String)>) -> bool {
    &&& text_var(vars, "BIND_HOST"@, "127.0.0.1"@) == Ok::<Seq<char>, ConfigFault>(config.bind_host@)
    &&& number_var(vars, "PORT"@, 8787, 1, 65535) == Ok::<int, ConfigFault>(config.port as int)
    &&& text_var(vars, "ADMIN_TOKEN"@, "dev-admin-token"@) == Ok::<Seq<char>, ConfigFault>(config.admin_token@)
    &&& number_var(vars, "MAX_INSTANCES"@, 20, 1, 20) == Ok::<int, ConfigFault>(config.max_instances as int)
    &&& text_var(vars, "EMULATOR_IMAGE"@, "grokemon-emulator"@) == Ok::<Seq<char>, ConfigFault>(config.emulator_image@)
    &&& number_var(vars, "EMULATOR_PORT"@, 8888, 1, 65535) == Ok::<int, ConfigFault>(config.emulator_port as int)
    &&& number_var(vars, "EMULATOR_MEMORY_BYTES"@, 805_306_368, 1, u64::MAX as int) == Ok::<int, ConfigFault>(config.emulator_memory_bytes as int)
    &&& number_var(vars, "CAPTURE_INTERVAL_MS"@, 8, 1, 10_000) == Ok::<int, ConfigFault>(config.capture_interval_ms as int)
    &&& number_var(vars, "SOURCE_CAPTURE_INTERVAL_MS"@, 60_000, 1, u64::MAX as int) == Ok::<int, ConfigFault>(config.source_capture_interval_ms as int)
    &&& text_var(vars, "CAPTURE_ROOT"@, "/tmp/grokemon-captures"@) == Ok::<Seq<char>, ConfigFault>(config.capture_root@)
    &&& text_var(vars, "WORKER_BINARY_PATH"@, "./target/debug/worker"@) == Ok::<Seq<char>, ConfigFault>(config.worker_binary_path@)
    &&& config.libretro_core_path@ == match variable(vars, "LIBRETRO_CORE_PATH"@) {
        Some(text) => text,
        None => ""@,
    }
    &&& text_var(vars, "WORKER_SOCKET_DIR"@, "/tmp/mgba-workers"@) == Ok::<Seq<char>, ConfigFault>(config.worker_socket_dir@)
    &&& number_var(vars, "WORKER_SHUTDOWN_TIMEOUT_MS"@, 2_000, 100, 30_000) == Ok::<int, ConfigFault>(config.worker_shutdown_timeout_ms as int)
    &&& bool_var(vars, "H264_ENABLED"@, false) == Ok::<bool, ConfigFault>(config.h264_enabled)
    &&& number_var(vars, "STREAM_KEYFRAME_INTERVAL"@, 60, 1, 4_294_967_295) == Ok::<int, ConfigFault>(config.stream_keyframe_interval as int)
    &&& number_var(vars, "STREAM_TILE_SIZE"@, 16, 4, 128) == Ok::<int, ConfigFault>(config.stream_tile_size as int)
    &&& number_var(vars, "WS_BACKPRESSURE_LIMIT"@, 262_144, 1024, 10_485_760) == Ok::<int, ConfigFault>(config.ws_backpressure_limit as int)
    &&& text_var(vars, "NETWORK_NAME"@, "grokemon-net"@) == Ok::<Seq<char>, ConfigFault>(config.network_name@)
    &&& match variable(vars, "ROM_PATH"@) {
        Some(text) => if text.len() == 0 {
            config.rom_path is None
        } else {
            config.rom_path matches Some(path) && path@ == text
        },
        None => config.rom_path is None,
    }
}

impl Default for GatewayConfig {
    fn default() -> (config: Self)
        ensures
            matches_env(config, Seq::empty()),
    {
        GatewayConfig {
            bind_host: "127.0.0.1".to_owned(),
            port: 8787,
            admin_token: "dev-admin-token".to_owned(),
            max_instances: 20,
            emulator_image: "grokemon-emulator".to_owned(),
            emulator_port: 8888,
            emulator_memory_bytes: 805_306_368,
            capture_interval_ms: 8,
            source_capture_interval_ms: 60_000,
            capture_root: "/tmp/grokemon-captures".to_owned(),
            worker_binary_path: "./target/debug/worker".to_owned(),
            libretro_core_path: "".to_owned(),
            worker_socket_dir: "/tmp/mgba-workers".to_owned(),
            worker_shutdown_timeout_ms: 2_000,
            h264_enabled: false,
            stream_keyframe_interval: 60,
            stream_tile_size: 16,
            ws_backpressure_limit: 262_144,
            network_name: "grokemon-net".to_owned(),
            rom_path: None,
        }
    }
}

fn read_var<'a>(vars: &'a [(String, String)], name: &str) -> (value: Option<&'a str>)
    ensures
        match value {
            Some(v) => variable(vars@, name@) == Some(v@),
            None => variable(vars@, name@) is None,
        },
{
    let mut i: usize = 0;
    assert(vars@.skip(0) =~= vars@);
    while i < vars.len()
        invariant
            i <= vars@.len(),
            variable(vars@, name@) == variable(vars@.skip(i as int), name@),
        decreases vars.len() - i,
    {
        if text_eq(&vars[i].0, name) {
            return Some(vars[i].1.as_str());
        }
        assert(vars@.skip(i as int).skip(1) =~= vars@.skip(i + 1));
        i += 1;
    }
    None
}

fn read_string(vars: &[(String, String)], name: &'static str, default: &str) -> (res: Result<
    String,
    ConfigError,
>)
    ensures
        match res {
            Ok(text) => text_var(vars@, name@, default@) == Ok::<Seq<char>, ConfigFault>(text@),
            Err(e) => text_var(vars@, name@, default@) == Err::<Seq<char>, ConfigFault>(e@),
        },
{
    match read_var(vars, name) {
        Some(value) => {
            if value.is_empty() {
                Err(ConfigError::Empty { name })
            } else {
                Ok(value.to_owned())
            }
        },
        None => Ok(default.to_owned()),
    }
}

fn read_bool(vars: &[(String, String)], name: &'static str, default: bool) -> (res: Result<
    bool,
    ConfigError,
>)
    ensures
        match res {
            Ok(b) => bool_var(vars@, name@, default) == Ok::<bool, ConfigFault>(b),
            Err(e) => bool_var(vars@, name@, default) == Err::<bool, ConfigFault>(e@),
        },
{
    match read_var(vars, name) {
        Some(value) => {
            if text_eq(value, "true") || text_eq(value, "1") {
                Ok(true)
            } else if text_eq(value, "false") || text_eq(value, "0") {
                Ok(false)
            } else {
                Err(ConfigError::ParseInt { name, detail: join2("invalid boolean value: ", value) })
            }
        },
        None => Ok(default),
    }
}

fn detail_of(error: NumberError) -> (text: String)
    ensures
        text@ == number_fault(error),
{
    match error {
        NumberError::Empty => "cannot parse integer from empty string".to_owned(),
        NumberError::InvalidDigit => "invalid digit found in string".to_owned(),
        NumberError::TooLarge => "number too large to fit in target type".to_owned(),
    }
}

fn read_number(
    vars: &[(String, String)],
    name: &'static str,
    default: u64,
    min: u64,
    max: u64,
) -> (res: Result<u64, ConfigError>)
    requires
        min <= default <= max,
    ensures
        ({
            let setting = number_var(vars@, name@, default as int, min as int, max as int);
            match res {
                Ok(n) => setting == Ok::<int, ConfigFault>(n as int) && min <= n <= max,
                Err(e) => setting == Err::<int, ConfigFault>(e@),
            }
        }),
{
    match read_var(vars, name) {
        Some(value) => {
            match parse_number(&chars_of(value), 10, u64::MAX) {
                Ok(n) => {
                    if min <= n && n <= max {
                        Ok(n)
                    } else {
                        Err(ConfigError::Range { name, min, max, value: n })
                    }
                },
                Err(e) => Err(ConfigError::ParseInt { name, detail: detail_of(e) }),
            }
        },
        None => Ok(default),
    }
}

/// Reads the settings from the variables of an environment. Of the settings that are refused the
/// first is named.
pub fn load_from_env(vars: &[(String, String)]) -> (res: Result<GatewayConfig, ConfigError>)
    ensures
        match res {
            Ok(config) => matches_env(config, vars@) && forall|i: int|
                0 <= i < faults(vars@).len() ==> (#[trigger] faults(vars@)[i]) is None,
            Err(e) => exists|i: int|
                0 <= i < faults(vars@).len() && #[trigger] faults(vars@)[i] == Some(e@)
                    && forall|j: int| 0 <= j < i ==> (#[trigger] faults(vars@)[j]) is None,
        },
{
    let ghost all = faults(vars@);
    let bind_host: String = match read_string(vars, "BIND_HOST", "127.0.0.1") {
        Ok(value) => value,
        Err(e) => {
            assert(all[0] == Some(e@));
            return Err(e);
        },
    };
    let port: u16 = match read_number(vars, "PORT", 8787, 1, 65535) {
        Ok(value) => value as u16,
        Err(e) => {
            assert(all[1] == Some(e@));
            return Err(e);
        },
    };
    let admin_token: String = match read_string(vars, "ADMIN_TOKEN", "dev-admin-token") {
        Ok(value) => value,
        Err(e) => {
            assert(all[2] == Some(e@));
            return Err(e);
        },
    };
    let max_instances: u16 = match read_number(vars, "MAX_INSTANCES", 20, 1, 20) {
        Ok(value) => value as u16,
        Err(e) => {
            assert(all[3] == Some(e@));
            return Err(e);
        },
    };
    let emulator_image: String = match read_string(vars, "EMULATOR_IMAGE", "grokemon-emulator") {
        Ok(value) => value,
        Err(e) => {
            assert(all[4] == Some(e@));
            return Err(e);
        },
    };
    let emulator_port: u16 = match read_number(vars, "EMULATOR_PORT", 8888, 1, 65535) {
        Ok(value) => value as u16,
        Err(e) => {
            assert(all[5] == Some(e@));
            return Err(e);
        },
    };
    let emulator_memory_bytes: u64 = match read_number(vars, "EMULATOR_MEMORY_BYTES", 805_306_368, 1, u64::MAX) {
        Ok(value) => value,
        Err(e) => {
            assert(all[6] == Some(e@));
            return Err(e);
        },
    };
    let capture_interval_ms: u64 = match read_number(vars, "CAPTURE_INTERVAL_MS", 8, 1, 10_000) {
        Ok(value) => value,
        Err(e) => {
            assert(all[7] == Some(e@));
            return Err(e);
        },
    };
    let source_capture_interval_ms: u64 = match read_number(vars, "SOURCE_CAPTURE_INTERVAL_MS", 60_000, 1, u64::MAX) {
        Ok(value) => value,
        Err(e) => {
            assert(all[8] == Some(e@));
            return Err(e);
        },
    };
    let capture_root: String = match read_string(vars, "CAPTURE_ROOT", "/tmp/grokemon-captures") {
        Ok(value) => value,
        Err(e) => {
            assert(all[9] == Some(e@));
            return Err(e);
        },
    };
    let worker_binary_path: String = match read_string(vars, "WORKER_BINARY_PATH", "./target/debug/worker") {
        Ok(value) => value,
        Err(e) => {
            assert(all[10] == Some(e@));
            return Err(e);
        },
    };
    let libretro_core_path = match read_var(vars, "LIBRETRO_CORE_PATH") {
        Some(text) => text.to_owned(),
        None => "".to_owned(),
    };
    let worker_socket_dir: String = match read_string(vars, "WORKER_SOCKET_DIR", "/tmp/mgba-workers") {
        Ok(value) => value,
        Err(e) => {
            assert(all[11] == Some(e@));
            return Err(e);
        },
    };
    let worker_shutdown_timeout_ms: u64 = match read_number(vars, "WORKER_SHUTDOWN_TIMEOUT_MS", 2_000, 100, 30_000) {
        Ok(value) => value,
        Err(e) => {
            assert(all[12] == Some(e@));
            return Err(e);
        },
    };
    let h264_enabled: bool = match read_bool(vars, "H264_ENABLED", false) {
        Ok(value) => value,
        Err(e) => {
            assert(all[13] == Some(e@));
            return Err(e);
        },
    };
    let stream_keyframe_interval: u32 = match read_number(vars, "STREAM_KEYFRAME_INTERVAL", 60, 1, 4_294_967_295) {
        Ok(value) => value as u32,
        Err(e) => {
            assert(all[14] == Some(e@));
            return Err(e);
        },
    };
    let stream_tile_size: u16 = match read_number(vars, "STREAM_TILE_SIZE", 16, 4, 128) {
        Ok(value) => value as u16,
        Err(e) => {
            assert(all[15] == Some(e@));
            return Err(e);
        },
    };
    let ws_backpressure_limit: usize = match read_number(vars, "WS_BACKPRESSURE_LIMIT", 262_144, 1024, 10_485_760) {
        Ok(value) => value as usize,
        Err(e) => {
            assert(all[16] == Some(e@));
            return Err(e);
        },
    };
    let network_name: String = match read_string(vars, "NETWORK_NAME", "grokemon-net") {
        Ok(value) => value,
        Err(e) => {
            assert(all[17] == Some(e@));
            return Err(e);
        },
    };
    let rom_path = match read_var(vars, "ROM_PATH") {
        Some(text) => if text.is_empty() {
            None
        } else {
            Some(text.to_owned())
        },
        None => None,
    };
    Ok(
        GatewayConfig {
            bind_host,
            port,
            admin_token,
            max_instances,
            emulator_image,
            emulator_port,
            emulator_memory_bytes,
            capture_interval_ms,
            source_capture_interval_ms,
            capture_root,
            worker_binary_path,
            libretro_core_path,
            worker_socket_dir,
            worker_shutdown_timeout_ms,
            h264_enabled,
            stream_keyframe_interval,
            stream_tile_size,
            ws_backpressure_limit,
            network_name,
            rom_path,
        },
    )
}

impl GatewayConfig {
    /// How pictures are sent.
    pub fn broadcast(&self) -> (config: BroadcastConfig)
        ensures
            config == (BroadcastConfig {
                keyframe_interval: self.stream_keyframe_interval,
                backpressure_limit: self.ws_backpressure_limit,
                tile_size: self.stream_tile_size,
                h264_enabled: self.h264_enabled,
            }),
    {
        BroadcastConfig {
            keyframe_interval: self.stream_keyframe_interval,
            backpressure_limit: self.ws_backpressure_limit,
            tile_size: self.stream_tile_size,
            h264_enabled: self.h264_enabled,
        }
    }
}

/// Settings that were read are within their limits.
pub proof fn law_loaded_settings_are_in_range(config: GatewayConfig, vars: Seq<(String, String)>)
    requires
        matches_env(config, vars),
    ensures
        1 <= config.port,
        1 <= config.max_instances <= 20,
        1 <= config.emulator_port,
        1 <= config.capture_interval_ms <= 10_000,
        1 <= config.source_capture_interval_ms,
        100 <= config.worker_shutdown_timeout_ms <= 30_000,
        1 <= config.stream_keyframe_interval,
        4 <= config.stream_tile_size <= 128,
        1024 <= config.ws_backpressure_limit <= 10_485_760,
{
}

/// An environment that sets nothing is never refused.
pub proof fn law_empty_environment_is_accepted(i: int)
    requires
        0 <= i < faults(Seq::empty()).len(),
    ensures
        faults(Seq::empty())[i] is None,
{
}

/// A variable has the value that comes first under its name, and none where nothing stands under its
/// name.
pub proof fn law_first_value_counts(vars: Seq<(String, String)>, name: Seq<char>, n: int)
    requires
        0 <= n <= vars.len(),
        forall|i: int| 0 <= i < n ==> (#[trigger] vars[i]).0@ != name,
    ensures
        n == vars.len() ==> variable(vars, name) is None,
        n < vars.len() && vars[n].0@ == name ==> variable(vars, name) == Some(vars[n].1@),
    decreases n,
{
    if n > 0 {
        assert(vars[0].0@ != name);
        let rest = vars.skip(1);
        assert forall|i: int| 0 <= i < n - 1 implies (#[trigger] rest[i]).0@ != name by {
            assert(rest[i] == vars[i + 1]);
        }
        if n < vars.len() {
            assert(rest[n - 1] == vars[n]);
        }
        law_first_value_counts(rest, name, n - 1);
    }
}

/// A setting that is a number is the number that its variable spells, and has a value of its own where
/// the variable is not set.
pub proof fn law_numbers_are_taken_over(config: GatewayConfig, vars: Seq<(String, String)>, n: u64)
    requires
        matches_env(config, vars),
    ensures
        variable(vars, "PORT"@) == Some(decimal(n as int)) ==> config.port == n,
        variable(vars, "MAX_INSTANCES"@) == Some(decimal(n as int)) ==> config.max_instances == n,
        variable(vars, "EMULATOR_PORT"@) == Some(decimal(n as int)) ==> config.emulator_port == n,
        variable(vars, "EMULATOR_MEMORY_BYTES"@) == Some(decimal(n as int)) ==> config.emulator_memory_bytes == n,
        variable(vars, "CAPTURE_INTERVAL_MS"@) == Some(decimal(n as int)) ==> config.capture_interval_ms == n,
        variable(vars, "SOURCE_CAPTURE_INTERVAL_MS"@) == Some(decimal(n as int)) ==> config.source_capture_interval_ms == n,
        variable(vars, "WORKER_SHUTDOWN_TIMEOUT_MS"@) == Some(decimal(n as int)) ==> config.worker_shutdown_timeout_ms == n,
        variable(vars, "STREAM_KEYFRAME_INTERVAL"@) == Some(decimal(n as int)) ==> config.stream_keyframe_interval == n,
        variable(vars, "STREAM_TILE_SIZE"@) == Some(decimal(n as int)) ==> config.stream_tile_size == n,
        variable(vars, "WS_BACKPRESSURE_LIMIT"@) == Some(decimal(n as int)) ==> config.ws_backpressure_limit == n,
        variable(vars, "PORT"@) is None ==> config.port == 8787,
        variable(vars, "MAX_INSTANCES"@) is None ==> config.max_instances == 20,
        variable(vars, "EMULATOR_PORT"@) is None ==> config.emulator_port == 8888,
        variable(vars, "EMULATOR_MEMORY_BYTES"@) is None ==> config.emulator_memory_bytes == 805_306_368,
        variable(vars, "CAPTURE_INTERVAL_MS"@) is None ==> config.capture_interval_ms == 8,
        variable(vars, "SOURCE_CAPTURE_INTERVAL_MS"@) is None ==> config.source_capture_interval_ms == 60_000,
        variable(vars, "WORKER_SHUTDOWN_TIMEOUT_MS"@) is None ==> config.worker_shutdown_timeout_ms == 2_000,
        variable(vars, "STREAM_KEYFRAME_INTERVAL"@) is None ==> config.stream_keyframe_interval == 60,
        variable(vars, "STREAM_TILE_SIZE"@) is None ==> config.stream_tile_size == 16,
        variable(vars, "WS_BACKPRESSURE_LIMIT"@) is None ==> config.ws_backpressure_limit == 262_144,
{
    law_decimal_read_back(n as int, u64::MAX as int);
}

/// A number that is too small or too large is refused, under the name of its variable and with the
/// limits, and no other number is.
pub proof fn law_numbers_out_of_range_are_refused(vars: Seq<(String, String)>, n: u64)
    ensures
        ({
            let all = faults(vars);
            let text = Some(decimal(n as int));
            &&& variable(vars, "PORT"@) == text ==> all[1] == if 1 <= n <= 65535 {
                None
            } else {
                Some(
                    ConfigFault::Range {
                        name: "PORT"@,
                        min: 1,
                        max: 65535,
                        value: n as int,
                    },
                )
            }
            &&& variable(vars, "MAX_INSTANCES"@) == text ==> all[3] == if 1 <= n <= 20 {
                None
            } else {
                Some(
                    ConfigFault::Range {
                        name: "MAX_INSTANCES"@,
                        min: 1,
                        max: 20,
                        value: n as int,
                    },
                )
            }
            &&& variable(vars, "EMULATOR_PORT"@) == text ==> all[5] == if 1 <= n <= 65535 {
                None
            } else {
                Some(
                    ConfigFault::Range {
                        name: "EMULATOR_PORT"@,
                        min: 1,
                        max: 65535,
                        value: n as int,
                    },
                )
            }
            &&& variable(vars, "EMULATOR_MEMORY_BYTES"@) == text ==> all[6] == if 1 <= n {
                None
            } else {
                Some(
                    ConfigFault::Range {
                        name: "EMULATOR_MEMORY_BYTES"@,
                        min: 1,
                        max: 0xffff_ffff_ffff_ffff,
                        value: n as int,
                    },
                )
            }
            &&& variable(vars, "CAPTURE_INTERVAL_MS"@) == text ==> all[7] == if 1 <= n <= 10_000 {
                None
            } else {
                Some(
                    ConfigFault::Range {
                        name: "CAPTURE_INTERVAL_MS"@,
                        min: 1,
                        max: 10_000,
                        value: n as int,
                    },
                )
            }
            &&& variable(vars, "SOURCE_CAPTURE_INTERVAL_MS"@) == text ==> all[8] == if 1 <= n {
                None
            } else {
                Some(
                    ConfigFault::Range {
                        name: "SOURCE_CAPTURE_INTERVAL_MS"@,
                        min: 1,
                        max: 0xffff_ffff_ffff_ffff,
                        value: n as int,
                    },
                )
            }
            &&& variable(vars, "WORKER_SHUTDOWN_TIMEOUT_MS"@) == text ==> all[12] == if 100 <= n <= 30_000 {
                None
            } else {
                Some(
                    ConfigFault::Range {
                        name: "WORKER_SHUTDOWN_TIMEOUT_MS"@,
                        min: 100,
                        max: 30_000,
                        value: n as int,
                    },
                )
            }
            &&& variable(vars, "STREAM_KEYFRAME_INTERVAL"@) == text ==> all[14] == if 1 <= n <= 4_294_967_295 {
                None
            } else {
                Some(
                    ConfigFault::Range {
                        name: "STREAM_KEYFRAME_INTERVAL"@,
                        min: 1,
                        max: 4_294_967_295,
                        value: n as int,
                    },
                )
            }
            &&& variable(vars, "STREAM_TILE_SIZE"@) == text ==> all[15] == if 4 <= n <= 128 {
                None
            } else {
                Some(
                    ConfigFault::Range {
                        name: "STREAM_TILE_SIZE"@,
                        min: 4,
                        max: 128,
                        value: n as int,
                    },
                )
            }
            &&& variable(vars, "WS_BACKPRESSURE_LIMIT"@) == text ==> all[16] == if 1024 <= n <= 10_485_760 {
                None
            } else {
                Some(
                    ConfigFault::Range {
                        name: "WS_BACKPRESSURE_LIMIT"@,
                        min: 1024,
                        max: 10_485_760,
                        value: n as int,
                    },
                )
            }
        }),
{
    law_decimal_read_back(n as int, u64::MAX as int);
}

/// A setting that is a text is the text of its variable, which must not be empty, and has a value of
/// its own where the variable is not set.
pub proof fn law_texts_are_taken_over(config: GatewayConfig, vars: Seq<(String, String)>, text: Seq<char>)
    requires
        matches_env(config, vars),
    ensures
        variable(vars, "BIND_HOST"@) == Some(text) ==> config.bind_host@ == text && text.len() > 0,
        variable(vars, "BIND_HOST"@) is None ==> config.bind_host@ == "127.0.0.1"@,
        variable(vars, "ADMIN_TOKEN"@) == Some(text) ==> config.admin_token@ == text && text.len() > 0,
        variable(vars, "ADMIN_TOKEN"@) is None ==> config.admin_token@ == "dev-admin-token"@,
        variable(vars, "EMULATOR_IMAGE"@) == Some(text) ==> config.emulator_image@ == text && text.len() > 0,
        variable(vars, "EMULATOR_IMAGE"@) is None ==> config.emulator_image@ == "grokemon-emulator"@,
        variable(vars, "CAPTURE_ROOT"@) == Some(text) ==> config.capture_root@ == text && text.len() > 0,
        variable(vars, "CAPTURE_ROOT"@) is None ==> config.capture_root@ == "/tmp/grokemon-captures"@,
        variable(vars, "WORKER_BINARY_PATH"@) == Some(text) ==> config.worker_binary_path@ == text && text.len() > 0,
        variable(vars, "WORKER_BINARY_PATH"@) is None ==> config.worker_binary_path@ == "./target/debug/worker"@,
        variable(vars, "WORKER_SOCKET_DIR"@) == Some(text) ==> config.worker_socket_dir@ == text && text.len() > 0,
        variable(vars, "WORKER_SOCKET_DIR"@) is None ==> config.worker_socket_dir@ == "/tmp/mgba-workers"@,
        variable(vars, "NETWORK_NAME"@) == Some(text) ==> config.network_name@ == text && text.len() > 0,
        variable(vars, "NETWORK_NAME"@) is None ==> config.network_name@ == "grokemon-net"@,
        variable(vars, "LIBRETRO_CORE_PATH"@) == Some(text) ==> config.libretro_core_path@ == text,
        variable(vars, "LIBRETRO_CORE_PATH"@) is None ==> config.libretro_core_path@.len() == 0,
        variable(vars, "ROM_PATH"@) == Some(text) && text.len() > 0 ==> (config.rom_path
            matches Some(path) && path@ == text),
        variable(vars, "ROM_PATH"@) is None || (variable(vars, "ROM_PATH"@) == Some(text)
            && text.len() == 0) ==> config.rom_path is None,
        config.h264_enabled <==> variable(vars, "H264_ENABLED"@) == Some("true"@) || variable(
            vars,
            "H264_ENABLED"@,
        ) == Some("1"@),
{
    reveal_strlit("");
    reveal_strlit("true");
    reveal_strlit("false");
    reveal_strlit("1");
    reveal_strlit("0");
}

/// An empty text is refused, under the name of its variable, and so is what is neither true nor false.
/// No other text is.
pub proof fn law_empty_texts_are_refused(vars: Seq<(String, String)>, text: Seq<char>)
    ensures
        ({
            let all = faults(vars);
            let value = Some(text);
            &&& all.len() == 18
            &&& variable(vars, "BIND_HOST"@) == value ==> all[0] == if text.len() > 0 {
                None
            } else {
                Some(ConfigFault::Empty { name: "BIND_HOST"@ })
            }
            &&& variable(vars, "ADMIN_TOKEN"@) == value ==> all[2] == if text.len() > 0 {
                None
            } else {
                Some(ConfigFault::Empty { name: "ADMIN_TOKEN"@ })
            }
            &&& variable(vars, "EMULATOR_IMAGE"@) == value ==> all[4] == if text.len() > 0 {
                None
            } else {
                Some(ConfigFault::Empty { name: "EMULATOR_IMAGE"@ })
            }
            &&& variable(vars, "CAPTURE_ROOT"@) == value ==> all[9] == if text.len() > 0 {
                None
            } else {
                Some(ConfigFault::Empty { name: "CAPTURE_ROOT"@ })
            }
            &&& variable(vars, "WORKER_BINARY_PATH"@) == value ==> all[10] == if text.len() > 0 {
                None
            } else {
                Some(ConfigFault::Empty { name: "WORKER_BINARY_PATH"@ })
            }
            &&& variable(vars, "WORKER_SOCKET_DIR"@) == value ==> all[11] == if text.len() > 0 {
                None
            } else {
                Some(ConfigFault::Empty { name: "WORKER_SOCKET_DIR"@ })
            }
            &&& variable(vars, "NETWORK_NAME"@) == value ==> all[17] == if text.len() > 0 {
                None
            } else {
                Some(ConfigFault::Empty { name: "NETWORK_NAME"@ })
            }
            &&& variable(vars, "H264_ENABLED"@) == value ==> all[13] == if text == "true"@ || text
                == "false"@ || text == "1"@ || text == "0"@ {
                None
            } else {
                Some(
                    ConfigFault::ParseInt {
                        name: "H264_ENABLED"@,
                        detail: "invalid boolean value: "@ + text,
                    },
                )
            }
        }),
{
}

/// What each refusal says: the name of the variable, and what is wrong with its value.
pub proof fn law_refusals_in_words(error: ConfigError)
    ensures
        match error {
            ConfigError::Empty { name } => error.words() == name@
                + " must be present and non-empty"@,
            ConfigError::ParseInt { name, detail } => error.words() == name@
                + " has invalid integer value: "@ + detail@,
            ConfigError::Range { name, min, max, value } => error.words() == name@
                + " must be in range "@ + decimal(min as int) + "..="@ + decimal(max as int)
                + ", got "@ + decimal(value as int),
        },
{
}

/// What is said of a text that is no number: that it is empty, that there is something else in it than
/// digits, or that the number is too large.
pub proof fn law_faults_in_words(error: NumberError)
    ensures
        error is Empty ==> number_fault(error) == "cannot parse integer from empty string"@,
        error is InvalidDigit ==> number_fault(error) == "invalid digit found in string"@,
        error is TooLarge ==> number_fault(error) == "number too large to fit in target type"@,
{
}

/// A text that is no number is refused under the name of its variable, whichever setting it is for.
pub proof fn law_texts_are_no_numbers(vars: Seq<(String, String)>, text: Seq<char>, error: NumberError)
    requires
        parsed_number(text, 10, u64::MAX as int) == Err::<int, NumberError>(error),
    ensures
        ({
            let all = faults(vars);
            let value = Some(text);
            let detail = number_fault(error);
            &&& variable(vars, "PORT"@) == value ==> all[1] == Some(
                ConfigFault::ParseInt { name: "PORT"@, detail },
            )
            &&& variable(vars, "MAX_INSTANCES"@) == value ==> all[3] == Some(
                ConfigFault::ParseInt { name: "MAX_INSTANCES"@, detail },
            )
            &&& variable(vars, "EMULATOR_PORT"@) == value ==> all[5] == Some(
                ConfigFault::ParseInt { name: "EMULATOR_PORT"@, detail },
            )
            &&& variable(vars, "EMULATOR_MEMORY_BYTES"@) == value ==> all[6] == Some(
                ConfigFault::ParseInt { name: "EMULATOR_MEMORY_BYTES"@, detail },
            )
            &&& variable(vars, "CAPTURE_INTERVAL_MS"@) == value ==> all[7] == Some(
                ConfigFault::ParseInt { name: "CAPTURE_INTERVAL_MS"@, detail },
            )
            &&& variable(vars, "SOURCE_CAPTURE_INTERVAL_MS"@) == value ==> all[8] == Some(
                ConfigFault::ParseInt { name: "SOURCE_CAPTURE_INTERVAL_MS"@, detail },
            )
            &&& variable(vars, "WORKER_SHUTDOWN_TIMEOUT_MS"@) == value ==> all[12] == Some(
                ConfigFault::ParseInt { name: "WORKER_SHUTDOWN_TIMEOUT_MS"@, detail },
            )
            &&& variable(vars, "STREAM_KEYFRAME_INTERVAL"@) == value ==> all[14] == Some(
                ConfigFault::ParseInt { name: "STREAM_KEYFRAME_INTERVAL"@, detail },
            )
            &&& variable(vars, "STREAM_TILE_SIZE"@) == value ==> all[15] == Some(
                ConfigFault::ParseInt { name: "STREAM_TILE_SIZE"@, detail },
            )
            &&& variable(vars, "WS_BACKPRESSURE_LIMIT"@) == value ==> all[16] == Some(
                ConfigFault::ParseInt { name: "WS_BACKPRESSURE_LIMIT"@, detail },
            )
        }),
{
}

} // verus!
