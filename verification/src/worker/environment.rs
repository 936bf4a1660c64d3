//! What an emulator core asks of its frontend.
use crate::numbers::{decimal, decimal_of};
use crate::text::join2;
use crate::worker::video::{VideoPixelFormat, pixel_format, pixel_format_from_u32};
use vstd::prelude::*;

verus! {

pub const RETRO_ENVIRONMENT_SET_PIXEL_FORMAT: u32 = 10;

pub const RETRO_ENVIRONMENT_GET_LOG_INTERFACE: u32 = 27;

pub const RETRO_ENVIRONMENT_SET_MEMORY_MAPS: u32 = 36;

pub const RETRO_ENVIRONMENT_GET_SYSTEM_DIRECTORY: u32 = 9;

pub const RETRO_ENVIRONMENT_GET_SAVE_DIRECTORY: u32 = 31;

/// The version of the core interface that is supported.
pub const RETRO_API_VERSION: u32 = 1;

/// Where a core finds its system files.
pub const SYSTEM_DIRECTORY: &'static str = ".";

/// Where a core puts its save files.
pub const SAVE_DIRECTORY: &'static str = ".";

/// Why a core cannot be used.
#[derive(Debug, PartialEq, Eq)]
pub enum LibretroError {
    /// The library could not be loaded.
    Load(String),
    /// The library lacks a function.
    Symbol { name: &'static str },
    /// The core refused the game.
    LoadGameFailed,
    /// The core has another version of the interface.
    ApiVersion(u32),
}

impl LibretroError {
    /// The error in words.
    pub open spec fn words(self) -> Seq<char> {
        match self {
            LibretroError::Load(why) => "failed to load library: "@ + why@,
            LibretroError::Symbol { name } => "symbol not found: "@ + name@,
            LibretroError::LoadGameFailed => "retro_load_game failed"@,
            LibretroError::ApiVersion(version) => "unsupported API version: "@ + decimal(
                version as int,
            ),
        }
    }

    /// The error in words.
    pub fn message(&self) -> (text: String)
        ensures
            text@ == self.words(),
    {
        match self {
            LibretroError::Load(why) => join2("failed to load library: ", why),
            LibretroError::Symbol { name } => join2("symbol not found: ", name),
            LibretroError::LoadGameFailed => "retro_load_game failed".to_owned(),
            LibretroError::ApiVersion(version) => join2(
                "unsupported API version: ",
                &decimal_of(*version as u64),
            ),
        }
    }
}

/// Whether a core has the version of the interface that is supported.
pub fn check_api_version(version: u32) -> (res: Result<(), LibretroError>)
    ensures
        res == if version == 1 {
            Ok::<(), LibretroError>(())
        } else {
            Err(LibretroError::ApiVersion(version))
        },
{
    if version != RETRO_API_VERSION {
        Err(LibretroError::ApiVersion(version))
    } else {
        Ok(())
    }
}

/// How a request of a core is answered.
#[derive(Debug, Clone, Copy, PartialEq, Eq, Structural)]
pub enum EnvironmentReply {
    /// Not supported.
    Refuse,
    /// Taken note of.
    Accept,
    /// The core's pictures come in this format from now on.
    UsePixelFormat(VideoPixelFormat),
    /// The core is told the system directory.
    GiveSystemDirectory,
    /// The core is told the save directory.
    GiveSaveDirectory,
}

/// Answers a request. `value` is the number that came with it: none where the core passed no data.
/// Only the pixel format is read from it.
pub fn environment_reply(cmd: u32, value: Option<u32>) -> (reply: EnvironmentReply)
    ensures
        reply == match value {
            None => EnvironmentReply::Refuse,
            Some(n) => if cmd == RETRO_ENVIRONMENT_SET_PIXEL_FORMAT {
                match pixel_format(n) {
                    Some(format) => EnvironmentReply::UsePixelFormat(format),
                    None => EnvironmentReply::Refuse,
                }
            } else if cmd == RETRO_ENVIRONMENT_SET_MEMORY_MAPS {
                EnvironmentReply::Accept
            } else if cmd == RETRO_ENVIRONMENT_GET_SYSTEM_DIRECTORY {
                EnvironmentReply::GiveSystemDirectory
            } else if cmd == RETRO_ENVIRONMENT_GET_SAVE_DIRECTORY {
                EnvironmentReply::GiveSaveDirectory
            } else {
                EnvironmentReply::Refuse
            },
        },
        value is None || (cmd != 9 && cmd != 10 && cmd != 31 && cmd != 36) ==> reply
            == EnvironmentReply::Refuse,
        value is Some && cmd == 9 ==> reply == EnvironmentReply::GiveSystemDirectory,
        value is Some && cmd == 31 ==> reply == EnvironmentReply::GiveSaveDirectory,
        value is Some && cmd == 36 ==> reply == EnvironmentReply::Accept,
        value == Some(0u32) && cmd == 10 ==> reply == EnvironmentReply::UsePixelFormat(
            VideoPixelFormat::Xrgb1555,
        ),
        value == Some(1u32) && cmd == 10 ==> reply == EnvironmentReply::UsePixelFormat(
            VideoPixelFormat::Xrgb8888,
        ),
        value == Some(2u32) && cmd == 10 ==> reply == EnvironmentReply::UsePixelFormat(
            VideoPixelFormat::Rgb565,
        ),
        value matches Some(n) && n > 2 && cmd == 10 ==> reply == EnvironmentReply::Refuse,
{
    match value {
        None => EnvironmentReply::Refuse,
        Some(n) => {
            if cmd == RETRO_ENVIRONMENT_SET_PIXEL_FORMAT {
                match pixel_format_from_u32(n) {
                    Some(format) => EnvironmentReply::UsePixelFormat(format),
                    None => EnvironmentReply::Refuse,
                }
            } else if cmd == RETRO_ENVIRONMENT_SET_MEMORY_MAPS {
                EnvironmentReply::Accept
            } else if cmd == RETRO_ENVIRONMENT_GET_SYSTEM_DIRECTORY {
                EnvironmentReply::GiveSystemDirectory
            } else if cmd == RETRO_ENVIRONMENT_GET_SAVE_DIRECTORY {
                EnvironmentReply::GiveSaveDirectory
            } else {
                EnvironmentReply::Refuse
            }
        },
    }
}

/// What each error says.
pub proof fn law_errors_in_words(error: LibretroError)
    ensures
        match error {
            LibretroError::Load(why) => error.words() == "failed to load library: "@ + why@,
            LibretroError::Symbol { name } => error.words() == "symbol not found: "@ + name@,
            LibretroError::LoadGameFailed => error.words() == "retro_load_game failed"@,
            LibretroError::ApiVersion(version) => error.words() == "unsupported API version: "@
                + decimal(version as int),
        },
{
}

} // verus!
