//! The settings that the challenge scheme reads, fixed at startup.
use vstd::prelude::*;

verus! {

/// The shortest secret accepted.
pub const MIN_SECRET_LEN: usize = 32;

/// A code is a prefix of the hexadecimal text of a 32-byte digest.
pub const MAX_CODE_LEN: usize = 64;

/// Why a set of settings cannot be served with.
#[derive(Debug, Clone, Copy, PartialEq, Eq, Structural)]
pub enum ConfigError {
    SecretTooShort,
    CodeLengthOutOfRange,
    ZeroExpiry,
    PaddingXTooWide,
    PaddingYTooTall,
    SpacingTooWide,
}

/// The settings of the token scheme and of the glyph layout.
#[derive(Debug, Clone)]
pub struct CaptchaConfig {
    /// Bytes mixed into every digest; never handed out.
    pub secret: Vec<u8>,
    /// Number of hexadecimal characters in an issued code.
    pub code_length: usize,
    /// Width of a time window, in seconds.
    pub expire_eta: u64,
    pub width: usize,
    pub height: usize,
    pub padding_x: usize,
    pub padding_y: usize,
    pub character_spacing: usize,
    pub rotation_min: i32,
    pub rotation_max: i32,
}

impl CaptchaConfig {
    /// The conditions checked at startup, before any request is served.
    pub open spec fn wf(&self) -> bool {
        &&& self.secret@.len() >= MIN_SECRET_LEN
        &&& 1 <= self.code_length <= MAX_CODE_LEN
        &&& self.expire_eta > 0
        &&& self.padding_x < self.width
        &&& self.padding_y < self.height
        &&& self.character_spacing < self.width
    }

    /// Checks the settings and returns them, or the first condition that fails.
    pub fn new(
        secret: Vec<u8>,
        code_length: usize,
        expire_eta: u64,
        width: usize,
        height: usize,
        padding_x: usize,
        padding_y: usize,
        character_spacing: usize,
        rotation_min: i32,
        rotation_max: i32,
    ) -> (r: Result<CaptchaConfig, ConfigError>)
        ensures
            secret@.len() < MIN_SECRET_LEN ==> r == Err::<CaptchaConfig, ConfigError>(
                ConfigError::SecretTooShort,
            ),
            secret@.len() >= MIN_SECRET_LEN && !(1 <= code_length <= MAX_CODE_LEN) ==> r == Err::<
                CaptchaConfig,
                ConfigError,
            >(ConfigError::CodeLengthOutOfRange),
            secret@.len() >= MIN_SECRET_LEN && 1 <= code_length <= MAX_CODE_LEN && expire_eta == 0
                ==> r == Err::<CaptchaConfig, ConfigError>(ConfigError::ZeroExpiry),
            secret@.len() >= MIN_SECRET_LEN && 1 <= code_length <= MAX_CODE_LEN && expire_eta > 0
                && padding_x >= width ==> r == Err::<CaptchaConfig, ConfigError>(
                ConfigError::PaddingXTooWide,
            ),
            secret@.len() >= MIN_SECRET_LEN && 1 <= code_length <= MAX_CODE_LEN && expire_eta > 0
                && padding_x < width && padding_y >= height ==> r == Err::<
                CaptchaConfig,
                ConfigError,
            >(ConfigError::PaddingYTooTall),
            secret@.len() >= MIN_SECRET_LEN && 1 <= code_length <= MAX_CODE_LEN && expire_eta > 0
                && padding_x < width && padding_y < height && character_spacing >= width ==> r
                == Err::<CaptchaConfig, ConfigError>(ConfigError::SpacingTooWide),
            r is Ok <==> {
                &&& secret@.len() >= MIN_SECRET_LEN
                &&& 1 <= code_length <= MAX_CODE_LEN
                &&& expire_eta > 0
                &&& padding_x < width
                &&& padding_y < height
                &&& character_spacing < width
            },
            r matches Ok(c) ==> {
                &&& c.wf()
                &&& c.secret@ == secret@
                &&& c.code_length == code_length
                &&& c.expire_eta == expire_eta
                &&& c.width == width
                &&& c.height == height
                &&& c.padding_x == padding_x
                &&& c.padding_y == padding_y
                &&& c.character_spacing == character_spacing
                &&& c.rotation_min == rotation_min
                &&& c.rotation_max == rotation_max
            },
    {
        if secret.len() < MIN_SECRET_LEN {
            return Err(ConfigError::SecretTooShort);
        }
        if code_length < 1 || code_length > MAX_CODE_LEN {
            return Err(ConfigError::CodeLengthOutOfRange);
        }
        if expire_eta == 0 {
            return Err(ConfigError::ZeroExpiry);
        }
        if padding_x >= width {
            return Err(ConfigError::PaddingXTooWide);
        }
        if padding_y >= height {
            return Err(ConfigError::PaddingYTooTall);
        }
        if character_spacing >= width {
            return Err(ConfigError::SpacingTooWide);
        }
        Ok(
            CaptchaConfig {
                secret,
                code_length,
                expire_eta,
                width,
                height,
                padding_x,
                padding_y,
                character_spacing,
                rotation_min,
                rotation_max,
            },
        )
    }
}

} // verus!
