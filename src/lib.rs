//! Command-line captcha generation: flag tokenizing, option resolution and
//! validation, with image rendering delegated to `captcha_rs`.

pub mod args;
pub mod validate;
pub mod config;
pub mod render;

pub use args::{args_map, get_arg_value, ArgsMap};
pub use config::{is_help_request, parse_command, resolve_config, CaptchaConfig, Command};
pub use render::{generate, CaptchaOutput};
pub use validate::{validate_length, validate_text, InputError, EXCLUDE};
