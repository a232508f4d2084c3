//! Resolving the captcha options from a flag mapping, with their defaults,
//! and deciding between the help text and a captcha.
use vstd::prelude::*;
use vstd::string::StrSliceExecFns;
use crate::args::{
    args_map, get_arg_value, resolve, strings_view, tokenize, ArgsMap, FlagMap,
};
use crate::validate::{length_ok, text_error, validate_length, validate_text, InputError};

verus! {

/// Length of generated text when neither a text nor a length is given.
pub const DEFAULT_LENGTH: u64 = 5;

/// Width in pixels given to each character when no width is given.
pub const WIDTH_PER_CHAR: u64 = 26;

pub const DEFAULT_HEIGHT: u64 = 40;

pub const DEFAULT_COMPLEXITY: u64 = 1;

pub const DEFAULT_COMPRESSION: u64 = 40;

/// The narrowest image the renderer can draw on.
pub const MIN_WIDTH: u32 = 25;

/// The lowest image the renderer can draw on.
pub const MIN_HEIGHT: u32 = 30;

/// The widest image offered.
pub const MAX_WIDTH: u32 = 320;

/// The highest image offered.
pub const MAX_HEIGHT: u32 = 120;

pub open spec fn is_digit(c: char) -> bool {
    '0' <= c <= '9'
}

pub open spec fn all_digits(s: Seq<char>) -> bool {
    forall|i: int| 0 <= i < s.len() ==> is_digit(#[trigger] s[i])
}

/// The number that the decimal digits `s` write.
pub open spec fn digits_value(s: Seq<char>) -> int
    decreases s.len(),
{
    if s.len() == 0 {
        0
    } else {
        digits_value(s.drop_last()) * 10 + (s.last() as int - '0' as int)
    }
}

/// `s` read as a decimal number no greater than `max`: one or more digits
/// and nothing else.
pub open spec fn parse_decimal(s: Seq<char>, max: int) -> Option<int> {
    if s.len() > 0 && all_digits(s) && digits_value(s) <= max {
        Some(digits_value(s))
    } else {
        None
    }
}

/// `s` read as a boolean: exactly `true` or `false`.
pub open spec fn parse_bool(s: Seq<char>) -> Option<bool> {
    if s == "true"@ {
        Some(true)
    } else if s == "false"@ {
        Some(false)
    } else {
        None
    }
}

/// A numeric option: `default` when absent, else its value read as a number.
pub open spec fn number_option(
    m: FlagMap,
    short: Seq<char>,
    long: Seq<char>,
    default: int,
    max: int,
) -> Result<int, InputError> {
    match resolve(m, short, long) {
        None => Ok(default),
        Some(s) => match parse_decimal(s, max) {
            Some(v) => Ok(v),
            None => Err(InputError::InvalidNumber),
        },
    }
}

/// A boolean option: false when absent, else its value read as a boolean.
pub open spec fn bool_option(m: FlagMap, short: Seq<char>, long: Seq<char>) -> Result<
    bool,
    InputError,
> {
    match resolve(m, short, long) {
        None => Ok(false),
        Some(s) => match parse_bool(s) {
            Some(b) => Ok(b),
            None => Err(InputError::InvalidBool),
        },
    }
}

proof fn lemma_digits_monotonic(s: Seq<char>, i: int, j: int)
    requires
        0 <= i <= j <= s.len(),
        all_digits(s),
    ensures
        digits_value(s.subrange(0, i)) <= digits_value(s.subrange(0, j)),
    decreases j - i,
{
    if i < j {
        lemma_digits_monotonic(s, i, j - 1);
        assert(s.subrange(0, j).drop_last() =~= s.subrange(0, j - 1));
        lemma_digits_nonneg(s.subrange(0, j - 1));
        assert(is_digit(s[j - 1]));
    }
}

proof fn lemma_digits_nonneg(s: Seq<char>)
    requires
        all_digits(s),
    ensures
        digits_value(s) >= 0,
    decreases s.len(),
{
    if s.len() > 0 {
        assert(is_digit(s[s.len() - 1]));
        lemma_digits_nonneg(s.drop_last());
    }
}

/// Reads `s` as a decimal number of at most `max`.
fn parse_number(s: &String, max: u64) -> (r: Option<u64>)
    ensures
        match r {
            Some(v) => parse_decimal(s@, max as int) == Some(v as int),
            None => parse_decimal(s@, max as int) is None,
        },
{
    let t = s.as_str();
    let n = t.unicode_len();
    if n == 0 {
        return None;
    }
    let mut v: u64 = 0;
    let mut i: usize = 0;
    while i < n
        invariant
            n == s@.len(),
            t@ == s@,
            i <= n,
            v as int == digits_value(s@.subrange(0, i as int)),
            v <= max,
            forall|j: int| 0 <= j < i ==> is_digit(#[trigger] s@[j]),
        decreases n - i,
    {
        let c = t.get_char(i);
        assert(s@.subrange(0, i + 1).drop_last() =~= s@.subrange(0, i as int));
        assert(s@.subrange(0, i + 1).last() == c);
        if c < '0' || c > '9' {
            assert(!is_digit(s@[i as int]));
            return None;
        }
        let d = (c as u32 - '0' as u32) as u64;
        let next = match v.checked_mul(10) {
            Some(p) => p.checked_add(d),
            None => None,
        };
        match next {
            Some(w) if w <= max => {
                v = w;
            },
            _ => {
                proof {
                    if all_digits(s@) {
                        lemma_digits_monotonic(s@, i + 1, n as int);
                        assert(s@.subrange(0, n as int) =~= s@);
                    }
                }
                return None;
            },
        }
        i = i + 1;
    }
    assert(s@.subrange(0, n as int) =~= s@);
    Some(v)
}

/// Reads `s` as `true` or `false`.
fn parse_boolean(s: &String) -> (r: Option<bool>)
    ensures
        r == parse_bool(s@),
{
    if *s == "true".to_owned() {
        Some(true)
    } else if *s == "false".to_owned() {
        Some(false)
    } else {
        None
    }
}

/// The numeric option `short`/`long`, or `default` when it is absent.
fn number_value(m: &ArgsMap, short: &str, long: &str, default: u64, max: u64) -> (r: Result<
    u64,
    InputError,
>)
    requires
        m.wf(),
        default <= max,
    ensures
        match r {
            Ok(v) => number_option(m@, short@, long@, default as int, max as int) == Ok::<
                int,
                InputError,
            >(v as int),
            Err(e) => number_option(m@, short@, long@, default as int, max as int) == Err::<
                int,
                InputError,
            >(e),
        },
{
    match get_arg_value(m, short, long) {
        None => Ok(default),
        Some(s) => match parse_number(&s, max) {
            Some(v) => Ok(v),
            None => Err(InputError::InvalidNumber),
        },
    }
}

/// The boolean option `short`/`long`, or false when it is absent.
fn bool_value(m: &ArgsMap, short: &str, long: &str) -> (r: Result<bool, InputError>)
    requires
        m.wf(),
    ensures
        r == bool_option(m@, short@, long@),
{
    match get_arg_value(m, short, long) {
        None => Ok(false),
        Some(s) => match parse_boolean(&s) {
            Some(b) => Ok(b),
            None => Err(InputError::InvalidBool),
        },
    }
}

/// The options of one captcha, resolved and checked.
pub struct CaptchaConfig {
    /// The text to draw; empty asks for a generated text of `length` characters.
    pub text: String,
    pub length: usize,
    pub width: u32,
    pub height: u32,
    pub dark_mode: bool,
    pub complexity: u32,
    pub compression: u8,
}

/// The mathematical model of a `CaptchaConfig`.
pub struct ConfigModel {
    pub text: Seq<char>,
    pub length: int,
    pub width: int,
    pub height: int,
    pub dark_mode: bool,
    pub complexity: int,
    pub compression: int,
}

impl View for CaptchaConfig {
    type V = ConfigModel;

    open spec fn view(&self) -> ConfigModel {
        ConfigModel {
            text: self.text@,
            length: self.length as int,
            width: self.width as int,
            height: self.height as int,
            dark_mode: self.dark_mode,
            complexity: self.complexity as int,
            compression: self.compression as int,
        }
    }
}

/// The text option: the value of `-t`/`--text`, else empty.
pub open spec fn text_option(m: FlagMap) -> Seq<char> {
    match resolve(m, "-t"@, "--text"@) {
        Some(t) => t,
        None => Seq::empty(),
    }
}

/// The length used when none is given: that of the text, if there is one.
pub open spec fn default_length(text: Seq<char>) -> int {
    if text.len() > 0 {
        text.len() as int
    } else {
        DEFAULT_LENGTH as int
    }
}

/// Whether the renderer can draw and encode an image of this size.
pub open spec fn size_ok(width: int, height: int) -> bool {
    MIN_WIDTH <= width <= MAX_WIDTH && MIN_HEIGHT <= height <= MAX_HEIGHT
}

/// The configuration that the flag mapping `m` asks for, or the first
/// problem met, in this order: text, length, width, height, dark mode,
/// complexity, compression, image size.
pub open spec fn config_result(m: FlagMap) -> Result<ConfigModel, InputError> {
    let text = text_option(m);
    match text_error(text) {
        Some(e) => Err(e),
        None => match number_option(m, "-l"@, "--length"@, default_length(text), usize::MAX as int) {
            Err(e) => Err(e),
            Ok(length) => if !length_ok(length) {
                Err(InputError::LengthOutOfRange)
            } else {
                match number_option(m, "-w"@, "--width"@, length * WIDTH_PER_CHAR as int, u32::MAX as int) {
                    Err(e) => Err(e),
                    Ok(width) => match number_option(
                        m,
                        "-h"@,
                        "--height"@,
                        DEFAULT_HEIGHT as int,
                        u32::MAX as int,
                    ) {
                        Err(e) => Err(e),
                        Ok(height) => match bool_option(m, "-d"@, "--dark-mode"@) {
                            Err(e) => Err(e),
                            Ok(dark_mode) => match number_option(
                                m,
                                "-c"@,
                                "--complexity"@,
                                DEFAULT_COMPLEXITY as int,
                                u32::MAX as int,
                            ) {
                                Err(e) => Err(e),
                                Ok(complexity) => match number_option(
                                    m,
                                    "-C"@,
                                    "--compression"@,
                                    DEFAULT_COMPRESSION as int,
                                    u8::MAX as int,
                                ) {
                                    Err(e) => Err(e),
                                    Ok(compression) => if !size_ok(width, height) {
                                        Err(InputError::ImageSizeOutOfRange)
                                    } else {
                                        Ok(
                                            ConfigModel {
                                                text,
                                                length,
                                                width,
                                                height,
                                                dark_mode,
                                                complexity,
                                                compression,
                                            },
                                        )
                                    },
                                },
                            },
                        },
                    },
                }
            },
        },
    }
}

/// A configuration fit to draw: valid text, a length in range, an image size
/// in range.
pub open spec fn config_ok(c: &CaptchaConfig) -> bool {
    text_error(c.text@) is None && length_ok(c.length as int) && size_ok(
        c.width as int,
        c.height as int,
    )
}

/// The model of a `Result` of configuration.
pub open spec fn config_result_view(r: Result<CaptchaConfig, InputError>) -> Result<
    ConfigModel,
    InputError,
> {
    match r {
        Ok(c) => Ok(c@),
        Err(e) => Err(e),
    }
}

/// Resolves every option from the flag mapping, applying defaults, and
/// checks the text, the length and the image size.
pub fn resolve_config(m: &ArgsMap) -> (r: Result<CaptchaConfig, InputError>)
    requires
        m.wf(),
    ensures
        config_result_view(r) == config_result(m@),
        r is Ok ==> config_ok(&r->Ok_0),
{
    let text = match get_arg_value(m, "-t", "--text") {
        Some(t) => t,
        None => String::new(),
    };
    validate_text(&text)?;
    let text_len = text.as_str().unicode_len();
    let default_len: u64 = if text_len > 0 {
        text_len as u64
    } else {
        DEFAULT_LENGTH
    };
    let length = number_value(m, "-l", "--length", default_len, usize::MAX as u64)?;
    validate_length(length as usize)?;
    let width = number_value(m, "-w", "--width", length * WIDTH_PER_CHAR, u32::MAX as u64)?;
    let height = number_value(m, "-h", "--height", DEFAULT_HEIGHT, u32::MAX as u64)?;
    let dark_mode = bool_value(m, "-d", "--dark-mode")?;
    let complexity = number_value(m, "-c", "--complexity", DEFAULT_COMPLEXITY, u32::MAX as u64)?;
    let compression = number_value(m, "-C", "--compression", DEFAULT_COMPRESSION, u8::MAX as u64)?;
    if width < MIN_WIDTH as u64 || width > MAX_WIDTH as u64 || height < MIN_HEIGHT as u64
        || height > MAX_HEIGHT as u64 {
        return Err(InputError::ImageSizeOutOfRange);
    }
    Ok(
        CaptchaConfig {
            text,
            length: length as usize,
            width: width as u32,
            height: height as u32,
            dark_mode,
            complexity: complexity as u32,
            compression: compression as u8,
        },
    )
}

/// Whether `s` asks for the help text.
pub open spec fn is_help_flag(s: Seq<char>) -> bool {
    s == "-h"@ || s == "-help"@ || s == "--help"@
}

/// The arguments ask for the help text: a single `-h`, `-help` or `--help`.
/// With any other argument beside it, `-h` names the height.
pub open spec fn help_requested(args: Seq<Seq<char>>) -> bool {
    args.len() == 1 && is_help_flag(args[0])
}

/// Whether the arguments (the program name left out) ask for the help text.
pub fn is_help_request(args: &[String]) -> (r: bool)
    ensures
        r == help_requested(strings_view(args@)),
{
    if args.len() != 1 {
        return false;
    }
    let a = &args[0];
    *a == "-h".to_owned() || *a == "-help".to_owned() || *a == "--help".to_owned()
}

/// What a command line asks for.
pub enum Command {
    Help,
    Generate(CaptchaConfig),
}

/// Decides what the arguments (the program name left out) ask for: the help
/// text, or a captcha with the options they resolve to.
pub fn parse_command(args: &[String]) -> (r: Result<Command, InputError>)
    ensures
        help_requested(strings_view(args@)) ==> r is Ok && r->Ok_0 is Help,
        r matches Ok(Command::Generate(c)) ==> config_ok(&c),
        !help_requested(strings_view(args@)) ==> match r {
            Ok(Command::Generate(c)) => config_result(tokenize(strings_view(args@))) == Ok::<
                ConfigModel,
                InputError,
            >(c@),
            Ok(Command::Help) => false,
            Err(e) => config_result(tokenize(strings_view(args@))) == Err::<ConfigModel, InputError>(
                e,
            ),
        },
{
    if is_help_request(args) {
        return Ok(Command::Help);
    }
    let m = args_map(args);
    let c = resolve_config(&m)?;
    Ok(Command::Generate(c))
}

} // verus!
