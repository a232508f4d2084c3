//! Checks on the captcha text and its length.
use vstd::prelude::*;
use vstd::string::StrSliceExecFns;

verus! {

/// The characters that captcha text may not contain: they look alike once drawn.
pub const EXCLUDE: &'static str = "01ILOilo";

/// The longest captcha text, and the largest length, accepted.
pub const MAX_LENGTH: usize = 10;

/// Why a set of options was refused.
#[derive(Debug, Clone, Copy, PartialEq, Eq, Structural)]
pub enum InputError {
    /// The text has more than `MAX_LENGTH` characters.
    TextTooLong,
    /// The text holds a character of `EXCLUDE`.
    ExcludedChar,
    /// The length is not between 1 and `MAX_LENGTH`.
    LengthOutOfRange,
    /// A value that should be a number is not a decimal number of its type.
    InvalidNumber,
    /// A value that should be a boolean is neither `true` nor `false`.
    InvalidBool,
    /// The image is too small to draw the text on, or larger than offered.
    ImageSizeOutOfRange,
}

impl InputError {
    /// A sentence that describes the error.
    pub fn message(&self) -> &'static str {
        match self {
            InputError::TextTooLong => "The length of the text must be at most 10",
            InputError::ExcludedChar => "The text must not contain [01ILOilo]",
            InputError::LengthOutOfRange => "The length of the text must be between 1 and 10",
            InputError::InvalidNumber => "An option that takes a number was given something else",
            InputError::InvalidBool => "An option that takes true or false was given something else",
            InputError::ImageSizeOutOfRange => "The image width or height cannot be drawn",
        }
    }
}

/// Whether `c` is one of the characters of `EXCLUDE`.
pub open spec fn is_excluded(c: char) -> bool {
    c == '0' || c == '1' || c == 'I' || c == 'L' || c == 'O' || c == 'i' || c == 'l' || c == 'o'
}

/// Whether some character of `t` is excluded.
pub open spec fn has_excluded(t: Seq<char>) -> bool {
    exists|i: int| 0 <= i < t.len() && is_excluded(#[trigger] t[i])
}

/// What is wrong with `t` as captcha text, if anything. The empty text is
/// accepted: it asks for a generated one.
pub open spec fn text_error(t: Seq<char>) -> Option<InputError> {
    if t.len() > MAX_LENGTH {
        Some(InputError::TextTooLong)
    } else if has_excluded(t) {
        Some(InputError::ExcludedChar)
    } else {
        None
    }
}

/// Whether `length` is an accepted captcha length.
pub open spec fn length_ok(length: int) -> bool {
    1 <= length <= MAX_LENGTH
}

fn is_excluded_char(c: char) -> (r: bool)
    ensures
        r == is_excluded(c),
{
    c == '0' || c == '1' || c == 'I' || c == 'L' || c == 'O' || c == 'i' || c == 'l' || c == 'o'
}

/// Checks captcha text: at most `MAX_LENGTH` characters, none of `EXCLUDE`.
pub fn validate_text(text: &String) -> (r: Result<(), InputError>)
    ensures
        match text_error(text@) {
            Some(e) => r == Err::<(), InputError>(e),
            None => r is Ok,
        },
{
    let t = text.as_str();
    let n = t.unicode_len();
    if n > MAX_LENGTH {
        return Err(InputError::TextTooLong);
    }
    let mut i: usize = 0;
    while i < n
        invariant
            n == text@.len(),
            n <= MAX_LENGTH,
            t@ == text@,
            i <= n,
            forall|j: int| 0 <= j < i ==> !is_excluded(#[trigger] text@[j]),
        decreases n - i,
    {
        if is_excluded_char(t.get_char(i)) {
            assert(is_excluded(text@[i as int]));
            return Err(InputError::ExcludedChar);
        }
        i = i + 1;
    }
    Ok(())
}

/// Checks that a captcha length lies between 1 and `MAX_LENGTH`.
pub fn validate_length(length: usize) -> (r: Result<(), InputError>)
    ensures
        r is Ok <==> length_ok(length as int),
        r is Err ==> r == Err::<(), InputError>(InputError::LengthOutOfRange),
{
    if length < 1 || length > MAX_LENGTH {
        return Err(InputError::LengthOutOfRange);
    }
    Ok(())
}

} // verus!
