//! Producing the captcha through `captcha_rs` from a resolved configuration.
use vstd::prelude::*;
use captcha_rs::CaptchaBuilder;
use crate::config::{config_ok, size_ok, CaptchaConfig};
use crate::validate::text_error;

verus! {

/// A character that `captcha_rs` may pick for generated text: a digit from 2
/// to 9 or a letter, never one of `0 1 I L O i l o`.
pub open spec fn is_generated_char(c: char) -> bool {
    ('2' <= c <= '9') || ('A' <= c <= 'Z' && c != 'I' && c != 'L' && c != 'O') || ('a' <= c
        <= 'z' && c != 'i' && c != 'l' && c != 'o')
}

/// The prefix of every image that `captcha_rs` encodes.
pub open spec fn is_jpeg_data_url(s: Seq<char>) -> bool {
    s.len() >= "data:image/jpeg;base64,"@.len() && s.subrange(
        0,
        "data:image/jpeg;base64,"@.len() as int,
    ) == "data:image/jpeg;base64,"@
}

/// Relies on `CaptchaBuilder::new`, its setters `text`, `width`, `height`,
/// `dark_mode`, `complexity`, `compression`, then `build` and
/// `Captcha::to_base64`: the captcha keeps the given text, and the image is
/// returned as a JPEG data URL. `build` panics on an empty text (it shares
/// the width among the characters), on a width under 25 or a height under 30
/// (it subtracts its margins from them).
#[verifier::external_body]
fn render_with_text(
    text: String,
    width: u32,
    height: u32,
    dark_mode: bool,
    complexity: u32,
    compression: u8,
) -> (r: (String, String))
    requires
        text@.len() > 0,
        size_ok(width as int, height as int),
    ensures
        r.0@ == text@,
        is_jpeg_data_url(r.1@),
{
    let c = CaptchaBuilder::new().text(text).width(width).height(height).dark_mode(dark_mode)
        .complexity(complexity).compression(compression).build();
    let image = c.to_base64();
    (c.text, image)
}

/// Relies on `CaptchaBuilder::new`, its setters `length`, `width`, `height`,
/// `dark_mode`, `complexity`, `compression`, then `build` and
/// `Captcha::to_base64`: `length` draws that many characters at random from
/// `captcha_rs`'s `BASIC_CHAR`, and the image is returned as a JPEG data URL.
/// A length of zero would leave `build` an empty text.
#[verifier::external_body]
fn render_with_length(
    length: usize,
    width: u32,
    height: u32,
    dark_mode: bool,
    complexity: u32,
    compression: u8,
) -> (r: (String, String))
    requires
        length > 0,
        size_ok(width as int, height as int),
    ensures
        r.0@.len() == length,
        forall|i: int| 0 <= i < r.0@.len() ==> is_generated_char(#[trigger] r.0@[i]),
        is_jpeg_data_url(r.1@),
{
    let c = CaptchaBuilder::new().length(length).width(width).height(height).dark_mode(dark_mode)
        .complexity(complexity).compression(compression).build();
    let image = c.to_base64();
    (c.text, image)
}

/// A captcha: its text and its image as a JPEG data URL.
pub struct CaptchaOutput {
    pub text: String,
    pub image: String,
}

/// Draws the captcha that `config` describes. The text is the configured
/// one, or else `length` generated characters; either way it passes
/// `validate_text`.
pub fn generate(config: CaptchaConfig) -> (r: CaptchaOutput)
    requires
        config_ok(&config),
    ensures
        config.text@.len() > 0 ==> r.text@ == config.text@,
        config.text@.len() == 0 ==> r.text@.len() == config.length && forall|i: int|
            0 <= i < r.text@.len() ==> is_generated_char(#[trigger] r.text@[i]),
        text_error(r.text@) is None,
        r.text@.len() > 0,
        is_jpeg_data_url(r.image@),
{
    let ghost cfg_text = config.text@;
    let (text, image) = if config.text.as_str().is_empty() {
        render_with_length(
            config.length,
            config.width,
            config.height,
            config.dark_mode,
            config.complexity,
            config.compression,
        )
    } else {
        render_with_text(
            config.text,
            config.width,
            config.height,
            config.dark_mode,
            config.complexity,
            config.compression,
        )
    };
    proof {
        if cfg_text.len() == 0 {
            assert forall|i: int| 0 <= i < text@.len() implies !crate::validate::is_excluded(
                #[trigger] text@[i],
            ) by {
                assert(is_generated_char(text@[i]));
            }
        }
    }
    CaptchaOutput { text, image }
}

} // verus!
