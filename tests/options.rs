use captcha::{
    args_map, generate, is_help_request, parse_command, resolve_config, validate_length,
    validate_text, CaptchaConfig, Command, InputError,
};

fn strings(v: &[&str]) -> Vec<String> {
    v.iter().map(|s| s.to_string()).collect()
}

fn config_of(v: &[&str]) -> Result<CaptchaConfig, InputError> {
    let args = strings(v);
    resolve_config(&args_map(&args))
}

fn error_of(v: &[&str]) -> InputError {
    match config_of(v) {
        Err(e) => e,
        Ok(_) => panic!("expected an error"),
    }
}

#[test]
fn defaults_without_arguments() {
    let c = config_of(&[]).unwrap();
    assert_eq!(c.text, "");
    assert_eq!(c.length, 5);
    assert_eq!(c.width, 130);
    assert_eq!(c.height, 40);
    assert!(!c.dark_mode);
    assert_eq!(c.complexity, 1);
    assert_eq!(c.compression, 40);
}

#[test]
fn length_defaults_to_text_length() {
    let c = config_of(&["-t", "abc"]).unwrap();
    assert_eq!(c.text, "abc");
    assert_eq!(c.length, 3);
    assert_eq!(c.width, 78);
}

#[test]
fn explicit_options_are_read() {
    let c = config_of(&[
        "--length", "7", "--width", "250", "-h", "60", "--dark-mode", "true", "-c", "4",
        "--compression", "90",
    ])
    .unwrap();
    assert_eq!(c.length, 7);
    assert_eq!(c.width, 250);
    assert_eq!(c.height, 60);
    assert!(c.dark_mode);
    assert_eq!(c.complexity, 4);
    assert_eq!(c.compression, 90);
}

#[test]
fn text_errors_come_first() {
    assert_eq!(error_of(&["-t", "abcdefghjkmn"]), InputError::TextTooLong);
    assert_eq!(error_of(&["-t", "abO", "-l", "x"]), InputError::ExcludedChar);
}

#[test]
fn length_errors() {
    assert_eq!(error_of(&["-l", "0"]), InputError::LengthOutOfRange);
    assert_eq!(error_of(&["-l", "11"]), InputError::LengthOutOfRange);
    assert_eq!(error_of(&["-l", "five"]), InputError::InvalidNumber);
    assert_eq!(error_of(&["-l", ""]), InputError::InvalidNumber);
    assert_eq!(error_of(&["-l", "99999999999999999999999"]), InputError::InvalidNumber);
}

#[test]
fn number_and_bool_errors() {
    assert_eq!(error_of(&["-w", "12a"]), InputError::InvalidNumber);
    assert_eq!(error_of(&["-h", "4x"]), InputError::InvalidNumber);
    assert_eq!(config_of(&["-h", "-5"]).unwrap().height, 40);
    assert_eq!(error_of(&["-C", "300"]), InputError::InvalidNumber);
    assert_eq!(error_of(&["-c", "4294967296"]), InputError::InvalidNumber);
    assert_eq!(error_of(&["-d", "yes"]), InputError::InvalidBool);
    assert!(!config_of(&["-d", "false"]).unwrap().dark_mode);
}

#[test]
fn image_size_limits() {
    assert_eq!(error_of(&["-w", "24"]), InputError::ImageSizeOutOfRange);
    assert_eq!(error_of(&["-w", "321"]), InputError::ImageSizeOutOfRange);
    assert_eq!(error_of(&["-h", "29"]), InputError::ImageSizeOutOfRange);
    assert_eq!(error_of(&["-h", "121"]), InputError::ImageSizeOutOfRange);
    assert_eq!(config_of(&["-w", "25", "-h", "30"]).unwrap().width, 25);
    assert_eq!(config_of(&["-l", "1"]).unwrap().width, 26);
}

#[test]
fn validators_at_edges() {
    assert!(validate_text(&String::new()).is_ok());
    assert!(validate_text(&String::from("abcdefghjk")).is_ok());
    assert_eq!(validate_text(&String::from("abcdefghjkm")), Err(InputError::TextTooLong));
    assert_eq!(validate_text(&String::from("abo")), Err(InputError::ExcludedChar));
    assert!(validate_text(&String::from("éééééééééé")).is_ok());
    assert!(validate_length(1).is_ok());
    assert!(validate_length(10).is_ok());
    assert_eq!(validate_length(0), Err(InputError::LengthOutOfRange));
}

#[test]
fn help_only_when_alone() {
    assert!(is_help_request(&strings(&["-h"])));
    assert!(is_help_request(&strings(&["-help"])));
    assert!(is_help_request(&strings(&["--help"])));
    assert!(!is_help_request(&strings(&["-h", "50"])));
    assert!(!is_help_request(&[]));
    assert!(matches!(parse_command(&strings(&["-h"])), Ok(Command::Help)));
    match parse_command(&strings(&["-h", "50"])) {
        Ok(Command::Generate(c)) => assert_eq!(c.height, 50),
        _ => panic!("expected a captcha"),
    }
}

#[test]
fn no_arguments_give_five_characters_and_an_image() {
    let config = match parse_command(&[]) {
        Ok(Command::Generate(c)) => c,
        _ => panic!("expected a captcha"),
    };
    let out = generate(config);
    assert_eq!(out.text.chars().count(), 5);
    assert!(validate_text(&out.text).is_ok());
    assert!(out.image.starts_with("data:image/jpeg;base64,"));
    assert!(out.image.len() > "data:image/jpeg;base64,".len());
}

#[test]
fn given_text_is_kept() {
    let config = match parse_command(&strings(&["-t", "abc23"])) {
        Ok(Command::Generate(c)) => c,
        _ => panic!("expected a captcha"),
    };
    let out = generate(config);
    assert_eq!(out.text, "abc23");
    assert!(out.image.starts_with("data:image/jpeg;base64,"));
}

#[test]
fn text_with_one_is_refused() {
    assert!(matches!(
        parse_command(&strings(&["-t", "abc12"])),
        Err(InputError::ExcludedChar)
    ));
}

#[test]
fn generated_length_follows_option() {
    let config = match parse_command(&strings(&["-l", "8", "-d", "true", "-c", "6", "-C", "70"])) {
        Ok(Command::Generate(c)) => c,
        _ => panic!("expected a captcha"),
    };
    assert_eq!(config.width, 208);
    let out = generate(config);
    assert_eq!(out.text.chars().count(), 8);
    assert!(validate_text(&out.text).is_ok());
}
