use captcha::{args_map, get_arg_value, ArgsMap};

fn strings(v: &[&str]) -> Vec<String> {
    v.iter().map(|s| s.to_string()).collect()
}

#[test]
fn text_and_length_values_round_trip() {
    let args = strings(&["-w", "200", "-t", "abc", "-l", "3", "-c", "2"]);
    let map = args_map(&args);
    assert_eq!(get_arg_value(&map, "-t", "--text"), Some(String::from("abc")));
    assert_eq!(get_arg_value(&map, "-l", "--length"), Some(String::from("3")));
}

#[test]
fn flag_followed_by_flag_has_no_value() {
    let args = strings(&["-t", "-l", "5"]);
    let map = args_map(&args);
    assert_eq!(map.get("-t").unwrap().len(), 0);
    assert_eq!(get_arg_value(&map, "-t", "--text"), None);
    assert_eq!(get_arg_value(&map, "-l", "--length"), Some(String::from("5")));
}

#[test]
fn flag_without_value_falls_through_to_long_name() {
    let args = strings(&["-t", "--text", "long"]);
    let map = args_map(&args);
    assert_eq!(get_arg_value(&map, "-t", "--text"), Some(String::from("long")));
}

#[test]
fn short_flag_takes_precedence() {
    let mut map = ArgsMap::new();
    map.insert(String::from("-t"), vec![String::from("short")]);
    map.insert(String::from("--text"), vec![String::from("long")]);
    assert_eq!(get_arg_value(&map, "-t", "--text"), Some(String::from("short")));
}

#[test]
fn long_flag_used_when_short_absent() {
    let mut map = ArgsMap::new();
    map.insert(String::from("--text"), vec![String::from("long")]);
    assert_eq!(get_arg_value(&map, "-t", "--text"), Some(String::from("long")));
}

#[test]
fn insert_replaces_values() {
    let mut map = ArgsMap::new();
    map.insert(String::from("-t"), vec![String::from("a")]);
    map.insert(String::from("-t"), vec![String::from("b"), String::from("c")]);
    assert_eq!(map.get("-t").unwrap(), &strings(&["b", "c"]));
}

#[test]
fn tokens_before_first_flag_are_dropped() {
    let args = strings(&["stray", "other", "-t", "x"]);
    let map = args_map(&args);
    assert!(map.get("stray").is_none());
    assert!(map.get("").is_none());
    assert_eq!(map.get("-t").unwrap(), &strings(&["x"]));
}

#[test]
fn repeated_flag_keeps_its_values() {
    let args = strings(&["-t", "a", "-l", "4", "-t", "b"]);
    let map = args_map(&args);
    assert_eq!(map.get("-t").unwrap(), &strings(&["a", "b"]));
    assert_eq!(map.get("-l").unwrap(), &strings(&["4"]));
}

#[test]
fn values_accumulate_after_flag() {
    let args = strings(&["-x", "1", "2", "3"]);
    let map = args_map(&args);
    assert_eq!(map.get("-x").unwrap(), &strings(&["1", "2", "3"]));
    assert_eq!(get_arg_value(&map, "-x", "--x"), Some(String::from("1")));
}

#[test]
fn empty_arguments_give_empty_map() {
    let map = args_map(&[]);
    assert!(map.get("-t").is_none());
    assert_eq!(get_arg_value(&map, "-t", "--text"), None);
}
