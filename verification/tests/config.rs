use minigrep::config::{Config, NOT_ENOUGH_ARGUMENTS};

fn args(words: &[&str]) -> Vec<String> {
    words.iter().map(|w| w.to_string()).collect()
}

#[test]
fn build_takes_query_and_path() {
    let line = args(&["minigrep", "needle", "haystack.txt"]);
    let config = Config::build(&line).unwrap();
    assert_eq!(config.query, "needle");
    assert_eq!(config.file_path, "haystack.txt");
}

#[test]
fn build_fails_on_no_arguments_at_all() {
    let line = args(&[]);
    assert_eq!(Config::build(&line).err(), Some("not enough arguments"));
}

#[test]
fn build_fails_on_program_name_alone() {
    let line = args(&["minigrep"]);
    assert_eq!(Config::build(&line).err(), Some("not enough arguments"));
}

#[test]
fn build_fails_on_query_without_path() {
    let line = args(&["minigrep", "needle"]);
    assert_eq!(Config::build(&line).err(), Some("not enough arguments"));
}

#[test]
fn build_fails_with_the_named_message() {
    let line = args(&["minigrep", "needle"]);
    let message = Config::build(&line).err().unwrap();
    assert_eq!(message, NOT_ENOUGH_ARGUMENTS);
    assert!(!message.is_empty());
}

#[test]
fn build_ignores_what_follows_the_path() {
    let line = args(&["minigrep", "needle", "haystack.txt", "more", "and more"]);
    let config = Config::build(&line).unwrap();
    assert_eq!(config.query, "needle");
    assert_eq!(config.file_path, "haystack.txt");
}

#[test]
fn build_does_not_read_the_program_name() {
    let line = args(&["", "needle", "haystack.txt"]);
    let config = Config::build(&line).unwrap();
    assert_eq!(config.query, "needle");
    assert_eq!(config.file_path, "haystack.txt");
}

#[test]
fn build_accepts_an_empty_query() {
    let line = args(&["minigrep", "", "haystack.txt"]);
    let config = Config::build(&line).unwrap();
    assert_eq!(config.query, "");
    assert_eq!(config.file_path, "haystack.txt");
}

#[test]
fn build_accepts_an_empty_path() {
    let line = args(&["minigrep", "needle", ""]);
    let config = Config::build(&line).unwrap();
    assert_eq!(config.query, "needle");
    assert_eq!(config.file_path, "");
}

#[test]
fn build_keeps_every_character() {
    let line = args(&["minigrep", " two words\t", "./dir with space/grüße.txt"]);
    let config = Config::build(&line).unwrap();
    assert_eq!(config.query, " two words\t");
    assert_eq!(config.file_path, "./dir with space/grüße.txt");
}

#[test]
fn build_owns_what_it_returns() {
    let config = {
        let line = args(&["minigrep", "needle", "haystack.txt"]);
        Config::build(&line).unwrap()
    };
    assert_eq!(config.query, "needle");
    assert_eq!(config.file_path, "haystack.txt");
}

#[test]
fn build_succeeds_from_three_elements_on() {
    let words = ["p", "q", "f", "x", "y", "z"];
    for n in 0..=words.len() {
        let line = args(&words[..n]);
        let built = Config::build(&line);
        if n < 3 {
            assert_eq!(built.err(), Some(NOT_ENOUGH_ARGUMENTS));
        } else {
            let config = built.unwrap();
            assert_eq!(config.query, line[1]);
            assert_eq!(config.file_path, line[2]);
        }
    }
}
