use minigrep::error::exit_code;
use minigrep::{run, Config, ConfigOptions, GrepError};

#[test]
fn run_searches_the_text_that_was_read() {
    let config = Config { query: "duct", filepath: "poem.txt", options: None };
    let text = "Rust:\nsafe, fast, productive.\nPick three.".to_string();
    assert_eq!(Ok(vec!["safe, fast, productive.".to_string()]), run(config, Ok(text)));
}

#[test]
fn run_without_a_match_succeeds() {
    let config = Config { query: "hello", filepath: "poem.txt", options: None };
    let text = "Rust:\nsafe, fast, productive.\nPick three.".to_string();
    let outcome = run(config, Ok(text));
    assert_eq!(Ok(Vec::new()), outcome);
    assert_eq!(0, exit_code(&outcome));
}

#[test]
fn run_honours_case_insensitive_mode() {
    let options = Some(ConfigOptions { case_insensitive: true });
    let config = Config { query: "rust", filepath: "poem.txt", options };
    let found = run(config, Ok("RUST\nrust\nRuSt".to_string())).unwrap();
    assert_eq!(vec!["RUST", "rust", "RuSt"], found);
}

#[test]
fn run_is_case_sensitive_unless_told_otherwise() {
    let config = Config { query: "rust", filepath: "poem.txt", options: None };
    let found = run(config, Ok("RUST\nrust\nRuSt".to_string())).unwrap();
    assert_eq!(vec!["rust"], found);
    let options = Some(ConfigOptions { case_insensitive: false });
    let config = Config { query: "rust", filepath: "poem.txt", options };
    let found = run(config, Ok("RUST\nrust\nRuSt".to_string())).unwrap();
    assert_eq!(vec!["rust"], found);
}

#[test]
fn run_reports_a_file_that_could_not_be_read() {
    let config = Config { query: "duct", filepath: "no-such-file.txt", options: None };
    let cause = "No such file or directory (os error 2)".to_string();
    let outcome = run(config, Err(cause.clone()));
    assert_eq!(Err(GrepError::FileReadError { cause }), outcome);
    assert_eq!(1, exit_code(&outcome));
}

#[test]
fn run_follows_a_parsed_command_line() {
    let args: Vec<String> =
        ["minigrep", "-i", "PICK", "poem.txt"].iter().map(|token| token.to_string()).collect();
    let config = Config::new(&args).unwrap();
    let text = "Rust:\nsafe, fast, productive.\nPick three.".to_string();
    assert_eq!(Ok(vec!["Pick three.".to_string()]), run(config, Ok(text)));
}

#[test]
fn failures_exit_with_status_one() {
    let args: Vec<String> = vec!["minigrep".to_string(), "needle".to_string()];
    let parsed = Config::new(&args);
    assert!(matches!(parsed, Err(GrepError::InsufficientArguments)));
    assert_eq!(1, exit_code(&parsed));
    let unread: Result<Vec<String>, GrepError> =
        Err(GrepError::FileReadError { cause: "denied".to_string() });
    assert_eq!(1, exit_code(&unread));
}

#[test]
fn success_exits_with_status_zero() {
    let found: Result<Vec<String>, GrepError> = Ok(vec!["line".to_string()]);
    assert_eq!(0, exit_code(&found));
    let args: Vec<String> =
        ["minigrep", "needle", "poem.txt"].iter().map(|token| token.to_string()).collect();
    assert_eq!(0, exit_code(&Config::new(&args)));
}

#[test]
fn messages_say_what_went_wrong() {
    assert_eq!("not enough arguments", GrepError::InsufficientArguments.message());
    let error = GrepError::FileReadError { cause: "permission denied".to_string() };
    assert_eq!("cannot read the file: permission denied", error.message());
    let error = GrepError::FileReadError { cause: String::new() };
    assert_eq!("cannot read the file: ", error.message());
}
