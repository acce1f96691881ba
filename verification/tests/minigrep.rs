use rust_scratch_pad::minigrep::{contains_text, run, search, search_case_insensitive, Config};

#[test]
fn case_sensitive() {
    let query = "duct";
    let contents = "
Rust:
safe, fast, productive.
Pick three.
Duct tape";
    assert_eq!(vec!["safe, fast, productive."], search(query, contents));
}

#[test]
fn case_insensitive() {
    let query = "rUsT";
    let contents = "
Rust:
safe, fast, productive.
Pick three.
rustling job";
    assert_eq!(vec!["Rust:", "rustling job"], search_case_insensitive(query, contents));
}

#[test]
fn search_keeps_order_and_repeats() {
    let contents = "ab\nxx\nab\ncab";
    assert_eq!(vec!["ab", "ab", "cab"], search("ab", contents));
}

#[test]
fn search_finds_nothing() {
    let none: Vec<&str> = Vec::new();
    assert_eq!(none, search("zebra", "one\ntwo\nthree"));
    assert_eq!(none, search("a", ""));
}

#[test]
fn empty_query_matches_every_line() {
    assert_eq!(vec!["one", "", "three"], search("", "one\n\nthree\n"));
}

#[test]
fn lines_end_at_line_feed_or_carriage_return_line_feed() {
    // the carriage return before a line feed is no part of the line
    assert_eq!(vec!["a"], search("a", "a\r\nb\r\n"));
    assert_eq!(vec!["a", "b"], search("", "a\r\nb\r\n"));
    // a carriage return alone stays in its line
    assert_eq!(vec!["a\rb"], search("\r", "a\rb\nc"));
    // also at the very end of the text
    assert_eq!(vec!["b\r"], search("\r", "a\nb\r"));
}

#[test]
fn final_line_ending_is_optional() {
    assert_eq!(search("", "x\ny"), search("", "x\ny\n"));
    assert_eq!(vec!["x", "y"], search("", "x\ny\n"));
    let one_empty_line = vec![""];
    assert_eq!(one_empty_line, search("", "\n"));
}

#[test]
fn query_must_fit_in_one_line() {
    let none: Vec<&str> = Vec::new();
    assert_eq!(none, search("a\nb", "a\nb"));
}

#[test]
fn case_sensitive_search_tells_case_apart() {
    let none: Vec<&str> = Vec::new();
    assert_eq!(none, search("rust", "Rust:\nTRUST"));
    assert_eq!(vec!["Rust:", "TRUST"], search_case_insensitive("rust", "Rust:\nTRUST"));
}

#[test]
fn case_insensitive_search_returns_lines_as_written() {
    assert_eq!(vec!["HeLLo World"], search_case_insensitive("hello w", "bye\nHeLLo World"));
}

#[test]
fn contains_text_finds_sub_slices() {
    assert!(contains_text("productive", "duct"));
    assert!(contains_text("productive", ""));
    assert!(contains_text("productive", "productive"));
    assert!(!contains_text("productive", "Duct"));
    assert!(!contains_text("duct", "productive"));
    assert!(contains_text("", ""));
}

#[test]
fn build_takes_query_and_path() {
    let args = vec!["prog".to_string(), "needle".to_string(), "hay.txt".to_string()];
    let config = Config::build(args, true).ok().unwrap();
    assert_eq!("needle", config.query);
    assert_eq!("hay.txt", config.file_path);
    assert!(config.ignore_case);
}

#[test]
fn build_ignores_further_arguments() {
    let args = vec![
        "prog".to_string(),
        "q".to_string(),
        "p".to_string(),
        "extra".to_string(),
    ];
    let config = Config::build(args, false).ok().unwrap();
    assert_eq!("q", config.query);
    assert_eq!("p", config.file_path);
    assert!(!config.ignore_case);
}

#[test]
fn build_without_query_fails() {
    assert_eq!(Some("Didn't get a query string"), Config::build(Vec::new(), false).err());
    assert_eq!(
        Some("Didn't get a query string"),
        Config::build(vec!["prog".to_string()], false).err()
    );
}

#[test]
fn build_without_path_fails() {
    let args = vec!["prog".to_string(), "needle".to_string()];
    assert_eq!(Some("Didn't get a file path"), Config::build(args, false).err());
}

#[test]
fn run_follows_the_configuration() {
    let contents = "Rust:\nsafe, fast, productive.\nTrust me.";
    let strict = Config {
        query: "rust".to_string(),
        file_path: "poem.txt".to_string(),
        ignore_case: false,
    };
    assert_eq!(vec!["Trust me."], run(&strict, contents));
    let lax = Config {
        query: "rust".to_string(),
        file_path: "poem.txt".to_string(),
        ignore_case: true,
    };
    assert_eq!(vec!["Rust:", "Trust me."], run(&lax, contents));
}
