use worker_pool::search::contains_str;
use worker_pool::search::run_search;
use worker_pool::search::search;
use worker_pool::search::search_case_insensitive;
use worker_pool::search::split_lines;
use worker_pool::search::Config;

#[test]
fn case_sensitive() {
    let query = "duct";
    let contents = "\
Rust:
safe, fast, productive.
Pick three.
Duct tape";

    assert_eq!(vec!["safe, fast, productive."], search(query, contents));
}

#[test]
fn case_insensitive() {
    let query = "rUsT";
    let contents = "\
Rust:
safe, fast, productive.
Pick three.
Trust me.";

    assert_eq!(vec!["Rust:", "Trust me."], search_case_insensitive(query, contents));
}

#[test]
fn empty_query_matches_every_line() {
    let contents = "one\ntwo\nthree";
    assert_eq!(vec!["one", "two", "three"], search("", contents));
}

#[test]
fn no_line_matches() {
    let contents = "one\ntwo\nthree";
    let empty: Vec<&str> = Vec::new();
    assert_eq!(empty, search("four", contents));
}

#[test]
fn empty_contents_has_no_lines() {
    let empty: Vec<&str> = Vec::new();
    assert_eq!(empty, split_lines(""));
    assert_eq!(empty, search("x", ""));
}

#[test]
fn trailing_newline_adds_no_line() {
    assert_eq!(vec!["a", "b"], split_lines("a\nb\n"));
    assert_eq!(vec!["a", "", "b"], split_lines("a\n\nb"));
}

#[test]
fn crlf_line_endings_are_stripped() {
    assert_eq!(vec!["hi", "yo"], split_lines("hi\r\nyo"));
    assert_eq!(vec!["hi", "yo"], search("", "hi\r\nyo"));
    assert_eq!(vec!["hi"], search("hi", "hi\r\nyo"));
    assert_eq!(vec!["hi"], search_case_insensitive("HI", "hi\r\nyo"));
    assert_eq!(vec!["a"], split_lines("a\r\n"));
    // a lone '\r' with no closing '\n' stays on the final line
    assert_eq!(vec!["a\r"], split_lines("a\r"));
    // a '\r' not followed by '\n' is an ordinary character
    assert_eq!(vec!["a\rb"], split_lines("a\rb"));
}

#[test]
fn contains_str_cases() {
    assert!(contains_str("hello world", "lo wo"));
    assert!(contains_str("hello", ""));
    assert!(contains_str("", ""));
    assert!(!contains_str("", "a"));
    assert!(!contains_str("hello", "Hello"));
}

#[test]
fn config_missing_query() {
    let args = vec![String::from("prog")];
    assert_eq!(Err("Didn't get a query string"), Config::new(&args, false));
}

#[test]
fn config_missing_filename() {
    let args = vec![String::from("prog"), String::from("needle")];
    assert_eq!(Err("Didn't get a file name"), Config::new(&args, false));
}

#[test]
fn config_reads_query_and_filename() {
    let args = vec![String::from("prog"), String::from("needle"), String::from("hay.txt")];
    let config = Config::new(&args, false).unwrap();
    assert_eq!("needle", config.query);
    assert_eq!("hay.txt", config.filename);
    assert!(config.case_sensitive);

    let config = Config::new(&args, true).unwrap();
    assert!(!config.case_sensitive);
}

#[test]
fn run_search_honours_case_flag() {
    let args = vec![String::from("prog"), String::from("rUsT"), String::from("hay.txt")];
    let contents = "Rust:\nTrust me.\nnothing";

    let sensitive = Config::new(&args, false).unwrap();
    let empty: Vec<&str> = Vec::new();
    assert_eq!(empty, run_search(&sensitive, contents));

    let insensitive = Config::new(&args, true).unwrap();
    assert_eq!(vec!["Rust:", "Trust me."], run_search(&insensitive, contents));
}
