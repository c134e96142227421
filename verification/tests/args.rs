use vmsa_test::args::{Args, Command, Target};

fn parse(words: &[&str]) -> Result<Args, String> {
    Args::parse_from(words.iter().map(|w| w.to_string()).collect())
}

#[test]
fn target_names_round_trip_through_test_command() {
    for target in Target::all() {
        let args = parse(&["test", target.as_str(), "--crate", "c"]).unwrap();
        match args.command {
            Command::Test(list) => assert_eq!(list, vec![target]),
            other => panic!("unexpected command {other:?}"),
        }
    }
}

#[test]
fn target_order_is_fixed() {
    let names: Vec<&str> = Target::all().iter().map(|t| t.as_str()).collect();
    assert_eq!(names, vec!["ns-el2", "secure-el2", "realm-el2", "realm-stage2", "root-el3"]);
}

#[test]
fn parses_doctor_with_crate() {
    let args = parse(&["doctor", "--crate", "demo"]).unwrap();
    assert!(matches!(args.command, Command::Doctor));
    assert_eq!(args.crate_path.as_deref(), Some("demo"));
    assert_eq!(args.filter, None);
    assert!(!args.keep);
}

#[test]
fn parses_test_all_with_filter_and_keep() {
    let args = parse(&["test", "all", "--crate", "x", "--filter", "map", "--keep"]).unwrap();
    match args.command {
        Command::Test(list) => assert_eq!(list, Target::all().to_vec()),
        other => panic!("unexpected command {other:?}"),
    }
    assert_eq!(args.filter.as_deref(), Some("map"));
    assert!(args.keep);
}

#[test]
fn parses_clean_without_crate() {
    let args = parse(&["clean"]).unwrap();
    assert!(matches!(args.command, Command::Clean));
    assert_eq!(args.crate_path, None);
}

#[test]
fn empty_command_line_gives_usage() {
    let error = parse(&[]).unwrap_err();
    assert!(error.starts_with("usage: vmsa-test doctor --crate <path>\n"));
    assert!(error.ends_with("vmsa-test clean"));
}

#[test]
fn test_without_target_gives_usage() {
    assert!(parse(&["test"]).unwrap_err().starts_with("usage:"));
}

#[test]
fn unknown_command_gives_usage() {
    assert!(parse(&["build", "--crate", "x"]).unwrap_err().starts_with("usage:"));
}

#[test]
fn rejects_unknown_target() {
    assert_eq!(parse(&["test", "el1", "--crate", "x"]).unwrap_err(), "unknown test target: el1");
}

#[test]
fn rejects_unknown_argument_with_usage() {
    let error = parse(&["doctor", "--crate", "x", "--fast"]).unwrap_err();
    assert!(error.starts_with("unknown argument: --fast\nusage:"));
}

#[test]
fn rejects_missing_and_repeated_crate() {
    assert_eq!(parse(&["doctor", "--crate"]).unwrap_err(), "--crate requires a path");
    assert_eq!(
        parse(&["doctor", "--crate", "a", "--crate", "b"]).unwrap_err(),
        "--crate may be specified only once"
    );
    assert_eq!(parse(&["doctor"]).unwrap_err(), "--crate <path> is required for doctor and test");
    assert_eq!(parse(&["clean", "--crate", "a"]).unwrap_err(), "--crate is not valid with clean");
}

#[test]
fn rejects_bad_filters() {
    assert_eq!(
        parse(&["test", "all", "--crate", "a", "--filter"]).unwrap_err(),
        "--filter requires a substring"
    );
    assert_eq!(
        parse(&["test", "all", "--crate", "a", "--filter", ""]).unwrap_err(),
        "--filter cannot be empty"
    );
    let long = "x".repeat(129);
    assert_eq!(
        parse(&["test", "all", "--crate", "a", "--filter", &long]).unwrap_err(),
        "--filter must be at most 128 bytes and contain no control characters"
    );
    assert_eq!(
        parse(&["test", "all", "--crate", "a", "--filter", "a\tb"]).unwrap_err(),
        "--filter must be at most 128 bytes and contain no control characters"
    );
    assert_eq!(
        parse(&["test", "all", "--crate", "a", "--filter", "a", "--filter", "b"]).unwrap_err(),
        "--filter may be specified only once"
    );
}

#[test]
fn filter_limit_counts_bytes_not_characters() {
    let at_limit = "x".repeat(128);
    assert!(parse(&["test", "all", "--crate", "a", "--filter", &at_limit]).is_ok());
    let wide = "é".repeat(65);
    assert!(parse(&["test", "all", "--crate", "a", "--filter", &wide]).is_err());
    let wide_ok = "é".repeat(64);
    assert!(parse(&["test", "all", "--crate", "a", "--filter", &wide_ok]).is_ok());
}

#[test]
fn filter_and_keep_only_with_test() {
    assert_eq!(
        parse(&["doctor", "--crate", "a", "--keep"]).unwrap_err(),
        "--filter and --keep are valid only with test"
    );
    assert_eq!(
        parse(&["clean", "--filter", "x"]).unwrap_err(),
        "--filter and --keep are valid only with test"
    );
}

#[test]
fn keep_given_twice_is_unknown() {
    let error = parse(&["test", "all", "--crate", "a", "--keep", "--keep"]).unwrap_err();
    assert!(error.starts_with("unknown argument: --keep\n"));
}
