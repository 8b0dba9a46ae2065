use dirsearch::diagnostic::SetupError;
use dirsearch::filter::FilterType;
use dirsearch::pattern::{find_in_name, MatchSpan};
use dirsearch::walker::{configure, configure_with};
use regex::Regex;

#[test]
fn finds_the_whole_name() {
    let regex = Regex::new("a\\.txt").unwrap();
    assert_eq!(find_in_name(&regex, "a.txt"), Some(MatchSpan { start: 0, end: 5 }));
}

#[test]
fn finds_the_leftmost_match() {
    let regex = Regex::new("an").unwrap();
    assert_eq!(find_in_name(&regex, "banana"), Some(MatchSpan { start: 1, end: 3 }));
}

#[test]
fn prefers_the_first_alternative_at_the_leftmost_place() {
    let regex = Regex::new("na|nana").unwrap();
    assert_eq!(find_in_name(&regex, "banana"), Some(MatchSpan { start: 2, end: 4 }));
}

#[test]
fn anchored_pattern_gives_its_own_span() {
    // The matched text "a" stands earlier in the name too; the span is
    // that of the match.
    let regex = Regex::new("a$").unwrap();
    assert_eq!(find_in_name(&regex, "aba"), Some(MatchSpan { start: 2, end: 3 }));
}

#[test]
fn no_match_gives_none() {
    let regex = Regex::new("a\\.txt").unwrap();
    assert_eq!(find_in_name(&regex, "b.log"), None);
    assert_eq!(find_in_name(&regex, "aXtxt"), None);
}

#[test]
fn empty_pattern_matches_at_the_start() {
    let regex = Regex::new("").unwrap();
    assert_eq!(find_in_name(&regex, "abc"), Some(MatchSpan { start: 0, end: 0 }));
}

#[test]
fn offsets_are_in_bytes() {
    let regex = Regex::new("β+").unwrap();
    assert_eq!(find_in_name(&regex, "αββγ"), Some(MatchSpan { start: 2, end: 6 }));
}

#[test]
fn valid_pattern_configures() {
    let config = configure("here".to_string(), "a\\.txt", FilterType::Folder, true).unwrap();
    assert_eq!(config.dir, "here");
    assert_eq!(config.pattern.as_str(), "a\\.txt");
    assert_eq!(config.filter, FilterType::Folder);
    assert!(config.colorize);
    let config = configure(".".to_string(), ".*", FilterType::Any, false).unwrap();
    assert_eq!(config.dir, ".");
    assert_eq!(config.pattern.as_str(), ".*");
    assert_eq!(config.filter, FilterType::Any);
    assert!(!config.colorize);
}

#[test]
fn invalid_pattern_is_rejected() {
    match configure(".".to_string(), "foo(bar", FilterType::Any, true) {
        Err(error) => {
            assert_eq!(error, SetupError::InvalidPattern);
            assert_eq!(error.message(), "Please provide a valid regex");
        }
        Ok(_) => panic!("an unclosed group must not compile"),
    }
}

#[test]
fn oversized_pattern_is_rejected() {
    match configure(".".to_string(), "\\w{1000}", FilterType::Any, true) {
        Err(error) => assert_eq!(error, SetupError::InvalidPattern),
        Ok(_) => panic!("the pattern is over the size limit"),
    }
}

#[test]
fn configure_with_keeps_the_compiled_pattern() {
    let config =
        configure_with("/dev".to_string(), Regex::new("x+"), FilterType::Device, false).unwrap();
    assert_eq!(config.dir, "/dev");
    assert_eq!(config.pattern.as_str(), "x+");
    assert_eq!(config.filter, FilterType::Device);
    assert!(!config.colorize);
    match configure_with("/dev".to_string(), Regex::new("x("), FilterType::Device, false) {
        Err(error) => assert_eq!(error, SetupError::InvalidPattern),
        Ok(_) => panic!("an unclosed group must not compile"),
    }
}
