use playbot::Command;

#[test]
fn parse_splits_name_and_arguments() {
    let c = Command::parse("?", "  ?crate serde  tokio ").unwrap();
    assert_eq!(c.name(), "crate");
    assert_eq!(c.args(), &["serde", "tokio"]);
    assert_eq!(c.raw_args(), "serde  tokio");
}

#[test]
fn parse_without_prefix_is_none() {
    assert!(Command::parse("?", "crate serde").is_none());
    assert!(Command::parse("?", "hello ?crate").is_none());
    assert!(Command::parse("!!", "!crate").is_none());
    assert!(Command::parse("?", "").is_none());
}

#[test]
fn parse_needs_a_name() {
    assert!(Command::parse("?", "?").is_none());
    assert!(Command::parse("?", "? crate").is_none());
}

#[test]
fn parse_without_arguments() {
    let c = Command::parse("?", "?help").unwrap();
    assert_eq!(c.name(), "help");
    assert!(c.args().is_empty());
    assert_eq!(c.raw_args(), "");
}

#[test]
fn parse_composed_body_round_trips() {
    let body = format!("{}{} {}", "!!", "eval", "--release   1 + 1");
    let c = Command::parse("!!", &body).unwrap();
    assert_eq!(c.name(), "eval");
    assert_eq!(c.raw_args(), "--release   1 + 1");
    assert_eq!(c.args(), &["--release", "1", "+", "1"]);
}

#[test]
fn parse_splits_at_any_white_space() {
    let c = Command::parse("?", "?crate\tserde\u{3000}rand").unwrap();
    assert_eq!(c.name(), "crate");
    assert_eq!(c.raw_args(), "serde\u{3000}rand");
    assert_eq!(c.args(), &["serde", "rand"]);
}
