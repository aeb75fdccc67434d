use playbot::transport::{read_privmsg, reply_lines};

#[test]
fn channel_message_with_address_is_for_the_bot() {
    assert_eq!(read_privmsg("  rustbot: 1 + 1 ", "rustbot", true), Some(("1 + 1".to_string(), true)));
    assert_eq!(read_privmsg("rustbot ,  hi", "rustbot", true), Some(("hi".to_string(), true)));
}

#[test]
fn channel_message_without_address_is_not() {
    assert_eq!(read_privmsg("hello all", "rustbot", true), Some(("hello all".to_string(), false)));
    assert_eq!(read_privmsg("rustbot is nice", "rustbot", true), Some(("rustbot is nice".to_string(), false)));
}

#[test]
fn private_message_is_for_the_bot() {
    assert_eq!(read_privmsg("1 + 1", "rustbot", false), Some(("1 + 1".to_string(), true)));
}

#[test]
fn ctcp_is_ignored() {
    assert_eq!(read_privmsg("\u{1}VERSION\u{1}", "rustbot", false), None);
    assert_eq!(read_privmsg("\u{1}", "rustbot", false), Some(("\u{1}".to_string(), true)));
}

#[test]
fn replies_are_cut_into_irc_lines() {
    assert_eq!(reply_lines("a\nb\r\nc\rd"), vec!["a", "b", "c", "d"]);
    assert_eq!(reply_lines("a\r"), vec!["a", ""]);
    assert!(reply_lines("").is_empty());
    let long = "x".repeat(401);
    assert_eq!(reply_lines(&format!("ok\n{}", long)), vec!["ok", "<<<message too long for irc>>>"]);
    let edge = "y".repeat(400);
    assert_eq!(reply_lines(&edge), vec![edge.clone()]);
}
