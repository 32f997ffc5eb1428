use pubsub::cmd_parse::{
    parse_cmd, parse_would_panic, ChanList, Command, CommandParsingError, PubSubSubCmd,
};

#[test]
fn pub_splits_channel_and_message() {
    match parse_cmd("PUB chan hello world") {
        Ok(Command::Pub { channel, message }) => {
            assert_eq!(channel, "chan");
            assert_eq!(message, "hello world");
        }
        _ => panic!("expected a PUB command"),
    }
}

#[test]
fn pub_ignores_surrounding_whitespace() {
    match parse_cmd(" \t PUB chan msg \n") {
        Ok(Command::Pub { channel, message }) => {
            assert_eq!(channel, "chan");
            assert_eq!(message, "msg");
        }
        _ => panic!("expected a PUB command"),
    }
}

#[test]
fn pub_skips_spaces_before_channel() {
    match parse_cmd("PUB   chan  msg") {
        Ok(Command::Pub { channel, message }) => {
            assert_eq!(channel, "chan");
            assert_eq!(message, " msg");
        }
        _ => panic!("expected a PUB command"),
    }
}

#[test]
fn pub_without_message_is_bad_args() {
    assert!(matches!(parse_cmd("PUB chan"), Err(CommandParsingError::PubWithBadArgs)));
}

#[test]
fn pub_non_ascii_channel_is_accepted() {
    match parse_cmd("PUB kanał wiadomość") {
        Ok(Command::Pub { channel, message }) => {
            assert_eq!(channel, "kanał");
            assert_eq!(message, "wiadomość");
        }
        _ => panic!("expected a PUB command"),
    }
}

#[test]
fn line_without_space_is_malformed() {
    assert!(matches!(parse_cmd("PUB"), Err(CommandParsingError::MalformedCommand)));
    assert!(matches!(parse_cmd(""), Err(CommandParsingError::MalformedCommand)));
    assert!(matches!(parse_cmd("   SUB   "), Err(CommandParsingError::MalformedCommand)));
    assert!(matches!(parse_cmd("UNSUB"), Err(CommandParsingError::MalformedCommand)));
}

#[test]
fn unknown_command_word_is_malformed() {
    assert!(matches!(parse_cmd("HELLO world"), Err(CommandParsingError::MalformedCommand)));
    assert!(matches!(parse_cmd("pub chan msg"), Err(CommandParsingError::MalformedCommand)));
    assert!(matches!(parse_cmd("PUB\tchan msg"), Err(CommandParsingError::MalformedCommand)));
}

#[test]
fn sub_returns_an_empty_list() {
    match parse_cmd("SUB a b c") {
        Ok(Command::Sub { channels }) => assert!(channels.is_empty()),
        _ => panic!("expected a SUB command"),
    }
}

#[test]
fn sub_with_non_ascii_channel_is_refused() {
    assert!(matches!(parse_cmd("SUB a é"), Err(CommandParsingError::ChannelNameNotAscii)));
}

#[test]
fn sub_split_by_unicode_whitespace_is_ascii() {
    match parse_cmd("SUB a\u{a0}b") {
        Ok(Command::Sub { channels }) => assert!(channels.is_empty()),
        _ => panic!("expected a SUB command"),
    }
}

#[test]
fn unsub_returns_an_empty_list() {
    match parse_cmd("UNSUB a b") {
        Ok(Command::UnSub { channels: ChanList::Many(channels) }) => assert!(channels.is_empty()),
        _ => panic!("expected an UNSUB command with a list"),
    }
    assert!(matches!(parse_cmd("UNSUB ü"), Err(CommandParsingError::ChannelNameNotAscii)));
}

#[test]
fn psub_and_punsub_return_empty_lists() {
    match parse_cmd("PSUB news.*") {
        Ok(Command::PSub { channel_patterns }) => assert!(channel_patterns.is_empty()),
        _ => panic!("expected a PSUB command"),
    }
    match parse_cmd("PUNSUB news.* sport.*") {
        Ok(Command::PUnSub { channel_patterns }) => assert!(channel_patterns.is_empty()),
        _ => panic!("expected a PUNSUB command"),
    }
    assert!(matches!(parse_cmd("PSUB ñ"), Err(CommandParsingError::ChannelNameNotAscii)));
    assert!(matches!(parse_cmd("PUNSUB ñ"), Err(CommandParsingError::ChannelNameNotAscii)));
}

#[test]
fn pubsub_chans_with_one_pattern() {
    match parse_cmd("PUBSUB CHANS news.*") {
        Ok(Command::PubSub(PubSubSubCmd::Channels { channel_pattern })) => {
            assert_eq!(channel_pattern, Some("news.*"))
        }
        _ => panic!("expected PUBSUB CHANS"),
    }
}

#[test]
fn pubsub_chans_errors() {
    assert!(matches!(
        parse_cmd("PUBSUB CHANS a b"),
        Err(CommandParsingError::PubSubChannelsMutipleArgs)
    ));
    assert!(matches!(parse_cmd("PUBSUB CHANS é"), Err(CommandParsingError::ChannelNameNotAscii)));
}

#[test]
fn pubsub_numsub_returns_an_empty_list() {
    match parse_cmd("PUBSUB NUMSUB a b") {
        Ok(Command::PubSub(PubSubSubCmd::NumSub { channels })) => assert!(channels.is_empty()),
        _ => panic!("expected PUBSUB NUMSUB"),
    }
    assert!(matches!(parse_cmd("PUBSUB NUMSUB é"), Err(CommandParsingError::ChannelNameNotAscii)));
}

#[test]
fn pubsub_unknown_sub_command() {
    assert!(matches!(parse_cmd("PUBSUB FOO x"), Err(CommandParsingError::PubSubUnknownCommand)));
    assert!(matches!(parse_cmd("PUBSUB  CHANS"), Err(CommandParsingError::PubSubUnknownCommand)));
}

#[test]
fn pubsub_without_second_space_is_the_panicking_case() {
    assert!(parse_would_panic("PUBSUB CHANS"));
    assert!(parse_would_panic("  PUBSUB NUMSUB  "));
    assert!(!parse_would_panic("PUBSUB CHANS x"));
    assert!(!parse_would_panic("PUB CHANS"));
    assert!(!parse_would_panic("PUBSUB"));
}

#[test]
fn unicode_whitespace_is_trimmed() {
    match parse_cmd("\u{3000}PUB a b\u{85}\u{2029}") {
        Ok(Command::Pub { channel, message }) => {
            assert_eq!(channel, "a");
            assert_eq!(message, "b");
        }
        _ => panic!("expected a PUB command"),
    }
    match parse_cmd("PUB a b\u{200b}") {
        Ok(Command::Pub { message, .. }) => assert_eq!(message, "b\u{200b}"),
        _ => panic!("expected a PUB command"),
    }
}

#[test]
fn parsing_the_trimmed_line_gives_the_same_command() {
    let line = " \t PUB chan hello there \u{3000}";
    match (parse_cmd(line), parse_cmd(line.trim())) {
        (
            Ok(Command::Pub { channel: c1, message: m1 }),
            Ok(Command::Pub { channel: c2, message: m2 }),
        ) => {
            assert_eq!(c1, c2);
            assert_eq!(m1, m2);
        }
        _ => panic!("expected two PUB commands"),
    }
    assert!(matches!(parse_cmd("  SUB é "), Err(CommandParsingError::ChannelNameNotAscii)));
    assert!(matches!(parse_cmd("SUB é"), Err(CommandParsingError::ChannelNameNotAscii)));
}
