use twitch_chat::parse::IRCCommand;
use twitch_chat::parse::IRCMessage;
use twitch_chat::parse::Prefix;
use twitch_chat::parse::Tags;

#[test]
fn test_tags_parsing() {
    let message = "@badge-info=;badges=moderator/1;color=;display-name=bar;emote-sets=0,300374282;mod=1;subscriber=0;user-type=mod :tmi.twitch.tv USERSTATE #foo";
    let mut pos: usize = 0;
    let tags = Tags::parse(message, &mut pos).unwrap();

    println!("{tags:?}");

    assert_eq!(&message[pos - 1..pos], " ");

    assert_eq!(pos, 112);
}

#[test]
fn test_prefix_parsing() {
    let message = "@badge-info=;badges=moderator/1;color=;display-name=bar;emote-sets=0,300374282;mod=1;subscriber=0;user-type=mod :tmi.twitch.tv USERSTATE #foo";
    let mut pos: usize = 0;
    let _ = Tags::parse(message, &mut pos).unwrap();
    let prefix = Prefix::parse(message, &mut pos).unwrap();

    println!("{prefix:?}");

    assert_eq!(&message[pos..pos + 1], "U");
}

#[test]
fn test_prefix_parsing_with_nick_and_user() {
    let message = "@badge-info=;badges=broadcaster/1;client-nonce=28e05b1c83f1e916ca1710c44b014515;color=#0000FF;display-name=foofoo;emotes=62835:0-10;first-msg=0;flags=;id=f80a19d6-e35a-4273-82d0-cd87f614e767;mod=0;room-id=713936733;subscriber=0;tmi-sent-ts=1642696567751;turbo=0;user-id=713936733;user-type= :foofoo!foofoo@foofoo.tmi.twitch.tv PRIVMSG #bar :bleedPurple";
    let mut pos: usize = 0;
    let _ = Tags::parse(message, &mut pos).unwrap();
    let prefix = Prefix::parse(message, &mut pos).unwrap();

    println!("{prefix:?}");

    assert_eq!(&message[pos..pos + 1], "P");
}

#[test]
fn test_command_parsing() {
    let message = "@badge-info=;badges=broadcaster/1;client-nonce=28e05b1c83f1e916ca1710c44b014515;color=#0000FF;display-name=foofoo;emotes=62835:0-10;first-msg=0;flags=;id=f80a19d6-e35a-4273-82d0-cd87f614e767;mod=0;room-id=713936733;subscriber=0;tmi-sent-ts=1642696567751;turbo=0;user-id=713936733;user-type= :foofoo!foofoo@foofoo.tmi.twitch.tv PRIVMSG #bar :bleedPurple";
    let mut pos: usize = 0;
    let _ = Tags::parse(message, &mut pos).unwrap();
    let _ = Prefix::parse(message, &mut pos).unwrap();
    let command = IRCCommand::parse(message, &mut pos).unwrap();

    println!("{command:?}");

    match command {
        IRCCommand::Privmsg { channel, message } => {
            assert_eq!(channel, "bar");
            assert_eq!(message, "bleedPurple");
        }
        other => panic!("expected a chat message, got {other:?}"),
    }
}

#[test]
fn tags_map_has_exactly_the_pairs() {
    let mut pos: usize = 0;
    let tags = Tags::parse("@k1=v1;k2=v2 :x y", &mut pos).unwrap();
    assert_eq!(pos, 13);
    assert_eq!(tags.get("k1").unwrap(), "v1");
    assert_eq!(tags.get("k2").unwrap(), "v2");
    assert!(tags.get("k3").is_none());
    assert!(tags.get("v1").is_none());
}

#[test]
fn tags_later_duplicate_key_wins() {
    let mut pos: usize = 0;
    let tags = Tags::parse("@a=1;a=2 rest", &mut pos).unwrap();
    assert_eq!(tags.get("a").unwrap(), "2");
}

#[test]
fn tags_value_may_hold_equals_sign() {
    let mut pos: usize = 0;
    let tags = Tags::parse("@user-type==mod :x", &mut pos).unwrap();
    assert_eq!(tags.get("user-type").unwrap(), "=mod");
}

#[test]
fn tag_piece_without_equals_fails_the_block() {
    let mut pos: usize = 5;
    let padded = "12345@a=1;oops :x";
    assert!(Tags::parse(padded, &mut pos).is_none());
    assert_eq!(pos, 5);
}

#[test]
fn tags_absent_without_at_sign() {
    let mut pos: usize = 0;
    assert!(Tags::parse(":tmi.twitch.tv PING", &mut pos).is_none());
    assert_eq!(pos, 0);
}

#[test]
fn tags_unterminated_block_fails() {
    let mut pos: usize = 0;
    assert!(Tags::parse("@a=1;b=2", &mut pos).is_none());
    assert_eq!(pos, 0);
}

#[test]
fn prefix_with_nick_and_user_extracts_all_three() {
    let mut pos: usize = 0;
    let prefix = Prefix::parse(":nick!user@host rest", &mut pos).unwrap();
    assert_eq!(prefix.nick.as_deref(), Some("nick"));
    assert_eq!(prefix.user.as_deref(), Some("user"));
    assert_eq!(prefix.host, "host");
    assert_eq!(pos, 16);
}

#[test]
fn prefix_without_bang_is_host_only() {
    let mut pos: usize = 0;
    let prefix = Prefix::parse(":tmi.twitch.tv USERSTATE", &mut pos).unwrap();
    assert!(prefix.nick.is_none());
    assert!(prefix.user.is_none());
    assert_eq!(prefix.host, "tmi.twitch.tv");
    assert_eq!(pos, 15);
}

#[test]
fn prefix_bang_after_span_does_not_make_a_nick() {
    let mut pos: usize = 0;
    let prefix = Prefix::parse(":host PRIVMSG #c :hi!there", &mut pos).unwrap();
    assert!(prefix.nick.is_none());
    assert!(prefix.user.is_none());
    assert_eq!(prefix.host, "host");
}

#[test]
fn prefix_without_space_fails() {
    let mut pos: usize = 0;
    assert!(Prefix::parse(":lonelyhost", &mut pos).is_none());
    assert_eq!(pos, 0);
}

#[test]
fn privmsg_line_parses_to_chat_message() {
    let msg = IRCMessage::parse(":nick!user@host PRIVMSG #chan :hello\r\n").unwrap();
    match msg.command {
        IRCCommand::Privmsg { channel, message } => {
            assert_eq!(channel, "chan");
            assert_eq!(message, "hello\r\n");
        }
        other => panic!("expected a chat message, got {other:?}"),
    }
}

#[test]
fn line_without_tag_or_prefix_fails_whole_parse() {
    assert!(IRCMessage::parse("PING :tmi.twitch.tv\r\n").is_none());
    assert!(IRCMessage::parse("hello world").is_none());
    assert!(IRCMessage::parse("").is_none());
}

#[test]
fn ping_literal_parses() {
    let msg = IRCMessage::parse(":tmi.twitch.tv PING :tmi.twitch.tv\r\n").unwrap();
    assert!(matches!(msg.command, IRCCommand::Ping));
}

#[test]
fn cap_ack_parses() {
    let msg = IRCMessage::parse(":tmi.twitch.tv CAP * ACK :twitch.tv/tags").unwrap();
    assert!(matches!(msg.command, IRCCommand::CapAck));
}

#[test]
fn globaluserstate_parses() {
    let msg = IRCMessage::parse("@display-name=me :tmi.twitch.tv GLOBALUSERSTATE").unwrap();
    assert!(matches!(msg.command, IRCCommand::GlobalUserState));
    assert_eq!(msg.tags.get("display-name").unwrap(), "me");
}

#[test]
fn unrecognized_command_is_not_a_failure() {
    let msg = IRCMessage::parse(":tmi.twitch.tv 001 me :Welcome").unwrap();
    match msg.command {
        IRCCommand::Unknown(tail) => assert_eq!(tail, "001 me :Welcome"),
        other => panic!("expected unknown, got {other:?}"),
    }
}

#[test]
fn privmsg_without_channel_or_colon_fails() {
    assert!(IRCMessage::parse(":h PRIVMSG nothing here").is_none());
    assert!(IRCMessage::parse(":h PRIVMSG #chan no-colon").is_none());
}
