use twitch_chat::message::Privmsg;
use twitch_chat::parse::IRCMessage;
use twitch_chat::parse::Prefix;
use twitch_chat::parse::Tags;
use twitch_chat::session::IRC;
use twitch_chat::view::KeyInput;
use twitch_chat::view::Mode;
use twitch_chat::view::Outcome;
use twitch_chat::view::ViewState;

fn make_session() -> (IRC, crossbeam::channel::Receiver<String>) {
    let (out_tx, out_rx) = crossbeam::channel::unbounded::<String>();
    let (in_tx, in_rx) = crossbeam::channel::unbounded::<IRCMessage>();
    in_tx
        .send(IRCMessage::parse(":tmi.twitch.tv CAP * ACK :twitch.tv/tags").unwrap())
        .unwrap();
    let session = IRC::open(out_tx, in_rx, "tok", "me", "chan", 1).unwrap();
    let _handshake: Vec<String> = out_rx.try_iter().collect();
    (session, out_rx)
}

fn chat_event(text: &str) -> IRCMessage {
    let line = format!(":n!u@h PRIVMSG #chan :{text}");
    IRCMessage::parse(&line).unwrap()
}

fn key(c: char) -> KeyInput {
    KeyInput::Char { c, ctrl: false }
}

#[test]
fn render_shows_most_recent_tail_oldest_on_top() {
    let rows: u16 = 5;
    let mut st = ViewState::new(rows);
    st.handle_event(chat_event("one"), rows);
    st.handle_event(chat_event("two"), rows);
    let (first, lines) = st.render_plan(rows);
    assert_eq!(first, 2);
    assert_eq!(lines, vec!["u: one".to_string(), "u: two".to_string()]);

    for i in 0..6 {
        st.handle_event(chat_event(&format!("m{i}")), rows);
    }
    let (first, lines) = st.render_plan(rows);
    assert_eq!(first, 0);
    assert_eq!(lines.len(), 4);
    assert_eq!(
        lines,
        vec![
            "u: m2".to_string(),
            "u: m3".to_string(),
            "u: m4".to_string(),
            "u: m5".to_string()
        ]
    );
}

fn line_length_at_cursor(st: &ViewState, rows: u16) -> usize {
    if st.cursor.row == rows - 1 {
        st.compose.len()
    } else {
        let idx = st.scrollback.len() + st.cursor.row as usize + 1 - rows as usize;
        st.scrollback[idx].message_line().chars().count()
    }
}

#[test]
fn normal_mode_motions_keep_cursor_in_bounds() {
    let rows: u16 = 5;
    let (mut session, _out) = make_session();
    let mut st = ViewState::new(rows);
    st.handle_event(chat_event("alpha beta gamma"), rows);
    st.handle_event(chat_event("x"), rows);
    st.handle_event(chat_event("a much longer line of words"), rows);
    let first = rows - 1 - 3;
    for c in [
        'k', 'k', 'k', 'k', 'h', 'l', 'w', 'w', 'b', '$', '^', 'j', 'l', 'l', '$', 'k', 'j', 'j',
        'j', 'j', 'w', 'b', 'h',
    ] {
        st.handle_key(&mut session, rows, key(c));
        assert!(st.cursor.row >= first);
        assert!(st.cursor.row <= rows - 1);
        assert!(st.cursor.column <= line_length_at_cursor(&st, rows));
    }
}

#[test]
fn end_of_line_and_start_of_line_motions() {
    let rows: u16 = 5;
    let (mut session, _out) = make_session();
    let mut st = ViewState::new(rows);
    st.handle_event(chat_event("hello"), rows);
    st.handle_key(&mut session, rows, key('k'));
    st.handle_key(&mut session, rows, key('$'));
    assert_eq!(st.cursor.column, "u: hello".len());
    st.handle_key(&mut session, rows, key('^'));
    assert_eq!(st.cursor.column, 0);
}

#[test]
fn word_motions_move_between_words() {
    let rows: u16 = 5;
    let (mut session, _out) = make_session();
    let mut st = ViewState::new(rows);
    st.handle_event(chat_event("ab cd ef"), rows);
    st.handle_key(&mut session, rows, key('k'));
    assert_eq!(st.cursor.column, 0);
    // The rendered line is "u: ab cd ef".
    st.handle_key(&mut session, rows, key('w'));
    assert_eq!(st.cursor.column, 3);
    st.handle_key(&mut session, rows, key('w'));
    assert_eq!(st.cursor.column, 6);
    st.handle_key(&mut session, rows, key('b'));
    assert_eq!(st.cursor.column, 3);
    st.handle_key(&mut session, rows, key('b'));
    assert_eq!(st.cursor.column, 0);
}

#[test]
fn insert_mode_types_and_backspaces() {
    let rows: u16 = 3;
    let (mut session, _out) = make_session();
    let mut st = ViewState::new(rows);
    st.handle_key(&mut session, rows, key('i'));
    assert_eq!(st.mode, Mode::Insert);
    assert_eq!(st.cursor.row, rows - 1);
    for c in ['a', 'b', 'c'] {
        st.handle_key(&mut session, rows, key(c));
    }
    assert_eq!(st.compose, vec!['a', 'b', 'c']);
    assert_eq!(st.cursor.column, 3);
    st.handle_key(&mut session, rows, KeyInput::Left);
    st.handle_key(&mut session, rows, KeyInput::Backspace);
    assert_eq!(st.compose, vec!['a', 'c']);
    assert_eq!(st.cursor.column, 1);
    st.handle_key(&mut session, rows, KeyInput::End);
    assert_eq!(st.cursor.column, 2);
    st.handle_key(&mut session, rows, KeyInput::Esc);
    assert_eq!(st.mode, Mode::Normal);
}

#[test]
fn backspace_at_column_zero_does_nothing() {
    let rows: u16 = 3;
    let (mut session, _out) = make_session();
    let mut st = ViewState::new(rows);
    st.handle_key(&mut session, rows, key('i'));
    st.handle_key(&mut session, rows, key('x'));
    st.handle_key(&mut session, rows, KeyInput::Left);
    assert_eq!(st.cursor.column, 0);
    st.handle_key(&mut session, rows, KeyInput::Backspace);
    assert_eq!(st.compose, vec!['x']);
    assert_eq!(st.cursor.column, 0);
}

#[test]
fn dd_on_compose_row_clears_and_copies() {
    let rows: u16 = 3;
    let (mut session, _out) = make_session();
    let mut st = ViewState::new(rows);
    for c in ['i', 'a', 'b', 'c'] {
        st.handle_key(&mut session, rows, key(c));
    }
    st.handle_key(&mut session, rows, KeyInput::Esc);
    st.handle_key(&mut session, rows, key('d'));
    assert_eq!(st.mode, Mode::DeletePending);
    let out = st.handle_key(&mut session, rows, key('d'));
    match out {
        Outcome::CopyToClipboard(text) => assert_eq!(text, "abc"),
        other => panic!("expected a clipboard copy, got {other:?}"),
    }
    assert_eq!(st.compose.len(), 0);
    assert_eq!(st.cursor.column, 0);
    assert_eq!(st.mode, Mode::Normal);
}

#[test]
fn pending_operator_aborts_on_any_other_key() {
    let rows: u16 = 3;
    let (mut session, _out) = make_session();
    let mut st = ViewState::new(rows);
    st.handle_key(&mut session, rows, key('y'));
    assert_eq!(st.mode, Mode::YankPending);
    let out = st.handle_key(&mut session, rows, key('h'));
    assert!(matches!(out, Outcome::Continue));
    assert_eq!(st.mode, Mode::Normal);
}

#[test]
fn yy_on_scrollback_row_copies_message_text() {
    let rows: u16 = 5;
    let (mut session, _out) = make_session();
    let mut st = ViewState::new(rows);
    st.handle_event(chat_event("copy me"), rows);
    st.handle_key(&mut session, rows, key('k'));
    st.handle_key(&mut session, rows, key('y'));
    let out = st.handle_key(&mut session, rows, key('y'));
    match out {
        Outcome::CopyToClipboard(text) => assert_eq!(text, "copy me"),
        other => panic!("expected a clipboard copy, got {other:?}"),
    }
}

#[test]
fn enter_sends_appends_and_clears() {
    let rows: u16 = 5;
    let (mut session, out_rx) = make_session();
    let mut st = ViewState::new(rows);
    for c in ['i', 'h', 'e', 'y'] {
        st.handle_key(&mut session, rows, key(c));
    }
    let before = st.scrollback.len();
    st.handle_key(&mut session, rows, KeyInput::Enter { keep_buffer: false });
    assert_eq!(st.scrollback.len(), before + 1);
    let entry = st.scrollback.last().unwrap();
    assert_eq!(entry.message, "hey");
    assert_eq!(entry.prefix.nick.as_deref(), Some("me"));
    assert_eq!(entry.channel, "chan");
    assert_eq!(st.compose.len(), 0);
    assert_eq!(st.cursor.column, 0);
    assert_eq!(out_rx.try_recv().unwrap(), "PRIVMSG #chan :hey\r\n");
}

#[test]
fn enter_with_retain_modifier_keeps_buffer() {
    let rows: u16 = 5;
    let (mut session, out_rx) = make_session();
    let mut st = ViewState::new(rows);
    for c in ['i', 'h', 'i'] {
        st.handle_key(&mut session, rows, key(c));
    }
    st.handle_key(&mut session, rows, KeyInput::Enter { keep_buffer: true });
    assert_eq!(st.scrollback.len(), 1);
    assert_eq!(st.compose, vec!['h', 'i']);
    assert_eq!(st.cursor.column, 2);
    assert_eq!(out_rx.try_recv().unwrap(), "PRIVMSG #chan :hi\r\n");
}

#[test]
fn enter_on_empty_compose_sends_nothing() {
    let rows: u16 = 5;
    let (mut session, out_rx) = make_session();
    let mut st = ViewState::new(rows);
    st.handle_key(&mut session, rows, key('i'));
    st.handle_key(&mut session, rows, KeyInput::Enter { keep_buffer: false });
    assert_eq!(st.scrollback.len(), 0);
    assert!(out_rx.try_recv().is_err());
}

#[test]
fn failed_send_retains_compose_buffer() {
    let rows: u16 = 5;
    let (mut session, out_rx) = make_session();
    drop(out_rx);
    let mut st = ViewState::new(rows);
    for c in ['i', 'h', 'i'] {
        st.handle_key(&mut session, rows, key(c));
    }
    st.handle_key(&mut session, rows, KeyInput::Enter { keep_buffer: false });
    assert_eq!(st.scrollback.len(), 0);
    assert_eq!(st.compose, vec!['h', 'i']);
}

#[test]
fn globaluserstate_tags_attribute_sent_messages() {
    let rows: u16 = 5;
    let (mut session, _out) = make_session();
    let mut st = ViewState::new(rows);
    st.handle_event(
        IRCMessage::parse("@display-name=Fancy :tmi.twitch.tv GLOBALUSERSTATE").unwrap(),
        rows,
    );
    for c in ['i', 'y', 'o'] {
        st.handle_key(&mut session, rows, key(c));
    }
    st.handle_key(&mut session, rows, KeyInput::Enter { keep_buffer: false });
    let entry = st.scrollback.last().unwrap();
    assert_eq!(entry.message_line(), "Fancy: yo");
}

#[test]
fn paste_inserts_at_caret_and_advances() {
    let rows: u16 = 3;
    let (mut session, _out) = make_session();
    let mut st = ViewState::new(rows);
    for c in ['i', 'a', 'd'] {
        st.handle_key(&mut session, rows, key(c));
    }
    st.handle_key(&mut session, rows, KeyInput::Left);
    st.handle_key(&mut session, rows, KeyInput::Esc);
    let out = st.handle_key(&mut session, rows, key('P'));
    assert!(matches!(out, Outcome::RequestPaste));
    st.paste("bc", rows);
    assert_eq!(st.compose, vec!['a', 'b', 'c', 'd']);
    assert_eq!(st.cursor.column, 3);
    assert_eq!(st.cursor.row, rows - 1);
}

#[test]
fn paste_from_scrollback_row_lands_at_end_of_compose() {
    let rows: u16 = 5;
    let (mut session, _out) = make_session();
    let mut st = ViewState::new(rows);
    st.handle_event(chat_event("x"), rows);
    for c in ['i', 'a'] {
        st.handle_key(&mut session, rows, key(c));
    }
    st.handle_key(&mut session, rows, KeyInput::Esc);
    st.handle_key(&mut session, rows, key('k'));
    assert!(st.cursor.row < rows - 1);
    st.paste("bc", rows);
    assert_eq!(st.compose, vec!['a', 'b', 'c']);
    assert_eq!(st.cursor.row, rows - 1);
    assert_eq!(st.cursor.column, 3);
}

#[test]
fn control_q_and_control_c_quit() {
    let rows: u16 = 3;
    let (mut session, _out) = make_session();
    let mut st = ViewState::new(rows);
    let out = st.handle_key(&mut session, rows, KeyInput::Char { c: 'q', ctrl: true });
    assert!(matches!(out, Outcome::Quit));
    let out = st.handle_key(&mut session, rows, KeyInput::Char { c: 'c', ctrl: true });
    assert!(matches!(out, Outcome::Quit));
}

#[test]
fn resize_clamps_cursor_back_on_screen() {
    let rows: u16 = 6;
    let (mut session, _out) = make_session();
    let mut st = ViewState::new(rows);
    for i in 0..4 {
        st.handle_event(chat_event(&format!("m{i}")), rows);
    }
    st.handle_key(&mut session, rows, key('k'));
    st.handle_key(&mut session, rows, key('k'));
    let small: u16 = 3;
    st.clamp_cursor(small);
    assert!(st.cursor.row >= small - 1 - 2);
    assert!(st.cursor.row <= small - 1);
    assert!(st.cursor.column <= line_length_at_cursor(&st, small));
}

#[test]
fn l_at_end_of_scrollback_line_advances_only_before_last_entry() {
    let rows: u16 = 5;
    let (mut session, _out) = make_session();
    let mut st = ViewState::new(rows);
    st.handle_event(chat_event("ab"), rows);
    st.handle_event(chat_event("c"), rows);
    st.handle_key(&mut session, rows, key('k'));
    st.handle_key(&mut session, rows, key('k'));
    assert_eq!(st.cursor.row, 2);
    st.handle_key(&mut session, rows, key('$'));
    assert_eq!(st.cursor.column, "u: ab".len());
    st.handle_key(&mut session, rows, key('l'));
    assert_eq!(st.cursor.row, 3);
    assert_eq!(st.cursor.column, 0);
    st.handle_key(&mut session, rows, key('$'));
    st.handle_key(&mut session, rows, key('l'));
    assert_eq!(st.cursor.row, 3);
    assert_eq!(st.cursor.column, "u: c".len());
}

#[test]
fn j_and_k_reclamp_column_to_new_line_length() {
    let rows: u16 = 5;
    let (mut session, _out) = make_session();
    let mut st = ViewState::new(rows);
    st.handle_event(chat_event("a rather long line"), rows);
    st.handle_event(chat_event("x"), rows);
    st.handle_key(&mut session, rows, key('k'));
    st.handle_key(&mut session, rows, key('k'));
    st.handle_key(&mut session, rows, key('$'));
    assert_eq!(st.cursor.column, "u: a rather long line".len());
    st.handle_key(&mut session, rows, key('j'));
    assert_eq!(st.cursor.row, 3);
    assert_eq!(st.cursor.column, "u: x".len());
    st.handle_key(&mut session, rows, key('j'));
    assert_eq!(st.cursor.row, rows - 1);
    assert_eq!(st.cursor.column, 0);
}

#[test]
fn message_line_prefers_display_name_then_user_then_channel() {
    let mut pos: usize = 0;
    let tags = Tags::parse("@display-name=Shiny x", &mut pos).unwrap();
    let with_tag = Privmsg {
        tags,
        prefix: Prefix {
            nick: Some("n".to_string()),
            user: Some("u".to_string()),
            host: "h".to_string(),
        },
        channel: "chan".to_string(),
        message: "hi".to_string(),
    };
    assert_eq!(with_tag.message_line(), "Shiny: hi");

    let with_user = Privmsg {
        tags: Tags::new(),
        prefix: Prefix {
            nick: None,
            user: Some("u".to_string()),
            host: "h".to_string(),
        },
        channel: "chan".to_string(),
        message: "hi".to_string(),
    };
    assert_eq!(with_user.message_line(), "u: hi");

    let bare = Privmsg {
        tags: Tags::new(),
        prefix: Prefix {
            nick: None,
            user: None,
            host: "h".to_string(),
        },
        channel: "chan".to_string(),
        message: "hi".to_string(),
    };
    assert_eq!(bare.message_line(), "chan: hi");
}

#[test]
fn message_line_len_counts_grapheme_clusters() {
    let entry = Privmsg {
        tags: Tags::new(),
        prefix: Prefix {
            nick: None,
            user: Some("a".to_string()),
            host: "h".to_string(),
        },
        channel: "chan".to_string(),
        message: "e\u{301}!".to_string(),
    };
    // "a: e\u{301}!" is six chars but five grapheme clusters.
    assert_eq!(entry.message_line().chars().count(), 6);
    assert_eq!(entry.message_line_len(), 5);
}
