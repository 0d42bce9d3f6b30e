//! The message dialog.

use fut::client::messages::{
    body_size, chrome_rows, mark_lines, measure, message_lines, wrap, wrap_clusters, Area, Cluster,
    KeyCode, KeyEvent, KeyEventKind, Message, MessageKind, MessageLine, MessagesAction,
    MessagesDialog,
};

fn message(kind: MessageKind, text: &str) -> Message {
    Message { kind, text: text.into() }
}

fn texts(lines: &[MessageLine]) -> Vec<&str> {
    lines.iter().map(|line| line.text.as_str()).collect()
}

fn press(code: KeyCode) -> KeyEvent {
    KeyEvent { code, kind: KeyEventKind::Press }
}

fn numbered(count: usize) -> Vec<Message> {
    (0..count)
        .map(|index| message(MessageKind::Info, &format!("message {index}")))
        .collect()
}

const INNER: Area = Area { x: 1, y: 1, width: 28, height: 6 };

#[test]
fn long_messages_wrap_instead_of_truncating() {
    let messages = vec![message(
        MessageKind::Error,
        "this notification is much too long",
    )];
    let lines = message_lines(&messages, 12);
    assert_eq!(
        texts(&lines),
        [" ! this noti", "   fication ", "   is much t", "   oo long"]
    );
}

#[test]
fn navigation_scrolls_and_clear_is_typed() {
    let messages = numbered(20);
    let mut dialog = MessagesDialog::open();
    dialog.render(INNER, &messages).unwrap();
    let end = dialog.scroll;
    assert!(end > 0);
    assert_eq!(dialog.key(press(KeyCode::Up), INNER, &messages), MessagesAction::Stay);
    assert_eq!(dialog.scroll, end - 1);
    assert_eq!(
        dialog.key(press(KeyCode::Char('c')), INNER, &messages),
        MessagesAction::Clear
    );
}

#[test]
fn text_wraps_by_what_is_seen_as_one_character() {
    let flags = "🇷🇺🇸🇹";
    let parts: Vec<(String, usize)> = measure(flags)
        .into_iter()
        .map(|cluster| (cluster.text, cluster.width))
        .collect();
    assert_eq!(parts, [("🇷🇺".to_string(), 2), ("🇸🇹".to_string(), 2)]);
    let accented = measure("e\u{301}x");
    assert_eq!(accented[0].text, "e\u{301}");
    assert_eq!(accented[0].width, 1);
    assert_eq!(wrap("日本語", 4), ["日本", "語"]);
    assert_eq!(wrap("日本語", 1), ["日", "本", "語"]);
    assert_eq!(wrap("", 4), [""]);
    assert_eq!(wrap("anything", 0), [""]);
}

#[test]
fn clusters_without_width_stay_with_their_line() {
    let cluster = |text: &str, width| Cluster { text: text.into(), width };
    let clusters = vec![cluster("a", 1), cluster("_", 0), cluster("b", 1), cluster("wide", 9)];
    assert_eq!(wrap_clusters(&clusters, 2), ["a_b", "wide"]);
    assert_eq!(wrap_clusters(&clusters, 1), ["a_", "b", "wide"]);
    assert_eq!(wrap_clusters(&clusters, 0), [""]);
    let zero_first = vec![cluster("_", 0), cluster("wide", 9), cluster("_", 0)];
    assert_eq!(wrap_clusters(&zero_first, 3), ["_wide", "_"]);
}

#[test]
fn wrapping_loses_nothing() {
    let text = "a fairly long message with e\u{301}, 日本語 and 🇷🇺🇸🇹 in it";
    for width in 1..20 {
        assert_eq!(wrap(text, width).concat(), text);
    }
}

#[test]
fn only_a_message_s_first_line_is_marked() {
    let mut out = Vec::new();
    mark_lines(MessageKind::Info, &vec!["one".into(), "two".into()], &mut out);
    mark_lines(MessageKind::Error, &vec!["three".into()], &mut out);
    assert_eq!(texts(&out), [" • one", "   two", " ! three"]);
    assert_eq!(out[1].kind, MessageKind::Info);
    assert_eq!(out[2].kind, MessageKind::Error);
}

#[test]
fn title_and_footer_give_way_first() {
    assert_eq!(chrome_rows(0), (0, 0));
    assert_eq!(chrome_rows(1), (0, 0));
    assert_eq!(chrome_rows(2), (1, 0));
    assert_eq!(chrome_rows(3), (1, 1));
    assert_eq!(body_size(INNER), (28, 4));
    assert_eq!(body_size(Area { height: 2, ..INNER }), (28, 1));
    assert_eq!(body_size(Area { height: 0, ..INNER }), (28, 0));
}

#[test]
fn the_list_follows_its_end_until_it_is_scrolled_away() {
    let messages = numbered(20);
    let mut dialog = MessagesDialog::open();
    let layout = dialog.render(INNER, &messages).unwrap();
    assert_eq!(layout.scroll, 16);
    assert_eq!(layout.total, 20);
    assert_eq!(
        texts(&layout.visible),
        [" • message 16", " • message 17", " • message 18", " • message 19"]
    );
    dialog.key(press(KeyCode::PageUp), INNER, &messages);
    assert_eq!((dialog.scroll, dialog.follow_end), (12, false));
    dialog.key(press(KeyCode::Home), INNER, &messages);
    assert_eq!((dialog.scroll, dialog.follow_end), (0, false));
    dialog.key(press(KeyCode::Char('k')), INNER, &messages);
    assert_eq!(dialog.scroll, 0);
    dialog.key(press(KeyCode::Char('j')), INNER, &messages);
    assert_eq!((dialog.scroll, dialog.follow_end), (1, false));
    let layout = dialog.render(INNER, &numbered(40)).unwrap();
    assert_eq!(layout.scroll, 1);
    let layout = dialog.render(INNER, &numbered(4)).unwrap();
    assert_eq!(layout.scroll, 0);
    for _ in 0..4 {
        dialog.key(press(KeyCode::PageDown), INNER, &messages);
    }
    assert_eq!((dialog.scroll, dialog.follow_end), (16, true));
    dialog.key(press(KeyCode::Up), INNER, &messages);
    dialog.key(press(KeyCode::End), INNER, &messages);
    assert_eq!((dialog.scroll, dialog.follow_end), (16, true));
    assert_eq!(dialog.render(INNER, &numbered(21)).unwrap().scroll, 17);
    dialog.key(press(KeyCode::Up), INNER, &messages);
    assert_eq!((dialog.scroll, dialog.follow_end), (15, false));
    dialog.key(press(KeyCode::Down), INNER, &messages);
    assert_eq!((dialog.scroll, dialog.follow_end), (16, true));
    dialog.reset();
    assert_eq!((dialog.scroll, dialog.follow_end), (0, true));
}

#[test]
fn keys_close_the_dialog_and_releases_mean_nothing() {
    let messages = numbered(20);
    let mut dialog = MessagesDialog::open();
    let release = KeyEvent { code: KeyCode::Esc, kind: KeyEventKind::Release };
    assert_eq!(dialog.key(release, INNER, &messages), MessagesAction::Stay);
    assert_eq!(dialog.scroll, 0);
    assert_eq!(dialog.key(press(KeyCode::Esc), INNER, &messages), MessagesAction::Close);
    assert_eq!(dialog.key(press(KeyCode::Char('q')), INNER, &messages), MessagesAction::Close);
    assert_eq!(dialog.key(press(KeyCode::Other), INNER, &messages), MessagesAction::Stay);
    let repeat = KeyEvent { code: KeyCode::Down, kind: KeyEventKind::Repeat };
    assert_eq!(dialog.key(repeat, INNER, &messages), MessagesAction::Stay);
    assert_eq!((dialog.scroll, dialog.follow_end), (16, true));
}

#[test]
fn an_empty_list_shows_a_placeholder_where_there_is_room() {
    let mut dialog = MessagesDialog::open();
    assert!(dialog.render(INNER, &Vec::new()).unwrap().shows_placeholder());
    assert!(!dialog.render(INNER, &numbered(1)).unwrap().shows_placeholder());
    assert!(dialog.render(Area { width: 0, ..INNER }, &numbered(1)).is_none());
    assert!(dialog.render(Area { height: 0, ..INNER }, &numbered(1)).is_none());
}

#[test]
fn no_wrapped_line_is_empty() {
    for text in ["\u{301}a", "日本語", "a b", " ", "\u{200b}\u{200b}x"] {
        for width in 1..4 {
            assert!(wrap(text, width).iter().all(|line| !line.is_empty()), "{text:?}");
        }
    }
    assert_eq!(wrap("", 3), vec![String::new()]);
    assert_eq!(wrap("abc", 0), vec![String::new()]);
}
