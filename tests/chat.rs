use mclient::chat::{chat_component_of, color_escape, get_chat_message, render_chat, ChatArg, ChatComponent};

fn render(json: &str) -> String {
    String::from_utf8(get_chat_message(json)).unwrap()
}

#[test]
fn chat_text_template() {
    let json = r#"{"translate":"chat.type.text","with":[{"insertion":"Bob","text":"Bob"},"hello there"]}"#;
    assert_eq!(render(json), "<Bob> hello there");
}

#[test]
fn chat_text_from_object_argument() {
    let json = r#"{"translate":"commands.message.display.incoming","with":[{"insertion":"Eve"},{"text":"psst"}]}"#;
    assert_eq!(render(json), "<Eve> psst");
}

#[test]
fn join_and_leave_templates() {
    assert_eq!(
        render(r#"{"translate":"multiplayer.player.joined","with":["Alice"]}"#),
        "Alice joined the game"
    );
    assert_eq!(
        render(r#"{"translate":"multiplayer.player.left","with":[{"text":"Alice"}]}"#),
        "Alice left the game"
    );
}

#[test]
fn styles_and_color() {
    let json = r#"{"bold":true,"italic":false,"underlined":true,"strikethrough":true,"color":"gold","translate":"multiplayer.player.joined","with":["A"]}"#;
    assert_eq!(render(json), "\x1B[1m\x1B[4m\x1B[9m\x1B[33mA joined the game");
    assert_eq!(color_escape(b"light_purple"), "\x1B[95m");
    assert_eq!(color_escape(b"pink"), "");
}

#[test]
fn unknown_or_malformed_chat_degrades_to_empty() {
    assert_eq!(render("not json"), "");
    assert!(chat_component_of("not json").is_none());
    assert_eq!(render(r#"{"translate":"death.attack.fall","with":["A"]}"#), "");
    assert_eq!(render(r#"{"translate":"chat.type.text","with":["only one"]}"#), "");
}

#[test]
fn literal_text_is_shown() {
    assert_eq!(render(r#"{"text":"hello"}"#), "hello");
    assert_eq!(render(r#"{"italic":true,"color":"aqua","text":"hi"}"#), "\x1B[3m\x1B[96mhi");
}

#[test]
fn unknown_key_keeps_only_the_style() {
    assert_eq!(
        render(r#"{"bold":true,"color":"red","translate":"death.attack.fall","with":["A"]}"#),
        "\x1B[1m\x1B[91m"
    );
    assert_eq!(
        render(r#"{"bold":true,"italic":true,"color":"red","translate":"multiplayer.player.left","with":["Bob"]}"#),
        "\x1B[1m\x1B[3m\x1B[91mBob left the game"
    );
}

#[test]
fn render_chat_on_plain_values() {
    let c = ChatComponent {
        bold: Some(true),
        italic: None,
        underlined: None,
        strikethrough: None,
        color: Some(b"red".to_vec()),
        translate: Some(b"chat.type.text".to_vec()),
        with: Some(vec![
            ChatArg { text: None, insertion: Some(b"Zoe".to_vec()) },
            ChatArg { text: Some(b"hi".to_vec()), insertion: None },
        ]),
        text: None,
    };
    assert_eq!(render_chat(&c), b"\x1B[1m\x1B[91m<Zoe> hi".to_vec());
}
