use mclient::command::{parse_command, Command, CommandQueue};

#[test]
fn command_words() {
    assert!(matches!(parse_command("list"), Command::List));
    assert!(matches!(parse_command("help"), Command::Help));
    assert!(matches!(parse_command("status"), Command::Status));
    assert!(matches!(parse_command("quit"), Command::Quit));
    match parse_command("hello all") {
        Command::Chat(t) => assert_eq!(t, "hello all"),
        _ => panic!("expected a chat line"),
    }
    assert!(matches!(parse_command("List"), Command::Chat(_)));
}

#[test]
fn queue_drains_in_push_order() {
    let mut q = CommandQueue::new();
    q.push("a".to_string());
    q.push("b".to_string());
    assert_eq!(q.drain(), vec!["a".to_string(), "b".to_string()]);
    assert!(q.drain().is_empty());
}
