use proka_kernel::shell::{parse_command, split_words, uptime_parts, Command, KeyAction, LineEditor, Shell};

#[test]
fn words_are_split_on_white_space() {
    let ws = split_words("  ls \t /bin  x ");
    let ws: Vec<String> = ws.into_iter().map(|w| w.into_iter().collect()).collect();
    assert_eq!(ws, vec!["ls".to_string(), "/bin".to_string(), "x".to_string()]);
    assert!(split_words("   ").is_empty());
}

#[test]
fn commands_are_recognised() {
    assert_eq!(parse_command(""), Command::Empty);
    assert_eq!(parse_command("help"), Command::Help);
    assert_eq!(parse_command(" uptime "), Command::Uptime);
    assert_eq!(parse_command("memory_stats"), Command::MemoryStats);
    assert_eq!(parse_command("ls"), Command::Ls { path: "/".to_string() });
    assert_eq!(parse_command("ls /dev extra"), Command::Ls { path: "/dev".to_string() });
    assert_eq!(parse_command("cat"), Command::Cat { file: None });
    assert_eq!(parse_command("cat a.txt"), Command::Cat { file: Some("a.txt".to_string()) });
    assert_eq!(parse_command("frobnicate now"), Command::Unknown { name: "frobnicate".to_string() });
    assert_eq!(Shell::new().handle_command("reboot"), Command::Reboot);
    assert_eq!(Shell::new().handle_command("Help"), Command::Unknown { name: "Help".to_string() });
}

#[test]
fn line_editor_handles_erase_and_enter() {
    let mut e = LineEditor::new();
    assert_eq!(e.feed(8), KeyAction::Nothing);
    assert_eq!(e.feed(b'l'), KeyAction::Echo('l'));
    assert_eq!(e.feed(b'x'), KeyAction::Echo('x'));
    assert_eq!(e.feed(127), KeyAction::Erase);
    assert_eq!(e.feed(b's'), KeyAction::Echo('s'));
    assert_eq!(e.feed(b'\r'), KeyAction::Submit("ls".to_string()));
    assert_eq!(e.feed(b'\n'), KeyAction::Submit(String::new()));
}

#[test]
fn uptime_is_split_into_units() {
    assert_eq!(uptime_parts(3_723_456), (1, 2, 3, 456));
    assert_eq!(uptime_parts(59_999), (0, 0, 59, 999));
    assert_eq!(uptime_parts(0), (0, 0, 0, 0));
}
