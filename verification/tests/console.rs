use proka_kernel::color::Color;
use proka_kernel::console::{
    ansi_code_to_color, console_type_for, AnsiEvent, AnsiParser, ConsoleType, TextColors,
};

#[test]
fn console_choice() {
    assert_eq!(console_type_for("ttf"), ConsoleType::Ttf);
    assert_eq!(console_type_for("bitfont"), ConsoleType::Bitfont);
    assert_eq!(console_type_for("other"), ConsoleType::Bitfont);
}

#[test]
fn sgr_colors() {
    assert_eq!(ansi_code_to_color(31), Some(Color::new(255, 0, 0)));
    assert_eq!(ansi_code_to_color(44), Some(Color::new(0, 0, 255)));
    assert_eq!(ansi_code_to_color(90), Some(Color::new(128, 128, 128)));
    assert_eq!(ansi_code_to_color(107), Some(Color::new(150, 150, 150)));
    assert_eq!(ansi_code_to_color(38), None);
}

#[test]
fn escape_sequences_set_colors() {
    let white = Color::new(255, 255, 255);
    let black = Color::new(0, 0, 0);
    let mut p = AnsiParser::new();
    let mut colors = TextColors { fg: white, bg: black };
    let mut text = String::new();
    for c in "a\x1b[31;42mb\x1b[0mc\x1b[m\x1bxd".chars() {
        match p.feed(c) {
            AnsiEvent::Text(t) => text.push(t),
            AnsiEvent::Sgr(codes) => {
                colors.apply_ansi_codes(&codes, white, black);
                if text == "a" {
                    assert_eq!(codes, vec![31, 42]);
                    assert_eq!(colors.fg, Color::new(255, 0, 0));
                    assert_eq!(colors.bg, Color::new(0, 255, 0));
                }
            }
            AnsiEvent::Nothing => {}
        }
    }
    assert_eq!(text, "abcxd");
    assert_eq!(colors, TextColors { fg: white, bg: black });
}

#[test]
fn empty_sequence_restores_defaults_and_bad_sequences_are_dropped() {
    let white = Color::new(255, 255, 255);
    let black = Color::new(0, 0, 0);
    let mut colors = TextColors { fg: Color::new(1, 2, 3), bg: Color::new(4, 5, 6) };
    colors.apply_ansi_codes(&[], white, black);
    assert_eq!(colors, TextColors { fg: white, bg: black });
    colors.apply_ansi_codes(&[33, 49, 5], white, black);
    assert_eq!(colors.fg, Color::new(255, 255, 0));
    let mut p = AnsiParser::new();
    assert_eq!(p.feed('\x1b'), AnsiEvent::Nothing);
    assert_eq!(p.feed('['), AnsiEvent::Nothing);
    assert_eq!(p.feed('1'), AnsiEvent::Nothing);
    assert_eq!(p.feed('K'), AnsiEvent::Nothing);
    assert_eq!(p.feed('z'), AnsiEvent::Text('z'));
}
