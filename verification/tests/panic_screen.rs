use proka_kernel::panic_screen::{glyph_pixel, panic_state, ExceptionInfo, PanicCursor};

#[test]
fn exception_state_replaces_the_registers() {
    let e = ExceptionInfo {
        name: "Page Fault",
        rip: 0x1000,
        cs: 8,
        rflags: 0x202,
        rsp: 0x9000,
        ss: 0x10,
        error_code: Some(2),
    };
    let s = panic_state(Some(e), 1, 2, 3);
    assert_eq!((s.rip, s.rflags, s.rsp), (0x1000, 0x202, 0x9000));
    assert_eq!(s.exception, Some("Page Fault"));
    assert_eq!(s.error_code, Some(2));
    let s = panic_state(None, 1, 2, 3);
    assert_eq!((s.rip, s.rflags, s.rsp), (1, 2, 3));
    assert_eq!(s.exception, None);
}

#[test]
fn cursor_wraps_at_the_margin() {
    let mut c = PanicCursor::new();
    assert_eq!(c, PanicCursor { x: 20, y: 20 });
    c.advance('a', 100);
    assert_eq!(c, PanicCursor { x: 28, y: 20 });
    c.advance('b', 100);
    c.advance('c', 100);
    c.advance('d', 100);
    assert_eq!(c, PanicCursor { x: 52, y: 20 });
    c.advance('e', 100);
    c.advance('f', 100);
    assert_eq!(c, PanicCursor { x: 68, y: 20 });
    c.advance('g', 100);
    assert_eq!(c, PanicCursor { x: 20, y: 36 });
    c.advance('\n', 100);
    assert_eq!(c, PanicCursor { x: 20, y: 52 });
}

#[test]
fn glyph_bits_are_read_from_the_left() {
    assert!(glyph_pixel(0x80, 0));
    assert!(!glyph_pixel(0x80, 1));
    assert!(glyph_pixel(0x01, 7));
    assert!(glyph_pixel(0x24, 2));
    assert!(!glyph_pixel(0x24, 3));
}
