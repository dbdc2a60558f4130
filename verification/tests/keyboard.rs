use proka_kernel::drivers::ops::DeviceError;
use proka_kernel::keyboard::{
    decode_scancode, push_utf8, Decoded, KeyInput, Keyboard, KeyboardMode, LedState, ModKey, ScancodeDecoder,
    KB_CLEAR_BUFFER,
    KB_DISABLE, KDGETLED, KDGKBMODE, KDSETLED, KDSKBMODE,
};

fn press_char(k: &mut Keyboard, c: char) {
    k.handle_scancode(0x1E, Some(KeyInput { key: ModKey::Other, pressed: true, decoded: Some(Decoded::Unicode(c)) }));
}

#[test]
fn typed_characters_are_read_as_utf8() {
    let mut k = Keyboard::new();
    assert_eq!(k.name(), "keyboard");
    assert!(!k.has_data());
    press_char(&mut k, 'a');
    press_char(&mut k, 'é');
    assert!(k.has_data());
    let mut buf = [0u8; 8];
    assert_eq!(k.read(&mut buf), Ok(3));
    assert_eq!(&buf[..3], "aé".as_bytes());
    assert!(!k.has_data());
}

#[test]
fn read_takes_only_whole_characters() {
    let mut k = Keyboard::new();
    press_char(&mut k, 'é');
    let mut one = [0u8; 1];
    assert_eq!(k.read(&mut one), Err(DeviceError::WouldBlock));
    let mut peeked = [0u8; 4];
    assert_eq!(k.peek(&mut peeked), Ok(2));
    let mut two = [0u8; 2];
    assert_eq!(k.read(&mut two), Ok(2));
    k.set_nonblocking(true);
    assert!(k.is_nonblocking());
    assert_eq!(k.read(&mut two), Err(DeviceError::WouldBlock));
}

#[test]
fn caps_lock_toggles_leds() {
    let mut k = Keyboard::new();
    let leds = k.handle_scancode(0x3A, Some(KeyInput { key: ModKey::CapsLock, pressed: true, decoded: None }));
    assert_eq!(leds, Some(0x04));
    assert!(k.get_modifier_state().caps_lock);
    assert_eq!(k.handle_scancode(0xBA, Some(KeyInput { key: ModKey::CapsLock, pressed: false, decoded: None })), None);
    assert_eq!(k.get_led_state().to_bits(), 0x04);
    let leds = k.handle_scancode(0x3A, Some(KeyInput { key: ModKey::CapsLock, pressed: true, decoded: None }));
    assert_eq!(leds, Some(0));
    k.handle_scancode(0x2A, Some(KeyInput { key: ModKey::LShift, pressed: true, decoded: None }));
    assert!(k.get_modifier_state().shift());
    k.handle_scancode(0xAA, Some(KeyInput { key: ModKey::LShift, pressed: false, decoded: None }));
    assert!(!k.get_modifier_state().shift());
}

#[test]
fn ioctl_requests() {
    let mut k = Keyboard::new();
    assert_eq!(k.ioctl(KDSETLED, 0x03), (Ok(0), Some(0x03)));
    assert_eq!(k.ioctl(KDGETLED, 0), (Ok(0x03), None));
    assert!(k.get_modifier_state().num_lock);
    assert_eq!(k.ioctl(KDGKBMODE, 0), (Ok(2), None));
    assert_eq!(k.ioctl(KDSKBMODE, 0), (Ok(0), None));
    assert_eq!(k.get_mode(), KeyboardMode::Raw);
    assert_eq!(k.ioctl(KDSKBMODE, 9), (Err(DeviceError::InvalidParam), None));
    k.handle_scancode(0x1E, Some(KeyInput { key: ModKey::Other, pressed: true, decoded: Some(Decoded::Unicode('a')) }));
    let mut b = [0u8; 1];
    assert_eq!(k.read(&mut b), Ok(1));
    assert_eq!(b[0], 0x1E);
    press_char(&mut k, 'z');
    assert_eq!(k.ioctl(KB_CLEAR_BUFFER, 0), (Ok(0), None));
    assert!(!k.has_data());
    assert_eq!(k.ioctl(KB_DISABLE, 0), (Ok(0), None));
    press_char(&mut k, 'q');
    assert!(!k.has_data());
    assert_eq!(k.ioctl(0x1234, 0), (Err(DeviceError::NotSupported), None));
    assert_eq!(k.write(b"x"), Err(DeviceError::NotSupported));
}

#[test]
fn led_bits_round_trip() {
    for b in 0u8..8 {
        assert_eq!(LedState::from_bits(b).to_bits(), b);
    }
}

#[test]
fn buffer_drops_characters_when_full() {
    let mut k = Keyboard::new();
    for _ in 0..300 {
        press_char(&mut k, 'x');
    }
    let mut buf = vec![0u8; 400];
    assert_eq!(k.read(&mut buf), Ok(256));
}

#[test]
fn utf8_encoding() {
    let mut v = Vec::new();
    push_utf8(&mut v, 'A');
    push_utf8(&mut v, 'ß');
    push_utf8(&mut v, '€');
    push_utf8(&mut v, '😀');
    let mut expect = Vec::new();
    expect.extend_from_slice("Aß€😀".as_bytes());
    assert_eq!(v, expect);
}

#[test]
fn scancodes_are_decoded_with_the_us_layout() {
    let mut dec = ScancodeDecoder::new();
    let ev = decode_scancode(&mut dec, 0x1E).unwrap();
    assert_eq!(ev.key, ModKey::Other);
    assert!(ev.pressed);
    assert_eq!(ev.decoded, Some(Decoded::Unicode('a')));
    let shift = decode_scancode(&mut dec, 0x2A).unwrap();
    assert_eq!(shift.key, ModKey::LShift);
    assert!(shift.pressed);
    let mut kb = Keyboard::new();
    let mut dec = ScancodeDecoder::new();
    assert_eq!(kb.handle_scancode_byte(&mut dec, 0x1E), None);
    assert!(kb.has_data());
    let mut buf = [0u8; 4];
    assert_eq!(kb.read(&mut buf), Ok(1));
    assert_eq!(buf[0], b'a');
    assert_eq!(kb.handle_scancode_byte(&mut dec, 0x3A), Some(4));
    kb.set_enabled(false);
    assert_eq!(kb.handle_scancode_byte(&mut dec, 0x1E), None);
    assert!(!kb.has_data());
}
