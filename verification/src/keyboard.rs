//! The PS/2 keyboard: decoding scancodes into characters, modifier and LED
//! state, the control requests it answers, and the buffer of typed
//! characters that readers take from.
//!
//! Scancodes are turned into key events by `pc_keyboard`'s decoder for the
//! US 104-key layout and scancode set 1 ([`ScancodeDecoder`]). Talking to the
//! keyboard controller is the caller's: where the LEDs have to change, the
//! functions here give the LED bits to send (with command 0xED).

use vstd::prelude::*;
use vstd::utf8::{encode_scalar, encode_utf8};
use ringbuf::HeapRb;
use ringbuf::traits::{Consumer, Observer, Producer};
use pc_keyboard::layouts::Us104Key;
use pc_keyboard::{DecodedKey, HandleControl, KeyCode, KeyEvent, KeyState, ScancodeSet1};
use crate::drivers::ops::DeviceError;

verus! {

#[verifier::external_type_specification]
#[verifier::external_body]
pub struct ExKeyEvent(KeyEvent);

/// `pc_keyboard::Keyboard` for the US 104-key layout and scancode set 1, with
/// control keys left as they are. It keeps the state of multi-byte scancodes
/// and of the modifiers it has seen.
#[verifier::external_body]
struct DecoderCore {
    kb: pc_keyboard::Keyboard<Us104Key, ScancodeSet1>,
}

impl DecoderCore {
    /// A decoder in its start state (`pc_keyboard::Keyboard::new`).
    #[verifier::external_body]
    fn new() -> (d: Self) {
        DecoderCore { kb: pc_keyboard::Keyboard::new(ScancodeSet1::new(), Us104Key, HandleControl::Ignore) }
    }

    /// Feeds one byte (`Keyboard::add_byte`): the key event it completes, if
    /// any; a byte the scancode set rejects gives none.
    #[verifier::external_body]
    fn add_byte(&mut self, scancode: u8) -> (ev: Option<KeyEvent>) {
        match self.kb.add_byte(scancode) {
            Ok(ev) => ev,
            Err(_) => None,
        }
    }

    /// What the layout makes of a key event (`Keyboard::process_keyevent`):
    /// a character, a key without one (by its key code), or nothing.
    #[verifier::external_body]
    fn process_keyevent(&mut self, ev: KeyEvent) -> (d: Option<Decoded>) {
        match self.kb.process_keyevent(ev) {
            Some(DecodedKey::Unicode(c)) => Some(Decoded::Unicode(c)),
            Some(DecodedKey::RawKey(k)) => Some(Decoded::Raw(k as u8)),
            None => None,
        }
    }
}

/// The scancode decoder, with the bytes it has been fed, what it reported of
/// each (for a byte that completed a key event: the key and whether its state
/// is down), and the key events made of them, oldest first.
pub struct ScancodeDecoder {
    core: DecoderCore,
    fed: Ghost<Seq<u8>>,
    reports: Ghost<Seq<Option<(ModKey, bool)>>>,
    events: Ghost<Seq<Option<KeyInput>>>,
}

/// Each key event made of a byte is what the decoder reported of that byte:
/// no event where it completed none, else an event for the reported key that
/// is a press exactly when the reported key state is down.
pub open spec fn events_match_reports(reports: Seq<Option<(ModKey, bool)>>, events: Seq<Option<KeyInput>>) -> bool {
    &&& reports.len() == events.len()
    &&& forall|i: int| 0 <= i < events.len() ==> (#[trigger] events[i] is None <==> reports[i] is None)
    &&& forall|i: int| 0 <= i < events.len() ==> (#[trigger] events[i] matches Some(k) ==> reports[i] == Some(
        (k.key, k.pressed),
    ))
}

impl ScancodeDecoder {
    /// The bytes fed so far, oldest first.
    pub closed spec fn fed(&self) -> Seq<u8> {
        self.fed@
    }

    /// What was made of each byte fed: the key event it completed, if any.
    pub closed spec fn events(&self) -> Seq<Option<KeyInput>> {
        self.events@
    }

    /// What the decoder reported of each byte fed: for one that completed a
    /// key event, the key and whether its state is down (`KeyState::Down`).
    pub closed spec fn reports(&self) -> Seq<Option<(ModKey, bool)>> {
        self.reports@
    }

    /// A decoder in its start state, fed nothing yet.
    pub fn new() -> (d: Self)
        ensures
            d.fed() == Seq::<u8>::empty(),
            d.events() == Seq::<Option<KeyInput>>::empty(),
            d.reports() == Seq::<Option<(ModKey, bool)>>::empty(),
            events_match_reports(d.reports(), d.events()),
    {
        ScancodeDecoder {
            core: DecoderCore::new(),
            fed: Ghost(Seq::empty()),
            reports: Ghost(Seq::empty()),
            events: Ghost(Seq::empty()),
        }
    }

    /// Feeds one byte to the decoder and records it.
    fn add_byte(&mut self, scancode: u8) -> (ev: Option<KeyEvent>)
        ensures
            final(self).fed() == old(self).fed().push(scancode),
            final(self).events() == old(self).events(),
            final(self).reports() == old(self).reports(),
    {
        let ev = self.core.add_byte(scancode);
        self.fed = Ghost(self.fed@.push(scancode));
        ev
    }

    /// What the layout makes of a key event.
    fn process_keyevent(&mut self, ev: KeyEvent) -> (d: Option<Decoded>)
        ensures
            final(self).fed() == old(self).fed(),
            final(self).events() == old(self).events(),
            final(self).reports() == old(self).reports(),
    {
        self.core.process_keyevent(ev)
    }

    /// Asks the decoder for a completed key event's key and whether its state
    /// is down, and records the answer.
    fn report(&mut self, ev: &KeyEvent) -> (r: (ModKey, bool))
        ensures
            final(self).fed() == old(self).fed(),
            final(self).events() == old(self).events(),
            final(self).reports() == old(self).reports().push(Some(r)),
    {
        let key = modifier_of(ev);
        let pressed = key_pressed(ev);
        self.reports = Ghost(self.reports@.push(Some((key, pressed))));
        (key, pressed)
    }

    /// Records that the last byte completed no key event.
    fn report_none(&mut self)
        ensures
            final(self).fed() == old(self).fed(),
            final(self).events() == old(self).events(),
            final(self).reports() == old(self).reports().push(None),
    {
        self.reports = Ghost(self.reports@.push(None));
    }

    /// Records what was made of the last byte fed.
    fn record(&mut self, ev: Option<KeyInput>)
        ensures
            final(self).fed() == old(self).fed(),
            final(self).events() == old(self).events().push(ev),
            final(self).reports() == old(self).reports(),
    {
        self.events = Ghost(self.events@.push(ev));
    }
}

/// Whether a key event is a press (`KeyState::Down`).
#[verifier::external_body]
fn key_pressed(ev: &KeyEvent) -> (b: bool) {
    matches!(ev.state, KeyState::Down)
}

/// The modifier or lock key a key event is for (`KeyEvent::code`), or `Other`.
#[verifier::external_body]
fn modifier_of(ev: &KeyEvent) -> (k: ModKey) {
    match ev.code {
        KeyCode::LShift => ModKey::LShift,
        KeyCode::RShift => ModKey::RShift,
        KeyCode::LControl => ModKey::LControl,
        KeyCode::RControl => ModKey::RControl,
        KeyCode::LAlt => ModKey::LAlt,
        KeyCode::RAltGr => ModKey::RAltGr,
        KeyCode::LWin => ModKey::LWin,
        KeyCode::RWin => ModKey::RWin,
        KeyCode::CapsLock => ModKey::CapsLock,
        KeyCode::NumpadLock => ModKey::NumpadLock,
        KeyCode::ScrollLock => ModKey::ScrollLock,
        _ => ModKey::Other,
    }
}

/// A key event is a press exactly when the decoder reported its key down: a
/// byte that the decoder reported as a key going up (a break code) gives a
/// release of that key, and one reported down gives a press.
pub proof fn lemma_press_follows_key_state(
    reports: Seq<Option<(ModKey, bool)>>,
    events: Seq<Option<KeyInput>>,
    i: int,
)
    requires
        events_match_reports(reports, events),
        0 <= i < reports.len(),
        reports[i] is Some,
    ensures
        ({
            let r = reports[i]->0;
            events[i] matches Some(k) && k.key == r.0 && k.pressed == r.1
        }),
{
    assert(events[i] is None <==> reports[i] is None);
}

/// Decodes one scancode: feeds it to the decoder and, when it completes a
/// key event, gives the modifier key it is for, whether it is a press, and
/// what the layout makes of it. The byte and the result are recorded.
pub fn decode_scancode(dec: &mut ScancodeDecoder, scancode: u8) -> (ev: Option<KeyInput>)
    ensures
        final(dec).fed() == old(dec).fed().push(scancode),
        final(dec).events() == old(dec).events().push(ev),
        final(dec).reports().len() == old(dec).reports().len() + 1,
        final(dec).reports().drop_last() == old(dec).reports(),
        ev is None <==> final(dec).reports().last() is None,
        ev matches Some(k) ==> final(dec).reports().last() == Some((k.key, k.pressed)),
        events_match_reports(old(dec).reports(), old(dec).events()) ==> events_match_reports(
            final(dec).reports(),
            final(dec).events(),
        ),
{
    let ev = match dec.add_byte(scancode) {
        None => {
            dec.report_none();
            None
        },
        Some(e) => {
            let (key, pressed) = dec.report(&e);
            let decoded = dec.process_keyevent(e);
            Some(KeyInput { key, pressed, decoded })
        },
    };
    dec.record(ev);
    proof {
        assert(dec.reports().drop_last() =~= old(dec).reports());
        let r = dec.reports();
        let es = dec.events();
        if events_match_reports(old(dec).reports(), old(dec).events()) {
            assert forall|i: int| 0 <= i < es.len() implies (#[trigger] es[i] is None <==> r[i] is None) by {
                if i < old(dec).events().len() {
                    assert(es[i] == old(dec).events()[i]);
                    assert(r[i] == old(dec).reports()[i]);
                }
            }
            assert forall|i: int| 0 <= i < es.len() implies (#[trigger] es[i] matches Some(k) ==> r[i]
                == Some((k.key, k.pressed))) by {
                if i < old(dec).events().len() {
                    assert(es[i] == old(dec).events()[i]);
                    assert(r[i] == old(dec).reports()[i]);
                }
            }
        }
    }
    ev
}

/// Size of the buffer of typed characters.
pub const BUFFER_SIZE: usize = 256;

pub const KEYBOARD_DATA_PORT: u16 = 0x60;
pub const KEYBOARD_STATUS_PORT: u16 = 0x64;
pub const KEYBOARD_COMMAND_PORT: u16 = 0x64;

/// The keyboard command that sets the LEDs.
pub const SET_LEDS_COMMAND: u8 = 0xED;

pub const LED_SCROLL_LOCK: u8 = 0x01;
pub const LED_NUM_LOCK: u8 = 0x02;
pub const LED_CAPS_LOCK: u8 = 0x04;

pub const KDGETLED: u64 = 0x4B31;
pub const KDSETLED: u64 = 0x4B32;
pub const KDGKBLED: u64 = 0x4B64;
pub const KDSKBLED: u64 = 0x4B65;
pub const KDGKBMODE: u64 = 0x4B44;
pub const KDSKBMODE: u64 = 0x4B45;
pub const KB_ENABLE: u64 = 0x4B36;
pub const KB_DISABLE: u64 = 0x4B37;
pub const KB_CLEAR_BUFFER: u64 = 0x4B38;

/// The keys whose presses the modifier state follows.
#[derive(Debug, Clone, Copy, PartialEq, Eq, Structural)]
pub enum ModKey {
    LShift,
    RShift,
    LControl,
    RControl,
    LAlt,
    RAltGr,
    LWin,
    RWin,
    CapsLock,
    NumpadLock,
    ScrollLock,
    Other,
}

/// What the layout made of a key event.
#[derive(Debug, Clone, Copy, PartialEq, Eq, Structural)]
pub enum Decoded {
    Unicode(char),
    /// A key without a character, by its key code.
    Raw(u8),
}


/// A decoded key event, as the caller's layout decoder gives it.
#[derive(Debug, Clone, Copy, PartialEq, Eq, Structural)]
pub struct KeyInput {
    /// Which modifier key the event is for, if any.
    pub key: ModKey,
    /// Whether the key went down.
    pub pressed: bool,
    /// What the layout made of the event, if anything.
    pub decoded: Option<Decoded>,
}

/// Keyboard modes (their numbers are what `KDGKBMODE` answers).
#[derive(Debug, Clone, Copy, PartialEq, Eq, Structural)]
pub enum KeyboardMode {
    Raw,
    MediumRaw,
    Unicode,
}

/// Keyboard layouts.
#[derive(Debug, Clone, Copy, PartialEq, Eq, Structural)]
pub enum KeyboardLayout {
    Us104,
}

pub open spec fn mode_number(m: KeyboardMode) -> u64 {
    match m {
        KeyboardMode::Raw => 0,
        KeyboardMode::MediumRaw => 1,
        KeyboardMode::Unicode => 2,
    }
}

impl KeyboardMode {
    /// The mode's number.
    pub fn number(&self) -> (n: u64)
        ensures
            n == mode_number(*self),
    {
        match self {
            KeyboardMode::Raw => 0,
            KeyboardMode::MediumRaw => 1,
            KeyboardMode::Unicode => 2,
        }
    }
}

/// The state of the modifier keys and lock toggles.
#[derive(Debug, Clone, Copy, PartialEq, Eq, Structural)]
pub struct ModifierState {
    pub left_shift: bool,
    pub right_shift: bool,
    pub left_ctrl: bool,
    pub right_ctrl: bool,
    pub left_alt: bool,
    pub right_alt: bool,
    pub left_gui: bool,
    pub right_gui: bool,
    pub caps_lock: bool,
    pub num_lock: bool,
    pub scroll_lock: bool,
}

impl ModifierState {
    /// Nothing held, no lock on.
    pub fn new() -> (m: Self)
        ensures
            m == (ModifierState {
                left_shift: false,
                right_shift: false,
                left_ctrl: false,
                right_ctrl: false,
                left_alt: false,
                right_alt: false,
                left_gui: false,
                right_gui: false,
                caps_lock: false,
                num_lock: false,
                scroll_lock: false,
            }),
    {
        ModifierState {
            left_shift: false,
            right_shift: false,
            left_ctrl: false,
            right_ctrl: false,
            left_alt: false,
            right_alt: false,
            left_gui: false,
            right_gui: false,
            caps_lock: false,
            num_lock: false,
            scroll_lock: false,
        }
    }

    pub fn shift(&self) -> (b: bool)
        ensures
            b == (self.left_shift || self.right_shift),
    {
        self.left_shift || self.right_shift
    }

    pub fn ctrl(&self) -> (b: bool)
        ensures
            b == (self.left_ctrl || self.right_ctrl),
    {
        self.left_ctrl || self.right_ctrl
    }

    pub fn alt(&self) -> (b: bool)
        ensures
            b == (self.left_alt || self.right_alt),
    {
        self.left_alt || self.right_alt
    }

    pub fn gui(&self) -> (b: bool)
        ensures
            b == (self.left_gui || self.right_gui),
    {
        self.left_gui || self.right_gui
    }
}

impl Default for ModifierState {
    fn default() -> (m: Self)
        ensures
            !m.left_shift && !m.right_shift && !m.left_ctrl && !m.right_ctrl && !m.left_alt
                && !m.right_alt && !m.left_gui && !m.right_gui && !m.caps_lock && !m.num_lock
                && !m.scroll_lock,
    {
        ModifierState::new()
    }
}

/// The keyboard LEDs.
#[derive(Debug, Clone, Copy, PartialEq, Eq, Structural)]
pub struct LedState {
    pub scroll_lock: bool,
    pub num_lock: bool,
    pub caps_lock: bool,
}

pub open spec fn led_bits(l: LedState) -> u8 {
    ((if l.scroll_lock { 1int } else { 0 }) + (if l.num_lock { 2int } else { 0 }) + (if l.caps_lock {
        4int
    } else {
        0
    })) as u8
}

impl LedState {
    pub fn new() -> (l: Self)
        ensures
            l == (LedState { scroll_lock: false, num_lock: false, caps_lock: false }),
    {
        LedState { scroll_lock: false, num_lock: false, caps_lock: false }
    }

    /// The LED byte: scroll lock in bit 0, num lock in bit 1, caps lock in bit 2.
    pub fn to_bits(&self) -> (b: u8)
        ensures
            b == led_bits(*self),
    {
        let mut bits = 0u8;
        if self.scroll_lock {
            bits = bits + LED_SCROLL_LOCK;
        }
        if self.num_lock {
            bits = bits + LED_NUM_LOCK;
        }
        if self.caps_lock {
            bits = bits + LED_CAPS_LOCK;
        }
        bits
    }

    /// The LEDs that bits 0 to 2 of a byte turn on; other bits are ignored.
    pub fn from_bits(bits: u8) -> (l: Self)
        ensures
            l.scroll_lock == (bits % 2 == 1),
            l.num_lock == ((bits / 2) % 2 == 1),
            l.caps_lock == ((bits / 4) % 2 == 1),
    {
        let l = LedState {
            scroll_lock: (bits & LED_SCROLL_LOCK) != 0,
            num_lock: (bits & LED_NUM_LOCK) != 0,
            caps_lock: (bits & LED_CAPS_LOCK) != 0,
        };
        assert(((bits & 1u8) != 0) == (bits % 2 == 1)) by (bit_vector);
        assert(((bits & 2u8) != 0) == ((bits / 2) % 2 == 1)) by (bit_vector);
        assert(((bits & 4u8) != 0) == ((bits / 4) % 2 == 1)) by (bit_vector);
        l
    }
}

impl Default for LedState {
    fn default() -> (l: Self)
        ensures
            l == (LedState { scroll_lock: false, num_lock: false, caps_lock: false }),
    {
        LedState::new()
    }
}

/// Reading the LED byte back gives the same LEDs.
pub proof fn lemma_led_round_trip(l: LedState)
    ensures
        (led_bits(l) % 2 == 1) == l.scroll_lock,
        ((led_bits(l) / 2) % 2 == 1) == l.num_lock,
        ((led_bits(l) / 4) % 2 == 1) == l.caps_lock,
{
}

/// The bytes of the LED byte that say the LEDs: its low three bits.
pub proof fn lemma_led_bits_of_byte(b: u8)
    ensures
        led_bits(
            LedState {
                scroll_lock: b % 2 == 1,
                num_lock: (b / 2) % 2 == 1,
                caps_lock: (b / 4) % 2 == 1,
            },
        ) == b % 8,
{
}

/// The buffer of typed characters: a ring buffer of a fixed capacity.
#[verifier::external_body]
pub struct CharQueue {
    rb: HeapRb<char>,
}

/// The characters in a queue, oldest first.
pub uninterp spec fn queued(q: CharQueue) -> Seq<char>;

/// How many characters a queue can hold.
pub uninterp spec fn queue_capacity(q: CharQueue) -> nat;

impl CharQueue {
    /// An empty ring buffer (`HeapRb::new`, which panics on a zero capacity).
    #[verifier::external_body]
    pub(crate) fn new(capacity: usize) -> (q: Self)
        requires
            capacity > 0,
        ensures
            queued(q) == Seq::<char>::empty(),
            queue_capacity(q) == capacity,
    {
        CharQueue { rb: HeapRb::new(capacity) }
    }

    /// Appends a character unless the buffer is full (`Producer::try_push`);
    /// whether it was taken.
    #[verifier::external_body]
    pub(crate) fn try_push(&mut self, c: char) -> (ok: bool)
        ensures
            queue_capacity(*final(self)) == queue_capacity(*old(self)),
            queued(*old(self)).len() < queue_capacity(*old(self)) ==> ok && queued(*final(self))
                == queued(*old(self)).push(c),
            queued(*old(self)).len() >= queue_capacity(*old(self)) ==> !ok && queued(*final(self))
                == queued(*old(self)),
    {
        self.rb.try_push(c).is_ok()
    }

    /// Removes the oldest character (`Consumer::try_pop`).
    #[verifier::external_body]
    pub(crate) fn try_pop(&mut self) -> (r: Option<char>)
        ensures
            queue_capacity(*final(self)) == queue_capacity(*old(self)),
            queued(*old(self)).len() == 0 ==> r is None && queued(*final(self)) == queued(*old(self)),
            queued(*old(self)).len() > 0 ==> r == Some(queued(*old(self))[0]) && queued(*final(self))
                == queued(*old(self)).drop_first(),
    {
        self.rb.try_pop()
    }

    /// The oldest character, left in place (`Consumer::try_peek`).
    #[verifier::external_body]
    pub(crate) fn try_peek(&self) -> (r: Option<char>)
        ensures
            queued(*self).len() == 0 ==> r is None,
            queued(*self).len() > 0 ==> r == Some(queued(*self)[0]),
    {
        self.rb.try_peek().copied()
    }

    /// Whether nothing is queued (`Observer::is_empty`).
    #[verifier::external_body]
    pub(crate) fn is_empty(&self) -> (b: bool)
        ensures
            b == (queued(*self).len() == 0),
    {
        self.rb.is_empty()
    }

    /// The queued characters, oldest first (`Consumer::as_slices`, both halves in order).
    #[verifier::external_body]
    pub(crate) fn contents(&self) -> (v: Vec<char>)
        ensures
            v@ == queued(*self),
    {
        let (a, b) = self.rb.as_slices();
        a.iter().chain(b.iter()).copied().collect()
    }
}

/// Appends the UTF-8 bytes of a character.
pub fn push_utf8(out: &mut Vec<u8>, c: char)
    ensures
        final(out)@ == old(out)@ + encode_scalar(c as u32),
{
    let v = c as u32;
    if v <= 0x7F {
        out.push((v & 0x7F) as u8);
    } else if v <= 0x7FF {
        out.push(0xC0 | ((v >> 6) & 0x1F) as u8);
        out.push(0x80 | (v & 0x3F) as u8);
    } else if v <= 0xFFFF {
        out.push(0xE0 | ((v >> 12) & 0x0F) as u8);
        out.push(0x80 | ((v >> 6) & 0x3F) as u8);
        out.push(0x80 | (v & 0x3F) as u8);
    } else {
        out.push(0xF0 | ((v >> 18) & 0x7) as u8);
        out.push(0x80 | ((v >> 12) & 0x3F) as u8);
        out.push(0x80 | ((v >> 6) & 0x3F) as u8);
        out.push(0x80 | (v & 0x3F) as u8);
    }
    proof {
        assert(final(out)@ =~= old(out)@ + encode_scalar(c as u32));
    }
}


/// The keyboard's settings and the state of its keys.
#[derive(Debug, Clone, Copy, PartialEq, Eq, Structural)]
pub struct KeyboardInner {
    pub enabled: bool,
    pub nonblocking: bool,
    pub modifiers: ModifierState,
    pub leds: LedState,
    pub mode: KeyboardMode,
}

/// Nothing held, no lock on.
pub open spec fn no_modifiers() -> ModifierState {
    ModifierState {
        left_shift: false,
        right_shift: false,
        left_ctrl: false,
        right_ctrl: false,
        left_alt: false,
        right_alt: false,
        left_gui: false,
        right_gui: false,
        caps_lock: false,
        num_lock: false,
        scroll_lock: false,
    }
}

/// The state a keyboard starts in: enabled, blocking, nothing held, no
/// LEDs, Unicode mode.
pub open spec fn initial_state() -> KeyboardInner {
    KeyboardInner {
        enabled: true,
        nonblocking: false,
        modifiers: no_modifiers(),
        leds: LedState { scroll_lock: false, num_lock: false, caps_lock: false },
        mode: KeyboardMode::Unicode,
    }
}

/// The LEDs that the lock toggles of a modifier state light.
pub open spec fn leds_of(m: ModifierState) -> LedState {
    LedState { scroll_lock: m.scroll_lock, num_lock: m.num_lock, caps_lock: m.caps_lock }
}

/// The modifier state after a held key (shift, control, alt, GUI) went
/// down or up.
pub open spec fn held(m: ModifierState, key: ModKey, pressed: bool) -> ModifierState {
    match key {
        ModKey::LShift => ModifierState { left_shift: pressed, ..m },
        ModKey::RShift => ModifierState { right_shift: pressed, ..m },
        ModKey::LControl => ModifierState { left_ctrl: pressed, ..m },
        ModKey::RControl => ModifierState { right_ctrl: pressed, ..m },
        ModKey::LAlt => ModifierState { left_alt: pressed, ..m },
        ModKey::RAltGr => ModifierState { right_alt: pressed, ..m },
        ModKey::LWin => ModifierState { left_gui: pressed, ..m },
        ModKey::RWin => ModifierState { right_gui: pressed, ..m },
        _ => m,
    }
}

/// The modifier state after a lock key was pressed: its lock toggles.
pub open spec fn toggled(m: ModifierState, key: ModKey) -> ModifierState {
    match key {
        ModKey::CapsLock => ModifierState { caps_lock: !m.caps_lock, ..m },
        ModKey::NumpadLock => ModifierState { num_lock: !m.num_lock, ..m },
        ModKey::ScrollLock => ModifierState { scroll_lock: !m.scroll_lock, ..m },
        _ => m,
    }
}

pub open spec fn is_lock_key(key: ModKey) -> bool {
    key == ModKey::CapsLock || key == ModKey::NumpadLock || key == ModKey::ScrollLock
}

/// A key going down or up: held modifiers follow it, a lock key toggles its
/// lock when pressed (and the LEDs then follow the locks).
pub open spec fn after_key(s: KeyboardInner, key: ModKey, pressed: bool) -> KeyboardInner {
    if is_lock_key(key) {
        if pressed {
            let m2 = toggled(s.modifiers, key);
            KeyboardInner { modifiers: m2, leds: leds_of(m2), ..s }
        } else {
            s
        }
    } else {
        KeyboardInner { modifiers: held(s.modifiers, key, pressed), ..s }
    }
}

/// Whether a key event toggles a lock (and so the LEDs are sent).
pub open spec fn toggles_lock(key: ModKey, pressed: bool) -> bool {
    pressed && (key == ModKey::CapsLock || key == ModKey::NumpadLock || key == ModKey::ScrollLock)
}

/// The character a decoded key puts in the buffer in a mode: the character
/// itself in Unicode mode, the scancode in raw mode, the key code of a key
/// without a character in medium-raw mode.
pub open spec fn key_char(mode: KeyboardMode, decoded: Option<Decoded>, scancode: u8) -> Option<char> {
    match decoded {
        None => None,
        Some(d) => match mode {
            KeyboardMode::Unicode => match d {
                Decoded::Unicode(c) => Some(c),
                _ => None,
            },
            KeyboardMode::Raw => Some(scancode as char),
            KeyboardMode::MediumRaw => match d {
                Decoded::Raw(k) => Some(k as char),
                _ => None,
            },
        },
    }
}

/// How many characters from the front of `q` fit, whole, in `room` bytes of UTF-8.
pub open spec fn fit_count(q: Seq<char>, room: int) -> nat
    decreases q.len(),
{
    if q.len() == 0 || encode_scalar(q[0] as u32).len() > room {
        0
    } else {
        1 + fit_count(q.drop_first(), room - encode_scalar(q[0] as u32).len())
    }
}

impl KeyboardInner {
    /// Enabled, blocking, nothing held, no LEDs, Unicode mode.
    pub fn new() -> (s: Self)
        ensures
            s == initial_state(),
    {
        KeyboardInner {
            enabled: true,
            nonblocking: false,
            modifiers: ModifierState::new(),
            leds: LedState::new(),
            mode: KeyboardMode::Unicode,
        }
    }

    /// Sets the LEDs from the locks; gives the LED byte to send.
    fn update_leds(&mut self) -> (bits: u8)
        ensures
            *final(self) == (KeyboardInner { leds: leds_of(old(self).modifiers), ..*old(self) }),
            bits == led_bits(leds_of(old(self).modifiers)),
    {
        let leds = LedState {
            scroll_lock: self.modifiers.scroll_lock,
            num_lock: self.modifiers.num_lock,
            caps_lock: self.modifiers.caps_lock,
        };
        self.leds = leds;
        leds.to_bits()
    }

    fn held_key(&mut self, key: ModKey, pressed: bool)
        ensures
            *final(self) == (KeyboardInner { modifiers: held(old(self).modifiers, key, pressed), ..*old(self) }),
    {
        let m = self.modifiers;
        let m2 = match key {
            ModKey::LShift => ModifierState { left_shift: pressed, ..m },
            ModKey::RShift => ModifierState { right_shift: pressed, ..m },
            ModKey::LControl => ModifierState { left_ctrl: pressed, ..m },
            ModKey::RControl => ModifierState { right_ctrl: pressed, ..m },
            ModKey::LAlt => ModifierState { left_alt: pressed, ..m },
            ModKey::RAltGr => ModifierState { right_alt: pressed, ..m },
            ModKey::LWin => ModifierState { left_gui: pressed, ..m },
            ModKey::RWin => ModifierState { right_gui: pressed, ..m },
            _ => m,
        };
        self.modifiers = m2;
    }

    fn toggle_lock(&mut self, key: ModKey) -> (bits: u8)
        ensures
            *final(self) == ({
                let m2 = toggled(old(self).modifiers, key);
                KeyboardInner { modifiers: m2, leds: leds_of(m2), ..*old(self) }
            }),
            bits == led_bits(final(self).leds),
    {
        let m = self.modifiers;
        let m2 = match key {
            ModKey::CapsLock => ModifierState { caps_lock: !m.caps_lock, ..m },
            ModKey::NumpadLock => ModifierState { num_lock: !m.num_lock, ..m },
            ModKey::ScrollLock => ModifierState { scroll_lock: !m.scroll_lock, ..m },
            _ => m,
        };
        self.modifiers = m2;
        self.update_leds()
    }

    /// Follows a key going down or up; gives the LED byte to send when a lock toggled.
    pub fn update_modifier(&mut self, key: ModKey, pressed: bool) -> (leds: Option<u8>)
        ensures
            *final(self) == after_key(*old(self), key, pressed),
            toggles_lock(key, pressed) ==> leds == Some(led_bits(final(self).leds)),
            !toggles_lock(key, pressed) ==> leds is None,
    {
        if key == ModKey::CapsLock || key == ModKey::NumpadLock || key == ModKey::ScrollLock {
            if pressed {
                Some(self.toggle_lock(key))
            } else {
                None
            }
        } else {
            self.held_key(key, pressed);
            None
        }
    }
}

/// The keyboard device: its state and the buffer of typed characters.
pub struct Keyboard {
    inner: KeyboardInner,
    buffer: CharQueue,
    name: String,
}

impl Keyboard {
    pub closed spec fn state(&self) -> KeyboardInner {
        self.inner
    }

    /// The characters waiting to be read, oldest first.
    pub closed spec fn pending(&self) -> Seq<char> {
        queued(self.buffer)
    }

    pub closed spec fn capacity(&self) -> nat {
        queue_capacity(self.buffer)
    }

    pub closed spec fn spec_name(&self) -> Seq<char> {
        self.name@
    }

    /// A keyboard in its initial state with an empty buffer of
    /// [`BUFFER_SIZE`] characters, named "keyboard".
    pub fn new() -> (k: Self)
        ensures
            k.state() == initial_state(),
            k.pending() == Seq::<char>::empty(),
            k.capacity() == BUFFER_SIZE,
            k.spec_name() == "keyboard"@,
    {
        Keyboard {
            inner: KeyboardInner::new(),
            buffer: CharQueue::new(BUFFER_SIZE),
            name: String::from_str("keyboard"),
        }
    }

    /// The device's name.
    pub fn name(&self) -> (s: &str)
        ensures
            s@ == self.spec_name(),
    {
        self.name.as_str()
    }

    pub fn set_enabled(&mut self, enabled: bool)
        ensures
            final(self).state() == (KeyboardInner { enabled, ..old(self).state() }),
            final(self).pending() == old(self).pending(),
            final(self).capacity() == old(self).capacity(),
    {
        self.inner.enabled = enabled;
    }

    pub fn is_enabled(&self) -> (b: bool)
        ensures
            b == self.state().enabled,
    {
        self.inner.enabled
    }

    pub fn set_nonblocking(&mut self, nonblocking: bool)
        ensures
            final(self).state() == (KeyboardInner { nonblocking, ..old(self).state() }),
            final(self).pending() == old(self).pending(),
            final(self).capacity() == old(self).capacity(),
    {
        self.inner.nonblocking = nonblocking;
    }

    pub fn is_nonblocking(&self) -> (b: bool)
        ensures
            b == self.state().nonblocking,
    {
        self.inner.nonblocking
    }

    /// Queues a character; when the buffer is full it is dropped.
    fn push_char(&mut self, c: char)
        ensures
            final(self).state() == old(self).state(),
            final(self).capacity() == old(self).capacity(),
            final(self).pending() == (if old(self).pending().len() < old(self).capacity() {
                old(self).pending().push(c)
            } else {
                old(self).pending()
            }),
    {
        let _ = self.buffer.try_push(c);
    }

    /// What handling `scancode`, decoded as `event`, does: a disabled
    /// keyboard, or a scancode that completes no event, changes nothing;
    /// otherwise the modifiers follow the key and the character that the mode
    /// asks for is queued, and the LED byte comes back when a lock toggled.
    pub open spec fn handles(self, after: Self, scancode: u8, event: Option<KeyInput>, leds: Option<u8>) -> bool {
        &&& after.capacity() == self.capacity()
        &&& !self.state().enabled || event is None ==> after.state() == self.state()
            && after.pending() == self.pending() && leds is None
        &&& self.state().enabled && event is Some ==> {
            let ev = event->0;
            let s = after_key(self.state(), ev.key, ev.pressed);
            &&& after.state() == s
            &&& toggles_lock(ev.key, ev.pressed) ==> leds == Some(led_bits(s.leds))
            &&& !toggles_lock(ev.key, ev.pressed) ==> leds is None
            &&& after.pending() == match key_char(s.mode, ev.decoded, scancode) {
                Some(c) => if self.pending().len() < self.capacity() {
                    self.pending().push(c)
                } else {
                    self.pending()
                },
                None => self.pending(),
            }
        }
    }

    /// Handles a scancode from the keyboard: decodes it with `dec` (only
    /// when the keyboard is enabled) and handles the event it completes, as
    /// [`Self::handles`] says. Gives the LED byte to send when a lock toggled.
    pub fn handle_scancode_byte(&mut self, dec: &mut ScancodeDecoder, scancode: u8) -> (leds: Option<u8>)
        ensures
            !old(self).state().enabled ==> *final(dec) == *old(dec) && *final(self) == *old(self)
                && leds is None,
            old(self).state().enabled ==> {
                &&& final(dec).fed() == old(dec).fed().push(scancode)
                &&& final(dec).events().len() == old(dec).events().len() + 1
                &&& final(dec).events().drop_last() == old(dec).events()
                &&& old(self).handles(*final(self), scancode, final(dec).events().last(), leds)
                &&& final(dec).reports().drop_last() == old(dec).reports()
                &&& (final(dec).events().last() is None <==> final(dec).reports().last() is None)
                &&& (final(dec).events().last() matches Some(k) ==> final(dec).reports().last() == Some(
                    (k.key, k.pressed),
                ))
            },
            events_match_reports(old(dec).reports(), old(dec).events()) ==> events_match_reports(
                final(dec).reports(),
                final(dec).events(),
            ),
    {
        if !self.inner.enabled {
            proof {
                assert(old(self).handles(*self, scancode, None, None));
            }
            return None;
        }
        let event = decode_scancode(dec, scancode);
        let leds = self.handle_scancode(scancode, event);
        proof {
            assert(dec.events().drop_last() =~= old(dec).events());
        }
        leds
    }

    /// Handles a scancode, with the key event that the layout decoder made of
    /// it (if any), as [`Self::handles`] says.
    pub fn handle_scancode(&mut self, scancode: u8, event: Option<KeyInput>) -> (leds: Option<u8>)
        ensures
            old(self).handles(*final(self), scancode, event, leds),
    {
        if !self.inner.enabled {
            return None;
        }
        let ev = match event {
            Some(ev) => ev,
            None => return None,
        };
        let leds = self.inner.update_modifier(ev.key, ev.pressed);
        let c = match ev.decoded {
            None => None,
            Some(d) => match self.inner.mode {
                KeyboardMode::Unicode => match d {
                    Decoded::Unicode(c) => Some(c),
                    _ => None,
                },
                KeyboardMode::Raw => Some(scancode as char),
                KeyboardMode::MediumRaw => match d {
                    Decoded::Raw(k) => Some(k as char),
                    _ => None,
                },
            },
        };
        if let Some(c) = c {
            self.push_char(c);
        }
        leds
    }

    pub fn get_modifier_state(&self) -> (m: ModifierState)
        ensures
            m == self.state().modifiers,
    {
        self.inner.modifiers
    }

    /// Sets the LEDs and the locks they show; gives the LED byte to send.
    pub fn set_led_state(&mut self, leds: LedState) -> (bits: u8)
        ensures
            final(self).state() == (KeyboardInner {
                leds,
                modifiers: ModifierState {
                    scroll_lock: leds.scroll_lock,
                    num_lock: leds.num_lock,
                    caps_lock: leds.caps_lock,
                    ..old(self).state().modifiers
                },
                ..old(self).state()
            }),
            bits == led_bits(leds),
            final(self).pending() == old(self).pending(),
            final(self).capacity() == old(self).capacity(),
    {
        let m = ModifierState {
            scroll_lock: leds.scroll_lock,
            num_lock: leds.num_lock,
            caps_lock: leds.caps_lock,
            ..self.inner.modifiers
        };
        self.inner = KeyboardInner { leds, modifiers: m, ..self.inner };
        self.inner.update_leds()
    }

    pub fn get_led_state(&self) -> (l: LedState)
        ensures
            l == self.state().leds,
    {
        self.inner.leds
    }

    /// Drops every queued character.
    pub fn clear_buffer(&mut self)
        ensures
            final(self).state() == old(self).state(),
            final(self).pending() == Seq::<char>::empty(),
            final(self).capacity() == old(self).capacity(),
    {
        while !self.buffer.is_empty()
            invariant
                self.inner == old(self).inner,
                queue_capacity(self.buffer) == old(self).capacity(),
            decreases queued(self.buffer).len(),
        {
            let _ = self.buffer.try_pop();
        }
    }

    pub fn set_mode(&mut self, mode: KeyboardMode)
        ensures
            final(self).state() == (KeyboardInner { mode, ..old(self).state() }),
            final(self).pending() == old(self).pending(),
            final(self).capacity() == old(self).capacity(),
    {
        self.inner.mode = mode;
    }

    pub fn get_mode(&self) -> (m: KeyboardMode)
        ensures
            m == self.state().mode,
    {
        self.inner.mode
    }

    /// Whether characters are waiting.
    pub fn has_data(&self) -> (b: bool)
        ensures
            b == (self.pending().len() > 0),
    {
        !self.buffer.is_empty()
    }

    /// The keyboard cannot be written to.
    pub fn write(&self, buf: &[u8]) -> (r: Result<usize, DeviceError>)
        ensures
            r == Err::<usize, DeviceError>(DeviceError::NotSupported),
    {
        Err(DeviceError::NotSupported)
    }
}


/// Encoding is done character by character.
pub proof fn lemma_encode_append(a: Seq<char>, b: Seq<char>)
    ensures
        encode_utf8(a + b) == encode_utf8(a) + encode_utf8(b),
    decreases a.len(),
{
    if a.len() == 0 {
        assert(a + b =~= b);
        assert(encode_utf8(a) =~= Seq::<u8>::empty());
        assert(encode_utf8(a) + encode_utf8(b) =~= encode_utf8(b));
    } else {
        assert((a + b).drop_first() =~= a.drop_first() + b);
        lemma_encode_append(a.drop_first(), b);
        assert(encode_utf8(a + b) =~= encode_utf8(a) + encode_utf8(b));
    }
}

proof fn lemma_encode_one(c: char)
    ensures
        encode_utf8(seq![c]) == encode_scalar(c as u32),
{
    let s = seq![c];
    assert(s.drop_first() =~= Seq::<char>::empty());
    assert(encode_utf8(s.drop_first()) =~= Seq::<u8>::empty());
    assert(encode_utf8(s) =~= encode_scalar(c as u32) + Seq::<u8>::empty());
    assert(encode_scalar(c as u32) + Seq::<u8>::empty() =~= encode_scalar(c as u32));
}

proof fn lemma_encode_take_step(q: Seq<char>, k: int)
    requires
        0 <= k < q.len(),
    ensures
        encode_utf8(q.take(k + 1)) == encode_utf8(q.take(k)) + encode_scalar(q[k] as u32),
{
    assert(q.take(k + 1) =~= q.take(k) + seq![q[k]]);
    lemma_encode_append(q.take(k), seq![q[k]]);
    lemma_encode_one(q[k]);
}

/// What reading with room for `room` bytes takes: the characters that fit
/// whole, and their bytes.
pub open spec fn read_bytes(q: Seq<char>, room: int) -> Seq<u8> {
    encode_utf8(q.take(fit_count(q, room) as int))
}

proof fn lemma_fit_count_bound(q: Seq<char>, room: int)
    ensures
        fit_count(q, room) <= q.len(),
        encode_utf8(q.take(fit_count(q, room) as int)).len() <= (if room > 0 { room } else { 0 }),
    decreases q.len(),
{
    if q.len() > 0 && encode_scalar(q[0] as u32).len() <= room {
        let c = encode_scalar(q[0] as u32).len();
        lemma_fit_count_bound(q.drop_first(), room - c);
        let k = fit_count(q, room) as int;
        assert(q.take(k) =~= seq![q[0]] + q.drop_first().take(k - 1));
        lemma_encode_append(seq![q[0]], q.drop_first().take(k - 1));
        lemma_encode_one(q[0]);
    } else {
        assert(q.take(0) =~= Seq::<char>::empty());
    }
}

proof fn lemma_fit_count_step(q: Seq<char>, k: int, room: int)
    requires
        0 <= k < q.len(),
        fit_count(q.skip(k), room) > 0,
    ensures
        fit_count(q.skip(k), room) == 1 + fit_count(q.skip(k + 1), room - encode_scalar(q[k] as u32).len()),
        encode_scalar(q[k] as u32).len() <= room,
{
    assert(q.skip(k).drop_first() =~= q.skip(k + 1));
}

pub open spec fn ioctl_leds(s: KeyboardInner, leds: LedState) -> KeyboardInner {
    KeyboardInner {
        leds,
        modifiers: ModifierState {
            scroll_lock: leds.scroll_lock,
            num_lock: leds.num_lock,
            caps_lock: leds.caps_lock,
            ..s.modifiers
        },
        ..s
    }
}

impl Keyboard {
    /// Reads typed characters into `buf` as UTF-8: as many whole characters
    /// as fit, oldest first, taking them from the buffer. Nothing to give is
    /// an error: at once in non-blocking mode, or when nothing fit in a
    /// non-empty `buf`.
    pub fn read(&mut self, buf: &mut [u8]) -> (r: Result<usize, DeviceError>)
        ensures
            final(self).state() == old(self).state(),
            final(self).capacity() == old(self).capacity(),
            ({
                let q = old(self).pending();
                let k = fit_count(q, old(buf)@.len() as int);
                let bytes = read_bytes(q, old(buf)@.len() as int);
                if old(self).state().nonblocking && q.len() == 0 {
                    r == Err::<usize, DeviceError>(DeviceError::WouldBlock) && final(self).pending() == q
                        && final(buf)@ == old(buf)@
                } else if k == 0 && old(buf)@.len() > 0 {
                    r == Err::<usize, DeviceError>(DeviceError::WouldBlock) && final(self).pending() == q
                        && final(buf)@ == old(buf)@
                } else {
                    &&& r == Ok::<usize, DeviceError>(bytes.len() as usize)
                    &&& final(self).pending() == q.skip(k as int)
                    &&& final(buf)@ == bytes + old(buf)@.skip(bytes.len() as int)
                }
            }),
    {
        let ghost q = self.pending();
        let ghost room = buf@.len() as int;
        proof {
            lemma_fit_count_bound(q, room);
            assert(q.skip(0) =~= q);
            assert(q.take(0) =~= Seq::<char>::empty());
        }
        if self.inner.nonblocking && self.buffer.is_empty() {
            return Err(DeviceError::WouldBlock);
        }
        let n = buf.len();
        let mut count: usize = 0;
        let ghost mut k: int = 0;
        loop
            invariant
                self.inner == old(self).inner,
                queue_capacity(self.buffer) == old(self).capacity(),
                q == old(self).pending(),
                n == buf@.len(),
                n == room,
                0 <= k <= q.len(),
                queued(self.buffer) == q.skip(k),
                count == encode_utf8(q.take(k)).len(),
                count <= n,
                fit_count(q, room) == k + fit_count(q.skip(k), room - count),
                forall|j: int| 0 <= j < count ==> buf@[j] == encode_utf8(q.take(k))[j],
                forall|j: int| count <= j < n ==> buf@[j] == old(buf)@[j],
            ensures
                queued(self.buffer) == q.skip(k),
                k == fit_count(q, room),
                count == encode_utf8(q.take(k)).len(),
                n == buf@.len(),
                forall|j: int| 0 <= j < count ==> buf@[j] == encode_utf8(q.take(k))[j],
                forall|j: int| count <= j < n ==> buf@[j] == old(buf)@[j],
                self.inner == old(self).inner,
                queue_capacity(self.buffer) == old(self).capacity(),
            decreases q.len() - k,
        {
            if count >= n {
                proof {
                    if q.skip(k).len() > 0 {
                        assert(encode_scalar(q.skip(k)[0] as u32).len() > 0);
                    }
                }
                break;
            }
            let c = match self.buffer.try_peek() {
                Some(c) => c,
                None => {
                    break;
                },
            };
            let mut bytes: Vec<u8> = Vec::new();
            push_utf8(&mut bytes, c);
            proof {
                assert(q.skip(k)[0] == q[k]);
                assert(bytes@ =~= encode_scalar(q[k] as u32));
            }
            if bytes.len() > n - count {
                break;
            }
            proof {
                lemma_fit_count_step(q, k, room - count);
                lemma_encode_take_step(q, k);
            }
            let mut i: usize = 0;
            while i < bytes.len()
                invariant
                    n == buf@.len(),
                    count + bytes@.len() <= n,
                    i <= bytes@.len(),
                    forall|j: int| 0 <= j < count ==> buf@[j] == encode_utf8(q.take(k))[j],
                    forall|j: int| 0 <= j < i ==> buf@[count + j] == bytes@[j],
                    forall|j: int| count + i <= j < n ==> buf@[j] == old(buf)@[j],
                decreases bytes@.len() - i,
            {
                buf[count + i] = bytes[i];
                i = i + 1;
            }
            let _ = self.buffer.try_pop();
            proof {
                assert(q.skip(k).drop_first() =~= q.skip(k + 1));
                let e1 = encode_utf8(q.take(k + 1));
                assert forall|j: int| 0 <= j < count + bytes@.len() implies buf@[j] == e1[j] by {
                    if j < count {
                    } else {
                        assert(buf@[count + (j - count)] == bytes@[j - count]);
                    }
                }
                k = k + 1;
            }
            count = count + bytes.len();
        }
        proof {
            lemma_fit_count_bound(q, room);
        }
        if count == 0 && n > 0 {
            return Err(DeviceError::WouldBlock);
        }
        proof {
            assert(buf@ =~= read_bytes(q, room) + old(buf)@.skip(count as int));
        }
        Ok(count)
    }

    /// Handles a control request; gives its answer and the LED byte to send
    /// when the LEDs were set.
    #[verifier::rlimit(50)]
    pub fn ioctl(&mut self, cmd: u64, arg: u64) -> (r: (Result<u64, DeviceError>, Option<u8>))
        ensures
            final(self).capacity() == old(self).capacity(),
            cmd == KDGETLED || cmd == KDGKBLED ==> r == (Ok::<u64, DeviceError>(led_bits(old(self).state().leds) as u64), None::<u8>)
                && final(self).state() == old(self).state() && final(self).pending() == old(self).pending(),
            cmd == KDSETLED || cmd == KDSKBLED ==> ({
                let leds = LedState {
                    scroll_lock: (arg as u8) % 2 == 1,
                    num_lock: ((arg as u8) / 2) % 2 == 1,
                    caps_lock: ((arg as u8) / 4) % 2 == 1,
                };
                &&& r == (Ok::<u64, DeviceError>(0), Some(led_bits(leds)))
                &&& final(self).state() == ioctl_leds(old(self).state(), leds)
                &&& final(self).pending() == old(self).pending()
            }),
            cmd == KDGKBMODE ==> r == (Ok::<u64, DeviceError>(mode_number(old(self).state().mode)), None::<u8>)
                && final(self).state() == old(self).state() && final(self).pending() == old(self).pending(),
            cmd == KDSKBMODE && arg <= 2 ==> r == (Ok::<u64, DeviceError>(0), None::<u8>)
                && mode_number(final(self).state().mode) == arg
                && final(self).state() == (KeyboardInner { mode: final(self).state().mode, ..old(self).state() })
                && final(self).pending() == old(self).pending(),
            cmd == KDSKBMODE && arg > 2 ==> r == (Err::<u64, DeviceError>(DeviceError::InvalidParam), None::<u8>)
                && final(self).state() == old(self).state() && final(self).pending() == old(self).pending(),
            cmd == KB_ENABLE ==> r == (Ok::<u64, DeviceError>(0), None::<u8>)
                && final(self).state() == (KeyboardInner { enabled: true, ..old(self).state() })
                && final(self).pending() == old(self).pending(),
            cmd == KB_DISABLE ==> r == (Ok::<u64, DeviceError>(0), None::<u8>)
                && final(self).state() == (KeyboardInner { enabled: false, ..old(self).state() })
                && final(self).pending() == old(self).pending(),
            cmd == KB_CLEAR_BUFFER ==> r == (Ok::<u64, DeviceError>(0), None::<u8>)
                && final(self).state() == old(self).state() && final(self).pending() == Seq::<char>::empty(),
            !(cmd == KDGETLED || cmd == KDGKBLED || cmd == KDSETLED || cmd == KDSKBLED || cmd == KDGKBMODE
                || cmd == KDSKBMODE || cmd == KB_ENABLE || cmd == KB_DISABLE || cmd == KB_CLEAR_BUFFER)
                ==> r == (Err::<u64, DeviceError>(DeviceError::NotSupported), None::<u8>)
                && final(self).state() == old(self).state() && final(self).pending() == old(self).pending(),
    {
        if cmd == KDGETLED || cmd == KDGKBLED {
            let leds = self.get_led_state();
            (Ok(leds.to_bits() as u64), None)
        } else if cmd == KDSETLED || cmd == KDSKBLED {
            let leds = LedState::from_bits(arg as u8);
            let bits = self.set_led_state(leds);
            (Ok(0), Some(bits))
        } else if cmd == KDGKBMODE {
            let mode = self.get_mode();
            (Ok(mode.number()), None)
        } else if cmd == KDSKBMODE {
            let mode = if arg == 0 {
                KeyboardMode::Raw
            } else if arg == 1 {
                KeyboardMode::MediumRaw
            } else if arg == 2 {
                KeyboardMode::Unicode
            } else {
                return (Err(DeviceError::InvalidParam), None);
            };
            self.set_mode(mode);
            (Ok(0), None)
        } else if cmd == KB_ENABLE {
            self.set_enabled(true);
            (Ok(0), None)
        } else if cmd == KB_DISABLE {
            self.set_enabled(false);
            (Ok(0), None)
        } else if cmd == KB_CLEAR_BUFFER {
            self.clear_buffer();
            (Ok(0), None)
        } else {
            (Err(DeviceError::NotSupported), None)
        }
    }
}


impl Keyboard {
    /// Copies typed characters into `buf` as UTF-8, as many whole ones as
    /// fit, leaving them queued; an empty buffer is an error.
    pub fn peek(&self, buf: &mut [u8]) -> (r: Result<usize, DeviceError>)
        ensures
            ({
                let q = self.pending();
                let bytes = read_bytes(q, old(buf)@.len() as int);
                if q.len() == 0 {
                    r == Err::<usize, DeviceError>(DeviceError::WouldBlock) && final(buf)@ == old(buf)@
                } else {
                    r == Ok::<usize, DeviceError>(bytes.len() as usize) && final(buf)@ == bytes
                        + old(buf)@.skip(bytes.len() as int)
                }
            }),
    {
        if self.buffer.is_empty() {
            return Err(DeviceError::WouldBlock);
        }
        let chars = self.buffer.contents();
        let ghost q = chars@;
        let ghost room = buf@.len() as int;
        proof {
            lemma_fit_count_bound(q, room);
            assert(q.skip(0) =~= q);
            assert(q.take(0) =~= Seq::<char>::empty());
        }
        let n = buf.len();
        let mut count: usize = 0;
        let mut k: usize = 0;
        while k < chars.len()
            invariant_except_break
                fit_count(q, room) == k + fit_count(q.skip(k as int), room - count),
            invariant
                q == chars@,
                q == self.pending(),
                n == buf@.len(),
                n == room,
                0 <= k <= q.len(),
                count == encode_utf8(q.take(k as int)).len(),
                count <= n,
                forall|j: int| 0 <= j < count ==> buf@[j] == encode_utf8(q.take(k as int))[j],
                forall|j: int| count <= j < n ==> buf@[j] == old(buf)@[j],
            ensures
                k == fit_count(q, room),
            decreases q.len() - k,
        {
            let c = chars[k];
            let mut bytes: Vec<u8> = Vec::new();
            push_utf8(&mut bytes, c);
            proof {
                assert(q.skip(k as int)[0] == q[k as int]);
            }
            if bytes.len() > n - count {
                break;
            }
            proof {
                lemma_fit_count_step(q, k as int, room - count);
                lemma_encode_take_step(q, k as int);
            }
            let mut i: usize = 0;
            while i < bytes.len()
                invariant
                    n == buf@.len(),
                    count + bytes@.len() <= n,
                    i <= bytes@.len(),
                    forall|j: int| 0 <= j < count ==> buf@[j] == encode_utf8(q.take(k as int))[j],
                    forall|j: int| 0 <= j < i ==> buf@[count + j] == bytes@[j],
                    forall|j: int| count + i <= j < n ==> buf@[j] == old(buf)@[j],
                decreases bytes@.len() - i,
            {
                buf[count + i] = bytes[i];
                i = i + 1;
            }
            proof {
                let e1 = encode_utf8(q.take(k + 1));
                assert forall|j: int| 0 <= j < count + bytes@.len() implies buf@[j] == e1[j] by {
                    if j >= count {
                        assert(buf@[count + (j - count)] == bytes@[j - count]);
                    }
                }
                assert(q.skip(k as int).drop_first() =~= q.skip(k + 1));
            }
            count = count + bytes.len();
            k = k + 1;
        }
        proof {
            lemma_fit_count_bound(q, room);
            assert(buf@ =~= read_bytes(q, room) + old(buf)@.skip(count as int));
        }
        Ok(count)
    }
}


/// Pressing a lock key twice leaves the locks and LEDs as they were (when
/// the LEDs showed the locks to begin with).
pub proof fn lemma_lock_twice(s: KeyboardInner, key: ModKey)
    requires
        is_lock_key(key),
        s.leds == leds_of(s.modifiers),
    ensures
        after_key(after_key(s, key, true), key, true) == s,
{
}

/// Releasing keys never touches the locks or the LEDs.
pub proof fn lemma_release_keeps_locks(s: KeyboardInner, key: ModKey)
    ensures
        after_key(s, key, false).leds == s.leds,
        after_key(s, key, false).modifiers.caps_lock == s.modifiers.caps_lock,
        after_key(s, key, false).modifiers.num_lock == s.modifiers.num_lock,
        after_key(s, key, false).modifiers.scroll_lock == s.modifiers.scroll_lock,
{
}

} // verus!
