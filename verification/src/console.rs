//! The text console's choice of font and its reading of ANSI colour escapes.

use vstd::prelude::*;
use crate::color::Color;

verus! {

/// The kinds of console.
#[derive(Debug, Clone, Copy, PartialEq, Eq, Structural)]
pub enum ConsoleType {
    /// Drawn with the built-in bitmap font.
    Bitfont,
    /// Drawn with a TrueType font.
    Ttf,
}

/// The console named in the configuration: `ttf` chooses the TrueType
/// console; any other name the bitmap-font console.
pub fn console_type_for(name: &str) -> (t: ConsoleType)
    ensures
        t == (if name@ == seq!['t', 't', 'f'] {
            ConsoleType::Ttf
        } else {
            ConsoleType::Bitfont
        }),
{
    let ttf = "ttf";
    proof {
        reveal_strlit("ttf");
        assert(ttf@ =~= seq!['t', 't', 'f']);
    }
    match crate::fs::names::compare_names(name, ttf) {
        crate::fs::names::NameOrder::Equal => ConsoleType::Ttf,
        _ => ConsoleType::Bitfont,
    }
}

/// An opaque colour.
pub open spec fn rgb(r: u8, g: u8, b: u8) -> Color {
    Color { r, g, b, a: 255 }
}

/// The colour that an SGR code names, if it names one.
pub open spec fn ansi_color(code: u32) -> Option<Color> {
    if code == 30 || code == 40 {
        Some(rgb(0, 0, 0))
    } else if code == 31 || code == 41 {
        Some(rgb(255, 0, 0))
    } else if code == 32 || code == 42 {
        Some(rgb(0, 255, 0))
    } else if code == 33 || code == 43 {
        Some(rgb(255, 255, 0))
    } else if code == 34 || code == 44 {
        Some(rgb(0, 0, 255))
    } else if code == 35 || code == 45 {
        Some(rgb(255, 0, 255))
    } else if code == 36 || code == 46 {
        Some(rgb(0, 255, 255))
    } else if code == 37 || code == 47 {
        Some(rgb(255, 255, 255))
    } else if code == 90 {
        Some(rgb(128, 128, 128))
    } else if code == 91 {
        Some(rgb(255, 100, 100))
    } else if code == 92 {
        Some(rgb(100, 255, 100))
    } else if code == 93 {
        Some(rgb(255, 255, 100))
    } else if code == 94 {
        Some(rgb(100, 100, 255))
    } else if code == 95 {
        Some(rgb(255, 100, 255))
    } else if code == 96 {
        Some(rgb(100, 255, 255))
    } else if code == 97 {
        Some(rgb(255, 255, 255))
    } else if code == 100 {
        Some(rgb(64, 64, 64))
    } else if code == 101 {
        Some(rgb(150, 0, 0))
    } else if code == 102 {
        Some(rgb(0, 150, 0))
    } else if code == 103 {
        Some(rgb(150, 150, 0))
    } else if code == 104 {
        Some(rgb(0, 0, 150))
    } else if code == 105 {
        Some(rgb(150, 0, 150))
    } else if code == 106 {
        Some(rgb(0, 150, 150))
    } else if code == 107 {
        Some(rgb(150, 150, 150))
    } else {
        None
    }
}

/// The colour that an SGR code names, if it names one.
pub fn ansi_code_to_color(code: u32) -> (c: Option<Color>)
    ensures
        c == ansi_color(code),
{
    let (r, g, b): (u8, u8, u8) = if code == 30 || code == 40 {
        (0, 0, 0)
    } else if code == 31 || code == 41 {
        (255, 0, 0)
    } else if code == 32 || code == 42 {
        (0, 255, 0)
    } else if code == 33 || code == 43 {
        (255, 255, 0)
    } else if code == 34 || code == 44 {
        (0, 0, 255)
    } else if code == 35 || code == 45 {
        (255, 0, 255)
    } else if code == 36 || code == 46 {
        (0, 255, 255)
    } else if code == 37 || code == 47 {
        (255, 255, 255)
    } else if code == 90 {
        (128, 128, 128)
    } else if code == 91 {
        (255, 100, 100)
    } else if code == 92 {
        (100, 255, 100)
    } else if code == 93 {
        (255, 255, 100)
    } else if code == 94 {
        (100, 100, 255)
    } else if code == 95 {
        (255, 100, 255)
    } else if code == 96 {
        (100, 255, 255)
    } else if code == 97 {
        (255, 255, 255)
    } else if code == 100 {
        (64, 64, 64)
    } else if code == 101 {
        (150, 0, 0)
    } else if code == 102 {
        (0, 150, 0)
    } else if code == 103 {
        (150, 150, 0)
    } else if code == 104 {
        (0, 0, 150)
    } else if code == 105 {
        (150, 0, 150)
    } else if code == 106 {
        (0, 150, 150)
    } else if code == 107 {
        (150, 150, 150)
    } else {
        return None;
    };
    Some(Color::new(r, g, b))
}

/// The colours after one SGR code: 0 restores both defaults, 39 and 49
/// restore one, 30–37 and 90–97 set the foreground, 40–47 and 100–107 the
/// background; any other code changes nothing.
pub open spec fn apply_code(fg: Color, bg: Color, code: u32, dfg: Color, dbg: Color) -> (
    Color,
    Color,
) {
    if code == 0 {
        (dfg, dbg)
    } else if (30 <= code <= 37 || 90 <= code <= 97) {
        (ansi_color(code).unwrap(), bg)
    } else if code == 39 {
        (dfg, bg)
    } else if (40 <= code <= 47 || 100 <= code <= 107) {
        (fg, ansi_color(code).unwrap())
    } else if code == 49 {
        (fg, dbg)
    } else {
        (fg, bg)
    }
}

/// The colours after a run of SGR codes, applied in order.
pub open spec fn apply_codes(fg: Color, bg: Color, codes: Seq<u32>, dfg: Color, dbg: Color) -> (
    Color,
    Color,
)
    decreases codes.len(),
{
    if codes.len() == 0 {
        (fg, bg)
    } else {
        let (f, b) = apply_code(fg, bg, codes[0], dfg, dbg);
        apply_codes(f, b, codes.drop_first(), dfg, dbg)
    }
}

/// The foreground and background colours of console text.
#[derive(Debug, Clone, Copy, PartialEq, Eq, Structural)]
pub struct TextColors {
    pub fg: Color,
    pub bg: Color,
}

impl TextColors {
    /// Applies an SGR sequence's codes; an empty sequence restores both defaults.
    pub fn apply_ansi_codes(&mut self, codes: &[u32], dfg: Color, dbg: Color)
        ensures
            codes@.len() == 0 ==> final(self).fg == dfg && final(self).bg == dbg,
            codes@.len() > 0 ==> (final(self).fg, final(self).bg) == apply_codes(
                old(self).fg,
                old(self).bg,
                codes@,
                dfg,
                dbg,
            ),
    {
        if codes.len() == 0 {
            self.fg = dfg;
            self.bg = dbg;
            return ;
        }
        let mut i: usize = 0;
        proof {
            assert(codes@.skip(0) =~= codes@);
        }
        while i < codes.len()
            invariant
                i <= codes@.len(),
                apply_codes(old(self).fg, old(self).bg, codes@, dfg, dbg) == apply_codes(
                    self.fg,
                    self.bg,
                    codes@.skip(i as int),
                    dfg,
                    dbg,
                ),
            decreases codes@.len() - i,
        {
            let code = codes[i];
            proof {
                assert(codes@.skip(i as int)[0] == code);
                assert(codes@.skip(i as int).drop_first() =~= codes@.skip(i + 1));
            }
            if code == 0 {
                self.fg = dfg;
                self.bg = dbg;
            } else if (30 <= code && code <= 37) || (90 <= code && code <= 97) {
                match ansi_code_to_color(code) {
                    Some(c) => {
                        self.fg = c;
                    },
                    None => {},
                }
            } else if code == 39 {
                self.fg = dfg;
            } else if (40 <= code && code <= 47) || (100 <= code && code <= 107) {
                match ansi_code_to_color(code) {
                    Some(c) => {
                        self.bg = c;
                    },
                    None => {},
                }
            } else if code == 49 {
                self.bg = dbg;
            }
            i = i + 1;
        }
        proof {
            assert(codes@.skip(i as int) =~= Seq::<u32>::empty());
        }
    }
}

/// The most parameters an escape sequence keeps.
pub const MAX_ANSI_PARAMS: usize = 8;

/// Where the parser is in an escape sequence.
#[derive(Debug, Clone, Copy, PartialEq, Eq, Structural)]
pub enum AnsiState {
    /// Ordinary text.
    Normal,
    /// After an escape character.
    Escape,
    /// Inside a control sequence (after `ESC [`).
    Csi,
}

/// What a character fed to the parser amounts to.
#[derive(Debug, PartialEq, Eq)]
pub enum AnsiEvent {
    /// Nothing to draw or do.
    Nothing,
    /// A character of text.
    Text(char),
    /// A finished `m` sequence with its parameters.
    Sgr(Vec<u32>),
}

/// A reader of ANSI escape sequences.
pub struct AnsiParser {
    state: AnsiState,
    params: Vec<u32>,
    count: usize,
    has_digit: bool,
}

/// A parameter after one more decimal digit, wrapping as machine words do.
pub open spec fn push_digit(p: u32, d: u32) -> u32 {
    ((p * 10) % 0x1_0000_0000 + d) as u32
}

impl AnsiParser {
    /// The parser's state.
    pub closed spec fn state(&self) -> AnsiState {
        self.state
    }

    /// The parameters read so far in a control sequence.
    pub closed spec fn params(&self) -> Seq<u32> {
        self.params@
    }

    /// The index of the parameter being read.
    pub closed spec fn count(&self) -> nat {
        self.count as nat
    }

    /// Whether the parameter being read has a digit yet.
    pub closed spec fn has_digit(&self) -> bool {
        self.has_digit
    }

    pub closed spec fn wf(&self) -> bool {
        self.params@.len() == MAX_ANSI_PARAMS && self.count < MAX_ANSI_PARAMS
    }

    pub fn new() -> (p: Self)
        ensures
            p.wf(),
            p.state() == AnsiState::Normal,
    {
        AnsiParser {
            state: AnsiState::Normal,
            params: vec![0u32, 0, 0, 0, 0, 0, 0, 0],
            count: 0,
            has_digit: false,
        }
    }

    /// Reads one character. In text, an escape character starts a
    /// sequence and anything else is text. After an escape, `[` opens a
    /// control sequence with its parameters cleared; anything else is text
    /// again. In a control sequence digits build the current parameter, `;`
    /// moves to the next one (the eighth is the last), `m` ends the sequence
    /// with the parameters read (none when nothing was given), and anything
    /// else abandons the sequence.
    pub fn feed(&mut self, c: char) -> (e: AnsiEvent)
        requires
            old(self).wf(),
        ensures
            final(self).wf(),
            old(self).state() == AnsiState::Normal ==> if c == '\x1b' {
                e == AnsiEvent::Nothing && final(self).state() == AnsiState::Escape
            } else {
                e == AnsiEvent::Text(c) && final(self).state() == AnsiState::Normal
            },
            old(self).state() == AnsiState::Escape ==> if c == '[' {
                &&& e == AnsiEvent::Nothing
                &&& final(self).state() == AnsiState::Csi
                &&& final(self).params() == Seq::new(8, |k: int| 0u32)
                &&& final(self).count() == 0
                &&& !final(self).has_digit()
            } else {
                e == AnsiEvent::Text(c) && final(self).state() == AnsiState::Normal
            },
            old(self).state() == AnsiState::Csi ==> {
                if '0' <= c <= '9' {
                    &&& e == AnsiEvent::Nothing
                    &&& final(self).state() == AnsiState::Csi
                    &&& final(self).params() == old(self).params().update(
                        old(self).count() as int,
                        push_digit(old(self).params()[old(self).count() as int], (c as u32 - 48) as u32),
                    )
                    &&& final(self).count() == old(self).count()
                    &&& final(self).has_digit()
                } else if c == ';' {
                    &&& e == AnsiEvent::Nothing
                    &&& final(self).state() == AnsiState::Csi
                    &&& final(self).params() == old(self).params()
                    &&& if old(self).count() + 1 < MAX_ANSI_PARAMS {
                        final(self).count() == old(self).count() + 1 && !final(self).has_digit()
                    } else {
                        final(self).count() == old(self).count() && final(self).has_digit()
                            == old(self).has_digit()
                    }
                } else if c == 'm' {
                    let n = if old(self).has_digit() || old(self).count() > 0 {
                        old(self).count() + 1
                    } else {
                        0
                    };
                    &&& e matches AnsiEvent::Sgr(v) && v@ == old(self).params().take(n as int)
                    &&& final(self).state() == AnsiState::Normal
                } else {
                    e == AnsiEvent::Nothing && final(self).state() == AnsiState::Normal
                }
            },
    {
        match self.state {
            AnsiState::Normal => {
                if c == '\x1b' {
                    self.state = AnsiState::Escape;
                    AnsiEvent::Nothing
                } else {
                    AnsiEvent::Text(c)
                }
            },
            AnsiState::Escape => {
                if c == '[' {
                    self.state = AnsiState::Csi;
                    self.params = vec![0u32, 0, 0, 0, 0, 0, 0, 0];
                    self.count = 0;
                    self.has_digit = false;
                    proof {
                        assert(self.params@ =~= Seq::new(8, |k: int| 0u32));
                    }
                    AnsiEvent::Nothing
                } else {
                    self.state = AnsiState::Normal;
                    AnsiEvent::Text(c)
                }
            },
            AnsiState::Csi => {
                if '0' <= c && c <= '9' {
                    let d = (c as u32) - 48;
                    let p = self.params[self.count];
                    let v = p.wrapping_mul(10).wrapping_add(d);
                    proof {
                        assert(v == push_digit(p, d)) by (bit_vector)
                            requires
                                v == ((p * 10) % 0x1_0000_0000 + d) % 0x1_0000_0000,
                        ;
                    }
                    self.params.set(self.count, v);
                    self.has_digit = true;
                    AnsiEvent::Nothing
                } else if c == ';' {
                    if self.count + 1 < MAX_ANSI_PARAMS {
                        self.count = self.count + 1;
                        self.has_digit = false;
                    }
                    AnsiEvent::Nothing
                } else if c == 'm' {
                    let n = if self.has_digit || self.count > 0 {
                        self.count + 1
                    } else {
                        0
                    };
                    let mut v: Vec<u32> = Vec::new();
                    let mut i: usize = 0;
                    while i < n
                        invariant
                            self.wf(),
                            n <= MAX_ANSI_PARAMS,
                            i <= n,
                            v@ == self.params@.take(i as int),
                        decreases n - i,
                    {
                        v.push(self.params[i]);
                        proof {
                            assert(v@ =~= self.params@.take(i + 1));
                        }
                        i = i + 1;
                    }
                    self.state = AnsiState::Normal;
                    AnsiEvent::Sgr(v)
                } else {
                    self.state = AnsiState::Normal;
                    AnsiEvent::Nothing
                }
            },
        }
    }
}

} // verus!
