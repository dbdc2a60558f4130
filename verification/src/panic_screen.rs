//! The text layout of the kernel's panic screen, and what it reports.

use vstd::prelude::*;

verus! {

/// A fatal CPU exception as its handler saw it.
#[derive(Debug, Clone, Copy)]
pub struct ExceptionInfo {
    pub name: &'static str,
    pub rip: u64,
    pub cs: u64,
    pub rflags: u64,
    pub rsp: u64,
    pub ss: u64,
    pub error_code: Option<u64>,
}

/// The machine state that the panic screen shows.
#[derive(Debug, Clone, Copy)]
pub struct PanicState {
    pub rip: u64,
    pub rflags: u64,
    pub rsp: u64,
    /// The exception's name, when an exception led to the panic.
    pub exception: Option<&'static str>,
    /// The exception's error code, if it has one.
    pub error_code: Option<u64>,
}

/// The state to report: where an exception was recorded, its instruction
/// pointer, flags and stack pointer replace those read in the panic handler.
pub fn panic_state(exc: Option<ExceptionInfo>, rip: u64, rflags: u64, rsp: u64) -> (s: PanicState)
    ensures
        exc is None ==> s.rip == rip && s.rflags == rflags && s.rsp == rsp && s.exception is None
            && s.error_code is None,
        exc matches Some(e) ==> s.rip == e.rip && s.rflags == e.rflags && s.rsp == e.rsp
            && s.exception == Some(e.name) && s.error_code == e.error_code,
{
    match exc {
        Some(e) => PanicState {
            rip: e.rip,
            rflags: e.rflags,
            rsp: e.rsp,
            exception: Some(e.name),
            error_code: e.error_code,
        },
        None => PanicState { rip, rflags, rsp, exception: None, error_code: None },
    }
}

/// The margin around the panic text, in pixels.
pub const PANIC_MARGIN: u64 = 20;
/// The width of a glyph.
pub const GLYPH_WIDTH: u64 = 8;
/// The height of a glyph.
pub const GLYPH_HEIGHT: u64 = 16;

/// Where the next glyph of the panic text goes.
#[derive(Debug, Clone, Copy, PartialEq, Eq, Structural)]
pub struct PanicCursor {
    pub x: u64,
    pub y: u64,
}

impl PanicCursor {
    /// The top-left corner inside the margin.
    pub fn new() -> (c: Self)
        ensures
            c == (PanicCursor { x: 20, y: 20 }),
    {
        PanicCursor { x: PANIC_MARGIN, y: PANIC_MARGIN }
    }

    /// Moves past character `c` on a screen `width` pixels wide: a line feed
    /// starts the next line; any other character moves one glyph right,
    /// and to the next line when another glyph would reach the right margin.
    pub fn advance(&mut self, c: char, width: u64)
        requires
            width >= 20,
            old(self).y + 16 <= u64::MAX,
            old(self).x + 16 <= u64::MAX,
        ensures
            c == '\n' ==> *final(self) == (PanicCursor { x: 20, y: (old(self).y + 16) as u64 }),
            c != '\n' && old(self).x + 16 > width - 20 ==> *final(self) == (PanicCursor {
                x: 20,
                y: (old(self).y + 16) as u64,
            }),
            c != '\n' && old(self).x + 16 <= width - 20 ==> *final(self) == (PanicCursor {
                x: (old(self).x + 8) as u64,
                y: old(self).y,
            }),
    {
        if c == '\n' {
            self.x = PANIC_MARGIN;
            self.y = self.y + GLYPH_HEIGHT;
            return ;
        }
        self.x = self.x + GLYPH_WIDTH;
        if self.x + GLYPH_WIDTH > width - PANIC_MARGIN {
            self.x = PANIC_MARGIN;
            self.y = self.y + GLYPH_HEIGHT;
        }
    }
}

/// Whether column `col` of a glyph row whose pixels are the bits of `row`,
/// leftmost in the top bit, is drawn in the foreground colour.
pub fn glyph_pixel(row: u8, col: u32) -> (on: bool)
    requires
        col < 8,
    ensures
        on == ((row as int / pow2_of(7 - col as int)) % 2 == 1),
{
    let on = (row & (0x80u8 >> col)) != 0;
    proof {
        lemma_glyph_bit(row, col);
    }
    on
}

/// Two to the power `k`, for `k` below eight.
pub open spec fn pow2_of(k: int) -> int {
    if k == 0 {
        1
    } else if k == 1 {
        2
    } else if k == 2 {
        4
    } else if k == 3 {
        8
    } else if k == 4 {
        16
    } else if k == 5 {
        32
    } else if k == 6 {
        64
    } else {
        128
    }
}

proof fn lemma_glyph_bits(row: u8)
    by (bit_vector)
    ensures
        ((row & (0x80u8 >> 0u32)) != 0) == ((row / 128) % 2 == 1),
        ((row & (0x80u8 >> 1u32)) != 0) == ((row / 64) % 2 == 1),
        ((row & (0x80u8 >> 2u32)) != 0) == ((row / 32) % 2 == 1),
        ((row & (0x80u8 >> 3u32)) != 0) == ((row / 16) % 2 == 1),
        ((row & (0x80u8 >> 4u32)) != 0) == ((row / 8) % 2 == 1),
        ((row & (0x80u8 >> 5u32)) != 0) == ((row / 4) % 2 == 1),
        ((row & (0x80u8 >> 6u32)) != 0) == ((row / 2) % 2 == 1),
        ((row & (0x80u8 >> 7u32)) != 0) == (row % 2 == 1),
{
}

proof fn lemma_glyph_bit(row: u8, col: u32)
    requires
        col < 8,
    ensures
        ((row & (0x80u8 >> col)) != 0) == ((row as int / pow2_of(7 - col as int)) % 2 == 1),
{
    lemma_glyph_bits(row);
}

} // verus!
