//! The kernel shell's command language: splitting a typed line into words,
//! recognising commands, and editing the line as keys arrive.

use vstd::prelude::*;
use crate::text::string_from_chars;

verus! {

/// White space as Unicode defines it (the property `char::is_whitespace` tests).
pub open spec fn is_space(c: char) -> bool {
    ||| '\t' <= c <= '\r'
    ||| c == ' '
    ||| c == '\u{85}'
    ||| c == '\u{A0}'
    ||| c == '\u{1680}'
    ||| '\u{2000}' <= c <= '\u{200A}'
    ||| c == '\u{2028}'
    ||| c == '\u{2029}'
    ||| c == '\u{202F}'
    ||| c == '\u{205F}'
    ||| c == '\u{3000}'
}

/// Length of the run of non-space characters at the start of `s`.
pub open spec fn word_len(s: Seq<char>) -> nat
    decreases s.len(),
{
    if s.len() == 0 || is_space(s[0]) {
        0
    } else {
        1 + word_len(s.drop_first())
    }
}

/// The words of `s`: its maximal runs of non-space characters, in order.
pub open spec fn words(s: Seq<char>) -> Seq<Seq<char>>
    decreases s.len(),
{
    if s.len() == 0 {
        Seq::empty()
    } else if is_space(s[0]) {
        words(s.drop_first())
    } else {
        let n = word_len(s);
        proof {
            lemma_word_len_bound(s);
        }
        seq![s.take(n as int)] + words(s.skip(n as int))
    }
}

pub proof fn lemma_word_len_bound(s: Seq<char>)
    ensures
        word_len(s) <= s.len(),
        word_len(s) > 0 <==> s.len() > 0 && !is_space(s[0]),
    decreases s.len(),
{
    if s.len() > 0 && !is_space(s[0]) {
        lemma_word_len_bound(s.drop_first());
    }
}

/// A word followed by a space (or by nothing) is read as that word.
proof fn lemma_word_then_rest(w: Seq<char>, rest: Seq<char>)
    requires
        forall|i: int| 0 <= i < w.len() ==> !is_space(#[trigger] w[i]),
        rest.len() == 0 || is_space(rest[0]),
    ensures
        word_len(w + rest) == w.len(),
    decreases w.len(),
{
    if w.len() == 0 {
    } else {
        assert((w + rest).drop_first() =~= w.drop_first() + rest);
        lemma_word_then_rest(w.drop_first(), rest);
    }
}

/// Splitting the rest of a line that begins inside a word `w`.
proof fn lemma_words_after_word(w: Seq<char>, rest: Seq<char>)
    requires
        w.len() > 0,
        forall|i: int| 0 <= i < w.len() ==> !is_space(#[trigger] w[i]),
        rest.len() == 0 || is_space(rest[0]),
    ensures
        words(w + rest) == seq![w] + words(rest),
{
    lemma_word_then_rest(w, rest);
    let s = w + rest;
    assert(s.take(w.len() as int) =~= w);
    assert(s.skip(w.len() as int) =~= rest);
}

/// The words of a line, each as the characters it holds.
pub fn split_words(line: &str) -> (ws: Vec<Vec<char>>)
    ensures
        ws@.len() == words(line@).len(),
        forall|i: int| 0 <= i < ws@.len() ==> (#[trigger] ws@[i])@ == words(line@)[i],
{
    let ghost s = line@;
    let mut out: Vec<Vec<char>> = Vec::new();
    let mut cur: Vec<char> = Vec::new();
    let ghost mut done: Seq<Seq<char>> = Seq::empty();
    let ghost mut i: int = 0;
    proof {
        assert(s.skip(0) =~= s);
        assert(cur@ + s.skip(0) =~= s);
        assert(done + words(s) =~= words(s));
    }
    for c in it: line.chars()
        invariant
            it.seq() == s,
            i == it.index(),
            0 <= i <= s.len(),
            out@.len() == done.len(),
            forall|k: int| 0 <= k < out@.len() ==> (#[trigger] out@[k])@ == done[k],
            forall|k: int| 0 <= k < cur@.len() ==> !is_space(#[trigger] cur@[k]),
            words(s) == done + words(cur@ + s.skip(i)),
    {
        proof {
            assert(s.skip(i) =~= seq![c] + s.skip(i + 1));
        }
        if ('\t' <= c && c <= '\r') || c == ' '
            || c == '\u{85}' || c == '\u{A0}' || c == '\u{1680}' || ('\u{2000}' <= c && c
            <= '\u{200A}') || c == '\u{2028}' || c == '\u{2029}' || c == '\u{202F}' || c
            == '\u{205F}' || c == '\u{3000}' {
            proof {
                let rest = s.skip(i);
                assert(rest.drop_first() =~= s.skip(i + 1));
                assert(words(rest) == words(s.skip(i + 1)));
                if cur@.len() > 0 {
                    lemma_words_after_word(cur@, rest);
                } else {
                    assert(cur@ + rest =~= rest);
                }
            }
            if cur.len() > 0 {
                proof {
                    done = done.push(cur@);
                    assert(seq![cur@] + words(s.skip(i + 1)) =~= seq![cur@] + words(s.skip(i + 1)));
                }
                let word = cur;
                out.push(word);
                cur = Vec::new();
                proof {
                    assert(cur@ + s.skip(i + 1) =~= s.skip(i + 1));
                }
            } else {
                proof {
                    assert(cur@ + s.skip(i + 1) =~= s.skip(i + 1));
                }
            }
        } else {
            proof {
                assert(cur@ + s.skip(i) =~= cur@.push(c) + s.skip(i + 1));
            }
            cur.push(c);
        }
        proof {
            i = i + 1;
        }
    }
    proof {
        assert(s.skip(i) =~= Seq::<char>::empty());
        if cur@.len() > 0 {
            lemma_words_after_word(cur@, Seq::empty());
            assert(cur@ + Seq::<char>::empty() =~= cur@);
        } else {
            assert(cur@ + s.skip(i) =~= Seq::<char>::empty());
        }
    }
    if cur.len() > 0 {
        proof {
            done = done.push(cur@);
        }
        out.push(cur);
    }
    proof {
        assert(words(s) =~= done);
    }
    out
}

/// A command of the shell.
#[derive(Debug, PartialEq, Eq)]
pub enum Command {
    /// Nothing but white space was typed.
    Empty,
    Help,
    Clear,
    Exit,
    Panic,
    Fault,
    Div0,
    Reboot,
    Shutdown,
    MemoryStats,
    /// List a directory; `/` when no path is given.
    Ls { path: String },
    /// Show a file; without a path the usage is shown.
    Cat { file: Option<String> },
    Uptime,
    /// A first word that names no command.
    Unknown { name: String },
}

/// The command that a line's words ask for; further words are ignored.
pub open spec fn command_for(ws: Seq<Seq<char>>, cmd: Command) -> bool {
    if ws.len() == 0 {
        cmd == Command::Empty
    } else {
        let w = ws[0];
        if w == seq!['h', 'e', 'l', 'p'] {
            cmd == Command::Help
        } else if w == seq!['c', 'l', 'e', 'a', 'r'] {
            cmd == Command::Clear
        } else if w == seq!['e', 'x', 'i', 't'] {
            cmd == Command::Exit
        } else if w == seq!['p', 'a', 'n', 'i', 'c'] {
            cmd == Command::Panic
        } else if w == seq!['f', 'a', 'u', 'l', 't'] {
            cmd == Command::Fault
        } else if w == seq!['d', 'i', 'v', '0'] {
            cmd == Command::Div0
        } else if w == seq!['r', 'e', 'b', 'o', 'o', 't'] {
            cmd == Command::Reboot
        } else if w == seq!['s', 'h', 'u', 't', 'd', 'o', 'w', 'n'] {
            cmd == Command::Shutdown
        } else if w == seq!['m', 'e', 'm', 'o', 'r', 'y', '_', 's', 't', 'a', 't', 's'] {
            cmd == Command::MemoryStats
        } else if w == seq!['l', 's'] {
            cmd matches Command::Ls { path } && path@ == (if ws.len() > 1 {
                ws[1]
            } else {
                seq!['/']
            })
        } else if w == seq!['c', 'a', 't'] {
            cmd matches Command::Cat { file } && (if ws.len() > 1 {
                file matches Some(p) && p@ == ws[1]
            } else {
                file is None
            })
        } else if w == seq!['u', 'p', 't', 'i', 'm', 'e'] {
            cmd == Command::Uptime
        } else {
            cmd matches Command::Unknown { name } && name@ == w
        }
    }
}

/// Each command word selects its own command, whatever words follow it: a
/// line is read by its first word, `help` as help, `shutdown` as shutdown,
/// `reboot` as reboot and so on; `ls` and `cat` take the next word as their
/// path; a first word that is no command word is reported as unknown by
/// name; a line with no words is empty.
pub proof fn lemma_command_words(ws: Seq<Seq<char>>, cmd: Command)
    requires
        command_for(ws, cmd),
    ensures
        ws.len() == 0 <==> cmd == Command::Empty,
        ws.len() > 0 ==> {
            let w = ws[0];
            &&& (w == seq!['h', 'e', 'l', 'p']) <==> cmd == Command::Help
            &&& (w == seq!['c', 'l', 'e', 'a', 'r']) <==> cmd == Command::Clear
            &&& (w == seq!['e', 'x', 'i', 't']) <==> cmd == Command::Exit
            &&& (w == seq!['p', 'a', 'n', 'i', 'c']) <==> cmd == Command::Panic
            &&& (w == seq!['f', 'a', 'u', 'l', 't']) <==> cmd == Command::Fault
            &&& (w == seq!['d', 'i', 'v', '0']) <==> cmd == Command::Div0
            &&& (w == seq!['r', 'e', 'b', 'o', 'o', 't']) <==> cmd == Command::Reboot
            &&& (w == seq!['s', 'h', 'u', 't', 'd', 'o', 'w', 'n']) <==> cmd == Command::Shutdown
            &&& (w == seq!['m', 'e', 'm', 'o', 'r', 'y', '_', 's', 't', 'a', 't', 's']) <==> cmd
                == Command::MemoryStats
            &&& (w == seq!['u', 'p', 't', 'i', 'm', 'e']) <==> cmd == Command::Uptime
            &&& (w == seq!['l', 's']) <==> cmd is Ls
            &&& (w == seq!['c', 'a', 't']) <==> cmd is Cat
            &&& cmd matches Command::Ls { path } ==> path@ == (if ws.len() > 1 { ws[1] } else { seq!['/'] })
            &&& cmd matches Command::Cat { file } ==> (if ws.len() > 1 {
                file matches Some(f) && f@ == ws[1]
            } else {
                file is None
            })
            &&& cmd matches Command::Unknown { name } ==> name@ == w
        },
{
}

/// Whether a word spells `k`.
fn word_is(w: &Vec<char>, k: &[char]) -> (b: bool)
    ensures
        b == (w@ == k@),
{
    if w.len() != k.len() {
        return false;
    }
    let mut i: usize = 0;
    while i < w.len()
        invariant
            w@.len() == k@.len(),
            i <= w@.len(),
            forall|j: int| 0 <= j < i ==> w@[j] == k@[j],
        decreases w@.len() - i,
    {
        if w[i] != k[i] {
            return false;
        }
        i = i + 1;
    }
    proof {
        assert(w@ =~= k@);
    }
    true
}

/// Reads a typed line as a command.
pub fn parse_command(line: &str) -> (cmd: Command)
    ensures
        command_for(words(line@), cmd),
{
    let ws = split_words(line);
    if ws.len() == 0 {
        return Command::Empty;
    }
    let w = &ws[0];
    proof {
        assert(ws@[0]@ == words(line@)[0]);
    }
    if word_is(w, &['h', 'e', 'l', 'p']) {
        return Command::Help;
    }
    if word_is(w, &['c', 'l', 'e', 'a', 'r']) {
        return Command::Clear;
    }
    if word_is(w, &['e', 'x', 'i', 't']) {
        return Command::Exit;
    }
    if word_is(w, &['p', 'a', 'n', 'i', 'c']) {
        return Command::Panic;
    }
    if word_is(w, &['f', 'a', 'u', 'l', 't']) {
        return Command::Fault;
    }
    if word_is(w, &['d', 'i', 'v', '0']) {
        return Command::Div0;
    }
    if word_is(w, &['r', 'e', 'b', 'o', 'o', 't']) {
        return Command::Reboot;
    }
    if word_is(w, &['s', 'h', 'u', 't', 'd', 'o', 'w', 'n']) {
        return Command::Shutdown;
    }
    if word_is(w, &['m', 'e', 'm', 'o', 'r', 'y', '_', 's', 't', 'a', 't', 's']) {
        return Command::MemoryStats;
    }
    if word_is(w, &['l', 's']) {
        let path = if ws.len() > 1 {
            string_from_chars(&ws[1])
        } else {
            let mut slash: Vec<char> = Vec::new();
            slash.push('/');
            proof {
                assert(slash@ =~= seq!['/']);
            }
            string_from_chars(&slash)
        };
        return Command::Ls { path };
    }
    if word_is(w, &['c', 'a', 't']) {
        if ws.len() > 1 {
            return Command::Cat { file: Some(string_from_chars(&ws[1])) };
        } else {
            return Command::Cat { file: None };
        }
    }
    if word_is(w, &['u', 'p', 't', 'i', 'm', 'e']) {
        return Command::Uptime;
    }
    Command::Unknown { name: string_from_chars(w) }
}

/// What the shell does with a key.
#[derive(Debug, PartialEq, Eq)]
pub enum KeyAction {
    /// The last character was erased: the terminal should step back.
    Erase,
    /// Enter was pressed: the line, as typed, is to be run.
    Submit(String),
    /// The character was added to the line and should be shown.
    Echo(char),
    /// Nothing to do (erasing an empty line).
    Nothing,
}

/// The line being typed at the shell prompt.
pub struct LineEditor {
    line: Vec<char>,
}

impl View for LineEditor {
    type V = Seq<char>;

    closed spec fn view(&self) -> Seq<char> {
        self.line@
    }
}

impl LineEditor {
    pub fn new() -> (e: Self)
        ensures
            e@ == Seq::<char>::empty(),
    {
        LineEditor { line: Vec::new() }
    }

    /// Handles one byte from the keyboard: backspace and delete erase the
    /// last character, a line feed or carriage return submits the line and
    /// starts a new one, any other byte is added as the character it codes
    /// in Latin-1.
    pub fn feed(&mut self, byte: u8) -> (a: KeyAction)
        ensures
            (byte == 8 || byte == 127) && old(self)@.len() > 0 ==> a == KeyAction::Erase
                && final(self)@ == old(self)@.drop_last(),
            (byte == 8 || byte == 127) && old(self)@.len() == 0 ==> a == KeyAction::Nothing
                && final(self)@ == old(self)@,
            (byte == 10 || byte == 13) ==> (a matches KeyAction::Submit(s) && s@ == old(self)@)
                && final(self)@ == Seq::<char>::empty(),
            !(byte == 8 || byte == 127 || byte == 10 || byte == 13) ==> a == KeyAction::Echo(
                byte as char,
            ) && final(self)@ == old(self)@.push(byte as char),
    {
        if byte == 8 || byte == 127 {
            if self.line.len() > 0 {
                self.line.pop();
                KeyAction::Erase
            } else {
                KeyAction::Nothing
            }
        } else if byte == 10 || byte == 13 {
            let s = string_from_chars(&self.line);
            self.line = Vec::new();
            KeyAction::Submit(s)
        } else {
            let c = byte as char;
            self.line.push(c);
            KeyAction::Echo(c)
        }
    }
}

/// The kernel shell: reads commands typed at the keyboard.
pub struct Shell {}

impl Shell {
    pub fn new() -> (s: Self) {
        Shell {}
    }

    /// Decides what a submitted line asks for. Running the command (printing,
    /// touching the file system, rebooting) is left to the caller.
    pub fn handle_command(&self, command: &str) -> (cmd: Command)
        ensures
            command_for(words(command@), cmd),
    {
        parse_command(command)
    }
}

/// Time since boot as shown by `uptime`: whole hours, the minutes and seconds
/// within them, and the milliseconds of the current second.
pub open spec fn uptime_split(total_ms: int) -> (int, int, int, int) {
    (total_ms / 3_600_000, (total_ms / 60_000) % 60, (total_ms / 1000) % 60, total_ms % 1000)
}

/// Splits a time since boot, in milliseconds, for `uptime`.
pub fn uptime_parts(total_ms: u64) -> (parts: (u64, u64, u64, u64))
    ensures
        (parts.0 as int, parts.1 as int, parts.2 as int, parts.3 as int) == uptime_split(
            total_ms as int,
        ),
        parts.1 < 60,
        parts.2 < 60,
        parts.3 < 1000,
{
    (total_ms / 3_600_000, (total_ms / 60_000) % 60, (total_ms / 1000) % 60, total_ms % 1000)
}

} // verus!
